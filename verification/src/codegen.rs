//! Code generation: from the syntax tree to RISC-V instructions for a stack machine
//! whose accumulator is `a0`.
use vstd::prelude::*;
use crate::ast::{Node, NodeKind, NodeV, Function, FunctionV, Obj, ObjV, Program, objs_view, size, csize, child_view, find_first};

verus! {

/// A register.
#[derive(Debug, Clone, Copy, PartialEq, Eq, Structural)]
pub enum Reg {
    A0,
    A1,
    A2,
    A3,
    A4,
    A5,
}

/// An instruction, or a directive or label, of the generated code.
#[derive(Debug, PartialEq)]
pub enum Insn {
    /// `li a0, imm`
    Li { imm: i32 },
    /// `neg a0, a0`
    Neg,
    /// Pushes `a0`: `addi sp, sp, -8`, `sd a0, 0(sp)`.
    Push,
    /// Pops into a register: `ld reg, 0(sp)`, `addi sp, sp, 8`.
    Pop { reg: Reg },
    /// The address of the local variable `name`: `addi a0, fp, offset`
    AddrLocal { offset: i32, name: String },
    /// `ld a0, 0(a0)`
    Load,
    /// `sd a0, 0(a1)`
    Store,
    /// `add a0, a0, a1`
    Add,
    /// `sub a0, a0, a1`
    Sub,
    /// `mul a0, a0, a1`
    Mul,
    /// `div a0, a0, a1`
    Div,
    /// `xor a0, a0, a1`
    Xor,
    /// `seqz a0, a0`
    Seqz,
    /// `snez a0, a0`
    Snez,
    /// `slt a0, a0, a1`
    Slt,
    /// `slt a0, a1, a0`
    SltSwapped,
    /// `xori a0, a0, 1`
    XoriOne,
    /// `call name`
    Call { name: String },
    /// `beqz a0, .L.else.c`
    BeqzElse { c: i32 },
    /// `beqz a0, .L.end.c`
    BeqzEnd { c: i32 },
    /// `j .L.end.c`
    JEnd { c: i32 },
    /// `j .L.begin.c`
    JBegin { c: i32 },
    /// `j .L.return.name`
    JReturn { name: String },
    /// `.L.else.c:`
    LabelElse { c: i32 },
    /// `.L.end.c:`, the end label of an `if`
    LabelEnd { c: i32 },
    /// `.L.begin.c:`
    LabelBegin { c: i32 },
    /// `.L.end.c:`, the end label of a loop
    LabelLoopEnd { c: i32 },
    /// Marks the start of the `if` with labels `c`; no machine instruction.
    IfStart { c: i32 },
    /// Marks the start of the loop with labels `c`, and whether it has an
    /// initialisation; no machine instruction.
    ForStart { c: i32, init: bool },
    /// Marks the start of the body of the loop with labels `c`; no machine instruction.
    ForBody { c: i32 },
    /// Marks the start of the increment of the loop with labels `c`; no machine
    /// instruction.
    ForInc { c: i32 },
    /// Marks the start of a `return`; no machine instruction.
    ReturnStart,
    /// `.L.return.name:`
    LabelReturn { name: String },
    /// `.globl name`
    Globl { name: String },
    /// `name:`
    FuncLabel { name: String },
    /// Saves `ra` and `fp` and sets up the frame: `addi sp, sp, -16`, `sd ra, 8(sp)`,
    /// `sd fp, 0(sp)`, `mv fp, sp`, `addi sp, sp, -stack_size`.
    Prologue { stack_size: i32 },
    /// Restores `sp`, `fp` and `ra` and returns: `mv sp, fp`, `ld fp, 0(sp)`,
    /// `ld ra, 8(sp)`, `addi sp, sp, 16`, `ret`.
    Epilogue,
}

/// The mathematical value of an instruction.
pub enum InsnV {
    Li { imm: i32 },
    Neg,
    Push,
    Pop { reg: Reg },
    AddrLocal { offset: i32, name: Seq<char> },
    Load,
    Store,
    Add,
    Sub,
    Mul,
    Div,
    Xor,
    Seqz,
    Snez,
    Slt,
    SltSwapped,
    XoriOne,
    Call { name: Seq<char> },
    BeqzElse { c: i32 },
    BeqzEnd { c: i32 },
    JEnd { c: i32 },
    JBegin { c: i32 },
    JReturn { name: Seq<char> },
    LabelElse { c: i32 },
    LabelEnd { c: i32 },
    LabelBegin { c: i32 },
    LabelLoopEnd { c: i32 },
    IfStart { c: i32 },
    ForStart { c: i32, init: bool },
    ForBody { c: i32 },
    ForInc { c: i32 },
    ReturnStart,
    LabelReturn { name: Seq<char> },
    Globl { name: Seq<char> },
    FuncLabel { name: Seq<char> },
    Prologue { stack_size: i32 },
    Epilogue,
}

impl View for Insn {
    type V = InsnV;

    open spec fn view(&self) -> InsnV {
        match self {
            Insn::Li { imm } => InsnV::Li { imm: *imm },
            Insn::Neg => InsnV::Neg,
            Insn::Push => InsnV::Push,
            Insn::Pop { reg } => InsnV::Pop { reg: *reg },
            Insn::AddrLocal { offset, name } => InsnV::AddrLocal { offset: *offset, name: name@ },
            Insn::Load => InsnV::Load,
            Insn::Store => InsnV::Store,
            Insn::Add => InsnV::Add,
            Insn::Sub => InsnV::Sub,
            Insn::Mul => InsnV::Mul,
            Insn::Div => InsnV::Div,
            Insn::Xor => InsnV::Xor,
            Insn::Seqz => InsnV::Seqz,
            Insn::Snez => InsnV::Snez,
            Insn::Slt => InsnV::Slt,
            Insn::SltSwapped => InsnV::SltSwapped,
            Insn::XoriOne => InsnV::XoriOne,
            Insn::Call { name } => InsnV::Call { name: name@ },
            Insn::BeqzElse { c } => InsnV::BeqzElse { c: *c },
            Insn::BeqzEnd { c } => InsnV::BeqzEnd { c: *c },
            Insn::JEnd { c } => InsnV::JEnd { c: *c },
            Insn::JBegin { c } => InsnV::JBegin { c: *c },
            Insn::JReturn { name } => InsnV::JReturn { name: name@ },
            Insn::LabelElse { c } => InsnV::LabelElse { c: *c },
            Insn::LabelEnd { c } => InsnV::LabelEnd { c: *c },
            Insn::LabelBegin { c } => InsnV::LabelBegin { c: *c },
            Insn::LabelLoopEnd { c } => InsnV::LabelLoopEnd { c: *c },
            Insn::IfStart { c } => InsnV::IfStart { c: *c },
            Insn::ForStart { c, init } => InsnV::ForStart { c: *c, init: *init },
            Insn::ForBody { c } => InsnV::ForBody { c: *c },
            Insn::ForInc { c } => InsnV::ForInc { c: *c },
            Insn::ReturnStart => InsnV::ReturnStart,
            Insn::LabelReturn { name } => InsnV::LabelReturn { name: name@ },
            Insn::Globl { name } => InsnV::Globl { name: name@ },
            Insn::FuncLabel { name } => InsnV::FuncLabel { name: name@ },
            Insn::Prologue { stack_size } => InsnV::Prologue { stack_size: *stack_size },
            Insn::Epilogue => InsnV::Epilogue,
        }
    }
}

/// The views of a sequence of instructions.
pub open spec fn insns_view(s: Seq<Insn>) -> Seq<InsnV> {
    s.map_values(|i: Insn| i@)
}

/// Why code could not be generated.
#[derive(Debug, Clone, PartialEq, Eq)]
pub enum CodegenError {
    /// The node at the given offset, with the given name, has no address.
    NotAnLvalue { loc: usize, name: String },
    /// The node at the given offset is not an expression.
    InvalidExpression { loc: usize },
    /// The node at the given offset is not a statement.
    InvalidStatement { loc: usize },
}

/// The mathematical value of a code generation error.
pub enum CodegenErrorV {
    NotAnLvalue { loc: usize, name: Seq<char> },
    InvalidExpression { loc: usize },
    InvalidStatement { loc: usize },
}

impl View for CodegenError {
    type V = CodegenErrorV;

    open spec fn view(&self) -> CodegenErrorV {
        match self {
            CodegenError::NotAnLvalue { loc, name } => CodegenErrorV::NotAnLvalue { loc: *loc, name: name@ },
            CodegenError::InvalidExpression { loc } => CodegenErrorV::InvalidExpression { loc: *loc },
            CodegenError::InvalidStatement { loc } => CodegenErrorV::InvalidStatement { loc: *loc },
        }
    }
}

/// A result with its error taken by its view.
pub open spec fn err_view<T>(r: Result<T, CodegenError>) -> Result<T, CodegenErrorV> {
    match r {
        Ok(v) => Ok(v),
        Err(e) => Err(e@),
    }
}

/// What generating code for a node gives: the instructions emitted, and the error that
/// stopped generation, if one did.
pub type Gen = (Seq<InsnV>, Option<CodegenErrorV>);

/// Emitting `s`.
pub open spec fn emit(s: Seq<InsnV>) -> Option<Gen> {
    Some((s, None))
}

/// Generating `a` and then, unless `a` stopped with an error, `b`. `None` stands for
/// generation that cannot run (it would fail on a missing part of a node).
pub open spec fn cat(a: Option<Gen>, b: Option<Gen>) -> Option<Gen> {
    match a {
        None => None,
        Some((ia, Some(e))) => Some((ia, Some(e))),
        Some((ia, None)) => match b {
            None => None,
            Some((ib, eb)) => Some((ia + ib, eb)),
        },
    }
}

/// The code that computes the address of `n` into `a0`.
pub open spec fn g_addr(n: NodeV, regs: Seq<Reg>) -> Option<Gen>
    decreases size(n), 0nat,
{
    match n.kind {
        NodeKind::NdVar => match n.var {
            Some(v) => emit(seq![InsnV::AddrLocal { offset: v.offset, name: v.name }]),
            None => None,
        },
        NodeKind::NdDeref => match n.lhs {
            Some(l) => g_expr(*l, regs),
            None => None,
        },
        _ => match n.name {
            Some(nm) => Some((Seq::empty(), Some(CodegenErrorV::NotAnLvalue { loc: n.tokloc, name: nm }))),
            None => None,
        },
    }
}

/// The instruction that combines `a0` (left) and `a1` (right) for a binary operator.
pub open spec fn binop_code(kind: NodeKind) -> Option<Seq<InsnV>> {
    match kind {
        NodeKind::NdAdd => Some(seq![InsnV::Add]),
        NodeKind::NdSub => Some(seq![InsnV::Sub]),
        NodeKind::NdMul => Some(seq![InsnV::Mul]),
        NodeKind::NdDiv => Some(seq![InsnV::Div]),
        NodeKind::NdEq => Some(seq![InsnV::Xor, InsnV::Seqz]),
        NodeKind::NdNeq => Some(seq![InsnV::Xor, InsnV::Snez]),
        NodeKind::NdLt => Some(seq![InsnV::Slt]),
        NodeKind::NdLe => Some(seq![InsnV::SltSwapped, InsnV::XoriOne]),
        _ => None,
    }
}

/// Pops into the first `n` argument registers, the last one first.
pub open spec fn pops(n: nat, regs: Seq<Reg>) -> Seq<InsnV>
    decreases n,
{
    if n == 0 {
        Seq::empty()
    } else {
        seq![InsnV::Pop { reg: regs[n - 1] }] + pops((n - 1) as nat, regs)
    }
}

/// The code that evaluates each argument of a list and pushes it, with the number of
/// arguments pushed.
pub open spec fn g_args(o: Option<Box<NodeV>>, regs: Seq<Reg>) -> Option<(Seq<InsnV>, Option<CodegenErrorV>, nat)>
    decreases csize(o), 2nat,
{
    match o {
        None => Some((Seq::empty(), None, 0)),
        Some(a) => match cat(g_expr(*a, regs), emit(seq![InsnV::Push])) {
            None => None,
            Some((ia, Some(e))) => Some((ia, Some(e), 0)),
            Some((ia, None)) => match g_args(a.next, regs) {
                None => None,
                Some((ib, eb, k)) => if k + 1 <= usize::MAX {
                    Some((ia + ib, eb, k + 1))
                } else {
                    None
                },
            },
        },
    }
}

/// The code that evaluates the expression `n` into `a0`.
pub open spec fn g_expr(n: NodeV, regs: Seq<Reg>) -> Option<Gen>
    decreases size(n), 1nat,
{
    match n.kind {
        NodeKind::NdNum => match n.val {
            Some(v) => emit(seq![InsnV::Li { imm: v }]),
            None => None,
        },
        NodeKind::NdNeg => match n.lhs {
            Some(l) => cat(g_expr(*l, regs), emit(seq![InsnV::Neg])),
            None => None,
        },
        NodeKind::NdVar => cat(g_addr(n, regs), emit(seq![InsnV::Load])),
        NodeKind::NdDeref => match n.lhs {
            Some(l) => cat(g_expr(*l, regs), emit(seq![InsnV::Load])),
            None => None,
        },
        NodeKind::NdAddr => match n.lhs {
            Some(l) => g_addr(*l, regs),
            None => None,
        },
        NodeKind::NdAssign => match (n.lhs, n.rhs) {
            (Some(l), Some(r)) => cat(
                cat(g_addr(*l, regs), emit(seq![InsnV::Push])),
                cat(g_expr(*r, regs), emit(seq![InsnV::Pop { reg: Reg::A1 }, InsnV::Store])),
            ),
            (None, _) => None,
            (Some(l), None) => cat(
                cat(g_addr(*l, regs), emit(seq![InsnV::Push])),
                None,
            ),
        },
        NodeKind::NdFuncall => match g_args(n.args, regs) {
            None => None,
            Some((ia, Some(e), _)) => Some((ia, Some(e))),
            Some((ia, None, k)) => if k <= regs.len() {
                Some((ia + pops(k, regs) + seq![InsnV::Call { name: n.funcname }], None))
            } else {
                None
            },
        },
        _ => match n.rhs {
            None => None,
            Some(r) => cat(
                cat(g_expr(*r, regs), emit(seq![InsnV::Push])),
                match n.lhs {
                    None => None,
                    Some(l) => cat(
                        cat(g_expr(*l, regs), emit(seq![InsnV::Pop { reg: Reg::A1 }])),
                        match binop_code(n.kind) {
                            Some(code) => emit(code),
                            None => Some(
                                (
                                    Seq::empty(),
                                    Some(CodegenErrorV::InvalidExpression { loc: n.tokloc }),
                                ),
                            ),
                        },
                    ),
                },
            ),
        },
    }
}

/// The number of branch labels that generating the statement `n` allocates: one for
/// each `if` and each loop it contains as a statement.
pub open spec fn labels(n: NodeV) -> nat
    decreases size(n), 0nat,
{
    match n.kind {
        NodeKind::NdIf => 1 + labels_opt(n.then_stmt) + labels_opt(n.els),
        NodeKind::NdFor => 1 + labels_opt(n.init) + labels_opt(n.then_stmt),
        NodeKind::NdBlock => labels_list(n.body),
        _ => 0,
    }
}

/// `labels` of an optional statement.
pub open spec fn labels_opt(o: Option<Box<NodeV>>) -> nat
    decreases csize(o), 1nat,
{
    match o {
        Some(b) => labels(*b),
        None => 0,
    }
}

/// `labels` of each statement of a list linked by `next`.
pub open spec fn labels_list(o: Option<Box<NodeV>>) -> nat
    decreases csize(o), 1nat,
{
    match o {
        Some(b) => labels(*b) + labels_list(b.next),
        None => 0,
    }
}

/// The code of the statement `n`, whose first branch label is numbered `c`, inside the
/// function named `f`.
pub open spec fn g_stmt(n: NodeV, c: int, regs: Seq<Reg>, f: Option<Seq<char>>) -> Option<Gen>
    decreases size(n), 2nat,
{
    match n.kind {
        NodeKind::NdExprStmt => match n.lhs {
            Some(l) => g_expr(*l, regs),
            None => None,
        },
        NodeKind::NdBlock => g_list(n.body, c, regs, f),
        NodeKind::NdIf => if c >= i32::MAX {
            None
        } else {
            match n.cond {
                None => None,
                Some(cd) => cat(
                    emit(seq![InsnV::IfStart { c: c as i32 }]),
                    cat(
                        cat(g_expr(*cd, regs), emit(seq![InsnV::BeqzElse { c: c as i32 }])),
                        match n.then_stmt {
                            None => None,
                            Some(th) => cat(
                                cat(
                                    g_stmt(*th, c + 1, regs, f),
                                    emit(
                                        seq![InsnV::JEnd { c: c as i32 }, InsnV::LabelElse { c: c as i32 }],
                                    ),
                                ),
                                cat(
                                    match n.els {
                                        None => emit(Seq::empty()),
                                        Some(e) => g_stmt(*e, c + 1 + labels(*th), regs, f),
                                    },
                                    emit(seq![InsnV::LabelEnd { c: c as i32 }]),
                                ),
                            ),
                        },
                    ),
                ),
            }
        },
        NodeKind::NdFor => if c >= i32::MAX {
            None
        } else {
            cat(
                emit(seq![InsnV::ForStart { c: c as i32, init: n.init is Some }]),
                cat(
                    match n.init {
                        None => emit(Seq::empty()),
                        Some(i) => g_stmt(*i, c + 1, regs, f),
                    },
                    g_loop(n, c, regs, f),
                ),
            )
        },
        NodeKind::NdReturn => match n.lhs {
            None => None,
            Some(l) => cat(
                emit(seq![InsnV::ReturnStart]),
                cat(
                    g_expr(*l, regs),
                    match f {
                        Some(name) => emit(seq![InsnV::JReturn { name: name }]),
                        None => None,
                    },
                ),
            ),
        },
        _ => Some((Seq::empty(), Some(CodegenErrorV::InvalidStatement { loc: n.tokloc }))),
    }
}

/// The code of a loop after its initialisation: the begin label, the test of the
/// condition, the body, the increment and the jump back, with marks where the body and
/// the increment start.
pub open spec fn g_loop(n: NodeV, c: int, regs: Seq<Reg>, f: Option<Seq<char>>) -> Option<Gen>
    decreases size(n), 1nat,
{
    let c1 = c + 1 + labels_opt(n.init);
    cat(
        emit(seq![InsnV::LabelBegin { c: c as i32 }]),
        cat(
            match n.cond {
                None => emit(Seq::empty()),
                Some(cd) => cat(g_expr(*cd, regs), emit(seq![InsnV::BeqzEnd { c: c as i32 }])),
            },
            match n.then_stmt {
                None => None,
                Some(th) => cat(
                    emit(seq![InsnV::ForBody { c: c as i32 }]),
                    cat(
                        g_stmt(*th, c1, regs, f),
                        loop_tail(n, c, regs),
                    ),
                ),
            },
        ),
    )
}

/// The code of the end of a loop: its increment, if it has one, the jump back to its
/// begin label, and its end label.
pub open spec fn loop_tail(n: NodeV, c: int, regs: Seq<Reg>) -> Option<Gen>
    decreases size(n), 0nat,
{
    cat(
        match n.inc {
            None => emit(Seq::empty()),
            Some(ic) => cat(emit(seq![InsnV::ForInc { c: c as i32 }]), g_expr(*ic, regs)),
        },
        emit(seq![InsnV::JBegin { c: c as i32 }, InsnV::LabelLoopEnd { c: c as i32 }]),
    )
}

/// The code of each statement of a list linked by `next`, in order.
pub open spec fn g_list(o: Option<Box<NodeV>>, c: int, regs: Seq<Reg>, f: Option<Seq<char>>) -> Option<Gen>
    decreases csize(o), 3nat,
{
    match o {
        None => emit(Seq::empty()),
        Some(b) => cat(g_stmt(*b, c, regs, f), g_list(b.next, c + labels(*b), regs, f)),
    }
}

/// A node after the variables it refers to have been looked up again in `ls`: each
/// variable reference takes the first local with its name, if there is one. The whole
/// tree is visited: operands, statement lists, the parts of `if` and loops, and call
/// arguments.
pub open spec fn synced(n: NodeV, ls: Seq<ObjV>) -> NodeV
    decreases n,
{
    NodeV {
        var: if n.kind == NodeKind::NdVar {
            match find_first(ls, n.name.unwrap()) {
                Some(k) => Some(ls[k]),
                None => n.var,
            }
        } else {
            n.var
        },
        lhs: synced_child(n.lhs, ls),
        rhs: synced_child(n.rhs, ls),
        next: synced_child(n.next, ls),
        body: synced_child(n.body, ls),
        init: synced_child(n.init, ls),
        inc: synced_child(n.inc, ls),
        cond: synced_child(n.cond, ls),
        then_stmt: synced_child(n.then_stmt, ls),
        els: synced_child(n.els, ls),
        args: synced_child(n.args, ls),
        ..n
    }
}

/// `synced` of an optional child.
pub open spec fn synced_child(o: Option<Box<NodeV>>, ls: Seq<ObjV>) -> Option<Box<NodeV>>
    decreases o,
{
    match o {
        Some(b) => Some(Box::new(synced(*b, ls))),
        None => None,
    }
}

/// Whether every variable reference that `synced` visits has a name.
pub open spec fn sync_ok(n: NodeV) -> bool
    decreases n,
{
    &&& n.kind == NodeKind::NdVar ==> n.name is Some
    &&& sync_ok_child(n.lhs)
    &&& sync_ok_child(n.rhs)
    &&& sync_ok_child(n.next)
    &&& sync_ok_child(n.body)
    &&& sync_ok_child(n.init)
    &&& sync_ok_child(n.inc)
    &&& sync_ok_child(n.cond)
    &&& sync_ok_child(n.then_stmt)
    &&& sync_ok_child(n.els)
    &&& sync_ok_child(n.args)
}

/// `sync_ok` of an optional child.
pub open spec fn sync_ok_child(o: Option<Box<NodeV>>) -> bool
    decreases o,
{
    match o {
        Some(b) => sync_ok(*b),
        None => true,
    }
}

/// Looking the variable references up again is idempotent: a second look-up in the
/// same locals changes nothing.
pub proof fn lemma_synced_idempotent(n: NodeV, ls: Seq<ObjV>)
    ensures
        synced(synced(n, ls), ls) == synced(n, ls),
    decreases n,
{
    lemma_synced_child_idempotent(n.lhs, ls);
    lemma_synced_child_idempotent(n.rhs, ls);
    lemma_synced_child_idempotent(n.next, ls);
    lemma_synced_child_idempotent(n.body, ls);
    lemma_synced_child_idempotent(n.init, ls);
    lemma_synced_child_idempotent(n.inc, ls);
    lemma_synced_child_idempotent(n.cond, ls);
    lemma_synced_child_idempotent(n.then_stmt, ls);
    lemma_synced_child_idempotent(n.els, ls);
    lemma_synced_child_idempotent(n.args, ls);
}

/// `lemma_synced_idempotent` of an optional child.
proof fn lemma_synced_child_idempotent(o: Option<Box<NodeV>>, ls: Seq<ObjV>)
    ensures
        synced_child(synced_child(o, ls), ls) == synced_child(o, ls),
    decreases o,
{
    match o {
        Some(b) => {
            lemma_synced_idempotent(*b, ls);
        },
        None => {},
    }
}

/// The locals with their frame offsets: the last one at -8, the one before it at -16,
/// and so on.
pub open spec fn with_offsets(ls: Seq<ObjV>) -> Seq<ObjV> {
    Seq::new(ls.len(), |i: int| ObjV { offset: (-8 * (ls.len() - i)) as i32, ..ls[i] })
}

/// `n` rounded up to a multiple of `align`.
pub open spec fn align_up(n: int, align: int) -> int {
    (n + align - 1) / align * align
}

/// Rounding up: for `n >= 0` and `align > 0`, `align_up(n, align)` is a multiple of
/// `align`, at least `n`, and less than `n + align`.
pub proof fn lemma_align_up(n: int, align: int)
    requires
        0 <= n,
        0 < align,
    ensures
        align_up(n, align) % align == 0,
        n <= align_up(n, align) < n + align,
{
    let q = (n + align - 1) / align;
    assert(q * align <= n + align - 1 < q * align + align) by (nonlinear_arith)
        requires
            q == (n + align - 1) / align,
            0 < align,
    ;
    vstd::arithmetic::div_mod::lemma_mod_multiples_basic(q, align);
}

/// The frame of a function: each local gets its own eight-byte slot, below the saved
/// frame pointer and inside the stack space the prologue reserves. The offsets are
/// multiples of eight from `-8` down to `-frame_size`, earlier locals lower, and the
/// frame size is a multiple of 16.
pub proof fn lemma_frame_slots(ls: Seq<ObjV>)
    requires
        8 * ls.len() + 15 <= i32::MAX,
    ensures
        align_up(8 * ls.len() as int, 16) % 16 == 0,
        forall|i: int| 0 <= i < ls.len() ==> {
            let o = #[trigger] with_offsets(ls)[i].offset;
            &&& -align_up(8 * ls.len() as int, 16) <= o <= -8
            &&& o % 8 == 0
            &&& with_offsets(ls)[i].name == ls[i].name
            &&& with_offsets(ls)[i].ty == ls[i].ty
        },
        forall|i: int, j: int| 0 <= i < j < ls.len() ==> #[trigger] with_offsets(ls)[i].offset + 8
            <= #[trigger] with_offsets(ls)[j].offset,
{
    let n = ls.len() as int;
    lemma_align_up(8 * n, 16);
    assert forall|i: int| 0 <= i < ls.len() implies {
        let o = #[trigger] with_offsets(ls)[i].offset;
        &&& -align_up(8 * ls.len() as int, 16) <= o <= -8
        &&& o % 8 == 0
        &&& with_offsets(ls)[i].name == ls[i].name
        &&& with_offsets(ls)[i].ty == ls[i].ty
    } by {
        let v = -8 * (n - i);
        assert(with_offsets(ls)[i].offset == v);
        assert(v % 8 == 0) by {
            vstd::arithmetic::div_mod::lemma_mod_multiples_basic(-(n - i), 8);
        }
    }
}

/// Whether the frame of `f` can be laid out: it has a body, its variable references
/// have names, and its frame size fits in an `i32`.
pub open spec fn layout_ok(f: FunctionV) -> bool {
    &&& f.body is Some
    &&& sync_ok(*f.body.unwrap())
    &&& 8 * f.locals.len() + 15 <= i32::MAX
}

/// The body of `f` after its locals have their offsets.
pub open spec fn laid_out_body(f: FunctionV) -> NodeV {
    synced(*f.body.unwrap(), with_offsets(f.locals))
}

/// The stack size of `f`: eight bytes per local, rounded up to a multiple of 16.
pub open spec fn frame_size(f: FunctionV) -> int {
    align_up(8 * f.locals.len() as int, 16)
}

/// The code of a function: its global label, prologue, body and epilogue.
pub open spec fn g_func(f: FunctionV, c: int, regs: Seq<Reg>) -> Option<Gen> {
    if !layout_ok(f) {
        None
    } else {
        cat(
            emit(
                seq![
                    InsnV::Globl { name: f.name },
                    InsnV::FuncLabel { name: f.name },
                    InsnV::Prologue { stack_size: frame_size(f) as i32 },
                ],
            ),
            cat(
                g_stmt(laid_out_body(f), c, regs, Some(f.name)),
                emit(seq![InsnV::LabelReturn { name: f.name }, InsnV::Epilogue]),
            ),
        )
    }
}

/// The code of the functions of `fs` from index `i` on, whose first branch label is `c`.
pub open spec fn g_funcs(fs: Seq<FunctionV>, i: int, c: int, regs: Seq<Reg>) -> Option<Gen>
    decreases fs.len() - i,
{
    if i < 0 || i >= fs.len() {
        emit(Seq::empty())
    } else {
        cat(g_func(fs[i], c, regs), g_funcs(fs, i + 1, c + labels(laid_out_body(fs[i])), regs))
    }
}

/// The argument registers, in order.
pub open spec fn arg_regs() -> Seq<Reg> {
    seq![Reg::A0, Reg::A1, Reg::A2, Reg::A3, Reg::A4, Reg::A5]
}

/// The views of a sequence of functions.
pub open spec fn funcs_view(fs: Seq<Function>) -> Seq<FunctionV> {
    fs.map_values(|f: Function| f@)
}

/// The code of a program, with branch labels numbered from 1.
pub open spec fn g_program(fs: Seq<FunctionV>) -> Option<Gen> {
    g_funcs(fs, 0, 1, arg_regs())
}

/// The registers that carry the arguments of a call, in order.
pub fn init_regs() -> (regs: Vec<Reg>)
    ensures
        regs@ == arg_regs(),
{
    let mut regs = Vec::new();
    regs.push(Reg::A0);
    regs.push(Reg::A1);
    regs.push(Reg::A2);
    regs.push(Reg::A3);
    regs.push(Reg::A4);
    regs.push(Reg::A5);
    proof {
        assert(regs@ =~= arg_regs());
    }
    regs
}

/// Rounds `n` up to a multiple of `align`.
pub fn align_to(n: i32, align: i32) -> (r: i32)
    requires
        0 <= n,
        0 < align,
        n + align - 1 <= i32::MAX,
    ensures
        r == align_up(n as int, align as int),
{
    let q = (n + (align - 1)) / align;
    proof {
        assert(q * align <= n + align - 1) by (nonlinear_arith)
            requires
                q == (n + align - 1) as int / align as int,
                0 <= n,
                0 < align,
        ;
        assert(q * align >= 0) by (nonlinear_arith)
            requires
                q == (n + align - 1) as int / align as int,
                0 <= n,
                0 < align,
        ;
    }
    q * align
}

/// Index of the first local named `name`.
fn first_named(locals: &Vec<Obj>, name: &String) -> (r: Option<usize>)
    ensures
        match (r, find_first(objs_view(locals@), name@)) {
            (Some(i), Some(k)) => i == k,
            (None, None) => true,
            _ => false,
        },
{
    let n = locals.len();
    let mut i: usize = 0;
    while i < n
        invariant
            n == locals@.len(),
            i <= n,
            find_first(objs_view(locals@), name@) == crate::ast::find_from(objs_view(locals@), name@, i as int),
        decreases n - i,
    {
        if locals[i].name == *name {
            return Some(i);
        }
        i = i + 1;
    }
    None
}

/// Looks the variable references of `node` up again in `locals`, so that each takes the
/// first local with its name (see `synced`).
pub fn sync_node_offsets(node: &mut Node, locals: &Vec<Obj>)
    requires
        sync_ok(old(node)@),
    ensures
        final(node)@ == synced(old(node)@, objs_view(locals@)),
    decreases size(old(node)@), 0nat,
{
    let ghost n0 = node@;
    let ghost ls = objs_view(locals@);
    if node.kind == NodeKind::NdVar {
        let idx = first_named(locals, node.name.as_ref().unwrap());
        proof {
            crate::ast::lemma_find_from(ls, node.name.unwrap()@, 0);
        }
        match idx {
            Some(i) => {
                node.var = Some(locals[i].copy());
            },
            None => {},
        }
    }
    sync_child(&mut node.lhs, locals);
    sync_child(&mut node.rhs, locals);
    sync_child(&mut node.next, locals);
    sync_child(&mut node.body, locals);
    sync_child(&mut node.init, locals);
    sync_child(&mut node.inc, locals);
    sync_child(&mut node.cond, locals);
    sync_child(&mut node.then_stmt, locals);
    sync_child(&mut node.els, locals);
    sync_child(&mut node.args, locals);
    proof {
        assert(node@ =~= synced(n0, ls));
    }
}

/// `sync_node_offsets` of an optional child.
fn sync_child(o: &mut Option<Box<Node>>, locals: &Vec<Obj>)
    requires
        sync_ok_child(child_view(*old(o))),
    ensures
        child_view(*final(o)) == synced_child(child_view(*old(o)), objs_view(locals@)),
    decreases csize(child_view(*old(o))), 1nat,
{
    if o.is_some() {
        let mut b = o.take().unwrap();
        sync_node_offsets(&mut b, locals);
        *o = Some(b);
    }
}

/// Gives each local its frame offset (the last one -8, the one before it -16, and so
/// on), looks the body's variable references up again, and sets the stack size to the
/// frame rounded up to a multiple of 16.
pub fn assign_lvar_offsets(prog: Function) -> (r: Function)
    requires
        layout_ok(prog@),
    ensures
        r.name == prog.name,
        objs_view(r.locals@) == with_offsets(objs_view(prog.locals@)),
        r.body matches Some(b) && b@ == laid_out_body(prog@),
        r.stack_size == frame_size(prog@),
{
    let mut prog = prog;
    let ghost p0 = prog;
    let n = prog.locals.len();
    let mut offset: i32 = 0;
    let mut i = n;
    while i > 0
        invariant
            n == prog.locals@.len(),
            n == p0.locals@.len(),
            8 * n + 15 <= i32::MAX,
            i <= n,
            offset == 8 * (n - i),
            prog.name == p0.name,
            prog.body == p0.body,
            forall|k: int| 0 <= k < i ==> #[trigger] prog.locals@[k]@ == p0.locals@[k]@,
            forall|k: int| i <= k < n ==> #[trigger] prog.locals@[k]@ == with_offsets(objs_view(p0.locals@))[k],
        decreases i,
    {
        i = i - 1;
        offset = offset + 8;
        let mut o = prog.locals[i].copy();
        o.offset = -offset;
        prog.locals.set(i, o);
    }
    proof {
        assert(objs_view(prog.locals@) =~= with_offsets(objs_view(p0.locals@)));
    }
    let mut body = prog.body.take().unwrap();
    sync_node_offsets(&mut body, &prog.locals);
    prog.body = Some(body);
    prog.stack_size = align_to(offset, 16);
    prog
}

/// Label numbers are handed out in order: starting from a fresh code generator, whose
/// next label is 1, successive calls of `Codegen::count` (each returning the label the
/// generator holds and advancing it by one) return 1, 2, 3, ..., so no two calls return
/// the same number. `labels[i]` is the generator's label before the `i`-th call and
/// `results[i]` what that call returns.
pub proof fn lemma_count_sequence(labels: Seq<int>, results: Seq<int>)
    requires
        labels.len() == results.len() + 1,
        labels[0] == 1,
        forall|i: int| 0 <= i < results.len() ==> #[trigger] results[i] == labels[i] && labels[i + 1]
            == labels[i] + 1,
    ensures
        forall|i: int| 0 <= i < results.len() ==> #[trigger] results[i] == i + 1,
        forall|i: int, j: int| 0 <= i < j < results.len() ==> #[trigger] results[i] != #[trigger] results[j],
{
    assert forall|i: int| 0 <= i < labels.len() implies #[trigger] labels[i] == i + 1 by {
        lemma_count_prefix(labels, results, i);
    }
    assert forall|i: int| 0 <= i < results.len() implies #[trigger] results[i] == i + 1 by {
        assert(labels[i] == i + 1);
    }
}

/// `lemma_count_sequence` up to the `k`-th label.
proof fn lemma_count_prefix(labels: Seq<int>, results: Seq<int>, k: int)
    requires
        labels.len() == results.len() + 1,
        labels[0] == 1,
        forall|i: int| 0 <= i < results.len() ==> #[trigger] results[i] == labels[i] && labels[i + 1]
            == labels[i] + 1,
        0 <= k < labels.len(),
    ensures
        labels[k] == k + 1,
    decreases k,
{
    if k > 0 {
        lemma_count_prefix(labels, results, k - 1);
        assert(results[k - 1] == labels[k - 1]);
    }
}

/// The state of code generation: the code emitted so far, the number of the next
/// pair of branch labels, the function being generated, and the registers that carry
/// call arguments.
pub struct Codegen {
    pub out: Vec<Insn>,
    pub label: i32,
    pub current_func: Option<String>,
    pub arg_regs: Vec<Reg>,
}

/// The result that an error (or its absence) gives.
pub open spec fn as_result(e: Option<CodegenErrorV>) -> Result<(), CodegenErrorV> {
    match e {
        Some(e) => Err(e),
        None => Ok(()),
    }
}

/// Generation emitted `g.0`, returned `g.1`, and changed nothing else.
pub open spec fn gen_post(c0: Codegen, c1: Codegen, g: Gen, res: Result<(), CodegenError>) -> bool {
    &&& insns_view(c1.out@) == insns_view(c0.out@) + g.0
    &&& err_view(res) == as_result(g.1)
    &&& c1.label == c0.label
    &&& c1.current_func == c0.current_func
    &&& c1.arg_regs == c0.arg_regs
}

/// The name of the function being generated, as the statement specifications take it.
pub open spec fn cur(c: Codegen) -> Option<Seq<char>> {
    match c.current_func {
        Some(s) => Some(s@),
        None => None,
    }
}

/// Generation of the statement `n` emitted `g.0`, returned `g.1`, used `labels(n)`
/// labels if it succeeded, and changed nothing else.
pub open spec fn stmt_post(c0: Codegen, c1: Codegen, g: Gen, res: Result<(), CodegenError>, used: nat) -> bool {
    &&& insns_view(c1.out@) == insns_view(c0.out@) + g.0
    &&& err_view(res) == as_result(g.1)
    &&& res is Ok ==> c1.label == c0.label + used
    &&& c1.current_func == c0.current_func
    &&& c1.arg_regs == c0.arg_regs
}

impl Codegen {
    /// Appends one instruction.
    fn emit(&mut self, i: Insn)
        ensures
            insns_view(final(self).out@) == insns_view(old(self).out@).push(i@),
            final(self).label == old(self).label,
            final(self).current_func == old(self).current_func,
            final(self).arg_regs == old(self).arg_regs,
    {
        let ghost v = i@;
        self.out.push(i);
        proof {
            assert(insns_view(self.out@) =~= insns_view(old(self).out@).push(v));
        }
    }

    /// Pushes `a0` onto the stack.
    pub fn push(&mut self)
        ensures
            insns_view(final(self).out@) == insns_view(old(self).out@).push(InsnV::Push),
            final(self).label == old(self).label,
            final(self).current_func == old(self).current_func,
            final(self).arg_regs == old(self).arg_regs,
    {
        self.emit(Insn::Push);
    }

    /// Pops the top of the stack into `reg`.
    pub fn pop(&mut self, reg: Reg)
        ensures
            insns_view(final(self).out@) == insns_view(old(self).out@).push(InsnV::Pop { reg }),
            final(self).label == old(self).label,
            final(self).current_func == old(self).current_func,
            final(self).arg_regs == old(self).arg_regs,
    {
        self.emit(Insn::Pop { reg });
    }

    /// Emits the code that computes the address of `node` into `a0`: a variable's frame
    /// slot, or the value of a dereferenced pointer; anything else has no address.
    pub fn gen_addr(&mut self, node: &Node) -> (res: Result<(), CodegenError>)
        requires
            g_addr(node@, old(self).arg_regs@) is Some,
        ensures
            gen_post(*old(self), *final(self), g_addr(node@, old(self).arg_regs@).unwrap(), res),
        decreases size(node@), 0nat,
    {
        match node.kind {
            NodeKind::NdVar => {
                let var = node.var.as_ref().unwrap();
                let offset = var.offset;
                let name = var.name.clone();
                let ghost v = InsnV::AddrLocal { offset, name: name@ };
                self.emit(Insn::AddrLocal { offset, name });
                proof {
                    assert(insns_view(self.out@) =~= insns_view(old(self).out@) + seq![v]);
                }
                Ok(())
            },
            NodeKind::NdDeref => {
                let l = node.lhs.as_ref().unwrap();
                proof {
                    assert(size(l@) < size(node@));
                }
                self.gen_expr(l)
            },
            _ => {
                proof {
                    assert(insns_view(self.out@) =~= insns_view(old(self).out@) + Seq::<InsnV>::empty());
                }
                Err(CodegenError::NotAnLvalue { loc: node.tokloc, name: node.name.as_ref().unwrap().clone() })
            },
        }
    }

    /// Emits the code that evaluates the expression `node` into `a0`.
    pub fn gen_expr(&mut self, node: &Node) -> (res: Result<(), CodegenError>)
        requires
            g_expr(node@, old(self).arg_regs@) is Some,
        ensures
            gen_post(*old(self), *final(self), g_expr(node@, old(self).arg_regs@).unwrap(), res),
        decreases size(node@), 2nat,
    {
        let ghost regs = self.arg_regs@;
        match node.kind {
            NodeKind::NdNum => {
                self.emit(Insn::Li { imm: *node.val.as_ref().unwrap() });
                proof {
                    assert(insns_view(self.out@) =~= insns_view(old(self).out@) + g_expr(node@, regs).unwrap().0);
                }
                Ok(())
            },
            NodeKind::NdNeg => {
                let l = node.lhs.as_ref().unwrap();
                proof {
                    assert(size(l@) < size(node@));
                }
                let r = self.gen_expr(l);
                if r.is_err() {
                    return r;
                }
                self.emit(Insn::Neg);
                proof {
                    assert(insns_view(self.out@) =~= insns_view(old(self).out@) + g_expr(node@, regs).unwrap().0);
                }
                Ok(())
            },
            NodeKind::NdVar => {
                let r = self.gen_addr(node);
                if r.is_err() {
                    return r;
                }
                self.emit(Insn::Load);
                proof {
                    assert(insns_view(self.out@) =~= insns_view(old(self).out@) + g_expr(node@, regs).unwrap().0);
                }
                Ok(())
            },
            NodeKind::NdDeref => {
                let l = node.lhs.as_ref().unwrap();
                proof {
                    assert(size(l@) < size(node@));
                }
                let r = self.gen_expr(l);
                if r.is_err() {
                    return r;
                }
                self.emit(Insn::Load);
                proof {
                    assert(insns_view(self.out@) =~= insns_view(old(self).out@) + g_expr(node@, regs).unwrap().0);
                }
                Ok(())
            },
            NodeKind::NdAddr => {
                let l = node.lhs.as_ref().unwrap();
                proof {
                    assert(size(l@) < size(node@));
                }
                self.gen_addr(l)
            },
            NodeKind::NdAssign => self.gen_assign(node),
            NodeKind::NdFuncall => self.gen_funcall(node),
            _ => self.gen_binary(node),
        }
    }

    /// Assignment: the address of the left side is pushed, the right side is evaluated,
    /// and the value is stored at the popped address.
    fn gen_assign(&mut self, node: &Node) -> (res: Result<(), CodegenError>)
        requires
            node.kind == NodeKind::NdAssign,
            g_expr(node@, old(self).arg_regs@) is Some,
        ensures
            gen_post(*old(self), *final(self), g_expr(node@, old(self).arg_regs@).unwrap(), res),
        decreases size(node@), 1nat,
    {
        let ghost regs = self.arg_regs@;
        let l = node.lhs.as_ref().unwrap();
        proof {
            assert(size(l@) < size(node@));
        }
        let r = self.gen_addr(l);
        if r.is_err() {
            return r;
        }
        self.push();
        let ghost mid = insns_view(self.out@);
        let rh = node.rhs.as_ref().unwrap();
        proof {
            assert(size(rh@) < size(node@));
        }
        let r = self.gen_expr(rh);
        if r.is_err() {
            proof {
                assert(insns_view(self.out@) =~= insns_view(old(self).out@) + g_expr(node@, regs).unwrap().0);
            }
            return r;
        }
        self.pop(Reg::A1);
        self.emit(Insn::Store);
        proof {
            assert(insns_view(self.out@) =~= insns_view(old(self).out@) + g_expr(node@, regs).unwrap().0);
        }
        Ok(())
    }

    /// A call: each argument is evaluated and pushed, the arguments are popped into the
    /// argument registers, and the function is called.
    fn gen_funcall(&mut self, node: &Node) -> (res: Result<(), CodegenError>)
        requires
            node.kind == NodeKind::NdFuncall,
            g_expr(node@, old(self).arg_regs@) is Some,
        ensures
            gen_post(*old(self), *final(self), g_expr(node@, old(self).arg_regs@).unwrap(), res),
        decreases size(node@), 1nat,
    {
        let ghost regs = self.arg_regs@;
        let r = self.gen_args(&node.args);
        match r {
            Err(e) => {
                return Err(e);
            },
            Ok(args_n) => {
                let ghost base = insns_view(self.out@);
                let mut i = args_n;
                while i > 0
                    invariant
                        i <= args_n <= self.arg_regs@.len(),
                        self.arg_regs@ == regs,
                        insns_view(self.out@) + pops(i as nat, regs) == base + pops(args_n as nat, regs),
                        self.label == old(self).label,
                        self.current_func == old(self).current_func,
                        self.arg_regs == old(self).arg_regs,
                    decreases i,
                {
                    let ghost before = insns_view(self.out@);
                    i = i - 1;
                    let reg = self.arg_regs[i];
                    self.pop(reg);
                    proof {
                        assert(pops((i + 1) as nat, regs) == seq![InsnV::Pop { reg: regs[i as int] }] + pops(i as nat, regs));
                        assert(insns_view(self.out@) + pops(i as nat, regs) =~= before + pops((i + 1) as nat, regs));
                    }
                }
                proof {
                    assert(insns_view(self.out@) =~= insns_view(self.out@) + pops(0, regs));
                }
                self.emit(Insn::Call { name: node.funcname.clone() });
                proof {
                    assert(insns_view(self.out@) =~= insns_view(old(self).out@) + g_expr(node@, regs).unwrap().0);
                }
                Ok(())
            },
        }
    }

    /// A binary operator: the right operand is evaluated and pushed, the left one
    /// evaluated into `a0`, the right one popped into `a1`, and the two combined.
    fn gen_binary(&mut self, node: &Node) -> (res: Result<(), CodegenError>)
        requires
            !(node.kind is NdNum || node.kind is NdNeg || node.kind is NdVar || node.kind is NdDeref || node.kind is NdAddr || node.kind is NdAssign || node.kind is NdFuncall),
            g_expr(node@, old(self).arg_regs@) is Some,
        ensures
            gen_post(*old(self), *final(self), g_expr(node@, old(self).arg_regs@).unwrap(), res),
        decreases size(node@), 1nat,
    {
        let ghost regs = self.arg_regs@;
        let rh = node.rhs.as_ref().unwrap();
        proof {
            assert(size(rh@) < size(node@));
        }
        let r = self.gen_expr(rh);
        if r.is_err() {
            proof {
                assert(insns_view(self.out@) =~= insns_view(old(self).out@) + g_expr(node@, regs).unwrap().0);
            }
            return r;
        }
        self.push();
        let l = node.lhs.as_ref().unwrap();
        proof {
            assert(size(l@) < size(node@));
        }
        let r = self.gen_expr(l);
        if r.is_err() {
            proof {
                assert(insns_view(self.out@) =~= insns_view(old(self).out@) + g_expr(node@, regs).unwrap().0);
            }
            return r;
        }
        self.pop(Reg::A1);
        let ghost pre = insns_view(old(self).out@) + (g_expr(rh@, regs).unwrap().0 + seq![InsnV::Push]) + (g_expr(l@, regs).unwrap().0 + seq![InsnV::Pop { reg: Reg::A1 }]);
        proof {
            assert(insns_view(self.out@) =~= pre);
        }
        match node.kind {
            NodeKind::NdAdd => {
                self.emit(Insn::Add);
            },
            NodeKind::NdSub => {
                self.emit(Insn::Sub);
            },
            NodeKind::NdMul => {
                self.emit(Insn::Mul);
            },
            NodeKind::NdDiv => {
                self.emit(Insn::Div);
            },
            NodeKind::NdEq => {
                self.emit(Insn::Xor);
                self.emit(Insn::Seqz);
            },
            NodeKind::NdNeq => {
                self.emit(Insn::Xor);
                self.emit(Insn::Snez);
            },
            NodeKind::NdLt => {
                self.emit(Insn::Slt);
            },
            NodeKind::NdLe => {
                self.emit(Insn::SltSwapped);
                self.emit(Insn::XoriOne);
            },
            _ => {
                proof {
                    assert(insns_view(self.out@) =~= insns_view(old(self).out@) + g_expr(node@, regs).unwrap().0);
                }
                return Err(CodegenError::InvalidExpression { loc: node.tokloc });
            },
        }
        proof {
            assert(insns_view(self.out@) =~= pre + binop_code(node.kind).unwrap());
            assert(insns_view(self.out@) =~= insns_view(old(self).out@) + g_expr(node@, regs).unwrap().0);
        }
        Ok(())
    }

    /// A generator with no code emitted, labels numbered from 1, no current function,
    /// and the six argument registers.
    pub fn new() -> (c: Codegen)
        ensures
            c.out@.len() == 0,
            c.label == 1,
            c.current_func is None,
            c.arg_regs@ == arg_regs(),
    {
        Codegen { out: Vec::new(), label: 1, current_func: None, arg_regs: init_regs() }
    }

    /// Emits the code of the functions of `fs` from index `i` on.
    fn gen_funcs(&mut self, fs: &Vec<Function>, i: usize) -> (res: Result<(), CodegenError>)
        requires
            i <= fs@.len(),
            g_funcs(funcs_view(fs@), i as int, old(self).label as int, old(self).arg_regs@) is Some,
        ensures
            ({
                let g = g_funcs(funcs_view(fs@), i as int, old(self).label as int, old(self).arg_regs@).unwrap();
                &&& insns_view(final(self).out@) == insns_view(old(self).out@) + g.0
                &&& err_view(res) == as_result(g.1)
                &&& final(self).arg_regs == old(self).arg_regs
            }),
        decreases fs@.len() - i,
    {
        let ghost regs = self.arg_regs@;
        let ghost c0 = self.label as int;
        let ghost fv = funcs_view(fs@);
        if i >= fs.len() {
            proof {
                assert(insns_view(self.out@) =~= insns_view(old(self).out@) + g_funcs(fv, i as int, c0, regs).unwrap().0);
            }
            return Ok(());
        }
        let f = fs[i].copy();
        proof {
            assert(fv[i as int] == f@);
        }
        let prog_pros = assign_lvar_offsets(f);
        let name = prog_pros.name.clone();
        self.current_func = Some(prog_pros.name.clone());
        self.emit(Insn::Globl { name: name.clone() });
        self.emit(Insn::FuncLabel { name: name.clone() });
        self.emit(Insn::Prologue { stack_size: prog_pros.stack_size });
        let r = self.gen_stmt(prog_pros.body.as_ref().unwrap());
        if r.is_err() {
            proof {
                assert(insns_view(self.out@) =~= insns_view(old(self).out@) + g_funcs(fv, i as int, c0, regs).unwrap().0);
            }
            return r;
        }
        self.emit(Insn::LabelReturn { name: name.clone() });
        self.emit(Insn::Epilogue);
        let ghost mid = insns_view(self.out@);
        proof {
            assert(mid =~= insns_view(old(self).out@) + g_func(fv[i as int], c0, regs).unwrap().0);
        }
        let r = self.gen_funcs(fs, i + 1);
        proof {
            assert(insns_view(self.out@) =~= insns_view(old(self).out@) + g_funcs(fv, i as int, c0, regs).unwrap().0);
        }
        r
    }

    /// The number of the next pair of branch labels, which it then advances.
    pub fn count(&mut self) -> (c: i32)
        requires
            old(self).label < i32::MAX,
        ensures
            c == old(self).label,
            final(self).label == old(self).label + 1,
            final(self).out == old(self).out,
            final(self).current_func == old(self).current_func,
            final(self).arg_regs == old(self).arg_regs,
    {
        let c = self.label;
        self.label = self.label + 1;
        c
    }

    /// Emits the code of a statement: an expression statement, a block, an `if`, a loop,
    /// or a `return`, which jumps to the function's return label.
    pub fn gen_stmt(&mut self, node: &Node) -> (res: Result<(), CodegenError>)
        requires
            g_stmt(node@, old(self).label as int, old(self).arg_regs@, cur(*old(self))) is Some,
        ensures
            stmt_post(*old(self), *final(self), g_stmt(node@, old(self).label as int, old(self).arg_regs@, cur(*old(self))).unwrap(), res, labels(node@)),
        decreases size(node@), 2nat,
    {
        let ghost regs = self.arg_regs@;
        let ghost c0 = self.label as int;
        let ghost f = cur(*self);
        match node.kind {
            NodeKind::NdExprStmt => {
                let l = node.lhs.as_ref().unwrap();
                proof {
                    assert(size(l@) < size(node@));
                }
                let r = self.gen_expr(l);
                proof {
                    assert(insns_view(self.out@) =~= insns_view(old(self).out@) + g_stmt(node@, c0, regs, f).unwrap().0);
                }
                r
            },
            NodeKind::NdBlock => {
                proof {
                    assert(csize(node@.body) < size(node@));
                }
                self.gen_list(&node.body)
            },
            NodeKind::NdIf => self.gen_if(node),
            NodeKind::NdFor => self.gen_for(node),
            NodeKind::NdReturn => {
                let l = node.lhs.as_ref().unwrap();
                proof {
                    assert(size(l@) < size(node@));
                }
                self.emit(Insn::ReturnStart);
                let r = self.gen_expr(l);
                if r.is_err() {
                    proof {
                        assert(insns_view(self.out@) =~= insns_view(old(self).out@) + g_stmt(node@, c0, regs, f).unwrap().0);
                    }
                    return r;
                }
                let name = self.current_func.as_ref().unwrap().clone();
                self.emit(Insn::JReturn { name });
                proof {
                    assert(insns_view(self.out@) =~= insns_view(old(self).out@) + g_stmt(node@, c0, regs, f).unwrap().0);
                }
                Ok(())
            },
            _ => {
                proof {
                    assert(insns_view(self.out@) =~= insns_view(old(self).out@) + g_stmt(node@, c0, regs, f).unwrap().0);
                }
                Err(CodegenError::InvalidStatement { loc: node.tokloc })
            },
        }
    }

    /// An `if`: the condition is evaluated; if it is zero control goes to the `else`
    /// label, otherwise the `then` branch runs and jumps to the end label.
    #[verifier::spinoff_prover]
    #[verifier::rlimit(60)]
    fn gen_if(&mut self, node: &Node) -> (res: Result<(), CodegenError>)
        requires
            node.kind == NodeKind::NdIf,
            g_stmt(node@, old(self).label as int, old(self).arg_regs@, cur(*old(self))) is Some,
        ensures
            stmt_post(*old(self), *final(self), g_stmt(node@, old(self).label as int, old(self).arg_regs@, cur(*old(self))).unwrap(), res, labels(node@)),
        decreases size(node@), 1nat,
    {
        let ghost regs = self.arg_regs@;
        let ghost c0 = self.label as int;
        let ghost f = cur(*self);
        let c = self.count();
        let cd = node.cond.as_ref().unwrap();
        self.emit(Insn::IfStart { c });
        proof {
            assert(size(cd@) < size(node@));
        }
        let r = self.gen_expr(cd);
        if r.is_err() {
            proof {
                assert(insns_view(self.out@) =~= insns_view(old(self).out@) + g_stmt(node@, c0, regs, f).unwrap().0);
            }
            return r;
        }
        self.emit(Insn::BeqzElse { c });
        let th = node.then_stmt.as_ref().unwrap();
        proof {
            assert(size(th@) < size(node@));
        }
        let r = self.gen_stmt(th);
        if r.is_err() {
            proof {
                assert(insns_view(self.out@) =~= insns_view(old(self).out@) + g_stmt(node@, c0, regs, f).unwrap().0);
            }
            return r;
        }
        self.emit(Insn::JEnd { c });
        self.emit(Insn::LabelElse { c });
        match &node.els {
            Some(e) => {
                proof {
                    assert(size(e@) < size(node@));
                }
                let r = self.gen_stmt(e);
                if r.is_err() {
                    proof {
                        assert(insns_view(self.out@) =~= insns_view(old(self).out@) + g_stmt(node@, c0, regs, f).unwrap().0);
                    }
                    return r;
                }
            },
            None => {},
        }
        self.emit(Insn::LabelEnd { c });
        proof {
            assert(insns_view(self.out@) =~= insns_view(old(self).out@) + g_stmt(node@, c0, regs, f).unwrap().0);
        }
        Ok(())
    }

    /// A loop: the initialisation runs once; at the begin label the condition, if any,
    /// is evaluated and a zero ends the loop; then the body and the increment run and
    /// control jumps back to the begin label.
    fn gen_for(&mut self, node: &Node) -> (res: Result<(), CodegenError>)
        requires
            node.kind == NodeKind::NdFor,
            g_stmt(node@, old(self).label as int, old(self).arg_regs@, cur(*old(self))) is Some,
        ensures
            stmt_post(*old(self), *final(self), g_stmt(node@, old(self).label as int, old(self).arg_regs@, cur(*old(self))).unwrap(), res, labels(node@)),
        decreases size(node@), 1nat,
    {
        let ghost regs = self.arg_regs@;
        let ghost c0 = self.label as int;
        let ghost f = cur(*self);
        let c = self.count();
        self.emit(Insn::ForStart { c, init: node.init.is_some() });
        match &node.init {
            Some(i) => {
                proof {
                    assert(size(i@) < size(node@));
                }
                let r = self.gen_stmt(i);
                if r.is_err() {
                    proof {
                        assert(insns_view(self.out@) =~= insns_view(old(self).out@) + g_stmt(node@, c0, regs, f).unwrap().0);
                    }
                    return r;
                }
            },
            None => {},
        }
        let r = self.gen_loop(node, c);
        proof {
            assert(insns_view(self.out@) =~= insns_view(old(self).out@) + g_stmt(node@, c0, regs, f).unwrap().0);
        }
        r
    }

    /// The part of a loop after its initialisation.
    #[verifier::spinoff_prover]
    #[verifier::rlimit(60)]
    fn gen_loop(&mut self, node: &Node, c: i32) -> (res: Result<(), CodegenError>)
        requires
            node.kind == NodeKind::NdFor,
            old(self).label == c + 1 + labels_opt(node@.init),
            g_loop(node@, c as int, old(self).arg_regs@, cur(*old(self))) is Some,
        ensures
            stmt_post(*old(self), *final(self), g_loop(node@, c as int, old(self).arg_regs@, cur(*old(self))).unwrap(), res, labels_opt(node@.then_stmt)),
        decreases size(node@), 0nat,
    {
        let ghost regs = self.arg_regs@;
        let ghost f = cur(*self);
        self.emit(Insn::LabelBegin { c });
        match &node.cond {
            Some(cd) => {
                proof {
                    assert(size(cd@) < size(node@));
                }
                let r = self.gen_expr(cd);
                if r.is_err() {
                    proof {
                        assert(insns_view(self.out@) =~= insns_view(old(self).out@) + g_loop(node@, c as int, regs, f).unwrap().0);
                    }
                    return r;
                }
                self.emit(Insn::BeqzEnd { c });
            },
            None => {},
        }
        let th = node.then_stmt.as_ref().unwrap();
        proof {
            assert(size(th@) < size(node@));
        }
        self.emit(Insn::ForBody { c });
        let r = self.gen_stmt(th);
        if r.is_err() {
            proof {
                assert(insns_view(self.out@) =~= insns_view(old(self).out@) + g_loop(node@, c as int, regs, f).unwrap().0);
            }
            return r;
        }
        let ghost mid = insns_view(self.out@);
        let r = self.gen_loop_tail(node, c);
        proof {
            assert(insns_view(self.out@) =~= insns_view(old(self).out@) + g_loop(node@, c as int, regs, f).unwrap().0);
        }
        r
    }

    /// The end of a loop: its increment, the jump back to its begin label, and its end
    /// label.
    fn gen_loop_tail(&mut self, node: &Node, c: i32) -> (res: Result<(), CodegenError>)
        requires
            loop_tail(node@, c as int, old(self).arg_regs@) is Some,
        ensures
            gen_post(*old(self), *final(self), loop_tail(node@, c as int, old(self).arg_regs@).unwrap(), res),
    {
        let ghost regs = self.arg_regs@;
        match &node.inc {
            Some(ic) => {
                self.emit(Insn::ForInc { c });
                let r = self.gen_expr(ic);
                if r.is_err() {
                    proof {
                        assert(insns_view(self.out@) =~= insns_view(old(self).out@) + loop_tail(node@, c as int, regs).unwrap().0);
                    }
                    return r;
                }
            },
            None => {},
        }
        self.emit(Insn::JBegin { c });
        self.emit(Insn::LabelLoopEnd { c });
        proof {
            assert(insns_view(self.out@) =~= insns_view(old(self).out@) + loop_tail(node@, c as int, regs).unwrap().0);
        }
        Ok(())
    }

    /// Emits the code of each statement of a list linked by `next`, in order.
    fn gen_list(&mut self, o: &Option<Box<Node>>) -> (res: Result<(), CodegenError>)
        requires
            g_list(child_view(*o), old(self).label as int, old(self).arg_regs@, cur(*old(self))) is Some,
        ensures
            stmt_post(*old(self), *final(self), g_list(child_view(*o), old(self).label as int, old(self).arg_regs@, cur(*old(self))).unwrap(), res, labels_list(child_view(*o))),
        decreases csize(child_view(*o)), 3nat,
    {
        let ghost regs = self.arg_regs@;
        let ghost c0 = self.label as int;
        let ghost f = cur(*self);
        match o {
            None => {
                proof {
                    assert(insns_view(self.out@) =~= insns_view(old(self).out@) + g_list(child_view(*o), c0, regs, f).unwrap().0);
                }
                Ok(())
            },
            Some(b) => {
                let r = self.gen_stmt(b);
                if r.is_err() {
                    proof {
                        assert(insns_view(self.out@) =~= insns_view(old(self).out@) + g_list(child_view(*o), c0, regs, f).unwrap().0);
                    }
                    return r;
                }
                let r = self.gen_list(&b.next);
                proof {
                    assert(insns_view(self.out@) =~= insns_view(old(self).out@) + g_list(child_view(*o), c0, regs, f).unwrap().0);
                }
                r
            },
        }
    }

    /// Emits the code that evaluates each argument of a list and pushes it, and returns
    /// the number of arguments.
    fn gen_args(&mut self, o: &Option<Box<Node>>) -> (res: Result<usize, CodegenError>)
        requires
            g_args(child_view(*o), old(self).arg_regs@) is Some,
        ensures
            ({
                let (code, err, k) = g_args(child_view(*o), old(self).arg_regs@).unwrap();
                &&& insns_view(final(self).out@) == insns_view(old(self).out@) + code
                &&& match res {
                    Ok(n) => err is None && n == k,
                    Err(e) => err == Some(e@),
                }
                &&& final(self).label == old(self).label
                &&& final(self).current_func == old(self).current_func
                &&& final(self).arg_regs == old(self).arg_regs
            }),
        decreases csize(child_view(*o)), 3nat,
    {
        let ghost regs = self.arg_regs@;
        match o {
            None => {
                proof {
                    assert(insns_view(self.out@) =~= insns_view(old(self).out@) + g_args(child_view(*o), regs).unwrap().0);
                }
                Ok(0)
            },
            Some(a) => {
                let r = self.gen_expr(a);
                if let Err(e) = r {
                    return Err(e);
                }
                self.push();
                let r = self.gen_args(&a.next);
                match r {
                    Err(e) => {
                        proof {
                            assert(insns_view(self.out@) =~= insns_view(old(self).out@) + g_args(child_view(*o), regs).unwrap().0);
                        }
                        Err(e)
                    },
                    Ok(k) => {
                        proof {
                            assert(insns_view(self.out@) =~= insns_view(old(self).out@) + g_args(child_view(*o), regs).unwrap().0);
                        }
                        Ok(k + 1)
                    },
                }
            },
        }
    }
}

/// Generates the code of a program: for each function in order, its frame is laid out
/// and its code emitted; branch labels are numbered from 1 across the program. Returns
/// the code emitted and, if generation stopped, why.
pub fn codegen(prog: Program) -> (r: (Vec<Insn>, Result<(), CodegenError>))
    requires
        g_program(funcs_view(prog.funclist@)) is Some,
    ensures
        insns_view(r.0@) == g_program(funcs_view(prog.funclist@)).unwrap().0,
        err_view(r.1) == as_result(g_program(funcs_view(prog.funclist@)).unwrap().1),
{
    let mut cg = Codegen::new();
    proof {
        assert(cg.arg_regs@ == arg_regs());
    }
    let r = cg.gen_funcs(&prog.funclist, 0);
    proof {
        assert(insns_view(cg.out@) =~= g_program(funcs_view(prog.funclist@)).unwrap().0);
    }
    (cg.out, r)
}

/// The code that the arithmetic code generator emits for `n`: literals, negation and
/// the binary operators, the right operand first; any other node with two operands is
/// an invalid expression.
pub open spec fn g_asm(n: NodeV) -> Option<Gen>
    decreases size(n),
{
    match n.kind {
        NodeKind::NdNum => match n.val {
            Some(v) => emit(seq![InsnV::Li { imm: v }]),
            None => None,
        },
        NodeKind::NdNeg => match n.lhs {
            Some(l) => cat(g_asm(*l), emit(seq![InsnV::Neg])),
            None => None,
        },
        _ => match n.rhs {
            None => None,
            Some(r) => cat(
                cat(g_asm(*r), emit(seq![InsnV::Push])),
                match n.lhs {
                    None => None,
                    Some(l) => cat(
                        cat(g_asm(*l), emit(seq![InsnV::Pop { reg: Reg::A1 }])),
                        match binop_code(n.kind) {
                            Some(code) => emit(code),
                            None => Some(
                                (
                                    Seq::empty(),
                                    Some(CodegenErrorV::InvalidExpression { loc: n.tokloc }),
                                ),
                            ),
                        },
                    ),
                },
            ),
        },
    }
}

/// Appends one instruction to `out`.
fn push_insn(out: &mut Vec<Insn>, i: Insn)
    ensures
        insns_view(final(out)@) == insns_view(old(out)@).push(i@),
{
    let ghost v = i@;
    out.push(i);
    proof {
        assert(insns_view(out@) =~= insns_view(old(out)@).push(v));
    }
}

/// The arithmetic code generator: appends to `out` the code that evaluates the
/// expression `nd` (literals, negation and binary operators) into `a0`.
#[verifier::spinoff_prover]
#[verifier::rlimit(50)]
pub fn gen_asm(nd: &Node, out: &mut Vec<Insn>) -> (res: Result<(), CodegenError>)
    requires
        g_asm(nd@) is Some,
    ensures
        insns_view(final(out)@) == insns_view(old(out)@) + g_asm(nd@).unwrap().0,
        err_view(res) == as_result(g_asm(nd@).unwrap().1),
    decreases size(nd@),
{
    let ghost o0 = insns_view(out@);
    match nd.kind {
        NodeKind::NdNum => {
            push_insn(out, Insn::Li { imm: *nd.val.as_ref().unwrap() });
            proof {
                assert(insns_view(out@) =~= o0 + g_asm(nd@).unwrap().0);
            }
            Ok(())
        },
        NodeKind::NdNeg => {
            let l = nd.lhs.as_ref().unwrap();
            proof {
                assert(size(l@) < size(nd@));
            }
            let r = gen_asm(l, out);
            if r.is_err() {
                return r;
            }
            push_insn(out, Insn::Neg);
            proof {
                assert(insns_view(out@) =~= o0 + g_asm(nd@).unwrap().0);
            }
            Ok(())
        },
        _ => {
            let rh = nd.rhs.as_ref().unwrap();
            proof {
                assert(size(rh@) < size(nd@));
            }
            let r = gen_asm(rh, out);
            if r.is_err() {
                proof {
                    assert(insns_view(out@) =~= o0 + g_asm(nd@).unwrap().0);
                }
                return r;
            }
            push_insn(out, Insn::Push);
            let l = nd.lhs.as_ref().unwrap();
            proof {
                assert(size(l@) < size(nd@));
            }
            let r = gen_asm(l, out);
            if r.is_err() {
                proof {
                    assert(insns_view(out@) =~= o0 + g_asm(nd@).unwrap().0);
                }
                return r;
            }
            push_insn(out, Insn::Pop { reg: Reg::A1 });
            let ghost pre = insns_view(out@);
            let res = emit_binop(out, nd.kind, nd.tokloc);
            proof {
                assert(insns_view(out@) =~= o0 + g_asm(nd@).unwrap().0);
            }
            res
        },
    }
}

/// Appends the instructions of the binary operator `kind` (see `binop_code`), or
/// nothing and an error for a kind that is not one.
fn emit_binop(out: &mut Vec<Insn>, kind: NodeKind, loc: usize) -> (res: Result<(), CodegenError>)
    ensures
        insns_view(final(out)@) == insns_view(old(out)@) + match binop_code(kind) {
            Some(code) => code,
            None => Seq::empty(),
        },
        err_view(res) == match binop_code(kind) {
            Some(_) => Ok(()),
            None => Err(CodegenErrorV::InvalidExpression { loc }),
        },
{
    let ghost pre = insns_view(out@);
    let res = match kind {
        NodeKind::NdAdd => {
            push_insn(out, Insn::Add);
            Ok(())
        },
        NodeKind::NdSub => {
            push_insn(out, Insn::Sub);
            Ok(())
        },
        NodeKind::NdMul => {
            push_insn(out, Insn::Mul);
            Ok(())
        },
        NodeKind::NdDiv => {
            push_insn(out, Insn::Div);
            Ok(())
        },
        NodeKind::NdEq => {
            push_insn(out, Insn::Xor);
            push_insn(out, Insn::Seqz);
            Ok(())
        },
        NodeKind::NdNeq => {
            push_insn(out, Insn::Xor);
            push_insn(out, Insn::Snez);
            Ok(())
        },
        NodeKind::NdLt => {
            push_insn(out, Insn::Slt);
            Ok(())
        },
        NodeKind::NdLe => {
            push_insn(out, Insn::SltSwapped);
            push_insn(out, Insn::XoriOne);
            Ok(())
        },
        _ => Err(CodegenError::InvalidExpression { loc }),
    };
    proof {
        let tail = match binop_code(kind) {
            Some(code) => code,
            None => Seq::empty(),
        };
        assert(insns_view(out@) =~= pre + tail);
    }
    res
}

} // verus!
