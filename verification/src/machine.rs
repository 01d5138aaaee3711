//! What the generated code of an expression means: a model of the RISC-V machine that
//! runs straight-line code, and the value and memory effect of an expression as C gives
//! them. The laws of this module tie the two together.
use vstd::prelude::*;
use crate::ast::{NodeKind, NodeV, size};
use crate::codegen::{InsnV, Reg, g_expr, g_addr, g_asm};

verus! {

/// The part of the machine state that expression code reads and writes: the
/// accumulator `a0`, the scratch register `a1`, the frame pointer, the values pushed
/// on the stack (the last one on top), and the memory, by address.
pub struct Machine {
    pub a0: i64,
    pub a1: i64,
    pub fp: i64,
    pub stack: Seq<i64>,
    pub mem: Map<i64, i64>,
}

/// A 64-bit register's value for a mathematical integer: its low 64 bits.
pub open spec fn wrap(x: int) -> i64 {
    x as i64
}

/// `1` for true and `0` for false, as the set-on-condition instructions give them.
pub open spec fn flag(b: bool) -> i64 {
    if b {
        1
    } else {
        0
    }
}

/// Signed 64-bit division as RISC-V's `div` computes it: rounded toward zero, `-1`
/// for a zero divisor, and the dividend itself when `i64::MIN` is divided by `-1`.
pub open spec fn div64(l: i64, r: i64) -> i64 {
    if r == 0 {
        -1i64
    } else if l == i64::MIN && r == -1 {
        l
    } else {
        let q = abs(l as int) / abs(r as int);
        if (l < 0) != (r < 0) {
            (-q) as i64
        } else {
            q as i64
        }
    }
}

/// The absolute value of an integer.
pub open spec fn abs(x: int) -> int {
    if x < 0 {
        -x
    } else {
        x
    }
}

/// The machine after one instruction, or `None` for an instruction that is not
/// straight-line expression code (labels, jumps, calls, frame set-up), and for a pop
/// from an empty stack or into a register other than `a0` and `a1`. The marks that
/// start statements change nothing.
pub open spec fn step(i: InsnV, s: Machine) -> Option<Machine> {
    match i {
        InsnV::Li { imm } => Some(Machine { a0: imm as i64, ..s }),
        InsnV::Neg => Some(Machine { a0: wrap(-s.a0), ..s }),
        InsnV::Push => Some(Machine { stack: s.stack.push(s.a0), ..s }),
        InsnV::Pop { reg } => if s.stack.len() == 0 {
            None
        } else {
            match reg {
                Reg::A0 => Some(Machine { a0: s.stack.last(), stack: s.stack.drop_last(), ..s }),
                Reg::A1 => Some(Machine { a1: s.stack.last(), stack: s.stack.drop_last(), ..s }),
                _ => None,
            }
        },
        InsnV::AddrLocal { offset, .. } => Some(Machine { a0: wrap(s.fp + offset), ..s }),
        InsnV::Load => Some(Machine { a0: s.mem[s.a0], ..s }),
        InsnV::Store => Some(Machine { mem: s.mem.insert(s.a1, s.a0), ..s }),
        InsnV::Add => Some(Machine { a0: wrap(s.a0 + s.a1), ..s }),
        InsnV::Sub => Some(Machine { a0: wrap(s.a0 - s.a1), ..s }),
        InsnV::Mul => Some(Machine { a0: wrap(s.a0 * s.a1), ..s }),
        InsnV::Div => Some(Machine { a0: div64(s.a0, s.a1), ..s }),
        InsnV::Xor => Some(Machine { a0: s.a0 ^ s.a1, ..s }),
        InsnV::Seqz => Some(Machine { a0: flag(s.a0 == 0), ..s }),
        InsnV::Snez => Some(Machine { a0: flag(s.a0 != 0), ..s }),
        InsnV::Slt => Some(Machine { a0: flag(s.a0 < s.a1), ..s }),
        InsnV::SltSwapped => Some(Machine { a0: flag(s.a1 < s.a0), ..s }),
        InsnV::XoriOne => Some(Machine { a0: s.a0 ^ 1, ..s }),
        InsnV::IfStart { .. } | InsnV::ForStart { .. } | InsnV::ForBody { .. } | InsnV::ForInc { .. }
        | InsnV::ReturnStart => Some(s),
        _ => None,
    }
}

/// The machine after running `code` from its first instruction to its last, or `None`
/// if some instruction cannot run.
pub open spec fn run(code: Seq<InsnV>, s: Machine) -> Option<Machine>
    decreases code.len(),
{
    if code.len() == 0 {
        Some(s)
    } else {
        match step(code[0], s) {
            Some(t) => run(code.subrange(1, code.len() as int), t),
            None => None,
        }
    }
}

/// Whether `n` is an expression whose code is straight-line and runs: literals,
/// variables with their frame slots, negation, the binary arithmetic and comparison
/// operators, address-of and dereference, and assignment, with every operand present.
/// Calls are not among them.
pub open spec fn straight(n: NodeV) -> bool
    decreases size(n), 1nat,
{
    match n.kind {
        NodeKind::NdNum => n.val is Some,
        NodeKind::NdVar => n.var is Some,
        NodeKind::NdNeg | NodeKind::NdDeref => match n.lhs {
            Some(l) => straight(*l),
            None => false,
        },
        NodeKind::NdAddr => match n.lhs {
            Some(l) => addressable(*l),
            None => false,
        },
        NodeKind::NdAssign => match (n.lhs, n.rhs) {
            (Some(l), Some(r)) => addressable(*l) && straight(*r),
            _ => false,
        },
        NodeKind::NdAdd | NodeKind::NdSub | NodeKind::NdMul | NodeKind::NdDiv | NodeKind::NdEq
        | NodeKind::NdNeq | NodeKind::NdLt | NodeKind::NdLe => match (n.lhs, n.rhs) {
            (Some(l), Some(r)) => straight(*l) && straight(*r),
            _ => false,
        },
        _ => false,
    }
}

/// Whether `n` denotes a place: a variable with its frame slot, or a dereference of a
/// `straight` expression.
pub open spec fn addressable(n: NodeV) -> bool
    decreases size(n), 0nat,
{
    match n.kind {
        NodeKind::NdVar => n.var is Some,
        NodeKind::NdDeref => match n.lhs {
            Some(l) => straight(*l),
            None => false,
        },
        _ => false,
    }
}

/// The value of a binary operator applied to `l` and `r`, as C on 64-bit integers
/// gives it: arithmetic wraps, division is RISC-V's, comparisons give 1 or 0.
pub open spec fn binop_value(kind: NodeKind, l: i64, r: i64) -> i64 {
    match kind {
        NodeKind::NdAdd => wrap(l + r),
        NodeKind::NdSub => wrap(l - r),
        NodeKind::NdMul => wrap(l * r),
        NodeKind::NdDiv => div64(l, r),
        NodeKind::NdEq => flag(l == r),
        NodeKind::NdNeq => flag(l != r),
        NodeKind::NdLt => flag(l < r),
        _ => flag(l <= r),
    }
}

/// The value of the expression `n` in the frame `fp`, and the memory after it, starting
/// from `mem`. A binary operator evaluates its right operand first, and an assignment
/// the place on its left before the value on its right.
pub open spec fn value(n: NodeV, fp: i64, mem: Map<i64, i64>) -> (i64, Map<i64, i64>)
    decreases size(n), 1nat,
{
    match n.kind {
        NodeKind::NdNum => (n.val.unwrap() as i64, mem),
        NodeKind::NdVar => (mem[wrap(fp + n.var.unwrap().offset)], mem),
        NodeKind::NdNeg => match n.lhs {
            Some(l) => {
                let (v, m) = value(*l, fp, mem);
                (wrap(-v), m)
            },
            None => (0, mem),
        },
        NodeKind::NdDeref => match n.lhs {
            Some(l) => {
                let (p, m) = value(*l, fp, mem);
                (m[p], m)
            },
            None => (0, mem),
        },
        NodeKind::NdAddr => match n.lhs {
            Some(l) => address(*l, fp, mem),
            None => (0, mem),
        },
        NodeKind::NdAssign => match (n.lhs, n.rhs) {
            (Some(l), Some(r)) => {
                let (a, m1) = address(*l, fp, mem);
                let (v, m2) = value(*r, fp, m1);
                (v, m2.insert(a, v))
            },
            _ => (0, mem),
        },
        _ => match (n.lhs, n.rhs) {
            (Some(l), Some(r)) => {
                let (rv, m1) = value(*r, fp, mem);
                let (lv, m2) = value(*l, fp, m1);
                (binop_value(n.kind, lv, rv), m2)
            },
            _ => (0, mem),
        },
    }
}

/// The address of the place `n` in the frame `fp`, and the memory after computing it.
pub open spec fn address(n: NodeV, fp: i64, mem: Map<i64, i64>) -> (i64, Map<i64, i64>)
    decreases size(n), 0nat,
{
    match n.kind {
        NodeKind::NdVar => (wrap(fp + n.var.unwrap().offset), mem),
        NodeKind::NdDeref => match n.lhs {
            Some(l) => value(*l, fp, mem),
            None => (0, mem),
        },
        _ => (0, mem),
    }
}

/// Running `a + b` is running `a` and then `b`.
pub proof fn lemma_run_append(a: Seq<InsnV>, b: Seq<InsnV>, s: Machine)
    ensures
        run(a + b, s) == match run(a, s) {
            Some(t) => run(b, t),
            None => None,
        },
    decreases a.len(),
{
    if a.len() == 0 {
        assert(a + b =~= b);
    } else {
        assert((a + b)[0] == a[0]);
        match step(a[0], s) {
            Some(t) => {
                assert((a + b).subrange(1, (a + b).len() as int) =~= a.subrange(1, a.len() as int) + b);
                lemma_run_append(a.subrange(1, a.len() as int), b, t);
            },
            None => {},
        }
    }
}

/// Whether `t` is `s` with `a0` and the memory given by `r`, and `a1` free.
pub open spec fn leaves(s: Machine, t: Machine, r: (i64, Map<i64, i64>)) -> bool {
    &&& t.a0 == r.0
    &&& t.mem == r.1
    &&& t.fp == s.fp
    &&& t.stack == s.stack
}

/// The code of a straight-line expression computes its value: run from any machine
/// state, it leaves the expression's value (as `value` gives it) in `a0`, has the
/// expression's effect on memory, and leaves the frame pointer and the stack as it
/// found them. The same holds of the code that computes the address of a place.
pub proof fn lemma_expr_code(n: NodeV, regs: Seq<Reg>, s: Machine)
    requires
        straight(n),
    ensures
        g_expr(n, regs) matches Some((code, None)) && (run(code, s) matches Some(t) && leaves(
            s,
            t,
            value(n, s.fp, s.mem),
        )),
    decreases size(n), 1nat,
{
    match n.kind {
        NodeKind::NdNum => {
            let code = seq![InsnV::Li { imm: n.val.unwrap() }];
            assert(run(code.subrange(1, 1), step(code[0], s).unwrap()) == step(code[0], s));
        },
        NodeKind::NdVar => {
            lemma_addr_code(n, regs, s);
            let ca = g_addr(n, regs).unwrap().0;
            let t1 = run(ca, s).unwrap();
            lemma_run_one(InsnV::Load, t1);
            lemma_run_append(ca, seq![InsnV::Load], s);
        },
        NodeKind::NdNeg | NodeKind::NdDeref => {
            let l = *n.lhs.unwrap();
            lemma_expr_code(l, regs, s);
            let cl = g_expr(l, regs).unwrap().0;
            let t1 = run(cl, s).unwrap();
            let last = if n.kind == NodeKind::NdNeg {
                InsnV::Neg
            } else {
                InsnV::Load
            };
            lemma_run_one(last, t1);
            lemma_run_append(cl, seq![last], s);
        },
        NodeKind::NdAddr => {
            let l = *n.lhs.unwrap();
            lemma_addr_code(l, regs, s);
        },
        NodeKind::NdAssign => {
            lemma_assign_code(n, regs, s);
        },
        _ => {
            lemma_binary_code(n, regs, s);
        },
    }
}

/// `lemma_expr_code` for an assignment.
proof fn lemma_assign_code(n: NodeV, regs: Seq<Reg>, s: Machine)
    requires
        straight(n),
        n.kind == NodeKind::NdAssign,
    ensures
        g_expr(n, regs) matches Some((code, None)) && (run(code, s) matches Some(t) && leaves(
            s,
            t,
            value(n, s.fp, s.mem),
        )),
    decreases size(n), 0nat,
{
    let l = *n.lhs.unwrap();
    let r = *n.rhs.unwrap();
    lemma_addr_code(l, regs, s);
    let ca = g_addr(l, regs).unwrap().0;
    let t1 = run(ca, s).unwrap();
    lemma_run_one(InsnV::Push, t1);
    let t2 = step(InsnV::Push, t1).unwrap();
    lemma_expr_code(r, regs, t2);
    let cr = g_expr(r, regs).unwrap().0;
    let t3 = run(cr, t2).unwrap();
    let tail = seq![InsnV::Pop { reg: Reg::A1 }, InsnV::Store];
    lemma_run_two(InsnV::Pop { reg: Reg::A1 }, InsnV::Store, t3);
    lemma_run_append(cr, tail, t2);
    lemma_run_append(seq![InsnV::Push], cr + tail, t1);
    lemma_run_append(ca, seq![InsnV::Push] + (cr + tail), s);
    let code = ca + (seq![InsnV::Push] + (cr + tail));
    assert(g_expr(n, regs) == Some((code, None::<crate::codegen::CodegenErrorV>))) by {
        assert(ca + seq![InsnV::Push] + (cr + tail) =~= code);
    }
    let t4 = step(InsnV::Pop { reg: Reg::A1 }, t3).unwrap();
    assert(t4.stack =~= s.stack);
    assert(t4.a1 == t1.a0);
    assert(run(code, s) == step(InsnV::Store, t4));
}

/// `lemma_expr_code` for a binary operator.
#[verifier::rlimit(40)]
proof fn lemma_binary_code(n: NodeV, regs: Seq<Reg>, s: Machine)
    requires
        straight(n),
        crate::codegen::binop_code(n.kind) is Some,
    ensures
        g_expr(n, regs) matches Some((code, None)) && (run(code, s) matches Some(t) && leaves(
            s,
            t,
            value(n, s.fp, s.mem),
        )),
    decreases size(n), 0nat,
{
    let l = *n.lhs.unwrap();
    let r = *n.rhs.unwrap();
    lemma_expr_code(r, regs, s);
    let cr = g_expr(r, regs).unwrap().0;
    let t1 = run(cr, s).unwrap();
    lemma_run_one(InsnV::Push, t1);
    let t2 = step(InsnV::Push, t1).unwrap();
    lemma_expr_code(l, regs, t2);
    let cl = g_expr(l, regs).unwrap().0;
    let t3 = run(cl, t2).unwrap();
    lemma_run_one(InsnV::Pop { reg: Reg::A1 }, t3);
    let t4 = step(InsnV::Pop { reg: Reg::A1 }, t3).unwrap();
    assert(t4.stack =~= s.stack);
    let op = crate::codegen::binop_code(n.kind).unwrap();
    lemma_binop_code(n.kind, t4);
    lemma_run_append(seq![InsnV::Pop { reg: Reg::A1 }], op, t3);
    lemma_run_append(cl, seq![InsnV::Pop { reg: Reg::A1 }] + op, t2);
    lemma_run_append(seq![InsnV::Push], cl + (seq![InsnV::Pop { reg: Reg::A1 }] + op), t1);
    lemma_run_append(cr, seq![InsnV::Push] + (cl + (seq![InsnV::Pop { reg: Reg::A1 }] + op)), s);
    let code = cr + (seq![InsnV::Push] + (cl + (seq![InsnV::Pop { reg: Reg::A1 }] + op)));
    assert(g_expr(n, regs) == Some((code, None::<crate::codegen::CodegenErrorV>))) by {
        assert(cr + seq![InsnV::Push] + (cl + seq![InsnV::Pop { reg: Reg::A1 }] + op) =~= code);
    }
    assert(run(code, s) == Some(Machine { a0: binop_value(n.kind, t4.a0, t4.a1), ..t4 }));
}

/// The address half of `lemma_expr_code`: the code of a place leaves its address (as
/// `address` gives it) in `a0`.
pub proof fn lemma_addr_code(n: NodeV, regs: Seq<Reg>, s: Machine)
    requires
        addressable(n),
    ensures
        g_addr(n, regs) matches Some((code, None)) && (run(code, s) matches Some(t) && leaves(
            s,
            t,
            address(n, s.fp, s.mem),
        )),
    decreases size(n), 0nat,
{
    match n.kind {
        NodeKind::NdVar => {
            lemma_run_one(InsnV::AddrLocal { offset: n.var.unwrap().offset, name: n.var.unwrap().name }, s);
        },
        _ => {
            lemma_expr_code(*n.lhs.unwrap(), regs, s);
        },
    }
}

/// Running one instruction is one step.
proof fn lemma_run_one(i: InsnV, s: Machine)
    ensures
        run(seq![i], s) == step(i, s),
{
    let code = seq![i];
    assert(code[0] == i);
    match step(i, s) {
        Some(t) => {
            assert(code.subrange(1, 1) =~= Seq::<InsnV>::empty());
            assert(run(code.subrange(1, 1), t) == Some(t));
        },
        None => {},
    }
}

/// Running two instructions is two steps.
proof fn lemma_run_two(i: InsnV, j: InsnV, s: Machine)
    ensures
        run(seq![i, j], s) == match step(i, s) {
            Some(t) => step(j, t),
            None => None,
        },
{
    let code = seq![i, j];
    assert(code[0] == i);
    match step(i, s) {
        Some(t) => {
            assert(code.subrange(1, 2) =~= seq![j]);
            lemma_run_one(j, t);
        },
        None => {},
    }
}

/// The instructions of a binary operator combine `a0` (left) and `a1` (right) into
/// the operator's value, and touch nothing but `a0`.
proof fn lemma_binop_code(kind: NodeKind, s: Machine)
    requires
        crate::codegen::binop_code(kind) is Some,
    ensures
        run(crate::codegen::binop_code(kind).unwrap(), s) == Some(
            Machine { a0: binop_value(kind, s.a0, s.a1), ..s },
        ),
{
    let l = s.a0;
    let r = s.a1;
    match kind {
        NodeKind::NdEq | NodeKind::NdNeq => {
            let sec = if kind == NodeKind::NdEq {
                InsnV::Seqz
            } else {
                InsnV::Snez
            };
            lemma_run_two(InsnV::Xor, sec, s);
            assert((l ^ r == 0) == (l == r)) by (bit_vector);
        },
        NodeKind::NdLe => {
            lemma_run_two(InsnV::SltSwapped, InsnV::XoriOne, s);
            assert((flag(r < l) ^ 1) == flag(l <= r)) by {
                if r < l {
                    assert((1i64 ^ 1i64) == 0i64) by (bit_vector);
                } else {
                    assert((0i64 ^ 1i64) == 1i64) by (bit_vector);
                }
            }
        },
        _ => {
            let i = crate::codegen::binop_code(kind).unwrap()[0];
            lemma_run_one(i, s);
            assert(crate::codegen::binop_code(kind).unwrap() =~= seq![i]);
        },
    }
}

/// Code that the arithmetic code generator emits without error is the code that the
/// expression code generator emits for the same node, and the node is straight-line.
proof fn lemma_asm_is_expr(n: NodeV, regs: Seq<Reg>)
    requires
        g_asm(n) matches Some((_, None)),
    ensures
        straight(n),
        g_asm(n) == g_expr(n, regs),
    decreases size(n),
{
    match n.kind {
        NodeKind::NdNum => {},
        NodeKind::NdNeg => {
            lemma_asm_is_expr(*n.lhs.unwrap(), regs);
        },
        _ => {
            lemma_asm_is_expr(*n.rhs.unwrap(), regs);
            lemma_asm_is_expr(*n.lhs.unwrap(), regs);
        },
    }
}

/// The arithmetic code generator computes values: when it generates the code of `n`
/// without error, that code, run from any machine state, leaves the value of `n` in
/// `a0` and the frame pointer, stack and memory as it found them.
pub proof fn lemma_asm_code(n: NodeV, s: Machine)
    requires
        g_asm(n) matches Some((_, None)),
    ensures
        g_asm(n) matches Some((code, None)) && (run(code, s) matches Some(t) && leaves(
            s,
            t,
            value(n, s.fp, s.mem),
        )),
        value(n, s.fp, s.mem).1 == s.mem,
    decreases size(n),
{
    lemma_asm_is_expr(n, Seq::empty());
    lemma_expr_code(n, Seq::empty(), s);
    match n.kind {
        NodeKind::NdNum => {},
        NodeKind::NdNeg => {
            lemma_asm_code(*n.lhs.unwrap(), s);
        },
        _ => {
            lemma_asm_code(*n.rhs.unwrap(), s);
            lemma_asm_code(*n.lhs.unwrap(), s);
        },
    }
}

} // verus!
