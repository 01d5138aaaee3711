//! Control flow: a machine that runs generated code with its branches and loops,
//! instruction by instruction, and the law that the code of a statement with `if`s and
//! loops does what the statement means.
use vstd::prelude::*;
use crate::ast::{NodeKind, NodeV, size, csize};
use crate::ast::FunctionV;
use crate::codegen::{InsnV, Reg, g_expr, g_stmt, g_loop, g_list, g_funcs, g_program, labels, labels_opt, labels_list, layout_ok, laid_out_body, frame_size, arg_regs, emit};
use crate::machine::{Machine, step, run, value, straight, lemma_expr_code};
use crate::branch::{defined, target, labels_unique, lemma_program_labels};

verus! {

/// Where the branch label `l` stands in `code`: an instruction that defines it.
pub open spec fn label_pos(code: Seq<InsnV>, l: (int, int)) -> int {
    choose|k: int| 0 <= k < code.len() && defined(code[k]) == Some(l)
}

/// One step of the machine that runs `code` from the instruction at `pc`: the next
/// instruction and machine, or `None` where it stops: past the code, at the jump to
/// the return label, or at an instruction that cannot run. A label does nothing; a
/// conditional branch jumps to its label when `a0` is zero; a jump always does.
pub open spec fn step_at(code: Seq<InsnV>, pc: int, s: Machine) -> Option<(int, Machine)> {
    if !(0 <= pc < code.len()) {
        None
    } else {
        let i = code[pc];
        if defined(i) is Some {
            Some((pc + 1, s))
        } else if i is BeqzElse || i is BeqzEnd {
            if s.a0 == 0 {
                Some((label_pos(code, target(i).unwrap()), s))
            } else {
                Some((pc + 1, s))
            }
        } else if i is JEnd || i is JBegin {
            Some((label_pos(code, target(i).unwrap()), s))
        } else {
            match step(i, s) {
                Some(t) => Some((pc + 1, t)),
                None => None,
            }
        }
    }
}

/// Where the machine is after `n` steps from `pc`; it stays where it stops.
pub open spec fn steps(code: Seq<InsnV>, pc: int, s: Machine, n: nat) -> (int, Machine)
    decreases n,
{
    if n == 0 {
        (pc, s)
    } else {
        match step_at(code, pc, s) {
            Some((p, t)) => steps(code, p, t, (n - 1) as nat),
            None => (pc, s),
        }
    }
}

/// Steps one after the other.
pub proof fn lemma_steps_add(code: Seq<InsnV>, pc: int, s: Machine, n1: nat, n2: nat)
    ensures
        steps(code, pc, s, n1 + n2) == steps(code, steps(code, pc, s, n1).0, steps(code, pc, s, n1).1, n2),
    decreases n1,
{
    if n1 > 0 {
        match step_at(code, pc, s) {
            Some((p, t)) => {
                lemma_steps_add(code, p, t, (n1 - 1) as nat, n2);
                assert((n1 + n2 - 1) as nat == (n1 - 1) as nat + n2);
            },
            None => {
                lemma_steps_stuck(code, pc, s, n2);
            },
        }
    }
}

/// A machine that has stopped stays where it is.
proof fn lemma_steps_stuck(code: Seq<InsnV>, pc: int, s: Machine, n: nat)
    requires
        step_at(code, pc, s) is None,
    ensures
        steps(code, pc, s, n) == (pc, s),
{
}

/// One step.
proof fn lemma_steps_one(code: Seq<InsnV>, pc: int, s: Machine)
    requires
        step_at(code, pc, s) is Some,
    ensures
        steps(code, pc, s, 1) == step_at(code, pc, s).unwrap(),
{
    let (p, t) = step_at(code, pc, s).unwrap();
    assert(steps(code, p, t, 0) == (p, t));
}

/// Straight-line code embedded in `code` at `p` runs there as it runs alone.
pub proof fn lemma_straight_at(code: Seq<InsnV>, p: int, part: Seq<InsnV>, s: Machine)
    requires
        0 <= p,
        p + part.len() <= code.len(),
        code.subrange(p, p + part.len()) == part,
        run(part, s) is Some,
    ensures
        steps(code, p, s, part.len()) == (p + part.len(), run(part, s).unwrap()),
    decreases part.len(),
{
    if part.len() > 0 {
        let i = part[0];
        assert(code[p] == code.subrange(p, p + part.len())[0]);
        let t = step(i, s).unwrap();
        assert(defined(i) is None);
        assert(!(i is BeqzElse || i is BeqzEnd || i is JEnd || i is JBegin));
        assert(step_at(code, p, s) == Some((p + 1, t)));
        let rest = part.subrange(1, part.len() as int);
        assert(code.subrange(p + 1, p + 1 + rest.len()) =~= rest);
        lemma_straight_at(code, p + 1, rest, t);
        assert((1 + rest.len()) as nat == part.len());
        lemma_steps_add(code, p, s, 1, rest.len());
        lemma_steps_one(code, p, s);
    }
}

/// A label that `code` defines once stands where it is defined.
pub proof fn lemma_label_pos(code: Seq<InsnV>, k: int)
    requires
        labels_unique(code),
        0 <= k < code.len(),
        defined(code[k]) is Some,
    ensures
        label_pos(code, defined(code[k]).unwrap()) == k,
{
    let l = defined(code[k]).unwrap();
    assert(0 <= k < code.len() && defined(code[k]) == Some(l));
    let j = label_pos(code, l);
    if j < k {
        assert(defined(code[j]) != defined(code[k]));
    } else if j > k {
        assert(defined(code[k]) != defined(code[j]));
    }
}

/// Whether `n` is a statement whose parts the machine model covers: expression
/// statements and `return`s of straight-line expressions, blocks of such statements,
/// `if`s with a straight-line condition, and loops whose condition and increment, when
/// present, are straight-line.
pub open spec fn ctrl_stmt(n: NodeV) -> bool
    decreases size(n), 0nat,
{
    match n.kind {
        NodeKind::NdExprStmt | NodeKind::NdReturn => match n.lhs {
            Some(l) => straight(*l),
            None => false,
        },
        NodeKind::NdBlock => ctrl_list(n.body),
        NodeKind::NdIf => match (n.cond, n.then_stmt) {
            (Some(cd), Some(th)) => straight(*cd) && ctrl_stmt(*th) && match n.els {
                Some(e) => ctrl_stmt(*e),
                None => true,
            },
            _ => false,
        },
        NodeKind::NdFor => match n.then_stmt {
            Some(th) => ctrl_stmt(*th) && match n.init {
                Some(i) => ctrl_stmt(*i),
                None => true,
            } && match n.cond {
                Some(cd) => straight(*cd),
                None => true,
            } && match n.inc {
                Some(ic) => straight(*ic),
                None => true,
            },
            None => false,
        },
        _ => false,
    }
}

/// Whether each statement of a list is `ctrl_stmt`.
pub open spec fn ctrl_list(o: Option<Box<NodeV>>) -> bool
    decreases csize(o), 1nat,
{
    match o {
        Some(b) => ctrl_stmt(*b) && ctrl_list(b.next),
        None => true,
    }
}

/// What running the statement `n` gives, with at most `k` iterations of each loop: the
/// value it returns, if it returns, and the memory after it; `None` if a loop would
/// need more iterations. An `if` runs its `then` branch when its condition is not
/// zero and its `else` branch, if any, when it is; a loop runs its initialisation
/// once, then, while its condition (if any) is not zero, its body and its increment.
pub open spec fn run_stmt(n: NodeV, fp: i64, mem: Map<i64, i64>, k: nat) -> Option<(Option<i64>, Map<i64, i64>)>
    decreases k, size(n), 1nat,
{
    match n.kind {
        NodeKind::NdExprStmt => match n.lhs {
            Some(l) => Some((None, value(*l, fp, mem).1)),
            None => None,
        },
        NodeKind::NdReturn => match n.lhs {
            Some(l) => Some((Some(value(*l, fp, mem).0), value(*l, fp, mem).1)),
            None => None,
        },
        NodeKind::NdBlock => run_list(n.body, fp, mem, k),
        NodeKind::NdIf => match (n.cond, n.then_stmt) {
            (Some(cd), Some(th)) => {
                let (v, m) = value(*cd, fp, mem);
                if v != 0 {
                    run_stmt(*th, fp, m, k)
                } else {
                    match n.els {
                        Some(e) => run_stmt(*e, fp, m, k),
                        None => Some((None, m)),
                    }
                }
            },
            _ => None,
        },
        NodeKind::NdFor => {
            let start = match n.init {
                Some(i) => run_stmt(*i, fp, mem, k),
                None => Some((None, mem)),
            };
            match start {
                Some((None, m)) => run_loop(n, fp, m, k),
                other => other,
            }
        },
        _ => None,
    }
}

/// The iterations of a loop after its initialisation, at most `k` of them.
pub open spec fn run_loop(n: NodeV, fp: i64, mem: Map<i64, i64>, k: nat) -> Option<(Option<i64>, Map<i64, i64>)>
    decreases k, size(n), 0nat,
{
    if k == 0 {
        None
    } else {
        let (v, m1) = match n.cond {
            Some(cd) => value(*cd, fp, mem),
            None => (1, mem),
        };
        if v == 0 {
            Some((None, m1))
        } else {
            match n.then_stmt {
                Some(th) => match run_stmt(*th, fp, m1, k) {
                    Some((None, m2)) => {
                        let m3 = match n.inc {
                            Some(ic) => value(*ic, fp, m2).1,
                            None => m2,
                        };
                        run_loop(n, fp, m3, (k - 1) as nat)
                    },
                    other => other,
                },
                None => None,
            }
        }
    }
}

/// `run_stmt` of the statements of a list, in order, until one returns.
pub open spec fn run_list(o: Option<Box<NodeV>>, fp: i64, mem: Map<i64, i64>, k: nat) -> Option<(Option<i64>, Map<i64, i64>)>
    decreases k, csize(o), 2nat,
{
    match o {
        Some(b) => match run_stmt(*b, fp, mem, k) {
            Some((None, m)) => run_list(b.next, fp, m, k),
            other => other,
        },
        None => Some((None, mem)),
    }
}

/// The code of a statement that the model covers is generated to its end when its
/// labels fit.
pub proof fn lemma_ctrl_gen(n: NodeV, c: int, regs: Seq<Reg>, f: Seq<char>)
    requires
        ctrl_stmt(n),
        0 <= c,
        c + labels(n) <= i32::MAX,
    ensures
        g_stmt(n, c, regs, Some(f)) matches Some((_, None)),
    decreases size(n), 2nat,
{
    match n.kind {
        NodeKind::NdExprStmt | NodeKind::NdReturn => {
            lemma_expr_code(*n.lhs.unwrap(), regs, Machine { a0: 0, a1: 0, fp: 0, stack: Seq::empty(), mem: Map::empty() });
        },
        NodeKind::NdBlock => {
            lemma_ctrl_gen_list(n.body, c, regs, f);
        },
        NodeKind::NdIf => {
            let th = *n.then_stmt.unwrap();
            lemma_expr_code(*n.cond.unwrap(), regs, Machine { a0: 0, a1: 0, fp: 0, stack: Seq::empty(), mem: Map::empty() });
            lemma_ctrl_gen(th, c + 1, regs, f);
            match n.els {
                Some(e) => {
                    lemma_ctrl_gen(*e, c + 1 + labels(th), regs, f);
                },
                None => {},
            }
        },
        NodeKind::NdFor => {
            match n.init {
                Some(i) => {
                    lemma_ctrl_gen(*i, c + 1, regs, f);
                },
                None => {},
            }
            lemma_ctrl_gen_loop(n, c, regs, f);
        },
        _ => {},
    }
}

/// `lemma_ctrl_gen` of the part of a loop after its initialisation.
proof fn lemma_ctrl_gen_loop(n: NodeV, c: int, regs: Seq<Reg>, f: Seq<char>)
    requires
        n.kind == NodeKind::NdFor,
        ctrl_stmt(n),
        0 <= c,
        c + labels(n) <= i32::MAX,
    ensures
        g_loop(n, c, regs, Some(f)) matches Some((_, None)),
    decreases size(n), 1nat,
{
    let s0 = Machine { a0: 0, a1: 0, fp: 0, stack: Seq::empty(), mem: Map::empty() };
    match n.cond {
        Some(cd) => {
            lemma_expr_code(*cd, regs, s0);
        },
        None => {},
    }
    match n.inc {
        Some(ic) => {
            lemma_expr_code(*ic, regs, s0);
        },
        None => {},
    }
    lemma_ctrl_gen(*n.then_stmt.unwrap(), c + 1 + labels_opt(n.init), regs, f);
}

/// `lemma_ctrl_gen` of a list.
proof fn lemma_ctrl_gen_list(o: Option<Box<NodeV>>, c: int, regs: Seq<Reg>, f: Seq<char>)
    requires
        ctrl_list(o),
        0 <= c,
        c + labels_list(o) <= i32::MAX,
    ensures
        g_list(o, c, regs, Some(f)) matches Some((_, None)),
    decreases csize(o), 3nat,
{
    match o {
        Some(b) => {
            lemma_ctrl_gen(*b, c, regs, f);
            lemma_ctrl_gen_list(b.next, c + labels(*b), regs, f);
        },
        None => {},
    }
}

/// Whether the machine, started on `code` with `s`, has ended at `fin` as statements
/// that gave `r` should: same frame and stack, the memory of `r`, and either at `end`
/// (the end of the statements' code) when they did not return, or at a jump to the
/// return label with the returned value in `a0` when they did.
pub open spec fn arrives(code: Seq<InsnV>, s: Machine, end: int, fin: (int, Machine), r: (Option<i64>, Map<i64, i64>)) -> bool {
    &&& fin.1.fp == s.fp
    &&& fin.1.stack == s.stack
    &&& fin.1.mem == r.1
    &&& match r.0 {
        None => fin.0 == end,
        Some(v) => 0 <= fin.0 < code.len() && code[fin.0] is JReturn && fin.1.a0 == v,
    }
}

/// The code of a statement, as generated.
pub open spec fn stmt_code(n: NodeV, c: int, regs: Seq<Reg>, f: Seq<char>) -> Seq<InsnV> {
    g_stmt(n, c, regs, Some(f)).unwrap().0
}

/// Whether `part` stands in `code` at `o`.
pub open spec fn placed(code: Seq<InsnV>, o: int, part: Seq<InsnV>) -> bool {
    &&& 0 <= o
    &&& o + part.len() <= code.len()
    &&& code.subrange(o, o + part.len()) == part
}

/// The pieces of placed code are placed one after the other.
proof fn lemma_placed_split(code: Seq<InsnV>, o: int, x: Seq<InsnV>, y: Seq<InsnV>)
    requires
        placed(code, o, x + y),
    ensures
        placed(code, o, x),
        placed(code, o + x.len(), y),
{
    let xy = x + y;
    let w = code.subrange(o, o + xy.len());
    assert forall|j: int| 0 <= j < x.len() implies code.subrange(o, o + x.len())[j] == x[j] by {
        assert(w[j] == code[o + j]);
        assert(xy[j] == x[j]);
    }
    assert(code.subrange(o, o + x.len()) =~= x);
    assert forall|j: int| 0 <= j < y.len() implies code.subrange(o + x.len(), o + x.len() + y.len())[j] == y[j] by {
        assert(w[x.len() + j] == code[o + x.len() + j]);
        assert(xy[x.len() + j] == y[j]);
    }
    assert(code.subrange(o + x.len(), o + x.len() + y.len()) =~= y);
}

/// The instruction at a place of placed code.
proof fn lemma_placed_at(code: Seq<InsnV>, o: int, part: Seq<InsnV>, j: int)
    requires
        placed(code, o, part),
        0 <= j < part.len(),
    ensures
        code[o + j] == part[j],
{
    assert(code.subrange(o, o + part.len())[j] == code[o + j]);
}

/// Running straight-line expression code placed in `code`.
proof fn lemma_expr_at(code: Seq<InsnV>, o: int, e: NodeV, regs: Seq<Reg>, s: Machine) -> (t: Machine)
    requires
        straight(e),
        placed(code, o, g_expr(e, regs).unwrap().0),
    ensures
        g_expr(e, regs) matches Some((_, None)),
        steps(code, o, s, g_expr(e, regs).unwrap().0.len()) == (o + g_expr(e, regs).unwrap().0.len(), t),
        t.a0 == value(e, s.fp, s.mem).0,
        t.mem == value(e, s.fp, s.mem).1,
        t.fp == s.fp,
        t.stack == s.stack,
{
    lemma_expr_code(e, regs, s);
    let ce = g_expr(e, regs).unwrap().0;
    lemma_straight_at(code, o, ce, s);
    run(ce, s).unwrap()
}

/// A step at an instruction that defines a label, or jumps to one.
proof fn lemma_step_label(code: Seq<InsnV>, pc: int, s: Machine)
    requires
        0 <= pc < code.len(),
        defined(code[pc]) is Some,
    ensures
        steps(code, pc, s, 1) == (pc + 1, s),
{
    lemma_steps_one(code, pc, s);
}

/// A jump to a label that `code` defines once, at `dest`.
proof fn lemma_step_jump(code: Seq<InsnV>, pc: int, s: Machine, dest: int)
    requires
        labels_unique(code),
        0 <= pc < code.len(),
        code[pc] is JEnd || code[pc] is JBegin || ((code[pc] is BeqzElse || code[pc] is BeqzEnd) && s.a0 == 0),
        0 <= dest < code.len(),
        defined(code[dest]) == target(code[pc]),
    ensures
        steps(code, pc, s, 1) == (dest, s),
{
    lemma_label_pos(code, dest);
    lemma_steps_one(code, pc, s);
}

/// A step over a mark that starts a statement.
proof fn lemma_step_mark(code: Seq<InsnV>, pc: int, s: Machine)
    requires
        0 <= pc < code.len(),
        code[pc] is IfStart || code[pc] is ForStart || code[pc] is ForBody || code[pc] is ForInc
            || code[pc] is ReturnStart,
    ensures
        steps(code, pc, s, 1) == (pc + 1, s),
{
    lemma_steps_one(code, pc, s);
}

/// A conditional branch not taken.
proof fn lemma_step_fall(code: Seq<InsnV>, pc: int, s: Machine)
    requires
        0 <= pc < code.len(),
        code[pc] is BeqzElse || code[pc] is BeqzEnd,
        s.a0 != 0,
    ensures
        steps(code, pc, s, 1) == (pc + 1, s),
{
    lemma_steps_one(code, pc, s);
}

/// The code of a statement does what the statement means, branches and loops
/// included: placed anywhere in code whose branch labels are unique, and run from its
/// first instruction with any machine state, it arrives, after finitely many steps, at
/// its end with the memory the statement leaves when the statement does not return, or
/// at a jump to the return label with the returned value in `a0` when it does; the
/// frame pointer and the stack are as it found them. (The statement's meaning is taken
/// with enough loop iterations for it to end.)
pub proof fn lemma_ctrl_code(
    n: NodeV,
    c: int,
    regs: Seq<Reg>,
    f: Seq<char>,
    code: Seq<InsnV>,
    o: int,
    s: Machine,
    k: nat,
) -> (m: nat)
    requires
        ctrl_stmt(n),
        0 <= c,
        c + labels(n) <= i32::MAX,
        labels_unique(code),
        placed(code, o, stmt_code(n, c, regs, f)),
        run_stmt(n, s.fp, s.mem, k) is Some,
    ensures
        g_stmt(n, c, regs, Some(f)) matches Some((_, None)),
        arrives(code, s, o + stmt_code(n, c, regs, f).len(), steps(code, o, s, m), run_stmt(n, s.fp, s.mem, k).unwrap()),
    decreases k, size(n), 2nat,
{
    lemma_ctrl_gen(n, c, regs, f);
    match n.kind {
        NodeKind::NdExprStmt => {
            let l = *n.lhs.unwrap();
            let t = lemma_expr_at(code, o, l, regs, s);
            g_expr(l, regs).unwrap().0.len()
        },
        NodeKind::NdReturn => {
            let l = *n.lhs.unwrap();
            let cl = g_expr(l, regs).unwrap().0;
            lemma_expr_code(l, regs, s);
            let j = seq![InsnV::JReturn { name: f }];
            let r0 = seq![InsnV::ReturnStart];
            assert(stmt_code(n, c, regs, f) == r0 + (cl + j));
            lemma_placed_split(code, o, r0, cl + j);
            lemma_placed_split(code, o + 1, cl, j);
            lemma_placed_at(code, o, r0, 0);
            lemma_step_mark(code, o, s);
            let t = lemma_expr_at(code, o + 1, l, regs, s);
            lemma_placed_at(code, o + 1 + cl.len(), j, 0);
            lemma_steps_add(code, o, s, 1, cl.len());
            1 + cl.len()
        },
        NodeKind::NdBlock => {
            lemma_ctrl_list(n.body, c, regs, f, code, o, s, k)
        },
        NodeKind::NdIf => {
            lemma_ctrl_if(n, c, regs, f, code, o, s, k)
        },
        _ => {
            lemma_ctrl_for(n, c, regs, f, code, o, s, k)
        },
    }
}

/// The code of a list of statements.
pub open spec fn list_code(o: Option<Box<NodeV>>, c: int, regs: Seq<Reg>, f: Seq<char>) -> Seq<InsnV> {
    g_list(o, c, regs, Some(f)).unwrap().0
}

/// `lemma_ctrl_code` of a list of statements.
proof fn lemma_ctrl_list(
    l: Option<Box<NodeV>>,
    c: int,
    regs: Seq<Reg>,
    f: Seq<char>,
    code: Seq<InsnV>,
    o: int,
    s: Machine,
    k: nat,
) -> (m: nat)
    requires
        ctrl_list(l),
        0 <= c,
        c + labels_list(l) <= i32::MAX,
        labels_unique(code),
        placed(code, o, list_code(l, c, regs, f)),
        run_list(l, s.fp, s.mem, k) is Some,
    ensures
        arrives(code, s, o + list_code(l, c, regs, f).len(), steps(code, o, s, m), run_list(l, s.fp, s.mem, k).unwrap()),
    decreases k, csize(l), 3nat,
{
    lemma_ctrl_gen_list(l, c, regs, f);
    match l {
        None => {
            0
        },
        Some(b) => {
            let cb = stmt_code(*b, c, regs, f);
            let c2 = c + labels(*b);
            lemma_ctrl_gen(*b, c, regs, f);
            lemma_ctrl_gen_list(b.next, c2, regs, f);
            let cr = list_code(b.next, c2, regs, f);
            assert(list_code(l, c, regs, f) == cb + cr);
            lemma_placed_split(code, o, cb, cr);
            let m1 = lemma_ctrl_code(*b, c, regs, f, code, o, s, k);
            let (p1, t1) = steps(code, o, s, m1);
            match run_stmt(*b, s.fp, s.mem, k).unwrap().0 {
                Some(_) => m1,
                None => {
                    let m2 = lemma_ctrl_list(b.next, c2, regs, f, code, o + cb.len(), t1, k);
                    lemma_steps_add(code, o, s, m1, m2);
                    m1 + m2
                },
            }
        },
    }
}

/// The code of an `if` after its mark.
pub open spec fn if_rest(n: NodeV, c: int, regs: Seq<Reg>, f: Seq<char>) -> Seq<InsnV> {
    stmt_code(n, c, regs, f).subrange(1, stmt_code(n, c, regs, f).len() as int)
}

/// `lemma_ctrl_code` of an `if`.
proof fn lemma_ctrl_if(
    n: NodeV,
    c: int,
    regs: Seq<Reg>,
    f: Seq<char>,
    code: Seq<InsnV>,
    o: int,
    s: Machine,
    k: nat,
) -> (m: nat)
    requires
        n.kind == NodeKind::NdIf,
        ctrl_stmt(n),
        0 <= c,
        c + labels(n) <= i32::MAX,
        labels_unique(code),
        placed(code, o, stmt_code(n, c, regs, f)),
        run_stmt(n, s.fp, s.mem, k) is Some,
    ensures
        arrives(code, s, o + stmt_code(n, c, regs, f).len(), steps(code, o, s, m), run_stmt(n, s.fp, s.mem, k).unwrap()),
    decreases k, size(n), 1nat,
{
    lemma_ctrl_gen(n, c, regs, f);
    let mark = seq![InsnV::IfStart { c: c as i32 }];
    let rest = if_rest(n, c, regs, f);
    assert(stmt_code(n, c, regs, f) =~= mark + rest);
    lemma_placed_split(code, o, mark, rest);
    lemma_placed_at(code, o, mark, 0);
    lemma_step_mark(code, o, s);
    let m1 = lemma_ctrl_if_rest(n, c, regs, f, code, o + 1, s, k);
    lemma_steps_add(code, o, s, 1, m1);
    1 + m1
}

/// `lemma_ctrl_if` after the mark.
proof fn lemma_ctrl_if_rest(
    n: NodeV,
    c: int,
    regs: Seq<Reg>,
    f: Seq<char>,
    code: Seq<InsnV>,
    o: int,
    s: Machine,
    k: nat,
) -> (m: nat)
    requires
        n.kind == NodeKind::NdIf,
        ctrl_stmt(n),
        0 <= c,
        c + labels(n) <= i32::MAX,
        labels_unique(code),
        placed(code, o, if_rest(n, c, regs, f)),
        run_stmt(n, s.fp, s.mem, k) is Some,
    ensures
        arrives(code, s, o + if_rest(n, c, regs, f).len(), steps(code, o, s, m), run_stmt(n, s.fp, s.mem, k).unwrap()),
    decreases k, size(n), 0nat,
{
    lemma_ctrl_gen(n, c, regs, f);
    let ci = c as i32;
    let cd = *n.cond.unwrap();
    let th = *n.then_stmt.unwrap();
    let lt = labels(th);
    lemma_ctrl_gen(th, c + 1, regs, f);
    lemma_expr_code(cd, regs, s);
    let cc = g_expr(cd, regs).unwrap().0;
    let bz = seq![InsnV::BeqzElse { c: ci }];
    let ct = stmt_code(th, c + 1, regs, f);
    let mm = seq![InsnV::JEnd { c: ci }, InsnV::LabelElse { c: ci }];
    let ce = match n.els {
        None => Seq::<InsnV>::empty(),
        Some(e) => stmt_code(*e, c + 1 + lt, regs, f),
    };
    match n.els {
        None => {},
        Some(e) => {
            lemma_ctrl_gen(*e, c + 1 + lt, regs, f);
        },
    }
    let z = seq![InsnV::LabelEnd { c: ci }];
    assert(stmt_code(n, c, regs, f) == seq![InsnV::IfStart { c: ci }] + ((cc + bz) + ((ct + mm) + (ce + z))));
    assert(if_rest(n, c, regs, f) =~= (cc + bz) + ((ct + mm) + (ce + z)));
    let pb = o + cc.len();
    let pt = pb + 1;
    let pj = pt + ct.len();
    let pl = pj + 1;
    let pe = pl + 1;
    let pz = pe + ce.len();
    lemma_placed_split(code, o, cc + bz, (ct + mm) + (ce + z));
    lemma_placed_split(code, o, cc, bz);
    lemma_placed_split(code, pt, ct + mm, ce + z);
    lemma_placed_split(code, pt, ct, mm);
    lemma_placed_split(code, pe, ce, z);
    lemma_placed_at(code, pb, bz, 0);
    lemma_placed_at(code, pj, mm, 0);
    lemma_placed_at(code, pj, mm, 1);
    lemma_placed_at(code, pz, z, 0);
    let t1 = lemma_expr_at(code, o, cd, regs, s);
    let a = cc.len();
    lemma_steps_add(code, o, s, a, 1);
    if t1.a0 != 0 {
        lemma_step_fall(code, pb, t1);
        let m2 = lemma_ctrl_code(th, c + 1, regs, f, code, pt, t1, k);
        lemma_steps_add(code, o, s, a + 1, m2);
        let t2 = steps(code, pt, t1, m2).1;
        if run_stmt(th, t1.fp, t1.mem, k).unwrap().0 is Some {
            a + 1 + m2
        } else {
            lemma_step_jump(code, pj, t2, pz);
            lemma_step_label(code, pz, t2);
            lemma_steps_add(code, o, s, a + 1 + m2, 1);
            lemma_steps_add(code, o, s, a + 1 + m2 + 1, 1);
            a + 1 + m2 + 2
        }
    } else {
        lemma_step_jump(code, pb, t1, pl);
        lemma_step_label(code, pl, t1);
        lemma_steps_add(code, o, s, a + 1, 1);
        match n.els {
            None => {
                lemma_step_label(code, pz, t1);
                lemma_steps_add(code, o, s, a + 2, 1);
                a + 3
            },
            Some(e) => {
                let m2 = lemma_ctrl_code(*e, c + 1 + lt, regs, f, code, pe, t1, k);
                lemma_steps_add(code, o, s, a + 2, m2);
                let t2 = steps(code, pe, t1, m2).1;
                if run_stmt(*e, t1.fp, t1.mem, k).unwrap().0 is Some {
                    a + 2 + m2
                } else {
                    lemma_step_label(code, pz, t2);
                    lemma_steps_add(code, o, s, a + 2 + m2, 1);
                    a + 3 + m2
                }
            },
        }
    }
}

/// The code of the part of a loop after its initialisation.
pub open spec fn loop_code(n: NodeV, c: int, regs: Seq<Reg>, f: Seq<char>) -> Seq<InsnV> {
    g_loop(n, c, regs, Some(f)).unwrap().0
}

/// `lemma_ctrl_code` of a loop.
proof fn lemma_ctrl_for(
    n: NodeV,
    c: int,
    regs: Seq<Reg>,
    f: Seq<char>,
    code: Seq<InsnV>,
    o: int,
    s: Machine,
    k: nat,
) -> (m: nat)
    requires
        n.kind == NodeKind::NdFor,
        ctrl_stmt(n),
        0 <= c,
        c + labels(n) <= i32::MAX,
        labels_unique(code),
        placed(code, o, stmt_code(n, c, regs, f)),
        run_stmt(n, s.fp, s.mem, k) is Some,
    ensures
        arrives(code, s, o + stmt_code(n, c, regs, f).len(), steps(code, o, s, m), run_stmt(n, s.fp, s.mem, k).unwrap()),
    decreases k, size(n), 1nat,
{
    lemma_ctrl_gen(n, c, regs, f);
    lemma_ctrl_gen_loop(n, c, regs, f);
    let ci_code = match n.init {
        None => Seq::<InsnV>::empty(),
        Some(i) => stmt_code(*i, c + 1, regs, f),
    };
    match n.init {
        None => {},
        Some(i) => {
            lemma_ctrl_gen(*i, c + 1, regs, f);
        },
    }
    let lc = loop_code(n, c, regs, f);
    let mark = seq![InsnV::ForStart { c: c as i32, init: n.init is Some }];
    assert(stmt_code(n, c, regs, f) == mark + (ci_code + lc));
    lemma_placed_split(code, o, mark, ci_code + lc);
    lemma_placed_at(code, o, mark, 0);
    lemma_step_mark(code, o, s);
    let o1 = o + 1;
    lemma_placed_split(code, o1, ci_code, lc);
    let p0 = o1 + ci_code.len();
    match n.init {
        None => {
            let m2 = lemma_ctrl_loop(n, c, regs, f, code, p0, s, k);
            lemma_steps_add(code, o, s, 1, m2);
            1 + m2
        },
        Some(i) => {
            let m1 = lemma_ctrl_code(*i, c + 1, regs, f, code, o1, s, k);
            lemma_steps_add(code, o, s, 1, m1);
            let t1 = steps(code, o1, s, m1).1;
            if run_stmt(*i, s.fp, s.mem, k).unwrap().0 is Some {
                1 + m1
            } else {
                let m2 = lemma_ctrl_loop(n, c, regs, f, code, p0, t1, k);
                lemma_steps_add(code, o, s, 1 + m1, m2);
                1 + m1 + m2
            }
        },
    }
}

/// `lemma_ctrl_code` of the iterations of a loop, from its begin label.
#[verifier::rlimit(60)]
proof fn lemma_ctrl_loop(
    n: NodeV,
    c: int,
    regs: Seq<Reg>,
    f: Seq<char>,
    code: Seq<InsnV>,
    p0: int,
    s: Machine,
    k: nat,
) -> (m: nat)
    requires
        n.kind == NodeKind::NdFor,
        ctrl_stmt(n),
        0 <= c,
        c + labels(n) <= i32::MAX,
        labels_unique(code),
        placed(code, p0, loop_code(n, c, regs, f)),
        run_loop(n, s.fp, s.mem, k) is Some,
    ensures
        arrives(code, s, p0 + loop_code(n, c, regs, f).len(), steps(code, p0, s, m), run_loop(n, s.fp, s.mem, k).unwrap()),
    decreases k, size(n), 0nat,
{
    lemma_ctrl_gen_loop(n, c, regs, f);
    let ci = c as i32;
    let c1 = c + 1 + labels_opt(n.init);
    let th = *n.then_stmt.unwrap();
    lemma_ctrl_gen(th, c1, regs, f);
    let b = seq![InsnV::LabelBegin { c: ci }];
    let cond_code = match n.cond {
        None => Seq::<InsnV>::empty(),
        Some(cd) => g_expr(*cd, regs).unwrap().0 + seq![InsnV::BeqzEnd { c: ci }],
    };
    let ct = stmt_code(th, c1, regs, f);
    let inc_code = match n.inc {
        None => Seq::<InsnV>::empty(),
        Some(ic) => seq![InsnV::ForInc { c: ci }] + g_expr(*ic, regs).unwrap().0,
    };
    let fb = seq![InsnV::ForBody { c: ci }];
    let z = seq![InsnV::JBegin { c: ci }, InsnV::LabelLoopEnd { c: ci }];
    let s0 = Machine { a0: 0, a1: 0, fp: 0, stack: Seq::empty(), mem: Map::empty() };
    match n.cond {
        Some(cd) => {
            lemma_expr_code(*cd, regs, s0);
        },
        None => {},
    }
    match n.inc {
        Some(ic) => {
            lemma_expr_code(*ic, regs, s0);
        },
        None => {},
    }
    assert(loop_code(n, c, regs, f) == b + (cond_code + (fb + (ct + (inc_code + z)))));
    let pc0 = p0 + 1;
    let pt = pc0 + cond_code.len();
    let ptb = pt + 1;
    let pi = ptb + ct.len();
    let pj = pi + inc_code.len();
    let pz = pj + 1;
    lemma_placed_split(code, p0, b, cond_code + (fb + (ct + (inc_code + z))));
    lemma_placed_split(code, pc0, cond_code, fb + (ct + (inc_code + z)));
    lemma_placed_split(code, pt, fb, ct + (inc_code + z));
    lemma_placed_split(code, ptb, ct, inc_code + z);
    lemma_placed_split(code, pi, inc_code, z);
    lemma_placed_at(code, pt, fb, 0);
    lemma_placed_at(code, p0, b, 0);
    lemma_placed_at(code, pj, z, 0);
    lemma_placed_at(code, pj, z, 1);
    lemma_step_label(code, p0, s);
    let (v, t1, m1) = match n.cond {
        None => (1i64, s, 1nat),
        Some(cd) => {
            let cc = g_expr(*cd, regs).unwrap().0;
            let bz = seq![InsnV::BeqzEnd { c: ci }];
            lemma_placed_split(code, pc0, cc, bz);
            lemma_placed_at(code, pc0 + cc.len(), bz, 0);
            let t = lemma_expr_at(code, pc0, *cd, regs, s);
            lemma_steps_add(code, p0, s, 1, cc.len());
            (t.a0, t, (1 + cc.len()) as nat)
        },
    };
    if v == 0 {
        let pb = pt - 1;
        lemma_step_jump(code, pb, t1, pz);
        lemma_step_label(code, pz, t1);
        lemma_steps_add(code, p0, s, m1, 1);
        lemma_steps_add(code, p0, s, m1 + 1, 1);
        m1 + 2
    } else {
        let m1b: nat = if n.cond is Some {
            lemma_step_fall(code, pt - 1, t1);
            lemma_steps_add(code, p0, s, m1, 1);
            m1 + 1
        } else {
            m1
        };
        lemma_step_mark(code, pt, t1);
        lemma_steps_add(code, p0, s, m1b, 1);
        let m1c: nat = m1b + 1;
        let m2 = lemma_ctrl_code(th, c1, regs, f, code, ptb, t1, k);
        lemma_steps_add(code, p0, s, m1c, m2);
        let t2 = steps(code, ptb, t1, m2).1;
        let m1b = m1c;
        if run_stmt(th, t1.fp, t1.mem, k).unwrap().0 is Some {
            m1b + m2
        } else {
            let (t3, m3) = match n.inc {
                None => (t2, 0nat),
                Some(ic) => {
                    let mk = seq![InsnV::ForInc { c: ci }];
                    let ce = g_expr(*ic, regs).unwrap().0;
                    lemma_placed_split(code, pi, mk, ce);
                    lemma_placed_at(code, pi, mk, 0);
                    lemma_step_mark(code, pi, t2);
                    let t = lemma_expr_at(code, pi + 1, *ic, regs, t2);
                    lemma_steps_add(code, pi, t2, 1, ce.len());
                    (t, inc_code.len())
                },
            };
            lemma_steps_add(code, p0, s, m1b + m2, m3);
            lemma_step_jump(code, pj, t3, p0);
            lemma_steps_add(code, p0, s, m1b + m2 + m3, 1);
            let m4 = lemma_ctrl_loop(n, c, regs, f, code, p0, t3, (k - 1) as nat);
            lemma_steps_add(code, p0, s, m1b + m2 + m3 + 1, m4);
            m1b + m2 + m3 + 1 + m4
        }
    }
}

/// A program of one function computes what its body means: when the function's frame
/// can be laid out and its body is made of statements the machine model covers, the
/// program's code is generated to its end, and the body's code, which starts after the
/// function's label and prologue, run from any machine state arrives at the return
/// label with the memory the body leaves when the body does not return, or at a jump
/// to the return label with the returned value in `a0` when it does.
pub proof fn lemma_program_body(f: FunctionV, s: Machine, k: nat) -> (m: nat)
    requires
        layout_ok(f),
        ctrl_stmt(laid_out_body(f)),
        1 + labels(laid_out_body(f)) <= i32::MAX,
        run_stmt(laid_out_body(f), s.fp, s.mem, k) is Some,
    ensures
        g_program(seq![f]) matches Some((code, None)) && arrives(
            code,
            s,
            3 + stmt_code(laid_out_body(f), 1, arg_regs(), f.name).len() as int,
            steps(code, 3, s, m),
            run_stmt(laid_out_body(f), s.fp, s.mem, k).unwrap(),
        ),
{
    let fs = seq![f];
    let regs = arg_regs();
    let body = laid_out_body(f);
    lemma_ctrl_gen(body, 1, regs, f.name);
    let cb = stmt_code(body, 1, regs, f.name);
    let head = seq![
        InsnV::Globl { name: f.name },
        InsnV::FuncLabel { name: f.name },
        InsnV::Prologue { stack_size: frame_size(f) as i32 },
    ];
    let tail = seq![InsnV::LabelReturn { name: f.name }, InsnV::Epilogue];
    assert(fs[0] == f);
    assert(g_funcs(fs, 1, 1 + labels(body) as int, regs) == emit(Seq::<InsnV>::empty()));
    let code = head + (cb + tail) + Seq::<InsnV>::empty();
    assert(g_program(fs) == Some((code, None::<crate::codegen::CodegenErrorV>)));
    lemma_program_labels(fs);
    assert(code =~= head + (cb + tail));
    lemma_placed_split_whole(code, head, cb + tail);
    lemma_placed_split(code, 3, cb, tail);
    lemma_ctrl_code(body, 1, regs, f.name, code, 3, s, k)
}

/// The pieces of a whole are placed in it.
proof fn lemma_placed_split_whole(code: Seq<InsnV>, x: Seq<InsnV>, y: Seq<InsnV>)
    requires
        code == x + y,
    ensures
        placed(code, x.len() as int, y),
{
    assert(code.subrange(0, code.len() as int) =~= code);
    lemma_placed_split(code, 0, x, y);
}

} // verus!
