//! Branch labels: each `if` and each loop of a program gets labels of its own, so that
//! no label is defined twice in the generated code, and every branch jumps to a label
//! that the code defines.
use vstd::prelude::*;
use crate::ast::{NodeKind, NodeV, FunctionV, size, csize};
use crate::codegen::{Gen, InsnV, Reg, CodegenErrorV, cat, emit, g_addr, g_expr, g_args, g_stmt, g_loop, g_list, g_func, g_funcs, g_program, laid_out_body, layout_ok, labels, labels_opt, labels_list, pops, binop_code};

verus! {

/// The branch label that an instruction defines, as its kind (`0` for else, `1` for
/// end, `2` for begin) and its number.
pub open spec fn defined(i: InsnV) -> Option<(int, int)> {
    match i {
        InsnV::LabelElse { c } => Some((0, c as int)),
        InsnV::LabelEnd { c } => Some((1, c as int)),
        InsnV::LabelBegin { c } => Some((2, c as int)),
        InsnV::LabelLoopEnd { c } => Some((1, c as int)),
        _ => None,
    }
}

/// Whether no branch label is defined twice in `code`.
pub open spec fn labels_unique(code: Seq<InsnV>) -> bool {
    forall|j: int, k: int| 0 <= j < k < code.len() && (#[trigger] defined(code[j])) is Some ==> defined(
        code[j],
    ) != #[trigger] defined(code[k])
}

/// Code that defines no branch label and jumps to none.
pub open spec fn no_labels(code: Seq<InsnV>) -> bool {
    forall|k: int| 0 <= k < code.len() ==> defined(#[trigger] code[k]) is None && target(code[k]) is None
}

/// Joining two pieces of code without labels gives code without labels.
proof fn lemma_plain_cat(a: Option<Gen>, b: Option<Gen>)
    requires
        a matches Some((ca, _)) ==> no_labels(ca),
        b matches Some((cb, _)) ==> no_labels(cb),
    ensures
        cat(a, b) matches Some((c, _)) ==> no_labels(c),
{
    match (a, b) {
        (Some((ca, None)), Some((cb, _))) => {
            let c = ca + cb;
            assert forall|k: int| 0 <= k < c.len() implies (#[trigger] defined(c[k])) is None by {
                if k < ca.len() {
                    assert(c[k] == ca[k]);
                } else {
                    assert(c[k] == cb[k - ca.len()]);
                }
            }
        },
        _ => {},
    }
}

/// Code that defines no label, as a generation result.
pub open spec fn plain(g: Option<Gen>) -> bool {
    g matches Some((c, _)) ==> no_labels(c)
}

/// The code of an expression, and that of an address, defines no branch label.
proof fn lemma_expr_no_labels(n: NodeV, regs: Seq<Reg>)
    ensures
        plain(g_expr(n, regs)),
        plain(g_addr(n, regs)),
    decreases size(n), 1nat,
{
    match n.lhs {
        Some(l) => lemma_expr_no_labels(*l, regs),
        None => {},
    }
    match n.rhs {
        Some(r) => lemma_expr_no_labels(*r, regs),
        None => {},
    }
    match n.kind {
        NodeKind::NdNum | NodeKind::NdVar | NodeKind::NdDeref | NodeKind::NdNeg | NodeKind::NdAddr => {
            assert(no_labels(seq![InsnV::Load]));
            assert(no_labels(seq![InsnV::Neg]));
            if n.kind == NodeKind::NdVar {
                lemma_plain_cat(g_addr(n, regs), emit(seq![InsnV::Load]));
            }
            match n.lhs {
                Some(l) => {
                    lemma_plain_cat(g_expr(*l, regs), emit(seq![InsnV::Load]));
                    lemma_plain_cat(g_expr(*l, regs), emit(seq![InsnV::Neg]));
                },
                None => {},
            }
        },
        NodeKind::NdAssign => {
            match n.lhs {
                Some(l) => {
                    assert(no_labels(seq![InsnV::Push]));
                    assert(no_labels(seq![InsnV::Pop { reg: Reg::A1 }, InsnV::Store]));
                    lemma_plain_cat(g_addr(*l, regs), emit(seq![InsnV::Push]));
                    match n.rhs {
                        Some(r) => {
                            lemma_plain_cat(g_expr(*r, regs), emit(seq![InsnV::Pop { reg: Reg::A1 }, InsnV::Store]));
                            lemma_plain_cat(
                                cat(g_addr(*l, regs), emit(seq![InsnV::Push])),
                                cat(g_expr(*r, regs), emit(seq![InsnV::Pop { reg: Reg::A1 }, InsnV::Store])),
                            );
                        },
                        None => {
                            lemma_plain_cat(cat(g_addr(*l, regs), emit(seq![InsnV::Push])), None);
                        },
                    }
                },
                None => {},
            }
        },
        NodeKind::NdFuncall => {
            lemma_args_no_labels(n.args, regs);
            match g_args(n.args, regs) {
                Some((ia, None, k)) => {
                    if k <= regs.len() {
                        lemma_pops_no_labels(k, regs);
                        let c = ia + pops(k, regs) + seq![InsnV::Call { name: n.funcname }];
                        assert forall|j: int| 0 <= j < c.len() implies (#[trigger] defined(c[j])) is None by {
                            if j < ia.len() {
                                assert(c[j] == ia[j]);
                            } else if j < ia.len() + pops(k, regs).len() {
                                assert(c[j] == pops(k, regs)[j - ia.len()]);
                            }
                        }
                    }
                },
                _ => {},
            }
        },
        _ => {
            match (n.lhs, n.rhs) {
                (Some(l), Some(r)) => {
                    assert(no_labels(seq![InsnV::Push]));
                    assert(no_labels(seq![InsnV::Pop { reg: Reg::A1 }]));
                    let tail = match binop_code(n.kind) {
                        Some(code) => emit(code),
                        None => Some((Seq::<InsnV>::empty(), Some(CodegenErrorV::InvalidExpression { loc: n.tokloc }))),
                    };
                    assert(plain(tail));
                    lemma_plain_cat(g_expr(*l, regs), emit(seq![InsnV::Pop { reg: Reg::A1 }]));
                    lemma_plain_cat(cat(g_expr(*l, regs), emit(seq![InsnV::Pop { reg: Reg::A1 }])), tail);
                    lemma_plain_cat(g_expr(*r, regs), emit(seq![InsnV::Push]));
                    lemma_plain_cat(
                        cat(g_expr(*r, regs), emit(seq![InsnV::Push])),
                        cat(cat(g_expr(*l, regs), emit(seq![InsnV::Pop { reg: Reg::A1 }])), tail),
                    );
                },
                (None, Some(r)) => {
                    lemma_plain_cat(g_expr(*r, regs), emit(seq![InsnV::Push]));
                    lemma_plain_cat(cat(g_expr(*r, regs), emit(seq![InsnV::Push])), None);
                },
                _ => {},
            }
        },
    }
}

/// The code of call arguments defines no branch label.
proof fn lemma_args_no_labels(o: Option<Box<NodeV>>, regs: Seq<Reg>)
    ensures
        g_args(o, regs) matches Some((code, _, _)) ==> no_labels(code),
    decreases csize(o), 2nat,
{
    match o {
        Some(a) => {
            lemma_expr_no_labels(*a, regs);
            lemma_args_no_labels(a.next, regs);
            assert(no_labels(seq![InsnV::Push]));
            lemma_plain_cat(g_expr(*a, regs), emit(seq![InsnV::Push]));
            match cat(g_expr(*a, regs), emit(seq![InsnV::Push])) {
                Some((ia, None)) => match g_args(a.next, regs) {
                    Some((ib, _, _)) => {
                        let c = ia + ib;
                        assert forall|j: int| 0 <= j < c.len() implies (#[trigger] defined(c[j])) is None by {
                            if j < ia.len() {
                                assert(c[j] == ia[j]);
                            } else {
                                assert(c[j] == ib[j - ia.len()]);
                            }
                        }
                    },
                    None => {},
                },
                _ => {},
            }
        },
        None => {},
    }
}

/// Pops define no branch label.
proof fn lemma_pops_no_labels(n: nat, regs: Seq<Reg>)
    ensures
        no_labels(pops(n, regs)),
    decreases n,
{
    if n > 0 {
        lemma_pops_no_labels((n - 1) as nat, regs);
    }
}

/// Whether every branch label that `code` defines is in `set`.
pub open spec fn defs_in(code: Seq<InsnV>, set: Set<(int, int)>) -> bool {
    forall|k: int| 0 <= k < code.len() && (#[trigger] defined(code[k])) is Some ==> set.contains(
        defined(code[k]).unwrap(),
    )
}

/// The labels numbered `lo .. hi`, of any kind.
pub open spec fn numbered(lo: int, hi: int) -> Set<(int, int)> {
    Set::new(|l: (int, int)| lo <= l.1 < hi)
}

/// Whether generation gave code whose labels are all in `set` and none defined twice.
pub open spec fn labels_ok(g: Option<Gen>, set: Set<(int, int)>) -> bool {
    g matches Some((code, _)) ==> defs_in(code, set) && labels_unique(code)
}

/// Joining code whose labels are in disjoint sets: the labels of the whole are in
/// their union, and none is defined twice.
proof fn lemma_cat_labels(a: Option<Gen>, b: Option<Gen>, sa: Set<(int, int)>, sb: Set<(int, int)>)
    requires
        labels_ok(a, sa),
        labels_ok(b, sb),
        sa.disjoint(sb),
    ensures
        labels_ok(cat(a, b), sa + sb),
{
    match (a, b) {
        (Some((ca, None)), Some((cb, _))) => {
            let c = ca + cb;
            assert forall|k: int| 0 <= k < c.len() && (#[trigger] defined(c[k])) is Some implies (sa
                + sb).contains(defined(c[k]).unwrap()) by {
                if k < ca.len() {
                    assert(c[k] == ca[k]);
                } else {
                    assert(c[k] == cb[k - ca.len()]);
                }
            }
            assert forall|j: int, k: int| 0 <= j < k < c.len() && (#[trigger] defined(c[j])) is Some implies defined(
                c[j],
            ) != #[trigger] defined(c[k]) by {
                if k < ca.len() {
                    assert(c[j] == ca[j] && c[k] == ca[k]);
                } else if j >= ca.len() {
                    assert(c[j] == cb[j - ca.len()] && c[k] == cb[k - ca.len()]);
                } else {
                    assert(c[j] == ca[j] && c[k] == cb[k - ca.len()]);
                    if defined(c[k]) is Some {
                        assert(sa.contains(defined(c[j]).unwrap()));
                        assert(sb.contains(defined(c[k]).unwrap()));
                    }
                }
            }
        },
        _ => {},
    }
}

/// A larger set of labels.
proof fn lemma_labels_weaken(g: Option<Gen>, s1: Set<(int, int)>, s2: Set<(int, int)>)
    requires
        labels_ok(g, s1),
        s1.subset_of(s2),
    ensures
        labels_ok(g, s2),
{
}

/// Code without labels, as a generation result, has its labels in any set.
proof fn lemma_plain_labels(g: Option<Gen>)
    requires
        plain(g),
    ensures
        labels_ok(g, Set::empty()),
{
}

/// Emitted code whose labels are in `set`, none of them twice.
proof fn lemma_emit_labels(code: Seq<InsnV>, set: Set<(int, int)>)
    requires
        forall|k: int| 0 <= k < code.len() ==> (#[trigger] defined(code[k])) is None || set.contains(
            defined(code[k]).unwrap(),
        ),
        forall|j: int, k: int| 0 <= j < k < code.len() ==> (#[trigger] defined(code[j])) is None
            || defined(code[j]) != #[trigger] defined(code[k]),
    ensures
        labels_ok(emit(code), set),
{
}

/// A mark before generated code changes none of its labels.
proof fn lemma_mark_labels(mark: InsnV, g: Option<Gen>, set: Set<(int, int)>)
    requires
        defined(mark) is None,
        labels_ok(g, set),
    ensures
        labels_ok(cat(emit(seq![mark]), g), set),
{
    lemma_emit_labels(seq![mark], Set::empty());
    assert(Set::<(int, int)>::empty().disjoint(set));
    lemma_cat_labels(emit(seq![mark]), g, Set::empty(), set);
    lemma_labels_weaken(cat(emit(seq![mark]), g), Set::empty() + set, set);
}

/// The code of an expression statement or a `return` defines and jumps to no label.
proof fn lemma_simple_stmt_plain(n: NodeV, c: int, regs: Seq<Reg>, f: Option<Seq<char>>)
    requires
        n.kind == NodeKind::NdExprStmt || n.kind == NodeKind::NdReturn,
        n.lhs is Some,
    ensures
        plain(g_stmt(n, c, regs, f)),
{
    let l = *n.lhs.unwrap();
    lemma_expr_no_labels(l, regs);
    let jr = match f {
        Some(name) => emit(seq![InsnV::JReturn { name: name }]),
        None => None,
    };
    match f {
        Some(name) => {
            assert(no_labels(seq![InsnV::JReturn { name: name }]));
        },
        None => {},
    }
    lemma_plain_cat(g_expr(l, regs), jr);
    assert(no_labels(seq![InsnV::ReturnStart]));
    lemma_plain_cat(emit(seq![InsnV::ReturnStart]), cat(g_expr(l, regs), jr));
}

/// A condition followed by a conditional jump defines no label.
proof fn lemma_cond_labels(cd: NodeV, regs: Seq<Reg>, jump: Seq<InsnV>)
    requires
        jump.len() == 1,
        defined(jump[0]) is None,
    ensures
        labels_ok(cat(g_expr(cd, regs), emit(jump)), Set::empty()),
{
    lemma_expr_no_labels(cd, regs);
    lemma_plain_labels(g_expr(cd, regs));
    lemma_emit_labels(jump, Set::empty());
    assert(Set::<(int, int)>::empty().disjoint(Set::<(int, int)>::empty()));
    lemma_cat_labels(g_expr(cd, regs), emit(jump), Set::empty(), Set::empty());
    lemma_labels_weaken(cat(g_expr(cd, regs), emit(jump)), Set::empty() + Set::empty(), Set::empty());
}

/// The branch labels of a statement's code: generated with its first label numbered
/// `c`, the code of `n` defines labels numbered within `c .. c + labels(n)` only, and
/// no label twice. So the labels of the statements of a function, numbered one after
/// the other, never clash.
pub proof fn lemma_stmt_labels(n: NodeV, c: int, regs: Seq<Reg>, f: Option<Seq<char>>)
    requires
        0 <= c,
    ensures
        labels_ok(g_stmt(n, c, regs, f), numbered(c, c + labels(n))),
    decreases size(n), 2nat,
{
    let target = numbered(c, c + labels(n));
    match n.kind {
        NodeKind::NdExprStmt | NodeKind::NdReturn => {
            match n.lhs {
                Some(l) => {
                    lemma_simple_stmt_plain(n, c, regs, f);
                    lemma_plain_labels(g_stmt(n, c, regs, f));
                },
                None => {},
            }
        },
        NodeKind::NdBlock => {
            lemma_list_labels(n.body, c, regs, f);
        },
        NodeKind::NdIf => {
            if c < i32::MAX {
                lemma_if_labels(n, c, regs, f);
            }
        },
        NodeKind::NdFor => {
            if c < i32::MAX {
                lemma_for_labels(n, c, regs, f);
            }
        },
        _ => {},
    }
}

/// `lemma_stmt_labels` of an `if`.
proof fn lemma_if_labels(n: NodeV, c: int, regs: Seq<Reg>, f: Option<Seq<char>>)
    requires
        0 <= c < i32::MAX,
        n.kind == NodeKind::NdIf,
    ensures
        labels_ok(g_stmt(n, c, regs, f), numbered(c, c + labels(n))),
    decreases size(n), 1nat,
{
    let ci = c as i32;
    match (n.cond, n.then_stmt) {
        (Some(cd), Some(th)) => {
            let lt = labels(*th);
            let le = labels_opt(n.els);
            let a = cat(g_expr(*cd, regs), emit(seq![InsnV::BeqzElse { c: ci }]));
            lemma_cond_labels(*cd, regs, seq![InsnV::BeqzElse { c: ci }]);
            lemma_stmt_labels(*th, c + 1, regs, f);
            let m = seq![InsnV::JEnd { c: ci }, InsnV::LabelElse { c: ci }];
            assert(defined(m[0]) is None && defined(m[1]) == Some((0int, c)));
            lemma_emit_labels(m, set![(0int, c)]);
            let r1 = numbered(c + 1, c + 1 + lt);
            assert(r1.disjoint(set![(0int, c)]));
            lemma_cat_labels(g_stmt(*th, c + 1, regs, f), emit(m), r1, set![(0int, c)]);
            let tm = cat(g_stmt(*th, c + 1, regs, f), emit(m));
            let r2 = numbered(c + 1 + lt, c + 1 + lt + le);
            let e = match n.els {
                None => emit(Seq::empty()),
                Some(e) => g_stmt(*e, c + 1 + lt, regs, f),
            };
            match n.els {
                None => {
                    lemma_emit_labels(Seq::empty(), r2);
                },
                Some(el) => {
                    lemma_stmt_labels(*el, c + 1 + lt, regs, f);
                },
            }
            let z = seq![InsnV::LabelEnd { c: ci }];
            assert(defined(z[0]) == Some((1int, c)));
            lemma_emit_labels(z, set![(1int, c)]);
            assert(r2.disjoint(set![(1int, c)]));
            lemma_cat_labels(e, emit(z), r2, set![(1int, c)]);
            let ez = cat(e, emit(z));
            let s1 = r1 + set![(0int, c)];
            let s2 = r2 + set![(1int, c)];
            assert(s1.disjoint(s2));
            lemma_cat_labels(tm, ez, s1, s2);
            assert(Set::<(int, int)>::empty().disjoint(s1 + s2));
            lemma_cat_labels(a, cat(tm, ez), Set::empty(), s1 + s2);
            assert((Set::<(int, int)>::empty() + (s1 + s2)).subset_of(numbered(c, c + labels(n))));
            lemma_labels_weaken(cat(a, cat(tm, ez)), Set::empty() + (s1 + s2), numbered(c, c + labels(n)));
            lemma_mark_labels(InsnV::IfStart { c: ci }, cat(a, cat(tm, ez)), numbered(c, c + labels(n)));
            assert(g_stmt(n, c, regs, f) == cat(emit(seq![InsnV::IfStart { c: ci }]), cat(a, cat(tm, ez))));
        },
        (Some(cd), None) => {
            let a = cat(g_expr(*cd, regs), emit(seq![InsnV::BeqzElse { c: ci }]));
            lemma_cond_labels(*cd, regs, seq![InsnV::BeqzElse { c: ci }]);
            assert(Set::<(int, int)>::empty().disjoint(Set::<(int, int)>::empty()));
            lemma_cat_labels(a, None, Set::empty(), Set::empty());
            lemma_labels_weaken(cat(a, None), Set::empty() + Set::empty(), numbered(c, c + labels(n)));
            lemma_mark_labels(InsnV::IfStart { c: ci }, cat(a, None), numbered(c, c + labels(n)));
        },
        _ => {},
    }
}

/// `lemma_stmt_labels` of a loop.
proof fn lemma_for_labels(n: NodeV, c: int, regs: Seq<Reg>, f: Option<Seq<char>>)
    requires
        0 <= c < i32::MAX,
        n.kind == NodeKind::NdFor,
    ensures
        labels_ok(g_stmt(n, c, regs, f), numbered(c, c + labels(n))),
    decreases size(n), 1nat,
{
    let li = labels_opt(n.init);
    let c1 = c + 1 + li;
    let init = match n.init {
        None => emit(Seq::empty()),
        Some(i) => g_stmt(*i, c + 1, regs, f),
    };
    let ri = numbered(c + 1, c1);
    match n.init {
        None => {
            lemma_emit_labels(Seq::empty(), ri);
        },
        Some(i) => {
            lemma_stmt_labels(*i, c + 1, regs, f);
        },
    }
    lemma_loop_labels(n, c, regs, f);
    let sl = set![(2int, c), (1int, c)] + numbered(c1, c1 + labels_opt(n.then_stmt));
    assert(ri.disjoint(sl));
    lemma_cat_labels(init, g_loop(n, c, regs, f), ri, sl);
    assert((ri + sl).subset_of(numbered(c, c + labels(n))));
    lemma_labels_weaken(cat(init, g_loop(n, c, regs, f)), ri + sl, numbered(c, c + labels(n)));
    let mark = InsnV::ForStart { c: c as i32, init: n.init is Some };
    lemma_mark_labels(mark, cat(init, g_loop(n, c, regs, f)), numbered(c, c + labels(n)));
    assert(g_stmt(n, c, regs, f) == cat(emit(seq![mark]), cat(init, g_loop(n, c, regs, f))));
}

/// The labels of the part of a loop after its initialisation: its begin and end
/// labels, numbered `c`, and those of its body.
proof fn lemma_loop_labels(n: NodeV, c: int, regs: Seq<Reg>, f: Option<Seq<char>>)
    requires
        0 <= c < i32::MAX,
        n.kind == NodeKind::NdFor,
    ensures
        labels_ok(
            g_loop(n, c, regs, f),
            set![(2int, c), (1int, c)] + numbered(
                c + 1 + labels_opt(n.init),
                c + 1 + labels_opt(n.init) + labels_opt(n.then_stmt),
            ),
        ),
    decreases size(n), 0nat,
{
    let ci = c as i32;
    let c1 = c + 1 + labels_opt(n.init);
    let b = seq![InsnV::LabelBegin { c: ci }];
    assert(defined(b[0]) == Some((2int, c)));
    lemma_emit_labels(b, set![(2int, c)]);
    let cond = match n.cond {
        None => emit(Seq::empty()),
        Some(cd) => cat(g_expr(*cd, regs), emit(seq![InsnV::BeqzEnd { c: ci }])),
    };
    match n.cond {
        None => {
            lemma_emit_labels(Seq::empty(), Set::empty());
        },
        Some(cd) => {
            lemma_cond_labels(*cd, regs, seq![InsnV::BeqzEnd { c: ci }]);
        },
    }
    match n.then_stmt {
        None => {
            assert(Set::<(int, int)>::empty().disjoint(Set::<(int, int)>::empty()));
            lemma_cat_labels(cond, None, Set::empty(), Set::empty());
            assert(set![(2int, c)].disjoint(Set::<(int, int)>::empty() + Set::<(int, int)>::empty()));
            lemma_cat_labels(emit(b), cat(cond, None), set![(2int, c)], Set::empty() + Set::empty());
            lemma_labels_weaken(
                g_loop(n, c, regs, f),
                set![(2int, c)] + (Set::empty() + Set::empty()),
                set![(2int, c), (1int, c)] + numbered(c1, c1 + labels_opt(n.then_stmt)),
            );
        },
        Some(th) => {
            let lt = labels(*th);
            lemma_stmt_labels(*th, c1, regs, f);
            let inc = match n.inc {
                None => emit(Seq::empty()),
                Some(ic) => cat(emit(seq![InsnV::ForInc { c: ci }]), g_expr(*ic, regs)),
            };
            match n.inc {
                None => {},
                Some(ic) => {
                    lemma_expr_no_labels(*ic, regs);
                    assert(no_labels(seq![InsnV::ForInc { c: ci }]));
                    lemma_plain_cat(emit(seq![InsnV::ForInc { c: ci }]), g_expr(*ic, regs));
                },
            }
            lemma_plain_labels(inc);
            let z = seq![InsnV::JBegin { c: ci }, InsnV::LabelLoopEnd { c: ci }];
            assert(defined(z[0]) is None && defined(z[1]) == Some((1int, c)));
            lemma_emit_labels(z, set![(1int, c)]);
            assert(Set::<(int, int)>::empty().disjoint(set![(1int, c)]));
            lemma_cat_labels(inc, emit(z), Set::empty(), set![(1int, c)]);
            let tail = cat(inc, emit(z));
            let rt = numbered(c1, c1 + lt);
            let st = Set::<(int, int)>::empty() + set![(1int, c)];
            assert(rt.disjoint(st));
            lemma_cat_labels(g_stmt(*th, c1, regs, f), tail, rt, st);
            let body0 = cat(g_stmt(*th, c1, regs, f), tail);
            lemma_mark_labels(InsnV::ForBody { c: ci }, body0, rt + st);
            let body = cat(emit(seq![InsnV::ForBody { c: ci }]), body0);
            assert(Set::<(int, int)>::empty().disjoint(rt + st));
            lemma_cat_labels(cond, body, Set::empty(), rt + st);
            let s3 = Set::<(int, int)>::empty() + (rt + st);
            assert(set![(2int, c)].disjoint(s3));
            lemma_cat_labels(emit(b), cat(cond, body), set![(2int, c)], s3);
            assert((set![(2int, c)] + s3).subset_of(set![(2int, c), (1int, c)] + numbered(c1, c1 + lt)));
            lemma_labels_weaken(
                g_loop(n, c, regs, f),
                set![(2int, c)] + s3,
                set![(2int, c), (1int, c)] + numbered(c1, c1 + labels_opt(n.then_stmt)),
            );
        },
    }
}

/// `lemma_stmt_labels` of the statements of a list.
proof fn lemma_list_labels(o: Option<Box<NodeV>>, c: int, regs: Seq<Reg>, f: Option<Seq<char>>)
    requires
        0 <= c,
    ensures
        labels_ok(g_list(o, c, regs, f), numbered(c, c + labels_list(o))),
    decreases csize(o), 3nat,
{
    match o {
        None => {
            lemma_emit_labels(Seq::empty(), numbered(c, c));
        },
        Some(b) => {
            let lb = labels(*b);
            lemma_stmt_labels(*b, c, regs, f);
            lemma_list_labels(b.next, c + lb, regs, f);
            let r1 = numbered(c, c + lb);
            let r2 = numbered(c + lb, c + lb + labels_list(b.next));
            assert(r1.disjoint(r2));
            lemma_cat_labels(g_stmt(*b, c, regs, f), g_list(b.next, c + lb, regs, f), r1, r2);
            assert((r1 + r2).subset_of(numbered(c, c + labels_list(o))));
            lemma_labels_weaken(g_list(o, c, regs, f), r1 + r2, numbered(c, c + labels_list(o)));
        },
    }
}

/// The number of branch labels of the functions of `fs` from index `i` on.
pub open spec fn funcs_labels(fs: Seq<FunctionV>, i: int) -> nat
    decreases fs.len() - i,
{
    if i < 0 || i >= fs.len() {
        0
    } else {
        labels(laid_out_body(fs[i])) + funcs_labels(fs, i + 1)
    }
}

/// `lemma_program_labels` of the functions from index `i` on, numbered from `c`.
proof fn lemma_funcs_labels(fs: Seq<FunctionV>, i: int, c: int, regs: Seq<Reg>)
    requires
        0 <= c,
    ensures
        labels_ok(g_funcs(fs, i, c, regs), numbered(c, c + funcs_labels(fs, i))),
    decreases fs.len() - i,
{
    if i < 0 || i >= fs.len() {
        lemma_emit_labels(Seq::empty(), numbered(c, c));
    } else {
        let f = fs[i];
        let lf = labels(laid_out_body(f));
        if layout_ok(f) {
            let head = seq![
                InsnV::Globl { name: f.name },
                InsnV::FuncLabel { name: f.name },
                InsnV::Prologue { stack_size: crate::codegen::frame_size(f) as i32 },
            ];
            let tail = seq![InsnV::LabelReturn { name: f.name }, InsnV::Epilogue];
            assert(no_labels(head));
            assert(no_labels(tail));
            lemma_plain_labels(emit(head));
            lemma_plain_labels(emit(tail));
            lemma_stmt_labels(laid_out_body(f), c, regs, Some(f.name));
            let rb = numbered(c, c + lf);
            assert(rb.disjoint(Set::<(int, int)>::empty()));
            lemma_cat_labels(g_stmt(laid_out_body(f), c, regs, Some(f.name)), emit(tail), rb, Set::empty());
            assert(Set::<(int, int)>::empty().disjoint(rb + Set::empty()));
            lemma_cat_labels(
                emit(head),
                cat(g_stmt(laid_out_body(f), c, regs, Some(f.name)), emit(tail)),
                Set::empty(),
                rb + Set::empty(),
            );
            lemma_labels_weaken(g_func(f, c, regs), Set::empty() + (rb + Set::empty()), rb);
        }
        lemma_funcs_labels(fs, i + 1, c + lf, regs);
        let rb = numbered(c, c + lf);
        let rn = numbered(c + lf, c + lf + funcs_labels(fs, i + 1));
        assert(rb.disjoint(rn));
        lemma_cat_labels(g_func(f, c, regs), g_funcs(fs, i + 1, c + lf, regs), rb, rn);
        assert((rb + rn).subset_of(numbered(c, c + funcs_labels(fs, i))));
        lemma_labels_weaken(g_funcs(fs, i, c, regs), rb + rn, numbered(c, c + funcs_labels(fs, i)));
    }
}

/// Branch labels never clash in a program: in the code of a whole program, with labels
/// numbered from 1 across its functions, no branch label is defined twice, and each is
/// numbered from 1 up to the number of `if`s and loops in the program. When the code
/// is generated to its end, every branch jump lands on a label that the code defines,
/// so each jump has exactly one destination.
pub proof fn lemma_program_labels(fs: Seq<FunctionV>)
    ensures
        g_program(fs) matches Some((code, _)) ==> labels_unique(code) && defs_in(
            code,
            numbered(1, 1 + funcs_labels(fs, 0) as int),
        ),
        g_program(fs) matches Some((code, None)) ==> targets(code).subset_of(defs(code)),
{
    lemma_funcs_labels(fs, 0, 1, crate::codegen::arg_regs());
    lemma_funcs_closed(fs, 0, 1, crate::codegen::arg_regs());
}

/// The branch label that an instruction jumps to, as `defined` names labels.
pub open spec fn target(i: InsnV) -> Option<(int, int)> {
    match i {
        InsnV::BeqzElse { c } => Some((0, c as int)),
        InsnV::BeqzEnd { c } | InsnV::JEnd { c } => Some((1, c as int)),
        InsnV::JBegin { c } => Some((2, c as int)),
        _ => None,
    }
}

/// The branch labels that `code` defines.
pub open spec fn defs(code: Seq<InsnV>) -> Set<(int, int)> {
    Set::new(|l: (int, int)| exists|k: int| 0 <= k < code.len() && #[trigger] defined(code[k]) == Some(l))
}

/// The branch labels that `code` jumps to.
pub open spec fn targets(code: Seq<InsnV>) -> Set<(int, int)> {
    Set::new(|l: (int, int)| exists|k: int| 0 <= k < code.len() && #[trigger] target(code[k]) == Some(l))
}

/// The labels that two pieces of code define, and jump to, one after the other.
proof fn lemma_defs_targets_append(a: Seq<InsnV>, b: Seq<InsnV>)
    ensures
        defs(a + b) == defs(a) + defs(b),
        targets(a + b) == targets(a) + targets(b),
{
    let ab = a + b;
    assert forall|l: (int, int)| defs(ab).contains(l) <==> (defs(a) + defs(b)).contains(l) by {
        if defs(ab).contains(l) {
            let k = choose|k: int| 0 <= k < ab.len() && #[trigger] defined(ab[k]) == Some(l);
            if k < a.len() {
                assert(ab[k] == a[k]);
            } else {
                assert(ab[k] == b[k - a.len()]);
            }
        }
        if defs(a).contains(l) {
            let k = choose|k: int| 0 <= k < a.len() && #[trigger] defined(a[k]) == Some(l);
            assert(ab[k] == a[k]);
        }
        if defs(b).contains(l) {
            let k = choose|k: int| 0 <= k < b.len() && #[trigger] defined(b[k]) == Some(l);
            assert(ab[k + a.len()] == b[k]);
        }
    }
    assert forall|l: (int, int)| targets(ab).contains(l) <==> (targets(a) + targets(b)).contains(l) by {
        if targets(ab).contains(l) {
            let k = choose|k: int| 0 <= k < ab.len() && #[trigger] target(ab[k]) == Some(l);
            if k < a.len() {
                assert(ab[k] == a[k]);
            } else {
                assert(ab[k] == b[k - a.len()]);
            }
        }
        if targets(a).contains(l) {
            let k = choose|k: int| 0 <= k < a.len() && #[trigger] target(a[k]) == Some(l);
            assert(ab[k] == a[k]);
        }
        if targets(b).contains(l) {
            let k = choose|k: int| 0 <= k < b.len() && #[trigger] target(b[k]) == Some(l);
            assert(ab[k + a.len()] == b[k]);
        }
    }
    assert(defs(ab) =~= defs(a) + defs(b));
    assert(targets(ab) =~= targets(a) + targets(b));
}

/// The labels that generated code defines.
pub open spec fn gdefs(g: Option<Gen>) -> Set<(int, int)> {
    match g {
        Some((code, _)) => defs(code),
        None => Set::empty(),
    }
}

/// The labels that generated code jumps to.
pub open spec fn gtargets(g: Option<Gen>) -> Set<(int, int)> {
    match g {
        Some((code, _)) => targets(code),
        None => Set::empty(),
    }
}

/// Generation that ran to its end.
pub open spec fn complete(g: Option<Gen>) -> bool {
    g matches Some((_, None))
}

/// Joining two generations runs to its end exactly when both do, and then defines and
/// jumps to the labels of both.
proof fn lemma_cat_sets(a: Option<Gen>, b: Option<Gen>)
    ensures
        complete(cat(a, b)) <==> complete(a) && complete(b),
        complete(cat(a, b)) ==> gdefs(cat(a, b)) == gdefs(a) + gdefs(b) && gtargets(cat(a, b))
            == gtargets(a) + gtargets(b),
{
    match (a, b) {
        (Some((ca, None)), Some((cb, None))) => {
            lemma_defs_targets_append(ca, cb);
        },
        _ => {},
    }
}

/// Code that defines and jumps to no label.
proof fn lemma_no_jumps(code: Seq<InsnV>)
    requires
        no_labels(code),
    ensures
        defs(code) == Set::<(int, int)>::empty(),
        targets(code) == Set::<(int, int)>::empty(),
{
    assert(defs(code) =~= Set::<(int, int)>::empty());
    assert(targets(code) =~= Set::<(int, int)>::empty());
}

/// The labels that emitted code defines and jumps to.
proof fn lemma_emit_sets(code: Seq<InsnV>)
    requires
        code.len() <= 2,
    ensures
        gdefs(emit(code)) == defs(code),
        gtargets(emit(code)) == targets(code),
        complete(emit(code)),
        code.len() == 0 ==> defs(code) == Set::<(int, int)>::empty() && targets(code) == Set::<(int, int)>::empty(),
        code.len() == 1 ==> defs(code) == opt_set(defined(code[0])) && targets(code) == opt_set(target(code[0])),
        code.len() == 2 ==> defs(code) == opt_set(defined(code[0])) + opt_set(defined(code[1]))
            && targets(code) == opt_set(target(code[0])) + opt_set(target(code[1])),
{
    if code.len() == 0 {
        assert(defs(code) =~= Set::<(int, int)>::empty());
        assert(targets(code) =~= Set::<(int, int)>::empty());
    } else if code.len() == 1 {
        lemma_one_sets(code[0]);
        assert(code =~= seq![code[0]]);
    } else {
        lemma_one_sets(code[0]);
        lemma_one_sets(code[1]);
        assert(code =~= seq![code[0]] + seq![code[1]]);
        lemma_defs_targets_append(seq![code[0]], seq![code[1]]);
    }
}

/// A set of at most one label.
pub open spec fn opt_set(o: Option<(int, int)>) -> Set<(int, int)> {
    match o {
        Some(l) => set![l],
        None => Set::empty(),
    }
}

/// The labels that one instruction defines and jumps to.
proof fn lemma_one_sets(i: InsnV)
    ensures
        defs(seq![i]) == opt_set(defined(i)),
        targets(seq![i]) == opt_set(target(i)),
{
    let code = seq![i];
    assert(code[0] == i);
    assert(defs(code) =~= opt_set(defined(i)));
    assert(targets(code) =~= opt_set(target(i)));
}

/// Code without labels, as generated, defines and jumps to none.
proof fn lemma_plain_sets(g: Option<Gen>)
    requires
        plain(g),
    ensures
        gdefs(g) == Set::<(int, int)>::empty(),
        gtargets(g) == Set::<(int, int)>::empty(),
{
    match g {
        Some((code, _)) => lemma_no_jumps(code),
        None => {},
    }
}

/// Every branch jump of a statement's code lands on a label of that code: when the
/// code of `n` is generated to its end, each branch label it jumps to is one it
/// defines.
pub proof fn lemma_stmt_closed(n: NodeV, c: int, regs: Seq<Reg>, f: Option<Seq<char>>)
    requires
        0 <= c,
    ensures
        complete(g_stmt(n, c, regs, f)) ==> gtargets(g_stmt(n, c, regs, f)).subset_of(
            gdefs(g_stmt(n, c, regs, f)),
        ),
    decreases size(n), 2nat,
{
    match n.kind {
        NodeKind::NdExprStmt | NodeKind::NdReturn => {
            match n.lhs {
                Some(l) => {
                    lemma_simple_stmt_plain(n, c, regs, f);
                    lemma_plain_sets(g_stmt(n, c, regs, f));
                },
                None => {},
            }
        },
        NodeKind::NdBlock => {
            lemma_list_closed(n.body, c, regs, f);
        },
        NodeKind::NdIf => {
            if c < i32::MAX {
                lemma_if_closed(n, c, regs, f);
            }
        },
        NodeKind::NdFor => {
            if c < i32::MAX {
                lemma_for_closed(n, c, regs, f);
            }
        },
        _ => {},
    }
}

/// A mark before generated code changes neither the labels it defines nor those it
/// jumps to, nor whether generation runs to its end.
proof fn lemma_mark_sets(mark: InsnV, g: Option<Gen>)
    requires
        defined(mark) is None,
        target(mark) is None,
    ensures
        complete(cat(emit(seq![mark]), g)) <==> complete(g),
        complete(g) ==> gdefs(cat(emit(seq![mark]), g)) == gdefs(g) && gtargets(cat(emit(seq![mark]), g))
            == gtargets(g),
{
    lemma_emit_sets(seq![mark]);
    lemma_cat_sets(emit(seq![mark]), g);
    assert(Set::<(int, int)>::empty() + gdefs(g) =~= gdefs(g));
    assert(Set::<(int, int)>::empty() + gtargets(g) =~= gtargets(g));
}

/// A condition followed by a conditional jump: it defines no label and jumps to the
/// jump's.
proof fn lemma_cond_sets(cd: NodeV, regs: Seq<Reg>, jump: InsnV)
    ensures
        complete(cat(g_expr(cd, regs), emit(seq![jump]))) ==> gdefs(cat(g_expr(cd, regs), emit(seq![jump])))
            == Set::<(int, int)>::empty() + opt_set(defined(jump)) && gtargets(
            cat(g_expr(cd, regs), emit(seq![jump])),
        ) == Set::<(int, int)>::empty() + opt_set(target(jump)),
{
    lemma_expr_no_labels(cd, regs);
    lemma_plain_sets(g_expr(cd, regs));
    lemma_emit_sets(seq![jump]);
    lemma_cat_sets(g_expr(cd, regs), emit(seq![jump]));
}

/// `lemma_stmt_closed` of an `if`.
proof fn lemma_if_closed(n: NodeV, c: int, regs: Seq<Reg>, f: Option<Seq<char>>)
    requires
        0 <= c < i32::MAX,
        n.kind == NodeKind::NdIf,
    ensures
        complete(g_stmt(n, c, regs, f)) ==> gtargets(g_stmt(n, c, regs, f)).subset_of(
            gdefs(g_stmt(n, c, regs, f)),
        ),
    decreases size(n), 1nat,
{
    let ci = c as i32;
    match (n.cond, n.then_stmt) {
        (Some(cd), Some(th)) => {
            let lt = labels(*th);
            let a = cat(g_expr(*cd, regs), emit(seq![InsnV::BeqzElse { c: ci }]));
            lemma_cond_sets(*cd, regs, InsnV::BeqzElse { c: ci });
            lemma_stmt_closed(*th, c + 1, regs, f);
            let m = seq![InsnV::JEnd { c: ci }, InsnV::LabelElse { c: ci }];
            lemma_emit_sets(m);
            let t = g_stmt(*th, c + 1, regs, f);
            lemma_cat_sets(t, emit(m));
            let tm = cat(t, emit(m));
            let e = match n.els {
                None => emit(Seq::empty()),
                Some(e) => g_stmt(*e, c + 1 + lt, regs, f),
            };
            match n.els {
                None => {
                    lemma_emit_sets(Seq::empty());
                },
                Some(el) => {
                    lemma_stmt_closed(*el, c + 1 + lt, regs, f);
                },
            }
            let z = seq![InsnV::LabelEnd { c: ci }];
            lemma_emit_sets(z);
            lemma_cat_sets(e, emit(z));
            let ez = cat(e, emit(z));
            lemma_cat_sets(tm, ez);
            lemma_cat_sets(a, cat(tm, ez));
            lemma_mark_sets(InsnV::IfStart { c: ci }, cat(a, cat(tm, ez)));
            assert(g_stmt(n, c, regs, f) == cat(emit(seq![InsnV::IfStart { c: ci }]), cat(a, cat(tm, ez))));
        },
        _ => {},
    }
}

/// `lemma_stmt_closed` of a loop.
proof fn lemma_for_closed(n: NodeV, c: int, regs: Seq<Reg>, f: Option<Seq<char>>)
    requires
        0 <= c < i32::MAX,
        n.kind == NodeKind::NdFor,
    ensures
        complete(g_stmt(n, c, regs, f)) ==> gtargets(g_stmt(n, c, regs, f)).subset_of(
            gdefs(g_stmt(n, c, regs, f)),
        ),
    decreases size(n), 1nat,
{
    let ci = c as i32;
    let c1 = c + 1 + labels_opt(n.init);
    let init = match n.init {
        None => emit(Seq::empty()),
        Some(i) => g_stmt(*i, c + 1, regs, f),
    };
    match n.init {
        None => {
            lemma_emit_sets(Seq::empty());
        },
        Some(i) => {
            lemma_stmt_closed(*i, c + 1, regs, f);
        },
    }
    let b = seq![InsnV::LabelBegin { c: ci }];
    lemma_emit_sets(b);
    let cond = match n.cond {
        None => emit(Seq::empty()),
        Some(cd) => cat(g_expr(*cd, regs), emit(seq![InsnV::BeqzEnd { c: ci }])),
    };
    match n.cond {
        None => {
            lemma_emit_sets(Seq::empty());
        },
        Some(cd) => {
            lemma_cond_sets(*cd, regs, InsnV::BeqzEnd { c: ci });
        },
    }
    match n.then_stmt {
        None => {},
        Some(th) => {
            lemma_stmt_closed(*th, c1, regs, f);
            let inc = match n.inc {
                None => emit(Seq::empty()),
                Some(ic) => cat(emit(seq![InsnV::ForInc { c: ci }]), g_expr(*ic, regs)),
            };
            match n.inc {
                None => {},
                Some(ic) => {
                    lemma_expr_no_labels(*ic, regs);
                    assert(no_labels(seq![InsnV::ForInc { c: ci }]));
                    lemma_plain_cat(emit(seq![InsnV::ForInc { c: ci }]), g_expr(*ic, regs));
                },
            }
            assert(no_labels(Seq::<InsnV>::empty()));
            lemma_plain_sets(inc);
            let z = seq![InsnV::JBegin { c: ci }, InsnV::LabelLoopEnd { c: ci }];
            lemma_emit_sets(z);
            lemma_cat_sets(inc, emit(z));
            let tail = cat(inc, emit(z));
            let t = g_stmt(*th, c1, regs, f);
            lemma_cat_sets(t, tail);
            lemma_mark_sets(InsnV::ForBody { c: ci }, cat(t, tail));
            let body = cat(emit(seq![InsnV::ForBody { c: ci }]), cat(t, tail));
            lemma_cat_sets(cond, body);
            lemma_cat_sets(emit(b), cat(cond, body));
            lemma_cat_sets(init, g_loop(n, c, regs, f));
            assert(g_loop(n, c, regs, f) == cat(emit(b), cat(cond, body)));
            let mark = InsnV::ForStart { c: ci, init: n.init is Some };
            lemma_mark_sets(mark, cat(init, g_loop(n, c, regs, f)));
            assert(g_stmt(n, c, regs, f) == cat(emit(seq![mark]), cat(init, g_loop(n, c, regs, f))));
        },
    }
}

/// `lemma_stmt_closed` of the statements of a list.
proof fn lemma_list_closed(o: Option<Box<NodeV>>, c: int, regs: Seq<Reg>, f: Option<Seq<char>>)
    requires
        0 <= c,
    ensures
        complete(g_list(o, c, regs, f)) ==> gtargets(g_list(o, c, regs, f)).subset_of(
            gdefs(g_list(o, c, regs, f)),
        ),
    decreases csize(o), 3nat,
{
    match o {
        None => {
            lemma_emit_sets(Seq::empty());
        },
        Some(b) => {
            lemma_stmt_closed(*b, c, regs, f);
            lemma_list_closed(b.next, c + labels(*b), regs, f);
            lemma_cat_sets(g_stmt(*b, c, regs, f), g_list(b.next, c + labels(*b), regs, f));
        },
    }
}

/// `lemma_program_labels` of jumps, for the functions from index `i` on.
proof fn lemma_funcs_closed(fs: Seq<FunctionV>, i: int, c: int, regs: Seq<Reg>)
    requires
        0 <= c,
    ensures
        complete(g_funcs(fs, i, c, regs)) ==> gtargets(g_funcs(fs, i, c, regs)).subset_of(
            gdefs(g_funcs(fs, i, c, regs)),
        ),
    decreases fs.len() - i,
{
    if i < 0 || i >= fs.len() {
        lemma_emit_sets(Seq::empty());
    } else {
        let f = fs[i];
        let lf = labels(laid_out_body(f));
        if layout_ok(f) {
            let head = seq![
                InsnV::Globl { name: f.name },
                InsnV::FuncLabel { name: f.name },
                InsnV::Prologue { stack_size: crate::codegen::frame_size(f) as i32 },
            ];
            let tail = seq![InsnV::LabelReturn { name: f.name }, InsnV::Epilogue];
            assert(no_labels(head));
            lemma_no_jumps(head);
            lemma_emit_sets(tail);
            lemma_stmt_closed(laid_out_body(f), c, regs, Some(f.name));
            let body = g_stmt(laid_out_body(f), c, regs, Some(f.name));
            lemma_cat_sets(body, emit(tail));
            lemma_cat_sets(emit(head), cat(body, emit(tail)));
        }
        lemma_funcs_closed(fs, i + 1, c + lf, regs);
        lemma_cat_sets(g_func(f, c, regs), g_funcs(fs, i + 1, c + lf, regs));
    }
}

} // verus!
