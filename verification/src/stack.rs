//! The stack discipline of expression code, calls included: what each instruction does
//! to the depth of the stack, and the law that the code of an expression pops exactly
//! what it pushes and never pops below the depth it started at.
use vstd::prelude::*;
use crate::ast::{NodeKind, NodeV, size, csize};
use crate::codegen::{InsnV, Reg, g_expr, g_addr, g_args, pops, binop_code};

verus! {

/// What an instruction does to the depth of the stack: a push deepens it by one, a pop
/// makes it one shallower, and every other instruction of expression code (a call
/// included, whose callee restores the stack pointer) leaves it as it is.
pub open spec fn depth_change(i: InsnV) -> int {
    match i {
        InsnV::Push => 1,
        InsnV::Pop { .. } => -1,
        _ => 0,
    }
}

/// The change that running `code` makes to the depth of the stack.
pub open spec fn net(code: Seq<InsnV>) -> int
    decreases code.len(),
{
    if code.len() == 0 {
        0
    } else {
        depth_change(code[0]) + net(code.subrange(1, code.len() as int))
    }
}

/// Whether running `code` from a stack `d` values deep (above the point of
/// reference) never pops below that point.
pub open spec fn stays_above(code: Seq<InsnV>, d: int) -> bool
    decreases code.len(),
{
    code.len() == 0 || (d + depth_change(code[0]) >= 0 && stays_above(
        code.subrange(1, code.len() as int),
        d + depth_change(code[0]),
    ))
}

/// Whether `code` leaves the stack as deep as it found it and never pops below that
/// depth.
pub open spec fn balanced(code: Seq<InsnV>) -> bool {
    net(code) == 0 && stays_above(code, 0)
}

/// Running two pieces of code one after the other.
proof fn lemma_concat(a: Seq<InsnV>, b: Seq<InsnV>, d: int)
    ensures
        net(a + b) == net(a) + net(b),
        stays_above(a + b, d) == (stays_above(a, d) && stays_above(b, d + net(a))),
    decreases a.len(),
{
    if a.len() == 0 {
        assert(a + b =~= b);
    } else {
        let a1 = a.subrange(1, a.len() as int);
        lemma_concat(a1, b, d + depth_change(a[0]));
        assert((a + b).subrange(1, (a + b).len() as int) =~= a1 + b);
    }
}

/// Starting deeper keeps code above the point of reference.
proof fn lemma_above_deeper(c: Seq<InsnV>, d: int, e: int)
    requires
        stays_above(c, d),
        d <= e,
    ensures
        stays_above(c, e),
    decreases c.len(),
{
    if c.len() > 0 {
        lemma_above_deeper(c.subrange(1, c.len() as int), d + depth_change(c[0]), e + depth_change(c[0]));
    }
}

/// Code that neither pushes nor pops.
proof fn lemma_flat(c: Seq<InsnV>, d: int)
    requires
        forall|k: int| 0 <= k < c.len() ==> depth_change(#[trigger] c[k]) == 0,
        d >= 0,
    ensures
        net(c) == 0,
        stays_above(c, d),
    decreases c.len(),
{
    if c.len() > 0 {
        let c1 = c.subrange(1, c.len() as int);
        assert(depth_change(c[0]) == 0);
        assert forall|k: int| 0 <= k < c1.len() implies depth_change(#[trigger] c1[k]) == 0 by {
            assert(c1[k] == c[k + 1]);
        }
        lemma_flat(c1, d);
    }
}

/// One instruction.
proof fn lemma_one(i: InsnV, d: int)
    ensures
        net(seq![i]) == depth_change(i),
        stays_above(seq![i], d) == (d + depth_change(i) >= 0),
{
    let e = seq![i].subrange(1, 1);
    assert(e =~= Seq::<InsnV>::empty());
    assert(net(e) == 0);
    assert(stays_above(e, d + depth_change(i)));
}

/// The pops into the first `k` argument registers take `k` values off the stack.
proof fn lemma_pops(k: nat, regs: Seq<Reg>, d: int)
    requires
        d >= k,
    ensures
        net(pops(k, regs)) == -k,
        stays_above(pops(k, regs), d),
    decreases k,
{
    if k > 0 {
        let p = InsnV::Pop { reg: regs[k - 1] };
        lemma_pops((k - 1) as nat, regs, d - 1);
        lemma_one(p, d);
        lemma_concat(seq![p], pops((k - 1) as nat, regs), d);
    }
}

/// The code of an address leaves the stack as it found it.
pub proof fn lemma_addr_balanced(n: NodeV, regs: Seq<Reg>)
    requires
        g_addr(n, regs) matches Some((_, None)),
    ensures
        balanced(g_addr(n, regs).unwrap().0),
    decreases size(n), 0nat,
{
    let c = g_addr(n, regs).unwrap().0;
    match n.kind {
        NodeKind::NdVar => {
            lemma_one(c[0], 0);
            assert(c =~= seq![c[0]]);
        },
        NodeKind::NdDeref => {
            lemma_expr_balanced(*n.lhs.unwrap(), regs);
        },
        _ => {},
    }
}

/// Stack balance of expression code, calls included: the code of an expression whose
/// generation runs to its end without an error pops every value it pushes, the
/// arguments of each call included, and never pops a value that was on the stack
/// before it started.
pub proof fn lemma_expr_balanced(n: NodeV, regs: Seq<Reg>)
    requires
        g_expr(n, regs) matches Some((_, None)),
    ensures
        balanced(g_expr(n, regs).unwrap().0),
    decreases size(n), 1nat,
{
    let c = g_expr(n, regs).unwrap().0;
    match n.kind {
        NodeKind::NdNum => {
            lemma_one(c[0], 0);
            assert(c =~= seq![c[0]]);
        },
        NodeKind::NdNeg => {
            let l = *n.lhs.unwrap();
            let cl = g_expr(l, regs).unwrap().0;
            lemma_expr_balanced(l, regs);
            lemma_one(InsnV::Neg, 0);
            lemma_concat(cl, seq![InsnV::Neg], 0);
            assert(c == cl + seq![InsnV::Neg]);
        },
        NodeKind::NdVar => {
            let ca = g_addr(n, regs).unwrap().0;
            lemma_addr_balanced(n, regs);
            lemma_one(InsnV::Load, 0);
            lemma_concat(ca, seq![InsnV::Load], 0);
            assert(c == ca + seq![InsnV::Load]);
        },
        NodeKind::NdDeref => {
            let l = *n.lhs.unwrap();
            let cl = g_expr(l, regs).unwrap().0;
            lemma_expr_balanced(l, regs);
            lemma_one(InsnV::Load, 0);
            lemma_concat(cl, seq![InsnV::Load], 0);
            assert(c == cl + seq![InsnV::Load]);
        },
        NodeKind::NdAddr => {
            lemma_addr_balanced(*n.lhs.unwrap(), regs);
        },
        NodeKind::NdAssign => {
            let l = *n.lhs.unwrap();
            let r = *n.rhs.unwrap();
            let ca = g_addr(l, regs).unwrap().0;
            let cr = g_expr(r, regs).unwrap().0;
            let push = seq![InsnV::Push];
            let tail = seq![InsnV::Pop { reg: Reg::A1 }, InsnV::Store];
            lemma_addr_balanced(l, regs);
            lemma_expr_balanced(r, regs);
            lemma_one(InsnV::Push, 0);
            lemma_one(InsnV::Store, 0);
            lemma_one(InsnV::Pop { reg: Reg::A1 }, 1);
            assert(tail =~= seq![InsnV::Pop { reg: Reg::A1 }] + seq![InsnV::Store]);
            lemma_concat(seq![InsnV::Pop { reg: Reg::A1 }], seq![InsnV::Store], 1);
            lemma_concat(ca, push, 0);
            lemma_concat(cr, tail, 1);
            lemma_above_deeper(cr, 0, 1);
            lemma_concat(ca + push, cr + tail, 0);
            assert(c == (ca + push) + (cr + tail));
        },
        NodeKind::NdFuncall => {
            let (ia, e, k) = g_args(n.args, regs).unwrap();
            lemma_args_balanced(n.args, regs);
            lemma_pops(k, regs, k as int);
            let call = seq![InsnV::Call { name: n.funcname }];
            lemma_one(InsnV::Call { name: n.funcname }, 0);
            lemma_concat(ia, pops(k, regs), 0);
            lemma_concat(ia + pops(k, regs), call, 0);
            assert(c == ia + pops(k, regs) + call);
        },
        _ => {
            let l = *n.lhs.unwrap();
            let r = *n.rhs.unwrap();
            let cl = g_expr(l, regs).unwrap().0;
            let cr = g_expr(r, regs).unwrap().0;
            let bc = binop_code(n.kind).unwrap();
            let push = seq![InsnV::Push];
            let pop = seq![InsnV::Pop { reg: Reg::A1 }];
            lemma_expr_balanced(l, regs);
            lemma_expr_balanced(r, regs);
            lemma_one(InsnV::Push, 0);
            lemma_one(InsnV::Pop { reg: Reg::A1 }, 1);
            lemma_flat(bc, 0);
            lemma_concat(cr, push, 0);
            lemma_above_deeper(cl, 0, 1);
            lemma_concat(cl, pop, 1);
            lemma_concat(cl + pop, bc, 1);
            lemma_concat(cr + push, (cl + pop) + bc, 0);
            assert(c == (cr + push) + ((cl + pop) + bc));
        },
    }
}

/// The code of the arguments of a call pushes one value for each argument and never
/// pops below the depth it started at.
pub proof fn lemma_args_balanced(o: Option<Box<NodeV>>, regs: Seq<Reg>)
    requires
        g_args(o, regs) matches Some((_, None, _)),
    ensures
        net(g_args(o, regs).unwrap().0) == g_args(o, regs).unwrap().2,
        stays_above(g_args(o, regs).unwrap().0, 0),
    decreases csize(o), 2nat,
{
    match o {
        None => {},
        Some(a) => {
            let ca = g_expr(*a, regs).unwrap().0;
            let (cb, eb, k) = g_args(a.next, regs).unwrap();
            let push = seq![InsnV::Push];
            lemma_expr_balanced(*a, regs);
            lemma_args_balanced(a.next, regs);
            lemma_one(InsnV::Push, 0);
            lemma_concat(ca, push, 0);
            lemma_above_deeper(cb, 0, 1);
            lemma_concat(ca + push, cb, 0);
            assert(g_args(o, regs).unwrap().0 == (ca + push) + cb);
        },
    }
}

} // verus!
