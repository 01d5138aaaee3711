//! Whether code generation can run on a program: it needs every part of every node it
//! visits, a label counter that does not overflow, and at most as many call arguments
//! as there are argument registers. The functions here walk the program as the code
//! generator does, without emitting anything.
use vstd::prelude::*;
use crate::ast::{Node, NodeKind, Function, Program, size, csize, child_view};
use crate::codegen::{
    CodegenError, CodegenErrorV, Gen, Reg, g_addr, g_expr, g_args, g_stmt, g_loop, g_list, g_funcs, g_program,
    labels, labels_opt, labels_list, binop_code, sync_ok, sync_ok_child, funcs_view,
    assign_lvar_offsets, init_regs,
};

verus! {

/// How generation ends, without its code: `None` when it would meet a missing part,
/// otherwise the error that stops it, if one does.
pub open spec fn outcome_of(g: Option<Gen>) -> Option<Option<CodegenErrorV>> {
    match g {
        Some(g) => Some(g.1),
        None => None,
    }
}

/// An optional error taken by its view.
pub open spec fn opt_err_view(e: Option<CodegenError>) -> Option<CodegenErrorV> {
    match e {
        Some(e) => Some(e@),
        None => None,
    }
}

/// An outcome taken by its view.
pub open spec fn outcome_view(r: Option<Option<CodegenError>>) -> Option<Option<CodegenErrorV>> {
    match r {
        Some(e) => Some(opt_err_view(e)),
        None => None,
    }
}

/// `r` tells how generation of statements ended: `None` when it would meet a missing
/// part, the error that stopped it, or, when it ran to the end, the next label number.
pub open spec fn ends(g: Option<Gen>, r: Option<Result<i32, CodegenError>>, next: int) -> bool {
    match g {
        None => r is None,
        Some((_, Some(e))) => r matches Some(Err(x)) && x@ == e,
        Some((_, None)) => r matches Some(Ok(c)) && c == next,
    }
}

/// `r` tells how generation of call arguments ended: `None` when it would meet a
/// missing part, otherwise the error that stopped it, if any, and the number of
/// arguments whose code ran to its end.
pub open spec fn args_end(
    g: Option<(Seq<crate::codegen::InsnV>, Option<CodegenErrorV>, nat)>,
    r: Option<(Option<CodegenError>, usize)>,
) -> bool {
    match g {
        None => r is None,
        Some(x) => r is Some && opt_err_view(r.unwrap().0) == x.1 && r.unwrap().1 == x.2,
    }
}

/// Whether every variable reference that a look-up of the variables visits has a name.
fn names_present(n: &Node) -> (b: bool)
    ensures
        b == sync_ok(n@),
    decreases size(n@), 0nat,
{
    if n.kind == NodeKind::NdVar && n.name.is_none() {
        return false;
    }
    names_present_child(&n.lhs) && names_present_child(&n.rhs) && names_present_child(&n.next)
        && names_present_child(&n.body) && names_present_child(&n.init) && names_present_child(
        &n.inc,
    ) && names_present_child(&n.cond) && names_present_child(&n.then_stmt)
        && names_present_child(&n.els) && names_present_child(&n.args)
}

/// `names_present` of an optional child.
fn names_present_child(o: &Option<Box<Node>>) -> (b: bool)
    ensures
        b == sync_ok_child(child_view(*o)),
    decreases csize(child_view(*o)), 1nat,
{
    match o {
        Some(b) => names_present(b),
        None => true,
    }
}

/// How generating the address of `n` ends.
fn check_addr(n: &Node, regs: &Vec<Reg>) -> (r: Option<Option<CodegenError>>)
    ensures
        outcome_view(r) == outcome_of(g_addr(n@, regs@)),
    decreases size(n@), 0nat,
{
    match n.kind {
        NodeKind::NdVar => if n.var.is_some() {
            Some(None)
        } else {
            None
        },
        NodeKind::NdDeref => match &n.lhs {
            Some(l) => check_expr(l, regs),
            None => None,
        },
        _ => if n.name.is_some() {
            Some(Some(CodegenError::NotAnLvalue { loc: n.tokloc, name: n.name.as_ref().unwrap().clone() }))
        } else {
            None
        },
    }
}

/// How generating the code of the expression `n` ends.
fn check_expr(n: &Node, regs: &Vec<Reg>) -> (r: Option<Option<CodegenError>>)
    ensures
        outcome_view(r) == outcome_of(g_expr(n@, regs@)),
    decreases size(n@), 1nat,
{
    match n.kind {
        NodeKind::NdNum => if n.val.is_some() {
            Some(None)
        } else {
            None
        },
        NodeKind::NdNeg | NodeKind::NdDeref => match &n.lhs {
            Some(l) => check_expr(l, regs),
            None => None,
        },
        NodeKind::NdVar => check_addr(n, regs),
        NodeKind::NdAddr => match &n.lhs {
            Some(l) => check_addr(l, regs),
            None => None,
        },
        NodeKind::NdAssign => match &n.lhs {
            None => None,
            Some(l) => {
                let a = check_addr(l, regs);
                match a {
                    Some(None) => match &n.rhs {
                        Some(r) => check_expr(r, regs),
                        None => None,
                    },
                    _ => a,
                }
            },
        },
        NodeKind::NdFuncall => match check_args(&n.args, regs) {
            None => None,
            Some((Some(e), _)) => Some(Some(e)),
            Some((None, k)) => if k <= regs.len() {
                Some(None)
            } else {
                None
            },
        },
        _ => match &n.rhs {
            None => None,
            Some(r) => {
                let a = check_expr(r, regs);
                match a {
                    Some(None) => match &n.lhs {
                        None => None,
                        Some(l) => {
                            let b = check_expr(l, regs);
                            match b {
                                Some(None) => if is_binop(n.kind) {
                                    Some(None)
                                } else {
                                    Some(Some(CodegenError::InvalidExpression { loc: n.tokloc }))
                                },
                                _ => b,
                            }
                        },
                    },
                    _ => a,
                }
            },
        },
    }
}

/// Whether `kind` is a binary operator that the code generator knows.
fn is_binop(kind: NodeKind) -> (b: bool)
    ensures
        b == binop_code(kind) is Some,
{
    match kind {
        NodeKind::NdAdd | NodeKind::NdSub | NodeKind::NdMul | NodeKind::NdDiv | NodeKind::NdEq
        | NodeKind::NdNeq | NodeKind::NdLt | NodeKind::NdLe => true,
        _ => false,
    }
}

/// How generating the code of a list of call arguments ends, with the number of
/// arguments when it runs to the end.
fn check_args(o: &Option<Box<Node>>, regs: &Vec<Reg>) -> (r: Option<(Option<CodegenError>, usize)>)
    ensures
        args_end(g_args(child_view(*o), regs@), r),
    decreases csize(child_view(*o)), 2nat,
{
    match o {
        None => {
            Some((None, 0))
        },
        Some(a) => match check_expr(a, regs) {
            None => None,
            Some(Some(e)) => Some((Some(e), 0)),
            Some(None) => match check_args(&a.next, regs) {
                None => None,
                Some((eb, k)) => if k < usize::MAX {
                    Some((eb, k + 1))
                } else {
                    None
                },
            },
        },
    }
}

/// How generating the code of the statement `n`, with the next label `c`, ends.
fn check_stmt(n: &Node, c: i32, regs: &Vec<Reg>, Ghost(f): Ghost<Seq<char>>) -> (r: Option<
    Result<i32, CodegenError>,
>)
    ensures
        ends(g_stmt(n@, c as int, regs@, Some(f)), r, c + labels(n@)),
    decreases size(n@), 2nat,
{
    match n.kind {
        NodeKind::NdExprStmt | NodeKind::NdReturn => match &n.lhs {
            None => None,
            Some(l) => match check_expr(l, regs) {
                None => None,
                Some(Some(e)) => Some(Err(e)),
                Some(None) => Some(Ok(c)),
            },
        },
        NodeKind::NdBlock => check_list(&n.body, c, regs, Ghost(f)),
        NodeKind::NdIf => check_if(n, c, regs, Ghost(f)),
        NodeKind::NdFor => {
            if c >= i32::MAX {
                return None;
            }
            let c1 = match &n.init {
                None => c + 1,
                Some(i) => match check_stmt(i, c + 1, regs, Ghost(f)) {
                    Some(Ok(c1)) => c1,
                    other => {
                        return other;
                    },
                },
            };
            check_loop(n, c, c1, regs, Ghost(f))
        },
        _ => Some(Err(CodegenError::InvalidStatement { loc: n.tokloc })),
    }
}

/// `check_stmt` of an `if`.
fn check_if(n: &Node, c: i32, regs: &Vec<Reg>, Ghost(f): Ghost<Seq<char>>) -> (r: Option<
    Result<i32, CodegenError>,
>)
    requires
        n.kind == NodeKind::NdIf,
    ensures
        ends(g_stmt(n@, c as int, regs@, Some(f)), r, c + labels(n@)),
    decreases size(n@), 1nat,
{
    if c >= i32::MAX {
        return None;
    }
    let cd = match &n.cond {
        Some(cd) => cd,
        None => {
            return None;
        },
    };
    match check_expr(cd, regs) {
        None => {
            return None;
        },
        Some(Some(e)) => {
            return Some(Err(e));
        },
        Some(None) => {},
    }
    let th = match &n.then_stmt {
        Some(th) => th,
        None => {
            return None;
        },
    };
    let c2 = match check_stmt(th, c + 1, regs, Ghost(f)) {
        Some(Ok(c2)) => c2,
        other => {
            return other;
        },
    };
    match &n.els {
        None => Some(Ok(c2)),
        Some(e) => check_stmt(e, c2, regs, Ghost(f)),
    }
}

/// How generating the part of a loop after its initialisation ends, with `c1` the
/// label after those of the initialisation.
fn check_loop(n: &Node, c: i32, c1: i32, regs: &Vec<Reg>, Ghost(f): Ghost<Seq<char>>) -> (r: Option<
    Result<i32, CodegenError>,
>)
    requires
        n.kind == NodeKind::NdFor,
        c1 == c + 1 + labels_opt(n@.init),
    ensures
        ends(g_loop(n@, c as int, regs@, Some(f)), r, c1 + labels_opt(n@.then_stmt)),
    decreases size(n@), 0nat,
{
    match &n.cond {
        None => {},
        Some(cd) => match check_expr(cd, regs) {
            None => {
                return None;
            },
            Some(Some(e)) => {
                return Some(Err(e));
            },
            Some(None) => {},
        },
    }
    let th = match &n.then_stmt {
        Some(th) => th,
        None => {
            return None;
        },
    };
    let c2 = match check_stmt(th, c1, regs, Ghost(f)) {
        Some(Ok(c2)) => c2,
        other => {
            return other;
        },
    };
    match &n.inc {
        None => {},
        Some(ic) => match check_expr(ic, regs) {
            None => {
                return None;
            },
            Some(Some(e)) => {
                return Some(Err(e));
            },
            Some(None) => {},
        },
    }
    Some(Ok(c2))
}

/// How generating the code of each statement of a list ends.
fn check_list(o: &Option<Box<Node>>, c: i32, regs: &Vec<Reg>, Ghost(f): Ghost<Seq<char>>) -> (r: Option<
    Result<i32, CodegenError>,
>)
    ensures
        ends(g_list(child_view(*o), c as int, regs@, Some(f)), r, c + labels_list(child_view(*o))),
    decreases csize(child_view(*o)), 3nat,
{
    match o {
        None => Some(Ok(c)),
        Some(b) => match check_stmt(b, c, regs, Ghost(f)) {
            Some(Ok(c2)) => check_list(&b.next, c2, regs, Ghost(f)),
            other => other,
        },
    }
}

/// How generating the code of the functions of `fs` from index `i` on ends.
fn check_funcs(fs: &Vec<Function>, i: usize, c: i32, regs: &Vec<Reg>) -> (r: Option<
    Result<i32, CodegenError>,
>)
    requires
        i <= fs@.len(),
    ensures
        match g_funcs(funcs_view(fs@), i as int, c as int, regs@) {
            None => r is None,
            Some((_, Some(e))) => r matches Some(Err(x)) && x@ == e,
            Some((_, None)) => r is Some && r.unwrap() is Ok,
        },
    decreases fs@.len() - i,
{
    let ghost fv = funcs_view(fs@);
    if i >= fs.len() {
        return Some(Ok(c));
    }
    proof {
        assert(fv[i as int] == fs@[i as int]@);
    }
    let f = &fs[i];
    let ok_body = match &f.body {
        Some(b) => names_present(b),
        None => false,
    };
    if !ok_body || f.locals.len() > 268435454 {
        return None;
    }
    let laid = assign_lvar_offsets(f.copy());
    let c2 = match check_stmt(laid.body.as_ref().unwrap(), c, regs, Ghost(f.name@)) {
        Some(Ok(c2)) => c2,
        other => {
            return other;
        },
    };
    check_funcs(fs, i + 1, c2, regs)
}

/// Whether the code generator can run on `prog` to its end or to an error, without
/// meeting a missing part of a node, a label counter at its limit, a frame too large
/// for its offsets, or a call with more arguments than argument registers.
pub fn can_codegen(prog: &Program) -> (b: bool)
    ensures
        b == g_program(funcs_view(prog.funclist@)) is Some,
{
    let regs = init_regs();
    check_funcs(&prog.funclist, 0, 1, &regs).is_some()
}

} // verus!
