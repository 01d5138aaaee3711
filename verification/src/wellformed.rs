//! What the parser builds: trees in which every part that code generation needs is
//! present, so that a parsed program whose assignments are to variables compiles
//! without error, and its code does what it means.
use vstd::prelude::*;
use crate::ast::{NodeKind, NodeV, ObjV, FunctionV};
use crate::lexer::Token;
use crate::parser::{
    p_expr, p_assign, p_equality, p_equality_tail, p_relational, p_relational_tail,
    relational_node_v, p_add, p_add_tail, p_mul, p_mul_tail, p_unary, p_primary, p_expr_stmt,
    p_stmt, p_keyword_stmt, p_stmts, p_compound, p_program, link,
};
use crate::codegen::{synced, synced_child, sync_ok, sync_ok_child, with_offsets, laid_out_body, layout_ok, labels, labels_list, g_program, arg_regs};
use crate::machine::{Machine, straight, addressable};
use crate::control::{ctrl_stmt, ctrl_list, run_stmt, arrives, steps, stmt_code, lemma_program_body};

verus! {

/// Whether `n` is an expression of the kind the parser builds: a literal with its value,
/// a variable with its name and local, a negation, or a binary operator or assignment
/// with both operands, and so on below, with no other parts.
pub open spec fn parsed_expr(n: NodeV) -> bool
    decreases n,
{
    &&& bare(n)
    &&& n.next is None
    &&& n.body is None
    &&& match n.kind {
        NodeKind::NdNum => n.val is Some && n.lhs is None && n.rhs is None,
        NodeKind::NdVar => n.var is Some && n.name is Some && n.lhs is None && n.rhs is None,
        NodeKind::NdNeg => n.rhs is None && match n.lhs {
            Some(l) => parsed_expr(*l),
            None => false,
        },
        NodeKind::NdAdd | NodeKind::NdSub | NodeKind::NdMul | NodeKind::NdDiv | NodeKind::NdEq
        | NodeKind::NdNeq | NodeKind::NdLt | NodeKind::NdLe | NodeKind::NdAssign => match (n.lhs, n.rhs) {
            (Some(l), Some(r)) => parsed_expr(*l) && parsed_expr(*r),
            _ => false,
        },
        _ => false,
    }
}

/// Whether `n` has none of the parts of `if`s, loops and calls.
pub open spec fn bare(n: NodeV) -> bool {
    &&& n.cond is None
    &&& n.then_stmt is None
    &&& n.els is None
    &&& n.init is None
    &&& n.inc is None
    &&& n.args is None
}

/// Whether each assignment in the expression `n` is to a variable.
pub open spec fn assigns_to_vars(n: NodeV) -> bool
    decreases n,
{
    &&& (n.kind == NodeKind::NdAssign ==> (n.lhs matches Some(l) && l.kind == NodeKind::NdVar))
    &&& match n.lhs {
        Some(l) => assigns_to_vars(*l),
        None => true,
    }
    &&& match n.rhs {
        Some(r) => assigns_to_vars(*r),
        None => true,
    }
}

/// Whether `n` is a statement of the kind the parser builds: an expression statement or
/// a `return` of a parsed expression, or a block of such statements, with no other
/// parts but the link to the next statement.
pub open spec fn parsed_stmt(n: NodeV) -> bool
    decreases n,
{
    &&& bare(n)
    &&& match n.kind {
        NodeKind::NdExprStmt | NodeKind::NdReturn => n.rhs is None && n.body is None && match n.lhs {
            Some(l) => parsed_expr(*l),
            None => false,
        },
        NodeKind::NdBlock => n.lhs is None && n.rhs is None && parsed_list(n.body),
        _ => false,
    }
}

/// Whether each statement of a list is `parsed_stmt`.
pub open spec fn parsed_list(o: Option<Box<NodeV>>) -> bool
    decreases o,
{
    match o {
        Some(b) => parsed_stmt(*b) && parsed_list(b.next),
        None => true,
    }
}

/// Whether each assignment in the statement `n` is to a variable.
pub open spec fn stmt_assigns_to_vars(n: NodeV) -> bool
    decreases n,
{
    match n.kind {
        NodeKind::NdExprStmt | NodeKind::NdReturn => match n.lhs {
            Some(l) => assigns_to_vars(*l),
            None => true,
        },
        NodeKind::NdBlock => list_assigns_to_vars(n.body),
        _ => true,
    }
}

/// `stmt_assigns_to_vars` of each statement of a list.
pub open spec fn list_assigns_to_vars(o: Option<Box<NodeV>>) -> bool
    decreases o,
{
    match o {
        Some(b) => stmt_assigns_to_vars(*b) && list_assigns_to_vars(b.next),
        None => true,
    }
}

/// A binary node of parsed expressions is a parsed expression.
proof fn lemma_binary_parsed(kind: NodeKind, l: NodeV, r: NodeV, loc: usize)
    requires
        parsed_expr(l),
        parsed_expr(r),
        kind == NodeKind::NdAdd || kind == NodeKind::NdSub || kind == NodeKind::NdMul || kind
            == NodeKind::NdDiv || kind == NodeKind::NdEq || kind == NodeKind::NdNeq || kind
            == NodeKind::NdLt || kind == NodeKind::NdLe || kind == NodeKind::NdAssign,
    ensures
        parsed_expr(crate::ast::binary_v(kind, l, r, loc)),
{
}

/// expr: what it parses is a parsed expression.
proof fn lemma_p_expr(t: Seq<Token>, pos: int, ls: Seq<ObjV>)
    ensures
        p_expr(t, pos, ls) matches Ok((n, _, _)) ==> parsed_expr(n),
    decreases t.len() - pos, 12nat,
{
    lemma_p_assign(t, pos, ls);
}

/// assign: what it parses is a parsed expression.
proof fn lemma_p_assign(t: Seq<Token>, pos: int, ls: Seq<ObjV>)
    ensures
        p_assign(t, pos, ls) matches Ok((n, _, _)) ==> parsed_expr(n),
    decreases t.len() - pos, 11nat,
{
    lemma_p_equality(t, pos, ls);
    match p_equality(t, pos, ls) {
        Ok((n, p1, ls1)) => {
            if 0 <= p1 < t.len() && pos <= p1 {
                lemma_p_assign(t, p1 + 1, ls1);
                match p_assign(t, p1 + 1, ls1) {
                    Ok((r, _, _)) => {
                        lemma_binary_parsed(NodeKind::NdAssign, n, r, t[p1].loc);
                    },
                    Err(_) => {},
                }
            }
        },
        Err(_) => {},
    }
}

/// equality: what it parses is a parsed expression.
proof fn lemma_p_equality(t: Seq<Token>, pos: int, ls: Seq<ObjV>)
    ensures
        p_equality(t, pos, ls) matches Ok((n, _, _)) ==> parsed_expr(n),
    decreases t.len() - pos, 10nat,
{
    lemma_p_relational(t, pos, ls);
    match p_relational(t, pos, ls) {
        Ok((n, p1, ls1)) => {
            if pos <= p1 <= t.len() {
                lemma_p_equality_tail(t, n, p1, ls1);
            }
        },
        Err(_) => {},
    }
}

/// The repeated part of equality: from a parsed operand, a parsed expression.
proof fn lemma_p_equality_tail(t: Seq<Token>, acc: NodeV, pos: int, ls: Seq<ObjV>)
    requires
        parsed_expr(acc),
    ensures
        p_equality_tail(t, acc, pos, ls) matches Ok((n, _, _)) ==> parsed_expr(n),
    decreases t.len() - pos, 9nat,
{
    if 0 <= pos < t.len() {
        lemma_p_relational(t, pos + 1, ls);
        match p_relational(t, pos + 1, ls) {
            Ok((r, p2, ls2)) => {
                if pos < p2 <= t.len() {
                    lemma_binary_parsed(NodeKind::NdEq, acc, r, t[pos].loc);
                    lemma_binary_parsed(NodeKind::NdNeq, acc, r, t[pos].loc);
                    lemma_p_equality_tail(t, crate::ast::binary_v(NodeKind::NdEq, acc, r, t[pos].loc), p2, ls2);
                    lemma_p_equality_tail(t, crate::ast::binary_v(NodeKind::NdNeq, acc, r, t[pos].loc), p2, ls2);
                }
            },
            Err(_) => {},
        }
    }
}

/// relational: what it parses is a parsed expression.
proof fn lemma_p_relational(t: Seq<Token>, pos: int, ls: Seq<ObjV>)
    ensures
        p_relational(t, pos, ls) matches Ok((n, _, _)) ==> parsed_expr(n),
    decreases t.len() - pos, 8nat,
{
    lemma_p_add(t, pos, ls);
    match p_add(t, pos, ls) {
        Ok((n, p1, ls1)) => {
            if pos <= p1 <= t.len() {
                lemma_p_relational_tail(t, n, p1, ls1);
            }
        },
        Err(_) => {},
    }
}

/// The repeated part of relational: from a parsed operand, a parsed expression.
proof fn lemma_p_relational_tail(t: Seq<Token>, acc: NodeV, pos: int, ls: Seq<ObjV>)
    requires
        parsed_expr(acc),
    ensures
        p_relational_tail(t, acc, pos, ls) matches Ok((n, _, _)) ==> parsed_expr(n),
    decreases t.len() - pos, 7nat,
{
    if 0 <= pos < t.len() {
        lemma_p_add(t, pos + 1, ls);
        match p_add(t, pos + 1, ls) {
            Ok((r, p2, ls2)) => {
                if pos < p2 <= t.len() {
                    let loc = t[pos].loc;
                    lemma_binary_parsed(NodeKind::NdLt, acc, r, loc);
                    lemma_binary_parsed(NodeKind::NdLe, acc, r, loc);
                    lemma_binary_parsed(NodeKind::NdLt, r, acc, loc);
                    lemma_binary_parsed(NodeKind::NdLe, r, acc, loc);
                    lemma_p_relational_tail(t, relational_node_v(t[pos], acc, r), p2, ls2);
                }
            },
            Err(_) => {},
        }
    }
}

/// add: what it parses is a parsed expression.
proof fn lemma_p_add(t: Seq<Token>, pos: int, ls: Seq<ObjV>)
    ensures
        p_add(t, pos, ls) matches Ok((n, _, _)) ==> parsed_expr(n),
    decreases t.len() - pos, 6nat,
{
    lemma_p_mul(t, pos, ls);
    match p_mul(t, pos, ls) {
        Ok((n, p1, ls1)) => {
            if pos <= p1 <= t.len() {
                lemma_p_add_tail(t, n, p1, ls1);
            }
        },
        Err(_) => {},
    }
}

/// The repeated part of add: from a parsed operand, a parsed expression.
proof fn lemma_p_add_tail(t: Seq<Token>, acc: NodeV, pos: int, ls: Seq<ObjV>)
    requires
        parsed_expr(acc),
    ensures
        p_add_tail(t, acc, pos, ls) matches Ok((n, _, _)) ==> parsed_expr(n),
    decreases t.len() - pos, 5nat,
{
    if 0 <= pos < t.len() {
        lemma_p_mul(t, pos + 1, ls);
        match p_mul(t, pos + 1, ls) {
            Ok((r, p2, ls2)) => {
                if pos < p2 <= t.len() {
                    lemma_binary_parsed(NodeKind::NdAdd, acc, r, t[pos].loc);
                    lemma_binary_parsed(NodeKind::NdSub, acc, r, t[pos].loc);
                    lemma_p_add_tail(t, crate::ast::binary_v(NodeKind::NdAdd, acc, r, t[pos].loc), p2, ls2);
                    lemma_p_add_tail(t, crate::ast::binary_v(NodeKind::NdSub, acc, r, t[pos].loc), p2, ls2);
                }
            },
            Err(_) => {},
        }
    }
}

/// mul: what it parses is a parsed expression.
proof fn lemma_p_mul(t: Seq<Token>, pos: int, ls: Seq<ObjV>)
    ensures
        p_mul(t, pos, ls) matches Ok((n, _, _)) ==> parsed_expr(n),
    decreases t.len() - pos, 4nat,
{
    lemma_p_unary(t, pos, ls);
    match p_unary(t, pos, ls) {
        Ok((n, p1, ls1)) => {
            if pos <= p1 <= t.len() {
                lemma_p_mul_tail(t, n, p1, ls1);
            }
        },
        Err(_) => {},
    }
}

/// The repeated part of mul: from a parsed operand, a parsed expression.
proof fn lemma_p_mul_tail(t: Seq<Token>, acc: NodeV, pos: int, ls: Seq<ObjV>)
    requires
        parsed_expr(acc),
    ensures
        p_mul_tail(t, acc, pos, ls) matches Ok((n, _, _)) ==> parsed_expr(n),
    decreases t.len() - pos, 3nat,
{
    if 0 <= pos < t.len() {
        lemma_p_unary(t, pos + 1, ls);
        match p_unary(t, pos + 1, ls) {
            Ok((r, p2, ls2)) => {
                if pos < p2 <= t.len() {
                    lemma_binary_parsed(NodeKind::NdMul, acc, r, t[pos].loc);
                    lemma_binary_parsed(NodeKind::NdDiv, acc, r, t[pos].loc);
                    lemma_p_mul_tail(t, crate::ast::binary_v(NodeKind::NdMul, acc, r, t[pos].loc), p2, ls2);
                    lemma_p_mul_tail(t, crate::ast::binary_v(NodeKind::NdDiv, acc, r, t[pos].loc), p2, ls2);
                }
            },
            Err(_) => {},
        }
    }
}

/// unary: what it parses is a parsed expression.
proof fn lemma_p_unary(t: Seq<Token>, pos: int, ls: Seq<ObjV>)
    ensures
        p_unary(t, pos, ls) matches Ok((n, _, _)) ==> parsed_expr(n),
    decreases t.len() - pos, 2nat,
{
    if 0 <= pos < t.len() {
        lemma_p_unary(t, pos + 1, ls);
    }
    lemma_p_primary(t, pos, ls);
}

/// primary: what it parses is a parsed expression.
proof fn lemma_p_primary(t: Seq<Token>, pos: int, ls: Seq<ObjV>)
    ensures
        p_primary(t, pos, ls) matches Ok((n, _, _)) ==> parsed_expr(n),
    decreases t.len() - pos, 1nat,
{
    if 0 <= pos < t.len() {
        lemma_p_expr(t, pos + 1, ls);
    }
}

/// expr_stmt: what it parses is a parsed statement.
proof fn lemma_p_expr_stmt(t: Seq<Token>, pos: int, ls: Seq<ObjV>)
    ensures
        p_expr_stmt(t, pos, ls) matches Ok((n, _, _)) ==> parsed_stmt(n),
    decreases t.len() - pos, 13nat,
{
    lemma_p_expr(t, pos, ls);
}

/// A statement that starts with a keyword: what it parses is a parsed statement.
proof fn lemma_p_keyword_stmt(t: Seq<Token>, pos: int, ls: Seq<ObjV>)
    ensures
        p_keyword_stmt(t, pos, ls) matches Ok((n, _, _)) ==> parsed_stmt(n),
    decreases t.len() - pos, 13nat,
{
    if 0 <= pos < t.len() {
        lemma_p_expr(t, pos + 1, ls);
    }
}

/// stmt: what it parses is a parsed statement.
proof fn lemma_p_stmt(t: Seq<Token>, pos: int, ls: Seq<ObjV>)
    ensures
        p_stmt(t, pos, ls) matches Ok((n, _, _)) ==> parsed_stmt(n),
    decreases t.len() - pos, 14nat,
{
    if 0 <= pos < t.len() {
        lemma_p_keyword_stmt(t, pos, ls);
        lemma_p_compound(t, pos + 1, ls);
        lemma_p_expr_stmt(t, pos, ls);
    }
}

/// The statements of a block: each is a parsed statement.
proof fn lemma_p_stmts(t: Seq<Token>, pos: int, ls: Seq<ObjV>)
    ensures
        p_stmts(t, pos, ls) matches Ok((ss, _, _)) ==> forall|i: int| 0 <= i < ss.len() ==> parsed_stmt(#[trigger] ss[i]),
    decreases t.len() - pos, 15nat,
{
    if 0 <= pos < t.len() - 1 {
        lemma_p_stmt(t, pos, ls);
        match p_stmt(t, pos, ls) {
            Ok((st, p1, ls1)) => {
                if pos < p1 <= t.len() {
                    lemma_p_stmts(t, p1, ls1);
                    match p_stmts(t, p1, ls1) {
                        Ok((rest, _, _)) => {
                            let ss = seq![st] + rest;
                            assert forall|i: int| 0 <= i < ss.len() implies parsed_stmt(#[trigger] ss[i]) by {
                                if i > 0 {
                                    assert(ss[i] == rest[i - 1]);
                                }
                            }
                        },
                        Err(_) => {},
                    }
                }
            },
            Err(_) => {},
        }
    }
}

/// Parsed statements linked into a list make a parsed list.
proof fn lemma_link_parsed(ss: Seq<NodeV>)
    requires
        forall|i: int| 0 <= i < ss.len() ==> parsed_stmt(#[trigger] ss[i]),
    ensures
        parsed_list(link(ss)),
    decreases ss.len(),
{
    if ss.len() > 0 {
        let rest = ss.drop_first();
        assert forall|i: int| 0 <= i < rest.len() implies parsed_stmt(#[trigger] rest[i]) by {
            assert(rest[i] == ss[i + 1]);
        }
        lemma_link_parsed(rest);
        let h = NodeV { next: link(rest), ..ss[0] };
        assert(link(ss) == Some(Box::new(h)));
        assert(h.kind == ss[0].kind && h.lhs == ss[0].lhs && h.body == ss[0].body);
        assert(parsed_stmt(ss[0]));
        assert(parsed_stmt(h));
    }
}

/// compound_stmt: what it parses is a parsed statement.
proof fn lemma_p_compound(t: Seq<Token>, pos: int, ls: Seq<ObjV>)
    ensures
        p_compound(t, pos, ls) matches Ok((n, _, _)) ==> parsed_stmt(n),
    decreases t.len() - pos, 16nat,
{
    lemma_p_stmts(t, pos, ls);
    match p_stmts(t, pos, ls) {
        Ok((ss, _, _)) => {
            lemma_link_parsed(ss);
        },
        Err(_) => {},
    }
}

/// The parser builds well-formed trees: the body of every program it accepts is a
/// block of expression statements and `return`s whose expressions have every part that
/// code generation needs.
pub proof fn lemma_parsed_program_body(t: Seq<Token>)
    ensures
        p_program(t) matches Ok((body, _)) ==> parsed_stmt(body) && body.kind == NodeKind::NdBlock
            && body.next is None,
{
    lemma_p_compound(t, 1, Seq::empty());
}

/// A parsed expression whose assignments are to variables, with its variables looked
/// up in any locals, is straight-line; its variable references have names.
proof fn lemma_synced_expr(n: NodeV, ls: Seq<ObjV>)
    requires
        parsed_expr(n),
        assigns_to_vars(n),
    ensures
        straight(synced(n, ls)),
        sync_ok(n),
    decreases n,
{
    match n.lhs {
        Some(l) => {
            lemma_synced_expr(*l, ls);
        },
        None => {},
    }
    match n.rhs {
        Some(r) => {
            lemma_synced_expr(*r, ls);
        },
        None => {},
    }
    if n.kind == NodeKind::NdAssign {
        let l = *n.lhs.unwrap();
        assert(addressable(synced(l, ls)));
    }
}

/// A parsed statement whose assignments are to variables, with its variables looked up
/// in any locals, is a statement the machine model covers, without branch labels, and
/// whose meaning needs no loop iteration; its variable references have names.
proof fn lemma_synced_stmt(n: NodeV, ls: Seq<ObjV>, fp: i64, mem: Map<i64, i64>)
    requires
        parsed_stmt(n),
        stmt_assigns_to_vars(n),
        sync_ok_child(n.next),
    ensures
        ctrl_stmt(synced(n, ls)),
        labels(synced(n, ls)) == 0,
        run_stmt(synced(n, ls), fp, mem, 0) is Some,
        sync_ok(n),
    decreases n, 0nat,
{
    match n.kind {
        NodeKind::NdBlock => {
            lemma_synced_list(n.body, ls, fp, mem);
        },
        _ => {
            lemma_synced_expr(*n.lhs.unwrap(), ls);
        },
    }
}

/// `lemma_synced_stmt` of a list of statements.
proof fn lemma_synced_list(o: Option<Box<NodeV>>, ls: Seq<ObjV>, fp: i64, mem: Map<i64, i64>)
    requires
        parsed_list(o),
        list_assigns_to_vars(o),
    ensures
        ctrl_list(synced_child(o, ls)),
        labels_list(synced_child(o, ls)) == 0,
        crate::control::run_list(synced_child(o, ls), fp, mem, 0) is Some,
        sync_ok_child(o),
    decreases o, 1nat,
{
    match o {
        Some(b) => {
            lemma_synced_list(b.next, ls, fp, mem);
            lemma_synced_stmt(*b, ls, fp, mem);
            let (r, m) = run_stmt(synced(*b, ls), fp, mem, 0).unwrap();
            lemma_synced_list(b.next, ls, fp, m);
        },
        None => {},
    }
}

/// The function that the parser builds from the tokens `t`, named `name`.
pub open spec fn parsed_function(t: Seq<Token>, name: Seq<char>) -> FunctionV {
    FunctionV {
        name: name,
        body: Some(Box::new(p_program(t).unwrap().0)),
        locals: p_program(t).unwrap().1,
        stack_size: 0,
    }
}

/// The compiler is correct on the programs its parser accepts: when the tokens parse
/// into a program whose assignments are to variables and whose frame fits, the code of
/// the program of that one function is generated without error, and the code of the
/// function's body, run from any machine state, arrives at the return label with the
/// memory the body leaves when the body does not return, or at a jump to the return
/// label with the returned value in `a0` when it does.
pub proof fn lemma_parsed_program(t: Seq<Token>, name: Seq<char>, s: Machine) -> (m: nat)
    requires
        p_program(t) is Ok,
        stmt_assigns_to_vars(p_program(t).unwrap().0),
        8 * p_program(t).unwrap().1.len() + 16 <= i32::MAX,
    ensures
        ({
            let f = parsed_function(t, name);
            g_program(seq![f]) matches Some((code, None)) && arrives(
                code,
                s,
                3 + stmt_code(laid_out_body(f), 1, arg_regs(), name).len() as int,
                steps(code, 3, s, m),
                run_stmt(laid_out_body(f), s.fp, s.mem, 0).unwrap(),
            )
        }),
{
    let f = parsed_function(t, name);
    let body = p_program(t).unwrap().0;
    lemma_parsed_program_body(t);
    lemma_synced_stmt(body, with_offsets(f.locals), s.fp, s.mem);
    assert(layout_ok(f));
    lemma_program_body(f, s, 0)
}

} // verus!
