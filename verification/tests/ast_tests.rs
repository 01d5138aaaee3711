use lib::ast::{Function, Node, NodeKind, Obj, Program};
use lib::lexer::{Token, TokenKind, V};
use lib::typecheck::{Type, TypeError, TypeKind};

fn tok(loc: usize) -> Token {
    Token { kind: TokenKind::TkPunct, value: Some(V::Str("+".to_string())), loc, len: 1 }
}

fn int_ty() -> Type {
    Type::new(TypeKind::Int)
}

fn ptr_ty() -> Type {
    Type { kind: TypeKind::Ptr, base: Some(Box::new(int_ty())) }
}

fn var(name: &str, ty: Type) -> Box<Node> {
    Node::new_var(Obj::new(name.to_string(), -8, &ty), &tok(0))
}

#[test]
fn program_and_function_start_empty() {
    let p = Program::new();
    assert!(p.funclist.is_empty());
    let f = Function::new();
    assert_eq!(f.name, "");
    assert!(f.body.is_none());
    assert!(f.locals.is_empty());
    assert_eq!(f.stack_size, 0);
}

#[test]
fn add_and_find_local_variables() {
    let mut f = Function::new();
    assert!(f.find_local_var("x").is_none());
    let x = f.add_local_var("x".to_string(), &int_ty()).unwrap();
    assert_eq!(x.name, "x");
    assert_eq!(x.offset, 0);
    assert_eq!(x.ty, Some(int_ty()));
    f.add_local_var("y".to_string(), &ptr_ty());
    f.add_local_var("x".to_string(), &ptr_ty());
    assert_eq!(f.locals.len(), 3);
    let found = f.find_local_var("x").unwrap();
    assert_eq!(found.ty, Some(int_ty()));
    assert_eq!(f.find_local_var("y").unwrap().ty, Some(ptr_ty()));
    assert!(f.find_local_var("z").is_none());
}

#[test]
fn node_constructors() {
    let n = Node::new_node(NodeKind::NdEmpty);
    assert_eq!(n.kind, NodeKind::NdEmpty);
    assert!(n.lhs.is_none() && n.rhs.is_none() && n.next.is_none() && n.body.is_none());
    assert!(n.ty.is_none() && n.val.is_none() && n.name.is_none() && n.var.is_none());
    assert_eq!(n.funcname, "");
    assert_eq!(n.tokloc, 0);

    let one = Node::new_num(1, &tok(3));
    assert_eq!(one.kind, NodeKind::NdNum);
    assert_eq!(one.val, Some(1));
    assert_eq!(one.name.as_deref(), Some("1"));
    assert_eq!(one.tokloc, 3);

    let minus = Node::new_num(-25, &tok(0));
    assert_eq!(minus.name.as_deref(), Some("-25"));

    let neg = Node::new_unary(NodeKind::NdNeg, Node::new_num(2, &tok(5)), &tok(4));
    assert_eq!(neg.kind, NodeKind::NdNeg);
    assert_eq!(neg.tokloc, 4);
    assert_eq!(neg.lhs.as_ref().unwrap().val, Some(2));
    assert!(neg.rhs.is_none());

    let sum = Node::new_binary(NodeKind::NdAdd, Node::new_num(1, &tok(0)), Node::new_num(2, &tok(2)), &tok(1));
    assert_eq!(sum.kind, NodeKind::NdAdd);
    assert_eq!(sum.tokloc, 1);
    assert_eq!(sum.lhs.as_ref().unwrap().val, Some(1));
    assert_eq!(sum.rhs.as_ref().unwrap().val, Some(2));

    let v = Node::new_var(Obj::new("k".to_string(), -16, &int_ty()), &tok(9));
    assert_eq!(v.kind, NodeKind::NdVar);
    assert_eq!(v.name.as_deref(), Some("k"));
    assert_eq!(v.var.as_ref().unwrap().offset, -16);
    assert_eq!(v.tokloc, 9);
}

#[test]
fn adding_integers() {
    let n = Node::new_add(Node::new_num(1, &tok(0)), Node::new_num(2, &tok(2)), &tok(1)).unwrap();
    assert_eq!(n.kind, NodeKind::NdAdd);
    assert!(n.ty.is_none());
    assert_eq!(n.lhs.as_ref().unwrap().ty, Some(int_ty()));
    assert_eq!(n.rhs.as_ref().unwrap().val, Some(2));
}

#[test]
fn adding_an_integer_to_a_pointer_scales_it() {
    let p = var("p", ptr_ty());
    let mut addr = Node::new_unary(NodeKind::NdAddr, p, &tok(0));
    let addr = Type::add_type(&mut addr);
    let n = Node::new_add(addr, Node::new_num(3, &tok(4)), &tok(2)).unwrap();
    assert_eq!(n.kind, NodeKind::NdAdd);
    let scaled = n.rhs.as_ref().unwrap();
    assert_eq!(scaled.kind, NodeKind::NdMul);
    assert_eq!(scaled.lhs.as_ref().unwrap().val, Some(3));
    assert_eq!(scaled.rhs.as_ref().unwrap().val, Some(8));
    assert_eq!(scaled.tokloc, 2);
}

#[test]
fn subtracting_integers() {
    let n = Node::new_sub(Node::new_num(5, &tok(0)), Node::new_num(2, &tok(2)), &tok(1)).unwrap();
    assert_eq!(n.kind, NodeKind::NdSub);
    assert!(n.ty.is_none());
}

#[test]
fn subtracting_an_integer_from_a_pointer() {
    let addr = Node::new_unary(NodeKind::NdAddr, var("p", int_ty()), &tok(0));
    let n = Node::new_sub(addr, Node::new_num(1, &tok(4)), &tok(3)).unwrap();
    assert_eq!(n.kind, NodeKind::NdSub);
    assert_eq!(n.ty.as_ref().unwrap().kind, TypeKind::Ptr);
    let scaled = n.rhs.as_ref().unwrap();
    assert_eq!(scaled.kind, NodeKind::NdMul);
    assert_eq!(scaled.rhs.as_ref().unwrap().val, Some(8));
    assert_eq!(scaled.ty, Some(int_ty()));
}

#[test]
fn subtracting_a_pointer_from_an_integer_is_an_error() {
    let addr = Node::new_unary(NodeKind::NdAddr, var("p", int_ty()), &tok(0));
    let r = Node::new_sub(Node::new_num(1, &tok(0)), addr, &tok(7));
    assert_eq!(r.err(), Some(TypeError::InvalidOperands { loc: 7 }));
}

#[test]
fn type_inference() {
    let cmp = Node::new_binary(NodeKind::NdLt, Node::new_num(1, &tok(0)), Node::new_num(2, &tok(2)), &tok(1));
    let mut sum = Node::new_binary(NodeKind::NdAdd, cmp, Node::new_num(3, &tok(4)), &tok(3));
    let copy = Type::add_type(&mut sum);
    assert_eq!(sum.ty, Some(int_ty()));
    assert_eq!(sum.lhs.as_ref().unwrap().ty, Some(int_ty()));
    assert_eq!(*copy, *sum);

    let mut addr = Node::new_unary(NodeKind::NdAddr, var("x", int_ty()), &tok(0));
    Type::add_type(&mut addr);
    assert_eq!(addr.ty, Some(ptr_ty()));

    let mut deref = Node::new_unary(NodeKind::NdDeref, addr, &tok(0));
    Type::add_type(&mut deref);
    assert_eq!(deref.ty, Some(int_ty()));

    let mut ret = Node::new_unary(NodeKind::NdReturn, Node::new_num(1, &tok(0)), &tok(0));
    Type::add_type(&mut ret);
    assert!(ret.ty.is_none());
    assert_eq!(ret.lhs.as_ref().unwrap().ty, Some(int_ty()));
}

#[test]
fn type_inference_twice_changes_nothing() {
    let inner = Node::new_unary(NodeKind::NdAddr, var("x", int_ty()), &tok(0));
    let mut n = Node::new_unary(NodeKind::NdDeref, inner, &tok(1));
    let once = Type::add_type(&mut n);
    let twice = Type::add_type(&mut n);
    assert_eq!(*once, *twice);
    assert_eq!(*n, *once);
}

#[test]
fn type_predicates() {
    assert!(Type::is_integer(&int_ty()));
    assert!(!Type::is_pointer(&int_ty()));
    assert!(Type::is_pointer(&ptr_ty()));
    assert!(!Type::is_integer(&ptr_ty()));
    assert_eq!(ptr_ty().base_ty(), Some(&int_ty()));
    assert!(int_ty().base_ty().is_none());
}

#[test]
fn adding_a_pointer_to_an_integer_puts_the_pointer_first() {
    let addr = Node::new_unary(NodeKind::NdAddr, var("p", int_ty()), &tok(3));
    let n = Node::new_add(Node::new_num(2, &tok(0)), addr, &tok(1)).unwrap();
    assert_eq!(n.kind, NodeKind::NdAdd);
    let l = n.lhs.as_ref().unwrap();
    assert_eq!(l.kind, NodeKind::NdAddr);
    assert_eq!(l.ty, Some(ptr_ty()));
    let scaled = n.rhs.as_ref().unwrap();
    assert_eq!(scaled.kind, NodeKind::NdMul);
    assert_eq!(scaled.lhs.as_ref().unwrap().val, Some(2));
    assert_eq!(scaled.rhs.as_ref().unwrap().val, Some(8));
}

#[test]
fn adding_two_pointers_is_an_error() {
    let a = Node::new_unary(NodeKind::NdAddr, var("p", int_ty()), &tok(0));
    let b = Node::new_unary(NodeKind::NdAddr, var("q", int_ty()), &tok(4));
    let r = Node::new_add(a, b, &tok(2));
    assert_eq!(r.err(), Some(TypeError::InvalidOperands { loc: 2 }));
}

#[test]
fn subtracting_two_pointers_counts_the_elements_between() {
    let a = Node::new_unary(NodeKind::NdAddr, var("p", int_ty()), &tok(0));
    let b = Node::new_unary(NodeKind::NdAddr, var("q", int_ty()), &tok(4));
    let n = Node::new_sub(a, b, &tok(2)).unwrap();
    assert_eq!(n.kind, NodeKind::NdDiv);
    assert!(n.ty.is_none());
    assert_eq!(n.rhs.as_ref().unwrap().val, Some(8));
    let diff = n.lhs.as_ref().unwrap();
    assert_eq!(diff.kind, NodeKind::NdSub);
    assert_eq!(diff.ty, Some(int_ty()));
    assert_eq!(diff.lhs.as_ref().unwrap().ty, Some(ptr_ty()));
    assert_eq!(diff.rhs.as_ref().unwrap().ty, Some(ptr_ty()));
}

#[test]
fn type_inference_reaches_every_part_of_a_statement() {
    let mut n = Node::new_node(NodeKind::NdIf);
    n.cond = Some(Node::new_binary(NodeKind::NdLt, Node::new_num(1, &tok(0)), Node::new_num(2, &tok(2)), &tok(1)));
    n.then_stmt = Some(Node::new_unary(NodeKind::NdExprStmt, Node::new_num(3, &tok(5)), &tok(5)));
    let mut lp = Node::new_node(NodeKind::NdFor);
    lp.init = Some(Node::new_unary(NodeKind::NdExprStmt, Node::new_num(4, &tok(8)), &tok(8)));
    lp.inc = Some(Node::new_num(5, &tok(9)));
    let mut first = Node::new_unary(NodeKind::NdExprStmt, Node::new_num(6, &tok(10)), &tok(10));
    first.next = Some(Node::new_unary(NodeKind::NdExprStmt, Node::new_num(7, &tok(11)), &tok(11)));
    let mut block = Node::new_node(NodeKind::NdBlock);
    block.body = Some(first);
    lp.then_stmt = Some(block);
    n.els = Some(lp);
    Type::add_type(&mut n);
    assert!(n.ty.is_none());
    assert_eq!(n.cond.as_ref().unwrap().ty, Some(int_ty()));
    assert_eq!(n.then_stmt.as_ref().unwrap().lhs.as_ref().unwrap().ty, Some(int_ty()));
    let lp = n.els.as_ref().unwrap();
    assert_eq!(lp.init.as_ref().unwrap().lhs.as_ref().unwrap().ty, Some(int_ty()));
    assert_eq!(lp.inc.as_ref().unwrap().ty, Some(int_ty()));
    let first = lp.then_stmt.as_ref().unwrap().body.as_ref().unwrap();
    assert_eq!(first.lhs.as_ref().unwrap().ty, Some(int_ty()));
    assert_eq!(first.next.as_ref().unwrap().lhs.as_ref().unwrap().ty, Some(int_ty()));
}
