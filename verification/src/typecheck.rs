//! Types and type inference.
use vstd::prelude::*;
use crate::ast::{Node, NodeKind, NodeV, size, csize};

verus! {

/// The kind of a type.
#[derive(Debug, Clone, Copy, PartialEq, Eq, Structural)]
pub enum TypeKind {
    Int,
    Ptr,
}

/// A type: an integer, or a pointer to a base type.
#[derive(Debug, PartialEq)]
pub struct Type {
    pub kind: TypeKind,
    pub base: Option<Box<Type>>,
}

/// Why operands could not be combined.
#[derive(Debug, Clone, Copy, PartialEq, Eq, Structural)]
pub enum TypeError {
    /// The operands of an addition or a subtraction, at the given offset, have types that
    /// cannot be combined that way.
    InvalidOperands { loc: usize },
}

/// The type of an integer.
pub open spec fn int_type() -> Type {
    Type { kind: TypeKind::Int, base: None }
}

/// The type that inference gives a node of kind `kind` whose (typed) left operand is `lhs`.
pub open spec fn type_of(kind: NodeKind, lhs: Option<Box<NodeV>>) -> Option<Type> {
    match kind {
        NodeKind::NdAdd | NodeKind::NdSub | NodeKind::NdMul | NodeKind::NdDiv | NodeKind::NdNeg
        | NodeKind::NdAssign => match lhs {
            Some(l) => l.ty,
            None => None,
        },
        NodeKind::NdEq | NodeKind::NdNeq | NodeKind::NdLt | NodeKind::NdLe | NodeKind::NdVar
        | NodeKind::NdNum => Some(int_type()),
        NodeKind::NdAddr => match lhs {
            Some(l) => Some(Type { kind: TypeKind::Ptr, base: Some(Box::new(l.ty.unwrap())) }),
            None => None,
        },
        NodeKind::NdDeref => match lhs {
            Some(l) => match l.ty {
                Some(t) => Some(
                    if t.kind == TypeKind::Ptr {
                        *t.base.unwrap()
                    } else {
                        int_type()
                    },
                ),
                None => None,
            },
            None => None,
        },
        _ => None,
    }
}

/// A node after type inference: a node that has a type is left as it is; otherwise its
/// operands, condition, branches, initialisation, increment and each statement of its
/// body are typed, and it gets the type that `type_of` gives from its typed left operand.
pub open spec fn typed(n: NodeV) -> NodeV
    decreases n, 1nat,
{
    if n.ty is Some {
        n
    } else {
        let lhs = typed_child(n.lhs);
        NodeV {
            lhs: lhs,
            rhs: typed_child(n.rhs),
            cond: typed_child(n.cond),
            then_stmt: typed_child(n.then_stmt),
            els: typed_child(n.els),
            init: typed_child(n.init),
            inc: typed_child(n.inc),
            body: typed_list(n.body),
            ty: type_of(n.kind, lhs),
            ..n
        }
    }
}

/// The node with its `next` link replaced.
pub open spec fn with_next(m: NodeV, x: Option<Box<NodeV>>) -> NodeV {
    NodeV { next: x, ..m }
}

/// `typed` of an optional child.
pub open spec fn typed_child(o: Option<Box<NodeV>>) -> Option<Box<NodeV>>
    decreases o, 2nat,
{
    match o {
        Some(b) => Some(Box::new(typed(*b))),
        None => None,
    }
}

/// `typed` of each statement of a list linked by `next`.
pub open spec fn typed_list(o: Option<Box<NodeV>>) -> Option<Box<NodeV>>
    decreases o, 2nat,
{
    match o {
        Some(b) => Some(Box::new(with_next(typed(*b), typed_list(b.next)))),
        None => None,
    }
}

/// Whether the node's own type can be set without failing, given its typed left operand:
/// taking an address needs a typed operand, and dereferencing a pointer needs its base.
pub open spec fn own_type_ok(kind: NodeKind, lhs: Option<Box<NodeV>>) -> bool {
    match kind {
        NodeKind::NdAddr => match lhs {
            Some(l) => l.ty is Some,
            None => true,
        },
        NodeKind::NdDeref => match lhs {
            Some(l) => match l.ty {
                Some(t) => t.kind == TypeKind::Ptr ==> t.base is Some,
                None => true,
            },
            None => true,
        },
        _ => true,
    }
}

/// Whether type inference on `n` runs without failing: it visits the operands, the
/// condition, branches, initialisation and increment, and each statement of the body.
pub open spec fn type_ok(n: NodeV) -> bool
    decreases n,
{
    if n.ty is Some {
        true
    } else {
        &&& child_type_ok(n.lhs)
        &&& child_type_ok(n.rhs)
        &&& child_type_ok(n.cond)
        &&& child_type_ok(n.then_stmt)
        &&& child_type_ok(n.els)
        &&& child_type_ok(n.init)
        &&& child_type_ok(n.inc)
        &&& list_type_ok(n.body)
        &&& own_type_ok(
            n.kind,
            match n.lhs {
                Some(l) => Some(Box::new(typed(*l))),
                None => None,
            },
        )
    }
}

/// `type_ok` of an optional child.
pub open spec fn child_type_ok(o: Option<Box<NodeV>>) -> bool
    decreases o,
{
    match o {
        Some(b) => type_ok(*b),
        None => true,
    }
}

/// `type_ok` of every statement of a list linked by `next`.
pub open spec fn list_type_ok(o: Option<Box<NodeV>>) -> bool
    decreases o,
{
    match o {
        Some(b) => type_ok(*b) && list_type_ok(b.next),
        None => true,
    }
}

/// Type inference is idempotent: inferring the types of a tree whose types have been
/// inferred changes nothing.
pub proof fn lemma_typed_idempotent(n: NodeV)
    ensures
        typed(typed(n)) == typed(n),
    decreases n, 1nat,
{
    if n.ty is None {
        lemma_typed_child_idempotent(n.lhs);
        lemma_typed_child_idempotent(n.rhs);
        lemma_typed_child_idempotent(n.cond);
        lemma_typed_child_idempotent(n.then_stmt);
        lemma_typed_child_idempotent(n.els);
        lemma_typed_child_idempotent(n.init);
        lemma_typed_child_idempotent(n.inc);
        lemma_typed_list_idempotent(n.body);
        let t = typed(n);
        if t.ty is None {
            assert(typed(t) =~= t);
        }
    }
}

/// `lemma_typed_idempotent` of an optional child.
proof fn lemma_typed_child_idempotent(o: Option<Box<NodeV>>)
    ensures
        typed_child(typed_child(o)) == typed_child(o),
    decreases o, 2nat,
{
    match o {
        Some(b) => lemma_typed_idempotent(*b),
        None => {},
    }
}

/// `lemma_typed_idempotent` of each statement of a list.
proof fn lemma_typed_list_idempotent(o: Option<Box<NodeV>>)
    ensures
        typed_list(typed_list(o)) == typed_list(o),
    decreases o, 2nat,
{
    match o {
        Some(b) => {
            lemma_typed_idempotent(*b);
            lemma_typed_list_idempotent(b.next);
            let m = typed(*b);
            let t = with_next(m, typed_list(b.next));
            lemma_typed_next(m, typed_list(b.next));
            assert(typed(t) == with_next(typed(m), typed_list(b.next)));
        },
        None => {},
    }
}

/// Typing a node neither reads nor changes its `next` link.
proof fn lemma_typed_next(m: NodeV, x: Option<Box<NodeV>>)
    ensures
        typed(with_next(m, x)) == with_next(typed(m), x),
        typed(m).next == m.next,
{
    assert(typed(with_next(m, x)) =~= with_next(typed(m), x));
}

/// Typing keeps what typing needs: a tree on which type inference runs without failing
/// is, once typed, again such a tree, and typing it again changes nothing. So
/// `Type::add_type` may be called again on its own result, which it gives back as it is.
pub proof fn lemma_typed_again(n: NodeV)
    requires
        type_ok(n),
    ensures
        type_ok(typed(n)),
        typed(typed(n)) == typed(n),
{
    lemma_type_ok_typed(n);
    lemma_typed_idempotent(n);
}

/// `type_ok` holds of a typed tree that it held of before typing.
proof fn lemma_type_ok_typed(n: NodeV)
    requires
        type_ok(n),
    ensures
        type_ok(typed(n)),
    decreases n, 1nat,
{
    if n.ty is None {
        lemma_child_type_ok_typed(n.lhs);
        lemma_child_type_ok_typed(n.rhs);
        lemma_child_type_ok_typed(n.cond);
        lemma_child_type_ok_typed(n.then_stmt);
        lemma_child_type_ok_typed(n.els);
        lemma_child_type_ok_typed(n.init);
        lemma_child_type_ok_typed(n.inc);
        lemma_list_type_ok_typed(n.body);
        lemma_typed_child_idempotent(n.lhs);
    }
}

/// `lemma_type_ok_typed` of an optional child.
proof fn lemma_child_type_ok_typed(o: Option<Box<NodeV>>)
    requires
        child_type_ok(o),
    ensures
        child_type_ok(typed_child(o)),
    decreases o, 2nat,
{
    match o {
        Some(b) => lemma_type_ok_typed(*b),
        None => {},
    }
}

/// `lemma_type_ok_typed` of each statement of a list.
proof fn lemma_list_type_ok_typed(o: Option<Box<NodeV>>)
    requires
        list_type_ok(o),
    ensures
        list_type_ok(typed_list(o)),
    decreases o, 2nat,
{
    match o {
        Some(b) => {
            lemma_type_ok_typed(*b);
            lemma_list_type_ok_typed(b.next);
            let m = typed(*b);
            let t = with_next(m, typed_list(b.next));
            assert(type_ok(t) == type_ok(m));
        },
        None => {},
    }
}

/// What type inference gives a node without a type, kind by kind, in terms of the
/// types its operand gets: an addition, subtraction, multiplication, division,
/// negation or assignment has the type of its left operand (so a pointer plus an
/// integer is a pointer); a comparison, a number or a variable is an integer; taking
/// an address gives a pointer to the operand's type; dereferencing a pointer gives the
/// type it points to, and dereferencing anything else an integer. A node that already
/// has a type keeps it and everything under it.
pub proof fn lemma_typed_types(n: NodeV)
    ensures
        n.ty is Some ==> typed(n) == n,
        n.ty is None && n.lhs is Some && (n.kind == NodeKind::NdAdd || n.kind == NodeKind::NdSub
            || n.kind == NodeKind::NdMul || n.kind == NodeKind::NdDiv || n.kind == NodeKind::NdNeg
            || n.kind == NodeKind::NdAssign) ==> typed(n).ty == typed(*n.lhs.unwrap()).ty,
        n.ty is None && (n.kind == NodeKind::NdEq || n.kind == NodeKind::NdNeq || n.kind
            == NodeKind::NdLt || n.kind == NodeKind::NdLe || n.kind == NodeKind::NdVar || n.kind
            == NodeKind::NdNum) ==> typed(n).ty == Some(int_type()),
        n.ty is None && n.kind == NodeKind::NdAddr && n.lhs is Some ==> (typed(n).ty matches Some(t)
            && t.kind == TypeKind::Ptr && t.base == Some(Box::new(typed(*n.lhs.unwrap()).ty.unwrap()))),
        n.ty is None && n.kind == NodeKind::NdDeref && n.lhs is Some && typed(*n.lhs.unwrap()).ty
            is Some ==> typed(n).ty == Some(
            if typed(*n.lhs.unwrap()).ty.unwrap().kind == TypeKind::Ptr {
                *typed(*n.lhs.unwrap()).ty.unwrap().base.unwrap()
            } else {
                int_type()
            },
        ),
        n.ty is None ==> typed(n).lhs == typed_child(n.lhs) && typed(n).rhs == typed_child(n.rhs),
{
}

impl Type {
    /// A type of the given kind with no base.
    pub fn new(kind: TypeKind) -> (t: Self)
        ensures
            t == (Type { kind: kind, base: None }),
    {
        Type { kind, base: None }
    }

    /// A copy of this type.
    pub fn copy(&self) -> (t: Self)
        ensures
            t == *self,
        decreases self,
    {
        Type {
            kind: self.kind,
            base: match &self.base {
                Some(b) => Some(Box::new(b.copy())),
                None => None,
            },
        }
    }

    /// The type a pointer points to; `None` for a type without a base.
    pub fn base_ty(&self) -> (r: Option<&Self>)
        ensures
            r is Some <==> self.base is Some,
            r is Some ==> *r.unwrap() == *self.base.unwrap(),
    {
        match &self.base {
            Some(ty) => Some(&**ty),
            None => None,
        }
    }

    /// Whether the type is an integer.
    pub fn is_integer(ty: &Type) -> (b: bool)
        ensures
            b == (ty.kind == TypeKind::Int),
    {
        ty.kind == TypeKind::Int
    }

    /// Type inference: gives `n` and the nodes under it their types (see `typed`) and
    /// returns a copy of the result; it can run again on the result, which it then
    /// leaves as it is (see `lemma_typed_again`).
    pub fn add_type(n: &mut Box<Node>) -> (r: Box<Node>)
        requires
            type_ok(old(n)@),
        ensures
            final(n)@ == typed(old(n)@),
            r@ == typed(old(n)@),
            type_ok(final(n)@),
        decreases size(old(n)@), 0nat,
    {
        if n.ty.is_none() {
            if n.lhs.is_some() {
                let mut l = n.lhs.take().unwrap();
                let t = Type::add_type(&mut l);
                n.lhs = Some(t);
            }
            if n.rhs.is_some() {
                let mut r = n.rhs.take().unwrap();
                let t = Type::add_type(&mut r);
                n.rhs = Some(t);
            }
            Type::add_type_child(&mut n.cond);
            Type::add_type_child(&mut n.then_stmt);
            Type::add_type_child(&mut n.els);
            Type::add_type_child(&mut n.init);
            Type::add_type_child(&mut n.inc);
            Type::add_type_list(&mut n.body);
            match n.kind {
                NodeKind::NdAdd | NodeKind::NdSub | NodeKind::NdMul | NodeKind::NdDiv
                | NodeKind::NdNeg | NodeKind::NdAssign => {
                    n.ty = match &n.lhs {
                        Some(l) => match &l.ty {
                            Some(t) => Some(t.copy()),
                            None => None,
                        },
                        None => None,
                    };
                },
                NodeKind::NdEq | NodeKind::NdNeq | NodeKind::NdLt | NodeKind::NdLe
                | NodeKind::NdVar | NodeKind::NdNum => {
                    n.ty = Some(Type { kind: TypeKind::Int, base: None });
                },
                NodeKind::NdAddr => {
                    n.ty = match &n.lhs {
                        Some(l) => Some(
                            Type {
                                kind: TypeKind::Ptr,
                                base: Some(Box::new(l.ty.as_ref().unwrap().copy())),
                            },
                        ),
                        None => None,
                    };
                },
                NodeKind::NdDeref => {
                    let t = match &n.lhs {
                        Some(l) => match &l.ty {
                            Some(lhs_ty) => Some(
                                if lhs_ty.kind == TypeKind::Ptr {
                                    lhs_ty.base.as_ref().unwrap().copy()
                                } else {
                                    Type { kind: TypeKind::Int, base: None }
                                },
                            ),
                            None => None,
                        },
                        None => None,
                    };
                    if t.is_some() {
                        n.ty = t;
                    }
                },
                _ => {},
            }
        }
        proof {
            assert(n@ =~= typed(old(n)@));
            lemma_type_ok_typed(old(n)@);
        }
        Box::new(n.copy())
    }

    /// Type inference on an optional child.
    fn add_type_child(o: &mut Option<Box<Node>>)
        requires
            child_type_ok(crate::ast::child_view(*old(o))),
        ensures
            crate::ast::child_view(*final(o)) == typed_child(crate::ast::child_view(*old(o))),
        decreases csize(crate::ast::child_view(*old(o))), 1nat,
    {
        if o.is_some() {
            let mut c = o.take().unwrap();
            Type::add_type(&mut c);
            *o = Some(c);
        }
    }

    /// Type inference on each statement of a list linked by `next`.
    fn add_type_list(o: &mut Option<Box<Node>>)
        requires
            list_type_ok(crate::ast::child_view(*old(o))),
        ensures
            crate::ast::child_view(*final(o)) == typed_list(crate::ast::child_view(*old(o))),
        decreases csize(crate::ast::child_view(*old(o))), 1nat,
    {
        if o.is_some() {
            let mut b = o.take().unwrap();
            let ghost b0 = b@;
            Type::add_type(&mut b);
            proof {
                lemma_typed_next(b0, b0.next);
            }
            let mut nx = b.next.take();
            Type::add_type_list(&mut nx);
            b.next = nx;
            proof {
                assert(b@ =~= with_next(typed(b0), typed_list(b0.next)));
            }
            *o = Some(b);
        }
    }

    /// Whether the type is a pointer.
    pub fn is_pointer(ty: &Type) -> (b: bool)
        ensures
            b == (ty.kind == TypeKind::Ptr),
    {
        ty.kind == TypeKind::Ptr
    }
}

} // verus!
