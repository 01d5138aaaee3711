//! The abstract syntax tree: programs, functions, local variables and nodes.
use vstd::prelude::*;
use crate::lexer::Token;
use crate::text::int_to_string;
use crate::text::dec_int;
use crate::typecheck::{Type, TypeKind, TypeError, typed, type_ok, int_type};

verus! {

/// A whole program: its functions in order.
pub struct Program {
    pub funclist: Vec<Function>,
}

impl Program {
    /// A program without functions.
    pub fn new() -> (p: Self)
        ensures
            p.funclist@.len() == 0,
    {
        Program { funclist: Vec::new() }
    }
}

/// A local variable.
#[derive(Debug, PartialEq)]
pub struct Obj {
    /// Its name.
    pub name: String,
    /// Its offset from the frame pointer.
    pub offset: i32,
    /// Its type.
    pub ty: Option<Type>,
}

/// The mathematical value of a local variable.
pub struct ObjV {
    pub name: Seq<char>,
    pub offset: i32,
    pub ty: Option<Type>,
}

impl View for Obj {
    type V = ObjV;

    open spec fn view(&self) -> ObjV {
        ObjV { name: self.name@, offset: self.offset, ty: self.ty }
    }
}

/// The views of a sequence of local variables.
pub open spec fn objs_view(s: Seq<Obj>) -> Seq<ObjV> {
    s.map_values(|o: Obj| o@)
}

impl Obj {
    /// A variable with the given name, offset and type.
    pub fn new(name: String, offset: i32, ty: &Type) -> (o: Self)
        ensures
            o@ == (ObjV { name: name@, offset: offset, ty: Some(*ty) }),
    {
        Obj { name, offset, ty: Some(ty.copy()) }
    }

    /// A copy of this variable.
    pub fn copy(&self) -> (o: Self)
        ensures
            o@ == self@,
    {
        Obj {
            name: self.name.clone(),
            offset: self.offset,
            ty: match &self.ty {
                Some(t) => Some(t.copy()),
                None => None,
            },
        }
    }
}

/// A function: its name, body, local variables and stack size.
#[derive(Debug, PartialEq)]
pub struct Function {
    pub name: String,
    pub body: Option<Box<Node>>,
    pub locals: Vec<Obj>,
    pub stack_size: i32,
}

/// The mathematical value of a function.
pub struct FunctionV {
    pub name: Seq<char>,
    pub body: Option<Box<NodeV>>,
    pub locals: Seq<ObjV>,
    pub stack_size: i32,
}

impl View for Function {
    type V = FunctionV;

    open spec fn view(&self) -> FunctionV {
        FunctionV {
            name: self.name@,
            body: child_view(self.body),
            locals: objs_view(self.locals@),
            stack_size: self.stack_size,
        }
    }
}

/// Index of the first variable in `ls`, from index `i` on, named `name`.
pub open spec fn find_from(ls: Seq<ObjV>, name: Seq<char>, i: int) -> Option<int>
    decreases ls.len() - i,
{
    if i < 0 || i >= ls.len() {
        None
    } else if ls[i].name == name {
        Some(i)
    } else {
        find_from(ls, name, i + 1)
    }
}

/// Index of the first variable in `ls` named `name`.
pub open spec fn find_first(ls: Seq<ObjV>, name: Seq<char>) -> Option<int> {
    find_from(ls, name, 0)
}

/// What `find_from` finds: a variable with the name, at or after `i`, with none of
/// that name between `i` and it; and when it finds none, there is none from `i` on.
pub proof fn lemma_find_from(ls: Seq<ObjV>, name: Seq<char>, i: int)
    requires
        0 <= i,
    ensures
        match find_from(ls, name, i) {
            Some(k) => i <= k < ls.len() && ls[k].name == name && forall|j: int|
                i <= j < k ==> ls[j].name != name,
            None => forall|j: int| i <= j < ls.len() ==> ls[j].name != name,
        },
    decreases ls.len() - i,
{
    if i < ls.len() && ls[i].name != name {
        lemma_find_from(ls, name, i + 1);
    }
}

impl Function {
    /// A function with an empty name, no body, no locals and no stack.
    pub fn new() -> (f: Self)
        ensures
            f.name@ == Seq::<char>::empty(),
            f.body is None,
            f.locals@.len() == 0,
            f.stack_size == 0,
    {
        Function { name: String::new(), body: None, locals: Vec::new(), stack_size: 0 }
    }

    /// A copy of this function.
    pub fn copy(&self) -> (f: Self)
        ensures
            f@ == self@,
    {
        let n = self.locals.len();
        let mut locals: Vec<Obj> = Vec::new();
        let mut i: usize = 0;
        while i < n
            invariant
                n == self.locals@.len(),
                i <= n,
                objs_view(locals@) == objs_view(self.locals@).take(i as int),
            decreases n - i,
        {
            let o = self.locals[i].copy();
            let ghost prev = locals@;
            locals.push(o);
            proof {
                assert(objs_view(locals@) =~= objs_view(prev).push(o@));
                assert(objs_view(self.locals@).take(i + 1) =~= objs_view(self.locals@).take(i as int).push(o@));
            }
            i = i + 1;
        }
        proof {
            assert(objs_view(locals@) =~= objs_view(self.locals@));
        }
        Function {
            name: self.name.clone(),
            body: copy_child(&self.body),
            locals,
            stack_size: self.stack_size,
        }
    }

    /// The first local variable named `name`, if there is one.
    pub fn find_local_var(&self, name: &str) -> (r: Option<&Obj>)
        ensures
            match (r, find_first(objs_view(self.locals@), name@)) {
                (Some(o), Some(k)) => o@ == objs_view(self.locals@)[k],
                (None, None) => true,
                _ => false,
            },
    {
        let target = String::from_str(name);
        let n = self.locals.len();
        let mut i: usize = 0;
        while i < n
            invariant
                n == self.locals@.len(),
                i <= n,
                target@ == name@,
                find_first(objs_view(self.locals@), name@) == find_from(
                    objs_view(self.locals@),
                    name@,
                    i as int,
                ),
            decreases n - i,
        {
            if self.locals[i].name == target {
                return Some(&self.locals[i]);
            }
            i = i + 1;
        }
        None
    }

    /// Adds a local variable named `name` with offset 0 and the given type, and returns it.
    pub fn add_local_var(&mut self, name: String, ty: &Type) -> (r: Option<Obj>)
        ensures
            final(self).locals@ == old(self).locals@.push(final(self).locals@.last()),
            final(self).locals@.last()@ == (ObjV { name: name@, offset: 0, ty: Some(*ty) }),
            r matches Some(o) && o@ == final(self).locals@.last()@,
            final(self).name == old(self).name,
            final(self).body == old(self).body,
            final(self).stack_size == old(self).stack_size,
    {
        let obj = Obj::new(name, 0, ty);
        let copy = obj.copy();
        self.locals.push(obj);
        Some(copy)
    }
}

/// The kind of a node.
#[derive(Debug, Clone, Copy, PartialEq, Eq, Structural)]
pub enum NodeKind {
    NdAdd,
    NdSub,
    NdMul,
    NdDiv,
    NdNeg,
    NdEq,
    NdNeq,
    NdLt,
    NdLe,
    NdNum,
    NdAssign,
    NdAddr,
    NdDeref,
    NdReturn,
    NdIf,
    NdFor,
    NdEmpty,
    NdBlock,
    NdFuncall,
    NdExprStmt,
    NdVar,
}

/// A node of the syntax tree.
#[derive(Debug, PartialEq)]
pub struct Node {
    pub kind: NodeKind,
    /// The next statement of a list.
    pub next: Option<Box<Node>>,
    pub lhs: Option<Box<Node>>,
    pub rhs: Option<Box<Node>>,
    /// Offset of the node's token in the source text.
    pub tokloc: usize,
    pub ty: Option<Type>,
    pub cond: Option<Box<Node>>,
    pub then_stmt: Option<Box<Node>>,
    pub els: Option<Box<Node>>,
    pub init: Option<Box<Node>>,
    pub inc: Option<Box<Node>>,
    /// The statements of a block.
    pub body: Option<Box<Node>>,
    pub val: Option<i32>,
    pub name: Option<String>,
    pub var: Option<Obj>,
    pub funcname: String,
    pub args: Option<Box<Node>>,
}

/// The mathematical value of a node.
pub struct NodeV {
    pub kind: NodeKind,
    pub next: Option<Box<NodeV>>,
    pub lhs: Option<Box<NodeV>>,
    pub rhs: Option<Box<NodeV>>,
    pub tokloc: usize,
    pub ty: Option<Type>,
    pub cond: Option<Box<NodeV>>,
    pub then_stmt: Option<Box<NodeV>>,
    pub els: Option<Box<NodeV>>,
    pub init: Option<Box<NodeV>>,
    pub inc: Option<Box<NodeV>>,
    pub body: Option<Box<NodeV>>,
    pub val: Option<i32>,
    pub name: Option<Seq<char>>,
    pub var: Option<ObjV>,
    pub funcname: Seq<char>,
    pub args: Option<Box<NodeV>>,
}

/// The view of an optional child.
pub open spec fn child_view(o: Option<Box<Node>>) -> Option<Box<NodeV>>
    decreases o,
{
    match o {
        Some(b) => Some(Box::new(node_view(*b))),
        None => None,
    }
}

/// The view of a node.
pub open spec fn node_view(n: Node) -> NodeV
    decreases n,
{
    NodeV {
        kind: n.kind,
        next: child_view(n.next),
        lhs: child_view(n.lhs),
        rhs: child_view(n.rhs),
        tokloc: n.tokloc,
        ty: n.ty,
        cond: child_view(n.cond),
        then_stmt: child_view(n.then_stmt),
        els: child_view(n.els),
        init: child_view(n.init),
        inc: child_view(n.inc),
        body: child_view(n.body),
        val: n.val,
        name: match n.name {
            Some(s) => Some(s@),
            None => None,
        },
        var: match n.var {
            Some(o) => Some(o@),
            None => None,
        },
        funcname: n.funcname@,
        args: child_view(n.args),
    }
}

impl View for Node {
    type V = NodeV;

    open spec fn view(&self) -> NodeV {
        node_view(*self)
    }
}

/// The number of nodes in a tree, counting every child.
pub open spec fn size(n: NodeV) -> nat
    decreases n,
{
    1 + csize(n.next) + csize(n.lhs) + csize(n.rhs) + csize(n.cond) + csize(n.then_stmt)
        + csize(n.els) + csize(n.init) + csize(n.inc) + csize(n.body) + csize(n.args)
}

/// The number of nodes in an optional child.
pub open spec fn csize(o: Option<Box<NodeV>>) -> nat
    decreases o,
{
    match o {
        Some(b) => size(*b),
        None => 0,
    }
}

/// A node of the given kind with no children and no attributes.
pub open spec fn blank(kind: NodeKind) -> NodeV {
    NodeV {
        kind: kind,
        next: None,
        lhs: None,
        rhs: None,
        tokloc: 0,
        ty: None,
        cond: None,
        then_stmt: None,
        els: None,
        init: None,
        inc: None,
        body: None,
        val: None,
        name: None,
        var: None,
        funcname: Seq::empty(),
        args: None,
    }
}

/// A node with one operand.
pub open spec fn unary_v(kind: NodeKind, l: NodeV, loc: usize) -> NodeV {
    NodeV { lhs: Some(Box::new(l)), tokloc: loc, ..blank(kind) }
}

/// A node with two operands.
pub open spec fn binary_v(kind: NodeKind, l: NodeV, r: NodeV, loc: usize) -> NodeV {
    NodeV { lhs: Some(Box::new(l)), rhs: Some(Box::new(r)), tokloc: loc, ..blank(kind) }
}

/// A numeric literal; its name is its decimal numeral.
pub open spec fn num_v(val: i32, loc: usize) -> NodeV {
    NodeV { val: Some(val), name: Some(dec_int(val as int)), tokloc: loc, ..blank(NodeKind::NdNum) }
}

/// A variable reference.
pub open spec fn var_v(var: ObjV, loc: usize) -> NodeV {
    NodeV { name: Some(var.name), var: Some(var), tokloc: loc, ..blank(NodeKind::NdVar) }
}

/// The addition that `Node::new_add` builds from typed operands, or `None` when both are
/// pointers: two integers are added; an integer and a pointer become the pointer plus
/// the integer scaled by 8, the size of an element.
pub open spec fn add_v(l: NodeV, r: NodeV, loc: usize) -> Option<NodeV> {
    let lt = l.ty.unwrap();
    let rt = r.ty.unwrap();
    if lt.kind == TypeKind::Int && rt.kind == TypeKind::Int {
        Some(binary_v(NodeKind::NdAdd, l, r, loc))
    } else if lt.base is Some && rt.base is Some {
        None
    } else if lt.base is None && rt.base is Some {
        Some(binary_v(NodeKind::NdAdd, r, binary_v(NodeKind::NdMul, l, num_v(8, loc), loc), loc))
    } else {
        Some(binary_v(NodeKind::NdAdd, l, binary_v(NodeKind::NdMul, r, num_v(8, loc), loc), loc))
    }
}

/// The subtraction that `Node::new_sub` builds from typed operands, or `None` when their
/// types cannot be subtracted: two integers are subtracted; from a pointer an integer
/// scaled by 8 is subtracted, with the pointer's type; of two pointers the difference is
/// divided by 8, which counts the elements between them.
pub open spec fn sub_v(l: NodeV, r: NodeV, loc: usize) -> Option<NodeV> {
    let lt = l.ty.unwrap();
    let rt = r.ty.unwrap();
    if lt.kind == TypeKind::Int && rt.kind == TypeKind::Int {
        Some(binary_v(NodeKind::NdSub, l, r, loc))
    } else if lt.kind == TypeKind::Ptr && rt.kind == TypeKind::Int {
        let scaled = typed(binary_v(NodeKind::NdMul, r, num_v(8, loc), loc));
        Some(NodeV { ty: l.ty, ..binary_v(NodeKind::NdSub, l, scaled, loc) })
    } else if lt.base is Some && rt.base is Some {
        let diff = NodeV { ty: Some(int_type()), ..binary_v(NodeKind::NdSub, l, r, loc) };
        Some(binary_v(NodeKind::NdDiv, diff, num_v(8, loc), loc))
    } else {
        None
    }
}

/// Copies an optional child.
pub fn copy_child(o: &Option<Box<Node>>) -> (r: Option<Box<Node>>)
    ensures
        child_view(r) == child_view(*o),
    decreases o,
{
    match o {
        Some(b) => Some(Box::new(b.copy())),
        None => None,
    }
}

impl Node {
    /// A copy of this node and of all that hangs from it.
    pub fn copy(&self) -> (r: Node)
        ensures
            r@ == self@,
        decreases self,
    {
        Node {
            kind: self.kind,
            next: copy_child(&self.next),
            lhs: copy_child(&self.lhs),
            rhs: copy_child(&self.rhs),
            tokloc: self.tokloc,
            ty: match &self.ty {
                Some(t) => Some(t.copy()),
                None => None,
            },
            cond: copy_child(&self.cond),
            then_stmt: copy_child(&self.then_stmt),
            els: copy_child(&self.els),
            init: copy_child(&self.init),
            inc: copy_child(&self.inc),
            body: copy_child(&self.body),
            val: self.val,
            name: match &self.name {
                Some(s) => Some(s.clone()),
                None => None,
            },
            var: match &self.var {
                Some(o) => Some(o.copy()),
                None => None,
            },
            funcname: self.funcname.clone(),
            args: copy_child(&self.args),
        }
    }

    /// A node of the given kind with no children and no attributes.
    pub fn new_node(kind: NodeKind) -> (r: Box<Node>)
        ensures
            r@ == blank(kind),
    {
        Box::new(
            Node {
                kind,
                next: None,
                lhs: None,
                rhs: None,
                tokloc: 0,
                ty: None,
                body: None,
                var: None,
                val: None,
                name: None,
                cond: None,
                then_stmt: None,
                els: None,
                init: None,
                inc: None,
                funcname: String::new(),
                args: None,
            },
        )
    }

    /// A node of the given kind with one operand, at the token's location.
    pub fn new_unary(kind: NodeKind, single_node: Box<Node>, tok: &Token) -> (r: Box<Node>)
        ensures
            r@ == unary_v(kind, single_node@, tok.loc),
    {
        let mut node = Node::new_node(kind);
        node.lhs = Some(single_node);
        node.tokloc = tok.loc;
        proof {
            assert(node@ =~= unary_v(kind, single_node@, tok.loc));
        }
        node
    }

    /// A node of the given kind with two operands, at the token's location.
    pub fn new_binary(kind: NodeKind, lhs: Box<Node>, rhs: Box<Node>, tok: &Token) -> (r: Box<
        Node,
    >)
        ensures
            r@ == binary_v(kind, lhs@, rhs@, tok.loc),
    {
        let mut node = Node::new_node(kind);
        node.lhs = Some(lhs);
        node.rhs = Some(rhs);
        node.tokloc = tok.loc;
        proof {
            assert(node@ =~= binary_v(kind, lhs@, rhs@, tok.loc));
        }
        node
    }

    /// A numeric literal at the token's location; its name is its decimal numeral.
    pub fn new_num(val: i32, tok: &Token) -> (r: Box<Node>)
        ensures
            r@ == num_v(val, tok.loc),
    {
        let mut node = Node::new_node(NodeKind::NdNum);
        node.val = Some(val);
        node.name = Some(int_to_string(val as i64));
        node.tokloc = tok.loc;
        proof {
            assert(node@ =~= num_v(val, tok.loc));
        }
        node
    }

    /// An addition that takes pointers into account (see `add_v`): both operands are
    /// typed; the sum of two pointers is an error.
    pub fn new_add(lhs: Box<Node>, rhs: Box<Node>, tok: &Token) -> (r: Result<Box<Node>, TypeError>)
        requires
            type_ok(lhs@),
            type_ok(rhs@),
            typed(lhs@).ty is Some,
            typed(rhs@).ty is Some,
        ensures
            match r {
                Ok(n) => add_v(typed(lhs@), typed(rhs@), tok.loc) == Some(n@),
                Err(e) => add_v(typed(lhs@), typed(rhs@), tok.loc) is None && e
                    == TypeError::InvalidOperands { loc: tok.loc },
            },
    {
        let mut lhs = lhs;
        let mut rhs = rhs;
        let lhs = Type::add_type(&mut lhs);
        let rhs = Type::add_type(&mut rhs);
        let lhs_int = Type::is_integer(lhs.ty.as_ref().unwrap());
        let rhs_int = Type::is_integer(rhs.ty.as_ref().unwrap());
        if lhs_int && rhs_int {
            return Ok(Node::new_binary(NodeKind::NdAdd, lhs, rhs, tok));
        }
        let lhs_base = lhs.ty.as_ref().unwrap().base_ty().is_some();
        let rhs_base = rhs.ty.as_ref().unwrap().base_ty().is_some();
        if lhs_base && rhs_base {
            return Err(TypeError::InvalidOperands { loc: tok.loc });
        }
        let (lhs, rhs) = if !lhs_base && rhs_base {
            (rhs, lhs)
        } else {
            (lhs, rhs)
        };
        let rhs = Node::new_binary(NodeKind::NdMul, rhs, Node::new_num(8, tok), tok);
        Ok(Node::new_binary(NodeKind::NdAdd, lhs, rhs, tok))
    }

    /// A subtraction that takes pointers into account (see `sub_v`): both operands are
    /// typed; any pair of types that `sub_v` does not cover is an error.
    pub fn new_sub(lhs: Box<Node>, rhs: Box<Node>, tok: &Token) -> (r: Result<Box<Node>, TypeError>)
        requires
            type_ok(lhs@),
            type_ok(rhs@),
            typed(lhs@).ty is Some,
            typed(rhs@).ty is Some,
        ensures
            match r {
                Ok(n) => sub_v(typed(lhs@), typed(rhs@), tok.loc) == Some(n@),
                Err(e) => sub_v(typed(lhs@), typed(rhs@), tok.loc) is None && e
                    == TypeError::InvalidOperands { loc: tok.loc },
            },
    {
        let ghost l0 = lhs@;
        let ghost r0 = rhs@;
        let mut lhs = lhs;
        let mut rhs = rhs;
        let lhs = Type::add_type(&mut lhs);
        let rhs = Type::add_type(&mut rhs);
        let lhs_int = Type::is_integer(lhs.ty.as_ref().unwrap());
        let lhs_ptr = Type::is_pointer(lhs.ty.as_ref().unwrap());
        let rhs_int = Type::is_integer(rhs.ty.as_ref().unwrap());
        if lhs_int && rhs_int {
            return Ok(Node::new_binary(NodeKind::NdSub, lhs, rhs, tok));
        }
        if lhs_ptr && rhs_int {
            let mut rhs = Node::new_binary(NodeKind::NdMul, rhs, Node::new_num(8, tok), tok);
            proof {
                assert(type_ok(num_v(8, tok.loc)));
                assert(type_ok(typed(r0)));
            }
            Type::add_type(&mut rhs);
            let lhs_copy = Box::new(lhs.copy());
            let mut nd = Node::new_binary(NodeKind::NdSub, lhs_copy, rhs, tok);
            nd.ty = match &lhs.ty {
                Some(t) => Some(t.copy()),
                None => None,
            };
            proof {
                assert(nd@ =~= sub_v(typed(l0), typed(r0), tok.loc).unwrap());
            }
            return Ok(nd);
        }
        if lhs.ty.as_ref().unwrap().base_ty().is_some() && rhs.ty.as_ref().unwrap().base_ty().is_some() {
            let mut nd = Node::new_binary(NodeKind::NdSub, lhs, rhs, tok);
            nd.ty = Some(Type::new(TypeKind::Int));
            let r = Node::new_binary(NodeKind::NdDiv, nd, Node::new_num(8, tok), tok);
            proof {
                assert(r@ =~= sub_v(typed(l0), typed(r0), tok.loc).unwrap());
            }
            return Ok(r);
        }
        Err(TypeError::InvalidOperands { loc: tok.loc })
    }

    /// A reference to the variable at the token's location.
    pub fn new_var(var: Obj, tok: &Token) -> (r: Box<Node>)
        ensures
            r@ == var_v(var@, tok.loc),
    {
        let mut node = Node::new_node(NodeKind::NdVar);
        node.name = Some(var.name.clone());
        node.var = Some(var);
        node.tokloc = tok.loc;
        proof {
            assert(node@ =~= var_v(var@, tok.loc));
        }
        node
    }
}

} // verus!
