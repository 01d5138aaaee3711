//! Parsing: from tokens to a function whose body is a block of statements.
//!
//! program      = "{" compound_stmt
//! compound_stmt = stmt* "}"
//! stmt         = ";" | "return" expr ";" | "{" compound_stmt | expr_stmt
//! expr_stmt    = expr ";"
//! expr         = assign
//! assign       = equality ("=" assign)?
//! equality     = relational ("==" relational | "!=" relational)*
//! relational   = add ("<" add | "<=" add | ">" add | ">=" add)*
//! add          = mul ("+" mul | "-" mul)*
//! mul          = unary ("*" unary | "/" unary)*
//! unary        = ("+" | "-") unary | primary
//! primary      = "(" expr ")" | ident | num
use vstd::prelude::*;
use vstd::string::StringSliceAdditionalSpecFns;
use vstd::string::StringExecFns;
use crate::lexer::{Token, TokenKind, V};
use crate::ast::{Node, NodeKind, NodeV, Function, Obj, ObjV, objs_view, find_first, blank, unary_v, binary_v, num_v, var_v, child_view};
use crate::typecheck::{Type, TypeKind, int_type};

verus! {

/// Why a token sequence is not a program.
#[derive(Debug, Clone, Copy, PartialEq, Eq, Structural)]
pub enum ParseError {
    /// An expression statement is not followed by `;`.
    ExpectedSemicolon,
    /// A `return` statement is not followed by `;`.
    ExpectedSemicolonAfterReturn,
    /// An identifier token carries no name.
    ExpectVariableName,
    /// A statement starts with a punctuator other than `;` and `{`.
    UnexpectedToken,
    /// A parenthesised expression is not closed by `)`.
    MissingCloseParen,
    /// The token at the given offset cannot start an expression.
    ExpectedExpression { loc: usize },
    /// The program does not start with `{`.
    ExpectedOpenBrace,
    /// A block is not closed by `}`.
    ExpectedCloseBrace,
    /// A statement starts with a keyword other than `return`.
    UnknownKeyword,
    /// Tokens follow a complete expression.
    UnexpectedTokens,
}

impl ParseError {
    /// Whether the error ends the compiler with a diagnostic; the others make it stop
    /// without output.
    pub fn is_fatal(&self) -> (b: bool)
        ensures
            b == !(*self is ExpectedSemicolon || *self is ExpectedSemicolonAfterReturn
                || *self is ExpectVariableName || *self is UnexpectedToken
                || *self is UnexpectedTokens),
    {
        match self {
            ParseError::ExpectedSemicolon | ParseError::ExpectedSemicolonAfterReturn
            | ParseError::ExpectVariableName | ParseError::UnexpectedToken
            | ParseError::UnexpectedTokens => false,
            _ => true,
        }
    }
}

/// A token sequence that the parser can walk: it ends with an end-of-input token that
/// carries no value.
pub open spec fn wf_tokens(t: Seq<Token>) -> bool {
    &&& 0 < t.len() <= usize::MAX
    &&& t.last().kind == TokenKind::TKEof
    &&& t.last().value is None
}

/// Whether the token's length and text are those of `s`.
pub open spec fn sp_equal(tok: Token, s: &str) -> bool {
    &&& tok.len == s.len()
    &&& tok.value matches Some(V::Str(st)) && st@ == s@
}

/// Whether the token is a punctuator with text `s`.
pub open spec fn sp_punct(tok: Token, s: &str) -> bool {
    &&& tok.kind == TokenKind::TkPunct
    &&& tok.value matches Some(V::Str(st)) && st@ == s@
}

/// Compares a token with a string: equal lengths and equal text.
pub fn equal(token: &Token, s: &str) -> (b: bool)
    ensures
        b == sp_equal(*token, s),
{
    if token.len != s.len() {
        return false;
    }
    match &token.value {
        Some(V::Str(st)) => *st == String::from_str(s),
        _ => false,
    }
}

/// Whether the token is a punctuator with text `s`.
fn is_punct(token: &Token, s: &str) -> (b: bool)
    ensures
        b == sp_punct(*token, s),
{
    if token.kind != TokenKind::TkPunct {
        return false;
    }
    match &token.value {
        Some(V::Str(st)) => *st == String::from_str(s),
        _ => false,
    }
}

/// The outcome of parsing: a node, the position after it, and the local variables.
pub type PRes = Result<(NodeV, int, Seq<ObjV>), ParseError>;

/// The local variable that the first use of `name` adds: offset 0, type `int`.
pub open spec fn new_local(name: Seq<char>) -> ObjV {
    ObjV { name: name, offset: 0, ty: Some(int_type()) }
}

/// expr = assign
pub open spec fn p_expr(t: Seq<Token>, pos: int, ls: Seq<ObjV>) -> PRes
    decreases t.len() - pos, 12nat,
{
    p_assign(t, pos, ls)
}

/// assign = equality ("=" assign)?
pub open spec fn p_assign(t: Seq<Token>, pos: int, ls: Seq<ObjV>) -> PRes
    decreases t.len() - pos, 11nat,
{
    match p_equality(t, pos, ls) {
        Ok((n, p1, ls1)) => if 0 <= p1 < t.len() && sp_equal(t[p1], "=") {
            if pos <= p1 {
                match p_assign(t, p1 + 1, ls1) {
                    Ok((r, p2, ls2)) => Ok(
                        (binary_v(NodeKind::NdAssign, n, r, t[p1].loc), p2, ls2),
                    ),
                    Err(e) => Err(e),
                }
            } else {
                Err(ParseError::UnexpectedToken)
            }
        } else {
            Ok((n, p1, ls1))
        },
        Err(e) => Err(e),
    }
}

/// equality = relational ("==" relational | "!=" relational)*
pub open spec fn p_equality(t: Seq<Token>, pos: int, ls: Seq<ObjV>) -> PRes
    decreases t.len() - pos, 10nat,
{
    match p_relational(t, pos, ls) {
        Ok((n, p1, ls1)) => if pos <= p1 <= t.len() {
            p_equality_tail(t, n, p1, ls1)
        } else {
            Err(ParseError::UnexpectedToken)
        },
        Err(e) => Err(e),
    }
}

/// The repeated part of `equality`, after the operand `acc`.
pub open spec fn p_equality_tail(t: Seq<Token>, acc: NodeV, pos: int, ls: Seq<ObjV>) -> PRes
    decreases t.len() - pos, 9nat,
{
    if pos < 0 || pos >= t.len() {
        Ok((acc, pos, ls))
    } else if sp_equal(t[pos], "==") || sp_equal(t[pos], "!=") {
        let kind = if sp_equal(t[pos], "==") {
            NodeKind::NdEq
        } else {
            NodeKind::NdNeq
        };
        match p_relational(t, pos + 1, ls) {
            Ok((r, p2, ls2)) => if pos < p2 <= t.len() {
                p_equality_tail(t, binary_v(kind, acc, r, t[pos].loc), p2, ls2)
            } else {
                Err(ParseError::UnexpectedToken)
            },
            Err(e) => Err(e),
        }
    } else {
        Ok((acc, pos, ls))
    }
}

/// relational = add ("<" add | "<=" add | ">" add | ">=" add)*
pub open spec fn p_relational(t: Seq<Token>, pos: int, ls: Seq<ObjV>) -> PRes
    decreases t.len() - pos, 8nat,
{
    match p_add(t, pos, ls) {
        Ok((n, p1, ls1)) => if pos <= p1 <= t.len() {
            p_relational_tail(t, n, p1, ls1)
        } else {
            Err(ParseError::UnexpectedToken)
        },
        Err(e) => Err(e),
    }
}

/// The comparison that a relational operator builds: `a > b` is `b < a` and
/// `a >= b` is `b <= a`.
pub open spec fn relational_node_v(tok: Token, acc: NodeV, r: NodeV) -> NodeV {
    if sp_equal(tok, "<") {
        binary_v(NodeKind::NdLt, acc, r, tok.loc)
    } else if sp_equal(tok, "<=") {
        binary_v(NodeKind::NdLe, acc, r, tok.loc)
    } else if sp_equal(tok, ">") {
        binary_v(NodeKind::NdLt, r, acc, tok.loc)
    } else {
        binary_v(NodeKind::NdLe, r, acc, tok.loc)
    }
}

/// Whether the token is a relational operator.
pub open spec fn is_relational(tok: Token) -> bool {
    sp_equal(tok, "<") || sp_equal(tok, "<=") || sp_equal(tok, ">") || sp_equal(tok, ">=")
}

/// The repeated part of `relational`, after the operand `acc`.
pub open spec fn p_relational_tail(t: Seq<Token>, acc: NodeV, pos: int, ls: Seq<ObjV>) -> PRes
    decreases t.len() - pos, 7nat,
{
    if pos < 0 || pos >= t.len() {
        Ok((acc, pos, ls))
    } else if is_relational(t[pos]) {
        match p_add(t, pos + 1, ls) {
            Ok((r, p2, ls2)) => if pos < p2 <= t.len() {
                p_relational_tail(t, relational_node_v(t[pos], acc, r), p2, ls2)
            } else {
                Err(ParseError::UnexpectedToken)
            },
            Err(e) => Err(e),
        }
    } else {
        Ok((acc, pos, ls))
    }
}

/// add = mul ("+" mul | "-" mul)*
pub open spec fn p_add(t: Seq<Token>, pos: int, ls: Seq<ObjV>) -> PRes
    decreases t.len() - pos, 6nat,
{
    match p_mul(t, pos, ls) {
        Ok((n, p1, ls1)) => if pos <= p1 <= t.len() {
            p_add_tail(t, n, p1, ls1)
        } else {
            Err(ParseError::UnexpectedToken)
        },
        Err(e) => Err(e),
    }
}

/// The repeated part of `add`, after the operand `acc`.
pub open spec fn p_add_tail(t: Seq<Token>, acc: NodeV, pos: int, ls: Seq<ObjV>) -> PRes
    decreases t.len() - pos, 5nat,
{
    if pos < 0 || pos >= t.len() {
        Ok((acc, pos, ls))
    } else if sp_punct(t[pos], "+") || sp_punct(t[pos], "-") {
        let kind = if sp_punct(t[pos], "+") {
            NodeKind::NdAdd
        } else {
            NodeKind::NdSub
        };
        match p_mul(t, pos + 1, ls) {
            Ok((r, p2, ls2)) => if pos < p2 <= t.len() {
                p_add_tail(t, binary_v(kind, acc, r, t[pos].loc), p2, ls2)
            } else {
                Err(ParseError::UnexpectedToken)
            },
            Err(e) => Err(e),
        }
    } else {
        Ok((acc, pos, ls))
    }
}

/// mul = unary ("*" unary | "/" unary)*
pub open spec fn p_mul(t: Seq<Token>, pos: int, ls: Seq<ObjV>) -> PRes
    decreases t.len() - pos, 4nat,
{
    match p_unary(t, pos, ls) {
        Ok((n, p1, ls1)) => if pos <= p1 <= t.len() {
            p_mul_tail(t, n, p1, ls1)
        } else {
            Err(ParseError::UnexpectedToken)
        },
        Err(e) => Err(e),
    }
}

/// The repeated part of `mul`, after the operand `acc`.
pub open spec fn p_mul_tail(t: Seq<Token>, acc: NodeV, pos: int, ls: Seq<ObjV>) -> PRes
    decreases t.len() - pos, 3nat,
{
    if pos < 0 || pos >= t.len() {
        Ok((acc, pos, ls))
    } else if sp_equal(t[pos], "*") || sp_equal(t[pos], "/") {
        let kind = if sp_equal(t[pos], "*") {
            NodeKind::NdMul
        } else {
            NodeKind::NdDiv
        };
        match p_unary(t, pos + 1, ls) {
            Ok((r, p2, ls2)) => if pos < p2 <= t.len() {
                p_mul_tail(t, binary_v(kind, acc, r, t[pos].loc), p2, ls2)
            } else {
                Err(ParseError::UnexpectedToken)
            },
            Err(e) => Err(e),
        }
    } else {
        Ok((acc, pos, ls))
    }
}

/// unary = ("+" | "-") unary | primary
pub open spec fn p_unary(t: Seq<Token>, pos: int, ls: Seq<ObjV>) -> PRes
    decreases t.len() - pos, 2nat,
{
    if 0 <= pos < t.len() && sp_equal(t[pos], "+") {
        p_unary(t, pos + 1, ls)
    } else if 0 <= pos < t.len() && sp_equal(t[pos], "-") {
        match p_unary(t, pos + 1, ls) {
            Ok((n, p1, ls1)) => Ok((unary_v(NodeKind::NdNeg, n, t[pos].loc), p1, ls1)),
            Err(e) => Err(e),
        }
    } else {
        p_primary(t, pos, ls)
    }
}

/// primary = "(" expr ")" | ident | num
pub open spec fn p_primary(t: Seq<Token>, pos: int, ls: Seq<ObjV>) -> PRes
    decreases t.len() - pos, 1nat,
{
    if pos < 0 || pos >= t.len() {
        Err(ParseError::ExpectedExpression { loc: 0 })
    } else if sp_equal(t[pos], "(") {
        match p_expr(t, pos + 1, ls) {
            Ok((n, p1, ls1)) => if 0 <= p1 < t.len() && sp_equal(t[p1], ")") {
                Ok((n, p1 + 1, ls1))
            } else {
                Err(ParseError::MissingCloseParen)
            },
            Err(e) => Err(e),
        }
    } else if t[pos].kind == TokenKind::TkNum {
        let v = match t[pos].value {
            Some(V::Int(k)) => k,
            _ => 0,
        };
        Ok((num_v(v, t[pos].loc), pos + 1, ls))
    } else if t[pos].kind == TokenKind::TkIdent {
        match t[pos].value {
            Some(V::Str(s)) => match find_first(ls, s@) {
                Some(k) => Ok((var_v(ls[k], t[pos].loc), pos + 1, ls)),
                None => Ok(
                    (var_v(new_local(s@), t[pos].loc), pos + 1, ls.push(new_local(s@))),
                ),
            },
            _ => Err(ParseError::ExpectVariableName),
        }
    } else {
        Err(ParseError::ExpectedExpression { loc: t[pos].loc })
    }
}

/// expr_stmt = expr ";"
pub open spec fn p_expr_stmt(t: Seq<Token>, pos: int, ls: Seq<ObjV>) -> PRes
    decreases t.len() - pos, 13nat,
{
    match p_expr(t, pos, ls) {
        Ok((n, p1, ls1)) => if 0 <= p1 < t.len() && sp_equal(t[p1], ";") {
            Ok((unary_v(NodeKind::NdExprStmt, n, t[pos].loc), p1 + 1, ls1))
        } else {
            Err(ParseError::ExpectedSemicolon)
        },
        Err(e) => Err(e),
    }
}

/// stmt = ";" | "return" expr ";" | "{" compound_stmt | expr_stmt
pub open spec fn p_stmt(t: Seq<Token>, pos: int, ls: Seq<ObjV>) -> PRes
    decreases t.len() - pos, 14nat,
{
    if pos < 0 || pos >= t.len() {
        Err(ParseError::UnexpectedToken)
    } else if sp_equal(t[pos], ";") {
        Ok((blank(NodeKind::NdBlock), pos + 1, ls))
    } else if t[pos].kind == TokenKind::TkKeyword {
        p_keyword_stmt(t, pos, ls)
    } else if t[pos].kind == TokenKind::TkPunct && sp_equal(t[pos], "{") {
        p_compound(t, pos + 1, ls)
    } else {
        p_expr_stmt(t, pos, ls)
    }
}

/// A statement that starts with a keyword: "return" expr ";"
pub open spec fn p_keyword_stmt(t: Seq<Token>, pos: int, ls: Seq<ObjV>) -> PRes
    decreases t.len() - pos, 13nat,
{
    if 0 <= pos < t.len() && sp_equal(t[pos], "return") {
        match p_expr(t, pos + 1, ls) {
            Ok((n, p1, ls1)) => if 0 <= p1 < t.len() && sp_equal(t[p1], ";") {
                Ok((unary_v(NodeKind::NdReturn, n, t[pos].loc), p1 + 1, ls1))
            } else {
                Err(ParseError::ExpectedSemicolonAfterReturn)
            },
            Err(e) => Err(e),
        }
    } else {
        Err(ParseError::UnknownKeyword)
    }
}

/// The statements of a block, up to its closing `}` or the last token.
pub open spec fn p_stmts(t: Seq<Token>, pos: int, ls: Seq<ObjV>) -> Result<
    (Seq<NodeV>, int, Seq<ObjV>),
    ParseError,
>
    decreases t.len() - pos, 15nat,
{
    if 0 <= pos < t.len() - 1 && !sp_equal(t[pos], "}") {
        match p_stmt(t, pos, ls) {
            Ok((s, p1, ls1)) => if pos < p1 <= t.len() {
                match p_stmts(t, p1, ls1) {
                    Ok((rest, p2, ls2)) => Ok((seq![s] + rest, p2, ls2)),
                    Err(e) => Err(e),
                }
            } else {
                Err(ParseError::UnexpectedToken)
            },
            Err(e) => Err(e),
        }
    } else {
        Ok((Seq::empty(), pos, ls))
    }
}

/// compound_stmt = stmt* "}"
pub open spec fn p_compound(t: Seq<Token>, pos: int, ls: Seq<ObjV>) -> PRes
    decreases t.len() - pos, 16nat,
{
    match p_stmts(t, pos, ls) {
        Ok((stmts, p1, ls1)) => if 0 <= p1 < t.len() && sp_equal(t[p1], "}") {
            Ok((NodeV { body: link(stmts), ..blank(NodeKind::NdBlock) }, p1 + 1, ls1))
        } else {
            Err(ParseError::ExpectedCloseBrace)
        },
        Err(e) => Err(e),
    }
}

/// program = "{" compound_stmt: the body and the local variables of the function.
pub open spec fn p_program(t: Seq<Token>) -> Result<(NodeV, Seq<ObjV>), ParseError> {
    if t.len() > 0 && sp_equal(t[0], "{") {
        match p_compound(t, 1, Seq::empty()) {
            Ok((body, _, ls)) => Ok((body, ls)),
            Err(e) => Err(e),
        }
    } else {
        Err(ParseError::ExpectedOpenBrace)
    }
}

/// The statements `s` linked into a list by their `next` fields.
pub open spec fn link(s: Seq<NodeV>) -> Option<Box<NodeV>>
    decreases s.len(),
{
    if s.len() == 0 {
        None
    } else {
        Some(Box::new(NodeV { next: link(s.drop_first()), ..s[0] }))
    }
}

/// The outcome of an executable parse step, in the terms of the parse specifications.
pub open spec fn outcome(res: Result<Box<Node>, ParseError>, pos: usize, f: Function) -> PRes {
    match res {
        Ok(n) => Ok((n@, pos as int, objs_view(f.locals@))),
        Err(e) => Err(e),
    }
}

/// No two local variables share a name.
#[verifier::opaque]
pub open spec fn names_distinct(ls: Seq<ObjV>) -> bool {
    forall|i: int, j: int| 0 <= i < j < ls.len() ==> ls[i].name != ls[j].name
}

/// What a parse step leaves unchanged in the function and assumes of its locals.
pub open spec fn frame(f0: Function, f1: Function) -> bool {
    &&& f1.name == f0.name
    &&& f1.body == f0.body
    &&& f1.stack_size == f0.stack_size
    &&& names_distinct(objs_view(f1.locals@))
}

/// The comparison that a relational operator token builds.
fn relational_node(tok: &Token, acc: Box<Node>, right: Box<Node>) -> (r: Box<Node>)
    requires
        is_relational(*tok),
    ensures
        r@ == relational_node_v(*tok, acc@, right@),
{
    if equal(tok, "<") {
        Node::new_binary(NodeKind::NdLt, acc, right, tok)
    } else if equal(tok, "<=") {
        Node::new_binary(NodeKind::NdLe, acc, right, tok)
    } else if equal(tok, ">") {
        Node::new_binary(NodeKind::NdLt, right, acc, tok)
    } else {
        Node::new_binary(NodeKind::NdLe, right, acc, tok)
    }
}

/// expr = assign
fn expr(tokens: &Vec<Token>, pos: &mut usize, func: &mut Function) -> (res: Result<Box<Node>, ParseError>)
    requires
        wf_tokens(tokens@),
        *old(pos) < tokens@.len(),
        names_distinct(objs_view(old(func).locals@)),
    ensures
        p_expr(tokens@, *old(pos) as int, objs_view(old(func).locals@)) == outcome(res, *final(pos), *final(func)),
        res is Ok ==> *old(pos) < *final(pos) < tokens@.len(),
        frame(*old(func), *final(func)),
    decreases tokens@.len() - *old(pos), 12nat,
{
    assign(tokens, pos, func)
}

/// assign = equality ("=" assign)?
fn assign(tokens: &Vec<Token>, pos: &mut usize, func: &mut Function) -> (res: Result<Box<Node>, ParseError>)
    requires
        wf_tokens(tokens@),
        *old(pos) < tokens@.len(),
        names_distinct(objs_view(old(func).locals@)),
    ensures
        p_assign(tokens@, *old(pos) as int, objs_view(old(func).locals@)) == outcome(res, *final(pos), *final(func)),
        res is Ok ==> *old(pos) < *final(pos) < tokens@.len(),
        frame(*old(func), *final(func)),
    decreases tokens@.len() - *old(pos), 11nat,
{
    let mut node = match equality(tokens, pos, func) {
        Ok(n) => n,
        Err(e) => {
            return Err(e);
        },
    };
    if *pos < tokens.len() {
        if equal(&tokens[*pos], "=") {
            let tok = &tokens[*pos];
            *pos += 1;
            let rhs = match assign(tokens, pos, func) {
                Ok(n) => n,
                Err(e) => {
                    return Err(e);
                },
            };
            node = Node::new_binary(NodeKind::NdAssign, node, rhs, tok);
        }
    }
    Ok(node)
}

/// equality = relational ("==" relational | "!=" relational)*
fn equality(tokens: &Vec<Token>, pos: &mut usize, func: &mut Function) -> (res: Result<Box<Node>, ParseError>)
    requires
        wf_tokens(tokens@),
        *old(pos) < tokens@.len(),
        names_distinct(objs_view(old(func).locals@)),
    ensures
        p_equality(tokens@, *old(pos) as int, objs_view(old(func).locals@)) == outcome(res, *final(pos), *final(func)),
        res is Ok ==> *old(pos) < *final(pos) < tokens@.len(),
        frame(*old(func), *final(func)),
    decreases tokens@.len() - *old(pos), 10nat,
{
    let node = match relational(tokens, pos, func) {
        Ok(n) => n,
        Err(e) => {
            return Err(e);
        },
    };
    equality_tail(tokens, node, pos, func)
}

/// The repeated part of `equality`, after the operand `acc`.
fn equality_tail(tokens: &Vec<Token>, acc: Box<Node>, pos: &mut usize, func: &mut Function) -> (res: Result<Box<Node>, ParseError>)
    requires
        wf_tokens(tokens@),
        *old(pos) < tokens@.len(),
        names_distinct(objs_view(old(func).locals@)),
    ensures
        p_equality_tail(tokens@, acc@, *old(pos) as int, objs_view(old(func).locals@)) == outcome(res, *final(pos), *final(func)),
        res is Ok ==> *old(pos) <= *final(pos) < tokens@.len(),
        frame(*old(func), *final(func)),
    decreases tokens@.len() - *old(pos), 9nat,
{
    let tok = &tokens[*pos];
    if equal(tok, "==") || equal(tok, "!=") {
        *pos += 1;
        let right = match relational(tokens, pos, func) {
            Ok(n) => n,
            Err(e) => {
                return Err(e);
            },
        };
        let node = Node::new_binary(if equal(tok, "==") { NodeKind::NdEq } else { NodeKind::NdNeq }, acc, right, tok);
        equality_tail(tokens, node, pos, func)
    } else {
        Ok(acc)
    }
}

/// relational = add ("<" add | "<=" add | ">" add | ">=" add)*
fn relational(tokens: &Vec<Token>, pos: &mut usize, func: &mut Function) -> (res: Result<Box<Node>, ParseError>)
    requires
        wf_tokens(tokens@),
        *old(pos) < tokens@.len(),
        names_distinct(objs_view(old(func).locals@)),
    ensures
        p_relational(tokens@, *old(pos) as int, objs_view(old(func).locals@)) == outcome(res, *final(pos), *final(func)),
        res is Ok ==> *old(pos) < *final(pos) < tokens@.len(),
        frame(*old(func), *final(func)),
    decreases tokens@.len() - *old(pos), 8nat,
{
    let node = match self::add(tokens, pos, func) {
        Ok(n) => n,
        Err(e) => {
            return Err(e);
        },
    };
    relational_tail(tokens, node, pos, func)
}

/// The repeated part of `relational`, after the operand `acc`.
fn relational_tail(tokens: &Vec<Token>, acc: Box<Node>, pos: &mut usize, func: &mut Function) -> (res: Result<Box<Node>, ParseError>)
    requires
        wf_tokens(tokens@),
        *old(pos) < tokens@.len(),
        names_distinct(objs_view(old(func).locals@)),
    ensures
        p_relational_tail(tokens@, acc@, *old(pos) as int, objs_view(old(func).locals@)) == outcome(res, *final(pos), *final(func)),
        res is Ok ==> *old(pos) <= *final(pos) < tokens@.len(),
        frame(*old(func), *final(func)),
    decreases tokens@.len() - *old(pos), 7nat,
{
    let tok = &tokens[*pos];
    if equal(tok, "<") || equal(tok, "<=") || equal(tok, ">") || equal(tok, ">=") {
        *pos += 1;
        let right = match self::add(tokens, pos, func) {
            Ok(n) => n,
            Err(e) => {
                return Err(e);
            },
        };
        let node = relational_node(tok, acc, right);
        relational_tail(tokens, node, pos, func)
    } else {
        Ok(acc)
    }
}

/// add = mul ("+" mul | "-" mul)*
fn add(tokens: &Vec<Token>, pos: &mut usize, func: &mut Function) -> (res: Result<Box<Node>, ParseError>)
    requires
        wf_tokens(tokens@),
        *old(pos) < tokens@.len(),
        names_distinct(objs_view(old(func).locals@)),
    ensures
        p_add(tokens@, *old(pos) as int, objs_view(old(func).locals@)) == outcome(res, *final(pos), *final(func)),
        res is Ok ==> *old(pos) < *final(pos) < tokens@.len(),
        frame(*old(func), *final(func)),
    decreases tokens@.len() - *old(pos), 6nat,
{
    let node = match self::mul(tokens, pos, func) {
        Ok(n) => n,
        Err(e) => {
            return Err(e);
        },
    };
    add_tail(tokens, node, pos, func)
}

/// The repeated part of `add`, after the operand `acc`.
fn add_tail(tokens: &Vec<Token>, acc: Box<Node>, pos: &mut usize, func: &mut Function) -> (res: Result<Box<Node>, ParseError>)
    requires
        wf_tokens(tokens@),
        *old(pos) < tokens@.len(),
        names_distinct(objs_view(old(func).locals@)),
    ensures
        p_add_tail(tokens@, acc@, *old(pos) as int, objs_view(old(func).locals@)) == outcome(res, *final(pos), *final(func)),
        res is Ok ==> *old(pos) <= *final(pos) < tokens@.len(),
        frame(*old(func), *final(func)),
    decreases tokens@.len() - *old(pos), 5nat,
{
    let tok = &tokens[*pos];
    if is_punct(tok, "+") || is_punct(tok, "-") {
        *pos += 1;
        let right = match self::mul(tokens, pos, func) {
            Ok(n) => n,
            Err(e) => {
                return Err(e);
            },
        };
        let node = Node::new_binary(if is_punct(tok, "+") { NodeKind::NdAdd } else { NodeKind::NdSub }, acc, right, tok);
        add_tail(tokens, node, pos, func)
    } else {
        Ok(acc)
    }
}

/// mul = unary ("*" unary | "/" unary)*
fn mul(tokens: &Vec<Token>, pos: &mut usize, func: &mut Function) -> (res: Result<Box<Node>, ParseError>)
    requires
        wf_tokens(tokens@),
        *old(pos) < tokens@.len(),
        names_distinct(objs_view(old(func).locals@)),
    ensures
        p_mul(tokens@, *old(pos) as int, objs_view(old(func).locals@)) == outcome(res, *final(pos), *final(func)),
        res is Ok ==> *old(pos) < *final(pos) < tokens@.len(),
        frame(*old(func), *final(func)),
    decreases tokens@.len() - *old(pos), 4nat,
{
    let node = match unary(tokens, pos, func) {
        Ok(n) => n,
        Err(e) => {
            return Err(e);
        },
    };
    mul_tail(tokens, node, pos, func)
}

/// The repeated part of `mul`, after the operand `acc`.
fn mul_tail(tokens: &Vec<Token>, acc: Box<Node>, pos: &mut usize, func: &mut Function) -> (res: Result<Box<Node>, ParseError>)
    requires
        wf_tokens(tokens@),
        *old(pos) < tokens@.len(),
        names_distinct(objs_view(old(func).locals@)),
    ensures
        p_mul_tail(tokens@, acc@, *old(pos) as int, objs_view(old(func).locals@)) == outcome(res, *final(pos), *final(func)),
        res is Ok ==> *old(pos) <= *final(pos) < tokens@.len(),
        frame(*old(func), *final(func)),
    decreases tokens@.len() - *old(pos), 3nat,
{
    let tok = &tokens[*pos];
    if equal(tok, "*") || equal(tok, "/") {
        *pos += 1;
        let right = match unary(tokens, pos, func) {
            Ok(n) => n,
            Err(e) => {
                return Err(e);
            },
        };
        let node = Node::new_binary(if equal(tok, "*") { NodeKind::NdMul } else { NodeKind::NdDiv }, acc, right, tok);
        mul_tail(tokens, node, pos, func)
    } else {
        Ok(acc)
    }
}

/// unary = ("+" | "-") unary | primary
fn unary(tokens: &Vec<Token>, pos: &mut usize, func: &mut Function) -> (res: Result<Box<Node>, ParseError>)
    requires
        wf_tokens(tokens@),
        *old(pos) < tokens@.len(),
        names_distinct(objs_view(old(func).locals@)),
    ensures
        p_unary(tokens@, *old(pos) as int, objs_view(old(func).locals@)) == outcome(res, *final(pos), *final(func)),
        res is Ok ==> *old(pos) < *final(pos) < tokens@.len(),
        frame(*old(func), *final(func)),
    decreases tokens@.len() - *old(pos), 2nat,
{
    if *pos < tokens.len() {
        let tok = &tokens[*pos];
        if equal(tok, "+") {
            *pos += 1;
            let node = match unary(tokens, pos, func) {
        Ok(n) => n,
        Err(e) => {
            return Err(e);
        },
    };
            return Ok(node);
        }
        if equal(tok, "-") {
            *pos += 1;
            let node = match unary(tokens, pos, func) {
        Ok(n) => n,
        Err(e) => {
            return Err(e);
        },
    };
            let node = Node::new_unary(NodeKind::NdNeg, node, tok);
            return Ok(node);
        }
    }
    primary(tokens, pos, func)
}

/// primary = "(" expr ")" | ident | num
fn primary(tokens: &Vec<Token>, pos: &mut usize, func: &mut Function) -> (res: Result<Box<Node>, ParseError>)
    requires
        wf_tokens(tokens@),
        *old(pos) < tokens@.len(),
        names_distinct(objs_view(old(func).locals@)),
    ensures
        p_primary(tokens@, *old(pos) as int, objs_view(old(func).locals@)) == outcome(res, *final(pos), *final(func)),
        res is Ok ==> *old(pos) < *final(pos) < tokens@.len(),
        frame(*old(func), *final(func)),
    decreases tokens@.len() - *old(pos), 1nat,
{
    let tok = &tokens[*pos];
    if equal(tok, "(") {
        *pos += 1;
        let node = match expr(tokens, pos, func) {
        Ok(n) => n,
        Err(e) => {
            return Err(e);
        },
    };
        if equal(&tokens[*pos], ")") {
            *pos += 1;
            Ok(node)
        } else {
            Err(ParseError::MissingCloseParen)
        }
    } else if tok.kind == TokenKind::TkNum {
        *pos += 1;
        let nnn = match &tok.value {
            Some(V::Int(num)) => *num,
            _ => 0,
        };
        Ok(Node::new_num(nnn, tok))
    } else if tok.kind == TokenKind::TkIdent {
        *pos += 1;
        let var_name = match &tok.value {
            Some(V::Str(s)) => s.clone(),
            _ => {
                return Err(ParseError::ExpectVariableName);
            },
        };
        let found: Option<Obj> = match func.find_local_var(var_name.as_str()) {
            Some(var) => Some(var.copy()),
            None => None,
        };
        match found {
            Some(var) => Ok(Node::new_var(var, tok)),
            None => {
                proof {
                    crate::ast::lemma_find_from(objs_view(func.locals@), var_name@, 0);
                    reveal(names_distinct);
                }
                let ghost old_locals = objs_view(func.locals@);
                let obj = func.add_local_var(var_name, &Type::new(TypeKind::Int));
                proof {
                    assert(objs_view(func.locals@) =~= old_locals.push(new_local(var_name@)));
                    reveal(names_distinct);
                }
                Ok(Node::new_var(obj.unwrap(), tok))
            },
        }
    } else {
        Err(ParseError::ExpectedExpression { loc: tok.loc })
    }
}

/// expr_stmt = expr ";"
fn expr_stmt(tokens: &Vec<Token>, pos: &mut usize, func: &mut Function) -> (res: Result<Box<Node>, ParseError>)
    requires
        wf_tokens(tokens@),
        *old(pos) < tokens@.len(),
        names_distinct(objs_view(old(func).locals@)),
    ensures
        p_expr_stmt(tokens@, *old(pos) as int, objs_view(old(func).locals@)) == outcome(res, *final(pos), *final(func)),
        res is Ok ==> *old(pos) < *final(pos) < tokens@.len(),
        frame(*old(func), *final(func)),
    decreases tokens@.len() - *old(pos), 13nat,
{
    let first = &tokens[*pos];
    let node = match expr(tokens, pos, func) {
        Ok(n) => n,
        Err(e) => {
            return Err(e);
        },
    };
    if equal(&tokens[*pos], ";") {
        *pos += 1;
        Ok(Node::new_unary(NodeKind::NdExprStmt, node, first))
    } else {
        Err(ParseError::ExpectedSemicolon)
    }
}

/// A statement that starts with a keyword: "return" expr ";"
#[verifier::spinoff_prover]
fn keyword_stmt(tokens: &Vec<Token>, pos: &mut usize, func: &mut Function) -> (res: Result<Box<Node>, ParseError>)
    requires
        wf_tokens(tokens@),
        *old(pos) < tokens@.len(),
        names_distinct(objs_view(old(func).locals@)),
    ensures
        p_keyword_stmt(tokens@, *old(pos) as int, objs_view(old(func).locals@)) == outcome(res, *final(pos), *final(func)),
        res is Ok ==> *old(pos) < *final(pos) < tokens@.len(),
        frame(*old(func), *final(func)),
    decreases tokens@.len() - *old(pos), 13nat,
{
    let tok = &tokens[*pos];
    *pos += 1;
    if equal(tok, "return") {
        let node = match expr(tokens, pos, func) {
            Ok(n) => n,
            Err(e) => {
                return Err(e);
            },
        };
        if !equal(&tokens[*pos], ";") {
            return Err(ParseError::ExpectedSemicolonAfterReturn);
        }
        *pos += 1;
        Ok(Node::new_unary(NodeKind::NdReturn, node, tok))
    } else {
        Err(ParseError::UnknownKeyword)
    }
}

/// stmt = ";" | "return" expr ";" | "{" compound_stmt | expr_stmt
fn stmt(tokens: &Vec<Token>, pos: &mut usize, func: &mut Function) -> (res: Result<Box<Node>, ParseError>)
    requires
        wf_tokens(tokens@),
        *old(pos) < tokens@.len(),
        names_distinct(objs_view(old(func).locals@)),
    ensures
        p_stmt(tokens@, *old(pos) as int, objs_view(old(func).locals@)) == outcome(res, *final(pos), *final(func)),
        res is Ok ==> *old(pos) < *final(pos) < tokens@.len(),
        frame(*old(func), *final(func)),
    decreases tokens@.len() - *old(pos), 14nat,
{
    let tok = &tokens[*pos];
    if equal(tok, ";") {
        *pos += 1;
        return Ok(Node::new_node(NodeKind::NdBlock));
    }
    match tok.kind {
        TokenKind::TkKeyword => keyword_stmt(tokens, pos, func),
        TokenKind::TkPunct if equal(tok, "{") => {
            *pos += 1;
            compound_stmt(tokens, pos, func)
        },
        _ => expr_stmt(tokens, pos, func),
    }
}

/// The statements of a block up to its closing `}` or the last token, linked into a
/// list by their `next` fields.
fn stmt_list(tokens: &Vec<Token>, pos: &mut usize, func: &mut Function) -> (res: Result<
    Option<Box<Node>>,
    ParseError,
>)
    requires
        wf_tokens(tokens@),
        *old(pos) < tokens@.len(),
        names_distinct(objs_view(old(func).locals@)),
    ensures
        match p_stmts(tokens@, *old(pos) as int, objs_view(old(func).locals@)) {
            Ok((ss, p1, ls1)) => res matches Ok(l) && child_view(l) == link(ss) && p1
                == *final(pos) && ls1 == objs_view(final(func).locals@),
            Err(e) => res == Err::<Option<Box<Node>>, ParseError>(e),
        },
        res is Ok ==> *old(pos) <= *final(pos) < tokens@.len(),
        frame(*old(func), *final(func)),
    decreases tokens@.len() - *old(pos), 15nat,
{
    if !equal(&tokens[*pos], "}") && *pos < tokens.len() - 1 {
        let mut node = match stmt(tokens, pos, func) {
            Ok(n) => n,
            Err(e) => {
                return Err(e);
            },
        };
        let ghost s = node@;
        let ghost pm = *pos as int;
        let ghost lsm = objs_view(func.locals@);
        let rest = match stmt_list(tokens, pos, func) {
            Ok(n) => n,
            Err(e) => {
                return Err(e);
            },
        };
        node.next = rest;
        proof {
            let ghost (ss, p2, ls2) = p_stmts(tokens@, pm, lsm).unwrap();
            assert((seq![s] + ss).drop_first() =~= ss);
            assert(node@ =~= NodeV { next: child_view(rest), ..s });
            assert(link(seq![s] + ss) == Some(Box::new(node@)));
        }
        Ok(Some(node))
    } else {
        Ok(None)
    }
}

/// compound_stmt = stmt* "}"
fn compound_stmt(tokens: &Vec<Token>, pos: &mut usize, func: &mut Function) -> (res: Result<Box<Node>, ParseError>)
    requires
        wf_tokens(tokens@),
        *old(pos) < tokens@.len(),
        names_distinct(objs_view(old(func).locals@)),
    ensures
        p_compound(tokens@, *old(pos) as int, objs_view(old(func).locals@)) == outcome(res, *final(pos), *final(func)),
        res is Ok ==> *old(pos) < *final(pos) < tokens@.len(),
        frame(*old(func), *final(func)),
    decreases tokens@.len() - *old(pos), 16nat,
{
    let body = match stmt_list(tokens, pos, func) {
        Ok(n) => n,
        Err(e) => {
            return Err(e);
        },
    };
    if !equal(&tokens[*pos], "}") {
        return Err(ParseError::ExpectedCloseBrace);
    }
    *pos += 1;
    let mut nd = Node::new_node(NodeKind::NdBlock);
    nd.body = body;
    proof {
        assert(nd@ =~= NodeV { body: child_view(body), ..blank(NodeKind::NdBlock) });
    }
    Ok(nd)
}

/// Parses a program, `"{" compound_stmt`, into a function without a name whose body is
/// the block and whose locals are the variables the block uses, in order of first use.
pub fn parser(tokens: &Vec<Token>) -> (res: Result<Function, ParseError>)
    requires
        wf_tokens(tokens@),
    ensures
        match p_program(tokens@) {
            Ok((body, ls)) => res matches Ok(f) && f.body matches Some(b) && b@ == body
                && objs_view(f.locals@) == ls && f.name@ == Seq::<char>::empty() && f.stack_size
                == 0,
            Err(e) => res == Err::<Function, ParseError>(e),
        },
        res matches Ok(f) ==> names_distinct(objs_view(f.locals@)),
{
    let mut pos: usize = 0;
    let mut func = Function::new();
    if equal(&tokens[pos], "{") {
        pos += 1;
    } else {
        return Err(ParseError::ExpectedOpenBrace);
    }
    proof {
        reveal(names_distinct);
        assert(objs_view(func.locals@) =~= Seq::<ObjV>::empty());
    }
    let body = match compound_stmt(tokens, &mut pos, &mut func) {
        Ok(n) => n,
        Err(e) => {
            return Err(e);
        },
    };
    func.body = Some(body);
    Ok(func)
}

/// A single expression that takes all the tokens before the end of the input.
pub open spec fn p_single(t: Seq<Token>) -> Result<NodeV, ParseError> {
    match p_expr(t, 0, Seq::empty()) {
        Ok((n, pos, _)) => if pos == t.len() - 1 {
            Ok(n)
        } else {
            Err(ParseError::UnexpectedTokens)
        },
        Err(e) => Err(e),
    }
}

/// Parses the tokens as one expression, which must reach the end of the input.
pub fn paser(tokens: &Vec<Token>) -> (res: Result<Box<Node>, ParseError>)
    requires
        wf_tokens(tokens@),
    ensures
        match p_single(tokens@) {
            Ok(n) => res matches Ok(b) && b@ == n,
            Err(e) => res == Err::<Box<Node>, ParseError>(e),
        },
{
    let mut pos: usize = 0;
    let mut func = Function::new();
    proof {
        reveal(names_distinct);
        assert(objs_view(func.locals@) =~= Seq::<ObjV>::empty());
    }
    let expression = match expr(tokens, &mut pos, &mut func) {
        Ok(n) => n,
        Err(e) => {
            return Err(e);
        },
    };
    if pos != tokens.len() - 1 {
        return Err(ParseError::UnexpectedTokens);
    }
    Ok(expression)
}

/// Whether the token at `p`, if there is one, cannot continue a multiplicative
/// expression: it is neither `*` nor `/`.
pub open spec fn mul_end(t: Seq<Token>, p: int) -> bool {
    p >= t.len() || !(sp_equal(t[p], "*") || sp_equal(t[p], "/"))
}

/// Whether the token at `p` can continue neither an additive expression nor any of its
/// operands: it is none of `*`, `/`, `+` and `-`.
pub open spec fn add_end(t: Seq<Token>, p: int) -> bool {
    mul_end(t, p) && (p >= t.len() || !(sp_punct(t[p], "+") || sp_punct(t[p], "-")))
}

/// Whether the token at `p` can continue no relational expression: besides `add_end`,
/// it is none of `<`, `<=`, `>` and `>=`.
pub open spec fn relational_end(t: Seq<Token>, p: int) -> bool {
    add_end(t, p) && (p >= t.len() || !is_relational(t[p]))
}

/// Whether the token at `p` can continue no equality: besides `relational_end`, it is
/// neither `==` nor `!=`.
pub open spec fn equality_end(t: Seq<Token>, p: int) -> bool {
    relational_end(t, p) && (p >= t.len() || !(sp_equal(t[p], "==") || sp_equal(t[p], "!=")))
}

/// Whether the token at `p` can continue no expression: it is no binary operator and
/// not `=`.
pub open spec fn expr_end(t: Seq<Token>, p: int) -> bool {
    equality_end(t, p) && (p >= t.len() || !sp_equal(t[p], "="))
}

/// `lemma_mul_maximal` of the repeated part of `mul`.
proof fn lemma_mul_tail_maximal(t: Seq<Token>, acc: NodeV, pos: int, ls: Seq<ObjV>)
    requires
        0 <= pos,
    ensures
        p_mul_tail(t, acc, pos, ls) matches Ok((_, p, _)) ==> pos <= p && mul_end(t, p),
    decreases t.len() - pos,
{
    if pos < t.len() && (sp_equal(t[pos], "*") || sp_equal(t[pos], "/")) {
        let kind = if sp_equal(t[pos], "*") {
            NodeKind::NdMul
        } else {
            NodeKind::NdDiv
        };
        match p_unary(t, pos + 1, ls) {
            Ok((r, p2, ls2)) => if pos < p2 <= t.len() {
                lemma_mul_tail_maximal(t, binary_v(kind, acc, r, t[pos].loc), p2, ls2);
            },
            Err(_) => {},
        }
    }
}

/// A product extends as far as it can: `mul` consumes every `*` and `/` at its level,
/// so the token after the product it parses is neither `*` nor `/`.
pub proof fn lemma_mul_maximal(t: Seq<Token>, pos: int, ls: Seq<ObjV>)
    requires
        0 <= pos,
    ensures
        p_mul(t, pos, ls) matches Ok((_, p, _)) ==> pos <= p && mul_end(t, p),
{
    match p_unary(t, pos, ls) {
        Ok((n, p1, ls1)) => if pos <= p1 <= t.len() {
            lemma_mul_tail_maximal(t, n, p1, ls1);
        },
        Err(_) => {},
    }
}

/// `lemma_add_maximal` of the repeated part of `add`.
proof fn lemma_add_tail_maximal(t: Seq<Token>, acc: NodeV, pos: int, ls: Seq<ObjV>)
    requires
        0 <= pos,
        mul_end(t, pos),
    ensures
        p_add_tail(t, acc, pos, ls) matches Ok((_, p, _)) ==> pos <= p && add_end(t, p),
    decreases t.len() - pos,
{
    if pos < t.len() && (sp_punct(t[pos], "+") || sp_punct(t[pos], "-")) {
        let kind = if sp_punct(t[pos], "+") {
            NodeKind::NdAdd
        } else {
            NodeKind::NdSub
        };
        lemma_mul_maximal(t, pos + 1, ls);
        match p_mul(t, pos + 1, ls) {
            Ok((r, p2, ls2)) => if pos < p2 <= t.len() {
                lemma_add_tail_maximal(t, binary_v(kind, acc, r, t[pos].loc), p2, ls2);
            },
            Err(_) => {},
        }
    }
}

/// A sum extends as far as it can: `add` consumes every `+` and `-` at its level, so
/// the token after the sum it parses is none of `+`, `-`, `*` and `/`.
pub proof fn lemma_add_maximal(t: Seq<Token>, pos: int, ls: Seq<ObjV>)
    requires
        0 <= pos,
    ensures
        p_add(t, pos, ls) matches Ok((_, p, _)) ==> pos <= p && add_end(t, p),
{
    lemma_mul_maximal(t, pos, ls);
    match p_mul(t, pos, ls) {
        Ok((n, p1, ls1)) => if pos <= p1 <= t.len() {
            lemma_add_tail_maximal(t, n, p1, ls1);
        },
        Err(_) => {},
    }
}

/// `lemma_relational_maximal` of the repeated part of `relational`.
proof fn lemma_relational_tail_maximal(t: Seq<Token>, acc: NodeV, pos: int, ls: Seq<ObjV>)
    requires
        0 <= pos,
        add_end(t, pos),
    ensures
        p_relational_tail(t, acc, pos, ls) matches Ok((_, p, _)) ==> pos <= p && relational_end(t, p),
    decreases t.len() - pos,
{
    if pos < t.len() && is_relational(t[pos]) {
        lemma_add_maximal(t, pos + 1, ls);
        match p_add(t, pos + 1, ls) {
            Ok((r, p2, ls2)) => if pos < p2 <= t.len() {
                lemma_relational_tail_maximal(t, relational_node_v(t[pos], acc, r), p2, ls2);
            },
            Err(_) => {},
        }
    }
}

/// A comparison extends as far as it can: the token after it continues neither it nor
/// any of its operands.
pub proof fn lemma_relational_maximal(t: Seq<Token>, pos: int, ls: Seq<ObjV>)
    requires
        0 <= pos,
    ensures
        p_relational(t, pos, ls) matches Ok((_, p, _)) ==> pos <= p && relational_end(t, p),
{
    lemma_add_maximal(t, pos, ls);
    match p_add(t, pos, ls) {
        Ok((n, p1, ls1)) => if pos <= p1 <= t.len() {
            lemma_relational_tail_maximal(t, n, p1, ls1);
        },
        Err(_) => {},
    }
}

/// `lemma_equality_maximal` of the repeated part of `equality`.
proof fn lemma_equality_tail_maximal(t: Seq<Token>, acc: NodeV, pos: int, ls: Seq<ObjV>)
    requires
        0 <= pos,
        relational_end(t, pos),
    ensures
        p_equality_tail(t, acc, pos, ls) matches Ok((_, p, _)) ==> pos <= p && equality_end(t, p),
    decreases t.len() - pos,
{
    if pos < t.len() && (sp_equal(t[pos], "==") || sp_equal(t[pos], "!=")) {
        let kind = if sp_equal(t[pos], "==") {
            NodeKind::NdEq
        } else {
            NodeKind::NdNeq
        };
        lemma_relational_maximal(t, pos + 1, ls);
        match p_relational(t, pos + 1, ls) {
            Ok((r, p2, ls2)) => if pos < p2 <= t.len() {
                lemma_equality_tail_maximal(t, binary_v(kind, acc, r, t[pos].loc), p2, ls2);
            },
            Err(_) => {},
        }
    }
}

/// An equality extends as far as it can: the token after it continues neither it nor
/// any of its operands.
pub proof fn lemma_equality_maximal(t: Seq<Token>, pos: int, ls: Seq<ObjV>)
    requires
        0 <= pos,
    ensures
        p_equality(t, pos, ls) matches Ok((_, p, _)) ==> pos <= p && equality_end(t, p),
{
    lemma_relational_maximal(t, pos, ls);
    match p_relational(t, pos, ls) {
        Ok((n, p1, ls1)) => if pos <= p1 <= t.len() {
            lemma_equality_tail_maximal(t, n, p1, ls1);
        },
        Err(_) => {},
    }
}

/// `lemma_expr_maximal` of `assign`.
proof fn lemma_assign_maximal(t: Seq<Token>, pos: int, ls: Seq<ObjV>)
    requires
        0 <= pos,
    ensures
        p_assign(t, pos, ls) matches Ok((_, p, _)) ==> pos <= p && expr_end(t, p),
    decreases t.len() - pos,
{
    lemma_equality_maximal(t, pos, ls);
    let r = p_equality(t, pos, ls);
    if r is Err {
        assert(p_assign(t, pos, ls) is Err);
    } else {
        let (n, p1, ls1) = r.unwrap();
        if 0 <= p1 < t.len() && sp_equal(t[p1], "=") && pos <= p1 {
            lemma_assign_maximal(t, p1 + 1, ls1);
            let q = p_assign(t, p1 + 1, ls1);
            if q is Ok {
                let (rr, p2, ls2) = q.unwrap();
                assert(p_assign(t, pos, ls) == Ok::<(NodeV, int, Seq<ObjV>), ParseError>(
                    (binary_v(NodeKind::NdAssign, n, rr, t[p1].loc), p2, ls2),
                ));
            } else {
                assert(p_assign(t, pos, ls) is Err);
            }
        } else if 0 <= p1 < t.len() && sp_equal(t[p1], "=") {
            assert(p_assign(t, pos, ls) is Err);
        } else if !(0 <= p1 < t.len() && sp_equal(t[p1], "=")) {
            assert(p_assign(t, pos, ls) == r);
        }
    }
}

/// An expression extends as far as it can: every binary operator and `=` at its level
/// or below is consumed, so the token after the expression that `expr` parses is no
/// binary operator and not `=`.
pub proof fn lemma_expr_maximal(t: Seq<Token>, pos: int, ls: Seq<ObjV>)
    requires
        0 <= pos,
    ensures
        p_expr(t, pos, ls) matches Ok((_, p, _)) ==> pos <= p && expr_end(t, p),
{
    lemma_assign_maximal(t, pos, ls);
}

/// Whether `n`, ending at `p` with locals `ls2`, is a sum or difference whose operator
/// is the `+` or `-` token at `q` and whose right operand is the one product that
/// follows that token, parsed with the locals `lq`.
pub open spec fn last_add_op(t: Seq<Token>, q: int, lq: Seq<ObjV>, n: NodeV, p: int, ls2: Seq<ObjV>) -> bool {
    &&& 0 <= q < t.len()
    &&& (sp_punct(t[q], "+") || sp_punct(t[q], "-"))
    &&& n.kind == (if sp_punct(t[q], "+") {
        NodeKind::NdAdd
    } else {
        NodeKind::NdSub
    })
    &&& n.tokloc == t[q].loc
    &&& n.lhs is Some
    &&& n.rhs is Some
    &&& p_mul(t, q + 1, lq) == Ok::<(NodeV, int, Seq<ObjV>), ParseError>((*n.rhs.unwrap(), p, ls2))
}

/// Whether `n`, ending at `p` with locals `ls2`, is a product or quotient whose
/// operator is the `*` or `/` token at `q` and whose right operand is the one unary
/// expression that follows that token, parsed with the locals `lq`.
pub open spec fn last_mul_op(t: Seq<Token>, q: int, lq: Seq<ObjV>, n: NodeV, p: int, ls2: Seq<ObjV>) -> bool {
    &&& 0 <= q < t.len()
    &&& (sp_equal(t[q], "*") || sp_equal(t[q], "/"))
    &&& n.kind == (if sp_equal(t[q], "*") {
        NodeKind::NdMul
    } else {
        NodeKind::NdDiv
    })
    &&& n.tokloc == t[q].loc
    &&& n.lhs is Some
    &&& n.rhs is Some
    &&& p_unary(t, q + 1, lq) == Ok::<(NodeV, int, Seq<ObjV>), ParseError>((*n.rhs.unwrap(), p, ls2))
}

/// `lemma_add_left_assoc` of the repeated part of `add`.
proof fn lemma_add_tail_root(t: Seq<Token>, acc: NodeV, pos: int, ls: Seq<ObjV>)
    requires
        0 <= pos,
    ensures
        p_add_tail(t, acc, pos, ls) matches Ok((n, p, ls2)) ==> (n == acc && p == pos && ls2 == ls)
            || exists|q: int, lq: Seq<ObjV>| pos <= q < p && #[trigger] last_add_op(t, q, lq, n, p, ls2),
    decreases t.len() - pos,
{
    if pos < t.len() && (sp_punct(t[pos], "+") || sp_punct(t[pos], "-")) {
        let kind = if sp_punct(t[pos], "+") {
            NodeKind::NdAdd
        } else {
            NodeKind::NdSub
        };
        match p_mul(t, pos + 1, ls) {
            Ok((r, p2, ls2)) => if pos < p2 <= t.len() {
                let b = binary_v(kind, acc, r, t[pos].loc);
                lemma_add_tail_root(t, b, p2, ls2);
                match p_add_tail(t, b, p2, ls2) {
                    Ok((n, p, ls3)) => {
                        if n == b && p == p2 && ls3 == ls2 {
                            assert(last_add_op(t, pos, ls, n, p, ls3));
                        }
                    },
                    Err(_) => {},
                }
            },
            Err(_) => {},
        }
    }
}

/// Sums associate to the left: a sum that `add` parses is either a single product, or
/// the operation of its last `+` or `-` token, whose right operand is the one product
/// after that token and which ends where the sum ends.
pub proof fn lemma_add_left_assoc(t: Seq<Token>, pos: int, ls: Seq<ObjV>)
    requires
        0 <= pos,
    ensures
        p_add(t, pos, ls) matches Ok((n, p, ls2)) ==> p_mul(t, pos, ls) == Ok::<
            (NodeV, int, Seq<ObjV>),
            ParseError,
        >((n, p, ls2)) || exists|q: int, lq: Seq<ObjV>| pos <= q < p && #[trigger] last_add_op(t, q, lq, n, p, ls2),
{
    match p_mul(t, pos, ls) {
        Ok((m, p1, ls1)) => if pos <= p1 <= t.len() {
            lemma_add_tail_root(t, m, p1, ls1);
        },
        Err(_) => {},
    }
}

/// `lemma_mul_left_assoc` of the repeated part of `mul`.
proof fn lemma_mul_tail_root(t: Seq<Token>, acc: NodeV, pos: int, ls: Seq<ObjV>)
    requires
        0 <= pos,
    ensures
        p_mul_tail(t, acc, pos, ls) matches Ok((n, p, ls2)) ==> (n == acc && p == pos && ls2 == ls)
            || exists|q: int, lq: Seq<ObjV>| pos <= q < p && #[trigger] last_mul_op(t, q, lq, n, p, ls2),
    decreases t.len() - pos,
{
    if pos < t.len() && (sp_equal(t[pos], "*") || sp_equal(t[pos], "/")) {
        let kind = if sp_equal(t[pos], "*") {
            NodeKind::NdMul
        } else {
            NodeKind::NdDiv
        };
        match p_unary(t, pos + 1, ls) {
            Ok((r, p2, ls2)) => if pos < p2 <= t.len() {
                let b = binary_v(kind, acc, r, t[pos].loc);
                lemma_mul_tail_root(t, b, p2, ls2);
                match p_mul_tail(t, b, p2, ls2) {
                    Ok((n, p, ls3)) => {
                        if n == b && p == p2 && ls3 == ls2 {
                            assert(last_mul_op(t, pos, ls, n, p, ls3));
                        }
                    },
                    Err(_) => {},
                }
            },
            Err(_) => {},
        }
    }
}

/// Products associate to the left: a product that `mul` parses is either a single
/// unary expression, or the operation of its last `*` or `/` token, whose right
/// operand is the one unary expression after that token and which ends where the
/// product ends.
pub proof fn lemma_mul_left_assoc(t: Seq<Token>, pos: int, ls: Seq<ObjV>)
    requires
        0 <= pos,
    ensures
        p_mul(t, pos, ls) matches Ok((n, p, ls2)) ==> p_unary(t, pos, ls) == Ok::<
            (NodeV, int, Seq<ObjV>),
            ParseError,
        >((n, p, ls2)) || exists|q: int, lq: Seq<ObjV>| pos <= q < p && #[trigger] last_mul_op(t, q, lq, n, p, ls2),
{
    match p_unary(t, pos, ls) {
        Ok((m, p1, ls1)) => if pos <= p1 <= t.len() {
            lemma_mul_tail_root(t, m, p1, ls1);
        },
        Err(_) => {},
    }
}

} // verus!
