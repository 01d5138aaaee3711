use lib::ast::{Node, NodeKind};
use lib::lexer::{tokenize, Token, TokenKind, V};
use lib::parser::{equal, parser, paser, ParseError};

fn punct(s: &str, loc: usize) -> Token {
    Token { kind: TokenKind::TkPunct, value: Some(V::Str(s.to_string())), loc, len: s.len() }
}

fn ident(s: &str, loc: usize) -> Token {
    Token { kind: TokenKind::TkIdent, value: Some(V::Str(s.to_string())), loc, len: s.len() }
}

fn keyword(s: &str, loc: usize) -> Token {
    Token { kind: TokenKind::TkKeyword, value: Some(V::Str(s.to_string())), loc, len: s.len() }
}

fn num(n: i32, loc: usize) -> Token {
    Token { kind: TokenKind::TkNum, value: Some(V::Int(n)), loc, len: 1 }
}

fn eof(loc: usize) -> Token {
    Token { kind: TokenKind::TKEof, value: None, loc, len: 0 }
}

/// The first statement of the block that is a function's body.
fn first_stmt(src: &str) -> Node {
    let ts = tokenize(src).unwrap();
    let f = parser(&ts).unwrap();
    let body = f.body.unwrap();
    assert_eq!(body.kind, NodeKind::NdBlock);
    *body.body.unwrap()
}

/// A compact rendering of an expression tree.
fn shape(n: &Node) -> String {
    match n.kind {
        NodeKind::NdNum => format!("{}", n.val.unwrap()),
        NodeKind::NdVar => n.name.clone().unwrap(),
        NodeKind::NdNeg => format!("(neg {})", shape(n.lhs.as_ref().unwrap())),
        NodeKind::NdExprStmt => format!("(stmt {})", shape(n.lhs.as_ref().unwrap())),
        NodeKind::NdReturn => format!("(return {})", shape(n.lhs.as_ref().unwrap())),
        k => {
            let op = match k {
                NodeKind::NdAdd => "+",
                NodeKind::NdSub => "-",
                NodeKind::NdMul => "*",
                NodeKind::NdDiv => "/",
                NodeKind::NdEq => "==",
                NodeKind::NdNeq => "!=",
                NodeKind::NdLt => "<",
                NodeKind::NdLe => "<=",
                NodeKind::NdAssign => "=",
                _ => "?",
            };
            format!("({} {} {})", op, shape(n.lhs.as_ref().unwrap()), shape(n.rhs.as_ref().unwrap()))
        }
    }
}

#[test]
fn subtraction_is_left_associative() {
    assert_eq!(shape(&first_stmt("{ 1-2-3; }")), "(stmt (- (- 1 2) 3))");
}

#[test]
fn multiplication_binds_tighter_than_addition() {
    assert_eq!(shape(&first_stmt("{ 1+2*3; }")), "(stmt (+ 1 (* 2 3)))");
    assert_eq!(shape(&first_stmt("{ 3*(1+2); }")), "(stmt (* 3 (+ 1 2)))");
    assert_eq!(shape(&first_stmt("{ 8/2/2; }")), "(stmt (/ (/ 8 2) 2))");
}

#[test]
fn unary_operators() {
    assert_eq!(shape(&paser(&tokenize("-1").unwrap()).unwrap()), "(neg 1)");
    assert_eq!(shape(&paser(&tokenize("+1").unwrap()).unwrap()), "1");
    assert_eq!(shape(&paser(&tokenize("- -2*3").unwrap()).unwrap()), "(* (neg (neg 2)) 3)");
    assert_eq!(shape(&first_stmt("{ 1*-2; }")), "(stmt (* 1 (neg 2)))");
}

#[test]
fn statement_may_start_with_a_parenthesis_or_sign() {
    assert_eq!(shape(&first_stmt("{ (1); }")), "(stmt 1)");
    assert_eq!(shape(&first_stmt("{ -1; }")), "(stmt (neg 1))");
    let ts = vec![punct("{", 0), punct("-", 2), ident("a", 3), punct(";", 4), punct("}", 6), eof(7)];
    let f = parser(&ts).unwrap();
    let s = f.body.unwrap().body.unwrap();
    assert_eq!(shape(&s), "(stmt (neg a))");
    assert_eq!(s.tokloc, 2);
}

#[test]
fn greater_than_swaps_its_operands() {
    assert_eq!(shape(&first_stmt("{ 1>2; }")), "(stmt (< 2 1))");
    assert_eq!(shape(&first_stmt("{ 1>=2; }")), "(stmt (<= 2 1))");
    assert_eq!(shape(&first_stmt("{ 1<2==3<=4; }")), "(stmt (== (< 1 2) (<= 3 4)))");
    assert_eq!(shape(&first_stmt("{ 1!=2; }")), "(stmt (!= 1 2))");
}

#[test]
fn statements_are_linked_in_order() {
    let ts = tokenize("{ 1; ; {2;} 3; }").unwrap();
    let f = parser(&ts).unwrap();
    let s1 = f.body.unwrap().body.unwrap();
    assert_eq!(shape(&s1), "(stmt 1)");
    let s2 = s1.next.unwrap();
    assert_eq!(s2.kind, NodeKind::NdBlock);
    assert!(s2.body.is_none());
    let s3 = s2.next.unwrap();
    assert_eq!(s3.kind, NodeKind::NdBlock);
    assert_eq!(shape(s3.body.as_ref().unwrap()), "(stmt 2)");
    let s4 = s3.next.unwrap();
    assert_eq!(shape(&s4), "(stmt 3)");
    assert!(s4.next.is_none());
    assert_eq!(f.name, "");
    assert_eq!(f.stack_size, 0);
    assert!(f.locals.is_empty());
}

#[test]
fn variables_become_locals_in_order_of_first_use() {
    // { a = 3; b = a + 1; return a; }
    let ts = vec![
        punct("{", 0),
        ident("a", 2),
        punct("=", 4),
        num(3, 6),
        punct(";", 7),
        ident("b", 9),
        punct("=", 11),
        ident("a", 13),
        punct("+", 15),
        num(1, 17),
        punct(";", 18),
        keyword("return", 20),
        ident("a", 27),
        punct(";", 28),
        punct("}", 30),
        eof(31),
    ];
    let f = parser(&ts).unwrap();
    let names: Vec<&str> = f.locals.iter().map(|o| o.name.as_str()).collect();
    assert_eq!(names, vec!["a", "b"]);
    assert!(f.locals.iter().all(|o| o.offset == 0 && o.ty.is_some()));
    let s1 = f.body.unwrap().body.unwrap();
    assert_eq!(shape(&s1), "(stmt (= a 3))");
    let s2 = s1.next.unwrap();
    assert_eq!(shape(&s2), "(stmt (= b (+ a 1)))");
    let s3 = s2.next.unwrap();
    assert_eq!(shape(&s3), "(return a)");
    assert_eq!(s3.tokloc, 20);
    let a = s3.lhs.unwrap();
    assert_eq!(a.kind, NodeKind::NdVar);
    assert_eq!(a.var.unwrap().name, "a");
    assert_eq!(a.tokloc, 27);
}

#[test]
fn assignment_is_right_associative() {
    // { a = b = 1; }
    let ts = vec![
        punct("{", 0),
        ident("a", 1),
        punct("=", 2),
        ident("b", 3),
        punct("=", 4),
        num(1, 5),
        punct(";", 6),
        punct("}", 7),
        eof(8),
    ];
    let f = parser(&ts).unwrap();
    assert_eq!(shape(&f.body.unwrap().body.unwrap()), "(stmt (= a (= b 1)))");
}

#[test]
fn missing_open_brace() {
    let ts = tokenize("1;").unwrap();
    assert_eq!(parser(&ts).err(), Some(ParseError::ExpectedOpenBrace));
}

#[test]
fn missing_close_brace() {
    let ts = tokenize("{ 1;").unwrap();
    assert_eq!(parser(&ts).err(), Some(ParseError::ExpectedCloseBrace));
}

#[test]
fn missing_semicolon() {
    let ts = tokenize("{ 1 }").unwrap();
    assert_eq!(parser(&ts).err(), Some(ParseError::ExpectedSemicolon));
}

#[test]
fn missing_close_paren() {
    let ts = tokenize("{ 1*(2; }").unwrap();
    assert_eq!(parser(&ts).err(), Some(ParseError::MissingCloseParen));
}

#[test]
fn token_that_starts_no_expression() {
    let ts = tokenize("{ 1+*2; }").unwrap();
    assert_eq!(parser(&ts).err(), Some(ParseError::ExpectedExpression { loc: 4 }));
}

#[test]
fn statement_starting_with_other_punctuator() {
    let ts = tokenize("{ ) }").unwrap();
    assert_eq!(parser(&ts).err(), Some(ParseError::ExpectedExpression { loc: 2 }));
}

#[test]
fn unknown_keyword_and_missing_semicolon_after_return() {
    let ts = vec![punct("{", 0), keyword("while", 1), punct("}", 6), eof(7)];
    assert_eq!(parser(&ts).err(), Some(ParseError::UnknownKeyword));
    let ts = vec![punct("{", 0), keyword("return", 1), num(1, 8), punct("}", 9), eof(10)];
    assert_eq!(parser(&ts).err(), Some(ParseError::ExpectedSemicolonAfterReturn));
}

#[test]
fn identifier_without_a_name() {
    let nameless = Token { kind: TokenKind::TkIdent, value: None, loc: 1, len: 1 };
    let ts = vec![punct("{", 0), nameless, punct(";", 2), punct("}", 3), eof(4)];
    assert_eq!(parser(&ts).err(), Some(ParseError::ExpectVariableName));
}

#[test]
fn which_errors_are_fatal() {
    assert!(ParseError::ExpectedOpenBrace.is_fatal());
    assert!(ParseError::ExpectedCloseBrace.is_fatal());
    assert!(ParseError::MissingCloseParen.is_fatal());
    assert!(ParseError::ExpectedExpression { loc: 0 }.is_fatal());
    assert!(ParseError::UnknownKeyword.is_fatal());
    assert!(!ParseError::ExpectedSemicolon.is_fatal());
    assert!(!ParseError::ExpectedSemicolonAfterReturn.is_fatal());
    assert!(!ParseError::ExpectVariableName.is_fatal());
    assert!(!ParseError::UnexpectedToken.is_fatal());
    assert!(!ParseError::UnexpectedTokens.is_fatal());
}

#[test]
fn single_expression() {
    let ts = tokenize("1 + 2 * 3").unwrap();
    assert_eq!(shape(&paser(&ts).unwrap()), "(+ 1 (* 2 3))");
}

#[test]
fn single_expression_with_trailing_tokens() {
    let ts = tokenize("1 + 2 3").unwrap();
    assert_eq!(paser(&ts).err(), Some(ParseError::UnexpectedTokens));
    let ts = tokenize("(1").unwrap();
    assert_eq!(paser(&ts).err(), Some(ParseError::MissingCloseParen));
}

#[test]
fn equal_compares_length_and_text() {
    let ts = tokenize("<= <").unwrap();
    assert!(equal(&ts[0], "<="));
    assert!(!equal(&ts[0], "<"));
    assert!(equal(&ts[1], "<"));
    assert!(!equal(&ts[2], ""));
    let odd = Token { kind: TokenKind::TkPunct, value: Some(V::Str("+".to_string())), loc: 0, len: 2 };
    assert!(!equal(&odd, "+"));
}

#[test]
fn parse_error_messages() {
    assert_eq!(ParseError::ExpectedOpenBrace.message(), "expect a {");
    assert_eq!(ParseError::ExpectedCloseBrace.message(), "Expected '}' after compound statement");
    assert_eq!(ParseError::ExpectedSemicolon.message(), "Expected ';' after expression");
    assert_eq!(ParseError::ExpectedSemicolonAfterReturn.message(), "Expected ';' after return expression");
    assert_eq!(ParseError::MissingCloseParen.message(), "Missing closing paren: ')'");
    assert_eq!(ParseError::ExpectedExpression { loc: 3 }.message(), "expected an expression");
    assert_eq!(ParseError::ExpectVariableName.message(), "expect variable name");
    assert_eq!(ParseError::UnexpectedToken.message(), "Unexpected token:");
    assert_eq!(ParseError::UnknownKeyword.message(), "nod");
    assert_eq!(ParseError::UnexpectedTokens.message(), "Unexpected tokens");
}

#[test]
fn tokens_after_the_closing_brace_are_ignored() {
    let ts = tokenize("{ 1; } 2 +").unwrap();
    let f = parser(&ts).unwrap();
    assert_eq!(shape(&f.body.unwrap().body.unwrap()), "(stmt 1)");
}
