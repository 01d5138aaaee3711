//! Diagnostics: the text that points at the place of an error in the source.
use vstd::prelude::*;
use vstd::string::StringExecFns;
use crate::text::push_char;
use crate::lexer::LexError;
use crate::parser::ParseError;
use crate::codegen::{CodegenError, CodegenErrorV};

verus! {

/// `n` spaces.
pub open spec fn spaces(n: nat) -> Seq<char> {
    Seq::new(n, |i: int| ' ')
}

/// The two lines of a diagnostic: the source text, and under it a caret at byte offset
/// `loc` followed by the message.
pub fn verror_at(input: &str, loc: usize, msg: &str) -> (r: (String, String))
    ensures
        r.0@ == input@,
        r.1@ == spaces(loc as nat) + seq!['^'] + msg@,
{
    let source = String::from_str(input);
    let mut pointer = String::new();
    let mut i: usize = 0;
    while i < loc
        invariant
            i <= loc,
            pointer@ == spaces(i as nat),
        decreases loc - i,
    {
        push_char(&mut pointer, ' ');
        i = i + 1;
        proof {
            assert(pointer@ =~= spaces(i as nat));
        }
    }
    push_char(&mut pointer, '^');
    pointer.append(msg);
    proof {
        assert(pointer@ =~= spaces(loc as nat) + seq!['^'] + msg@);
    }
    (source, pointer)
}

/// The diagnostic text of a lexical error.
pub open spec fn lex_message(e: LexError) -> Seq<char> {
    match e {
        LexError::UnexpectedChar { ch, .. } => "Unexpected character '"@ + seq![ch] + "'"@,
        LexError::NumberTooLarge { .. } => "number literal out of range for i32"@,
    }
}

impl LexError {
    /// The diagnostic text of the error.
    pub fn message(&self) -> (m: String)
        ensures
            m@ == lex_message(*self),
    {
        match self {
            LexError::UnexpectedChar { ch, .. } => {
                let mut m = String::from_str("Unexpected character '");
                push_char(&mut m, *ch);
                m.append("'");
                m
            },
            LexError::NumberTooLarge { .. } => String::from_str("number literal out of range for i32"),
        }
    }
}

/// The diagnostic text of a parse error.
pub open spec fn parse_message(e: ParseError) -> Seq<char> {
    match e {
        ParseError::ExpectedSemicolon => "Expected ';' after expression"@,
        ParseError::ExpectedSemicolonAfterReturn => "Expected ';' after return expression"@,
        ParseError::ExpectVariableName => "expect variable name"@,
        ParseError::UnexpectedToken => "Unexpected token:"@,
        ParseError::MissingCloseParen => "Missing closing paren: ')'"@,
        ParseError::ExpectedExpression { .. } => "expected an expression"@,
        ParseError::ExpectedOpenBrace => "expect a {"@,
        ParseError::ExpectedCloseBrace => "Expected '}' after compound statement"@,
        ParseError::UnknownKeyword => "nod"@,
        ParseError::UnexpectedTokens => "Unexpected tokens"@,
    }
}

impl ParseError {
    /// The diagnostic text of the error.
    pub fn message(&self) -> (m: String)
        ensures
            m@ == parse_message(*self),
    {
        match self {
            ParseError::ExpectedSemicolon => String::from_str("Expected ';' after expression"),
            ParseError::ExpectedSemicolonAfterReturn => String::from_str("Expected ';' after return expression"),
            ParseError::ExpectVariableName => String::from_str("expect variable name"),
            ParseError::UnexpectedToken => String::from_str("Unexpected token:"),
            ParseError::MissingCloseParen => String::from_str("Missing closing paren: ')'"),
            ParseError::ExpectedExpression { .. } => String::from_str("expected an expression"),
            ParseError::ExpectedOpenBrace => String::from_str("expect a {"),
            ParseError::ExpectedCloseBrace => String::from_str("Expected '}' after compound statement"),
            ParseError::UnknownKeyword => String::from_str("nod"),
            ParseError::UnexpectedTokens => String::from_str("Unexpected tokens"),
        }
    }
}

/// The diagnostic text of a code generation error.
pub open spec fn codegen_message(e: CodegenErrorV) -> Seq<char> {
    match e {
        CodegenErrorV::NotAnLvalue { name, .. } => name + " not an lvalue"@,
        CodegenErrorV::InvalidExpression { .. } => "invalid expression here"@,
        CodegenErrorV::InvalidStatement { .. } => "invalid statement here"@,
    }
}

impl CodegenError {
    /// The diagnostic text of the error.
    pub fn message(&self) -> (m: String)
        ensures
            m@ == codegen_message(self@),
    {
        match self {
            CodegenError::NotAnLvalue { name, .. } => {
                let mut m = name.clone();
                m.append(" not an lvalue");
                m
            },
            CodegenError::InvalidExpression { .. } => String::from_str("invalid expression here"),
            CodegenError::InvalidStatement { .. } => String::from_str("invalid statement here"),
        }
    }

    /// The offset in the source text of the node where generation stopped.
    pub fn loc(&self) -> (l: usize)
        ensures
            l == match self@ {
                CodegenErrorV::NotAnLvalue { loc, .. } => loc,
                CodegenErrorV::InvalidExpression { loc } => loc,
                CodegenErrorV::InvalidStatement { loc } => loc,
            },
    {
        match self {
            CodegenError::NotAnLvalue { loc, .. } => *loc,
            CodegenError::InvalidExpression { loc } => *loc,
            CodegenError::InvalidStatement { loc } => *loc,
        }
    }
}

} // verus!
