use lib::lexer::{get_token_number, number_literals_fit, tokenize, LexError, NumberError, Token, TokenKind, V};

fn text(t: &Token) -> String {
    match &t.value {
        Some(V::Str(s)) => s.clone(),
        _ => panic!("token carries no text"),
    }
}

fn number(t: &Token) -> i32 {
    match &t.value {
        Some(V::Int(n)) => *n,
        _ => panic!("token carries no number"),
    }
}

#[test]
fn tokenize_numbers_and_operators() {
    let ts = tokenize("1 + 23").unwrap();
    assert_eq!(ts.len(), 4);
    assert_eq!(ts[0].kind, TokenKind::TkNum);
    assert_eq!(number(&ts[0]), 1);
    assert_eq!((ts[0].loc, ts[0].len), (0, 1));
    assert_eq!(ts[1].kind, TokenKind::TkPunct);
    assert_eq!(text(&ts[1]), "+");
    assert_eq!((ts[1].loc, ts[1].len), (2, 1));
    assert_eq!(ts[2].kind, TokenKind::TkNum);
    assert_eq!(number(&ts[2]), 23);
    assert_eq!((ts[2].loc, ts[2].len), (4, 2));
    assert_eq!(ts[3].kind, TokenKind::TKEof);
    assert!(ts[3].value.is_none());
    assert_eq!((ts[3].loc, ts[3].len), (6, 0));
}

#[test]
fn tokenize_two_character_punctuators() {
    let ts = tokenize("1<=2!=3==4>=5<6>7").unwrap();
    let texts: Vec<String> = ts
        .iter()
        .filter(|t| t.kind == TokenKind::TkPunct)
        .map(|t| text(t))
        .collect();
    assert_eq!(texts, vec!["<=", "!=", "==", ">=", "<", ">"]);
    assert_eq!(ts[1].len, 2);
    assert_eq!(ts[1].loc, 1);
    assert_eq!(ts.last().unwrap().loc, 17);
}

#[test]
fn tokenize_single_punctuators_and_white_space() {
    let ts = tokenize(" {\t( 1 ) ;\n} ").unwrap();
    let kinds: Vec<TokenKind> = ts.iter().map(|t| t.kind).collect();
    assert_eq!(
        kinds,
        vec![
            TokenKind::TkPunct,
            TokenKind::TkPunct,
            TokenKind::TkNum,
            TokenKind::TkPunct,
            TokenKind::TkPunct,
            TokenKind::TkPunct,
            TokenKind::TKEof
        ]
    );
    assert_eq!(text(&ts[0]), "{");
    assert_eq!(ts[0].loc, 1);
    assert_eq!(text(&ts[4]), ";");
    assert_eq!(ts[6].loc, 13);
}

#[test]
fn tokenize_empty_text_is_only_the_end() {
    let ts = tokenize("").unwrap();
    assert_eq!(ts.len(), 1);
    assert_eq!(ts[0].kind, TokenKind::TKEof);
    assert_eq!((ts[0].loc, ts[0].len), (0, 0));
}

#[test]
fn tokenize_rejects_a_letter() {
    assert_eq!(tokenize("1 + a"), Err(LexError::UnexpectedChar { loc: 4, ch: 'a' }));
}

#[test]
fn tokenize_tokens_in_order_within_the_text() {
    let src = "12*(3 - 45) <= 6";
    let ts = tokenize(src).unwrap();
    for w in ts.windows(2) {
        assert!(w[0].loc + w[0].len <= w[1].loc);
    }
    for t in &ts[..ts.len() - 1] {
        assert!(t.len > 0 && t.loc + t.len <= src.len());
    }
    assert_eq!(ts.last().unwrap().loc, src.len());
}

#[test]
fn largest_literal_fits() {
    assert!(number_literals_fit("2147483647 + 1"));
    let ts = tokenize("2147483647").unwrap();
    assert_eq!(number(&ts[0]), 2147483647);
}

#[test]
fn too_large_literal_does_not_fit() {
    assert!(!number_literals_fit("1 + 2147483648"));
    assert!(!number_literals_fit("99999999999999999999999"));
}

#[test]
fn get_token_number_of_a_literal() {
    let ts = tokenize("42").unwrap();
    assert_eq!(get_token_number(Some(&ts[0])), Ok(42));
}

#[test]
fn get_token_number_errors() {
    let ts = tokenize("+").unwrap();
    assert_eq!(get_token_number(Some(&ts[0])), Err(NumberError::NotANumber));
    assert_eq!(get_token_number(None), Err(NumberError::Missing));
    let empty = Token { kind: TokenKind::TkNum, value: None, loc: 0, len: 0 };
    assert_eq!(get_token_number(Some(&empty)), Err(NumberError::Missing));
}

#[test]
fn lexing_keeps_all_but_white_space() {
    let src = " 7 *( 12!=3 )\t<=45 ";
    let ts = tokenize(src).unwrap();
    let bytes = src.as_bytes();
    let mut covered = vec![false; bytes.len()];
    for t in &ts[..ts.len() - 1] {
        let text = &src[t.loc..t.loc + t.len];
        match (&t.kind, &t.value) {
            (TokenKind::TkPunct, Some(V::Str(s))) => assert_eq!(s, text),
            (TokenKind::TkNum, Some(V::Int(n))) => assert_eq!(n.to_string(), text),
            _ => panic!("unexpected token {:?}", t),
        }
        for c in covered.iter_mut().skip(t.loc).take(t.len) {
            *c = true;
        }
    }
    for (i, b) in bytes.iter().enumerate() {
        assert!(covered[i] || b.is_ascii_whitespace());
    }
}

#[test]
fn lex_error_messages() {
    assert_eq!(LexError::UnexpectedChar { loc: 0, ch: '$' }.message(), "Unexpected character '$'");
    assert_eq!(LexError::NumberTooLarge { loc: 0 }.message(), "number literal out of range for i32");
}

#[test]
fn unicode_white_space_separates_tokens() {
    let ts = tokenize("1\u{3000}+\u{a0}2").unwrap();
    let kinds: Vec<(TokenKind, usize, usize)> = ts.iter().map(|t| (t.kind, t.loc, t.len)).collect();
    assert_eq!(
        kinds,
        vec![(TokenKind::TkNum, 0, 1), (TokenKind::TkPunct, 4, 1), (TokenKind::TkNum, 7, 1), (TokenKind::TKEof, 8, 0)]
    );
}

#[test]
fn a_non_ascii_character_is_named_in_the_error() {
    let e = tokenize("1 + é").unwrap_err();
    assert_eq!(e, LexError::UnexpectedChar { loc: 4, ch: 'é' });
    assert_eq!(e.message(), "Unexpected character 'é'");
    assert_eq!(tokenize("😀"), Err(LexError::UnexpectedChar { loc: 0, ch: '😀' }));
}

#[test]
fn operators_after_a_multi_byte_character_are_joined_by_byte() {
    let ts = tokenize("\u{a0} <=").unwrap();
    assert_eq!(ts.len(), 2);
    assert_eq!(ts[0].kind, TokenKind::TkPunct);
    assert_eq!(ts[0].value, Some(V::Str("<=".to_string())));
    assert_eq!((ts[0].loc, ts[0].len), (3, 2));
    assert_eq!(ts[1].loc, 5);
}
