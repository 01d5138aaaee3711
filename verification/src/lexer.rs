//! Lexical analysis: turning the source text into a vector of tokens.
use vstd::prelude::*;
use crate::text::push_char;
use vstd::string::StringSliceAdditionalSpecFns;
use vstd::utf8::{codepoint_width_2, codepoint_width_3, codepoint_width_4};

verus! {

/// The kind of a token.
#[derive(Debug, Clone, Copy, PartialEq, Eq, Structural)]
pub enum TokenKind {
    /// An identifier.
    TkIdent,
    /// A punctuator such as `+`, `==` or `;`.
    TkPunct,
    /// A keyword such as `return`.
    TkKeyword,
    /// A numeric literal.
    TkNum,
    /// The end of the input.
    TKEof,
}

/// The value a token carries.
#[derive(Debug, Clone, PartialEq)]
pub enum V {
    /// The value of a numeric literal.
    Int(i32),
    /// The text of a punctuator, identifier or keyword.
    Str(String),
}

/// A token of the source text.
#[derive(Debug, Clone, PartialEq)]
pub struct Token {
    pub kind: TokenKind,
    pub value: Option<V>,
    /// Byte offset of the token in the source text.
    pub loc: usize,
    /// Length of the token in bytes.
    pub len: usize,
}

/// The mathematical value of a token value.
pub enum ValV {
    Int(i32),
    Str(Seq<char>),
}

/// The mathematical value of a token.
pub struct TokenV {
    pub kind: TokenKind,
    pub value: Option<ValV>,
    pub loc: usize,
    pub len: usize,
}

impl View for V {
    type V = ValV;

    open spec fn view(&self) -> ValV {
        match self {
            V::Int(n) => ValV::Int(*n),
            V::Str(s) => ValV::Str(s@),
        }
    }
}

impl View for Token {
    type V = TokenV;

    open spec fn view(&self) -> TokenV {
        TokenV {
            kind: self.kind,
            value: match self.value {
                Some(v) => Some(v@),
                None => None,
            },
            loc: self.loc,
            len: self.len,
        }
    }
}

/// The views of a sequence of tokens.
pub open spec fn tokens_view(ts: Seq<Token>) -> Seq<TokenV> {
    ts.map_values(|t: Token| t@)
}

/// Why the source text could not be split into tokens.
#[derive(Debug, Clone, Copy, PartialEq, Eq, Structural)]
pub enum LexError {
    /// A character that starts no token, at the given byte offset.
    UnexpectedChar { loc: usize, ch: char },
    /// A numeric literal, at the given offset, whose value does not fit in an `i32`.
    NumberTooLarge { loc: usize },
}

/// ASCII white space, as `char::is_whitespace` classifies it.
pub open spec fn is_space(b: u8) -> bool {
    b == 32 || (9 <= b && b <= 13)
}

/// Unicode white space, as `char::is_whitespace` classifies it: the characters with
/// the White_Space property.
pub open spec fn is_white_space(c: char) -> bool {
    let v = c as u32;
    ||| 9 <= v <= 13
    ||| v == 32 || v == 0x85 || v == 0xa0 || v == 0x1680
    ||| 0x2000 <= v <= 0x200a
    ||| v == 0x2028 || v == 0x2029 || v == 0x202f || v == 0x205f || v == 0x3000
}

/// The number of bytes of the UTF-8 encoded character that a byte of at least 0x80
/// starts, as its high bits announce; 0 for a byte that starts none.
pub open spec fn lead_width(b: u8) -> int {
    if 0xc0 <= b <= 0xdf {
        2
    } else if 0xe0 <= b <= 0xef {
        3
    } else if 0xf0 <= b <= 0xf7 {
        4
    } else {
        0
    }
}

/// The code point of the `w`-byte UTF-8 encoded character at offset `i`.
pub open spec fn code_point(s: Seq<u8>, i: int, w: int) -> u32 {
    if w == 2 {
        codepoint_width_2(s[i], s[i + 1])
    } else if w == 3 {
        codepoint_width_3(s[i], s[i + 1], s[i + 2])
    } else {
        codepoint_width_4(s[i], s[i + 1], s[i + 2], s[i + 3])
    }
}

/// Whether `v` is the value of a character: at most 0x10FFFF and not a surrogate.
pub open spec fn is_char_value(v: u32) -> bool {
    v <= 0x10ffff && !(0xd800 <= v <= 0xdfff)
}

/// The multi-byte character that starts at offset `i` and its width in bytes, or
/// `None` when the bytes there encode none (which the bytes of a `str` never do).
pub open spec fn char_at(s: Seq<u8>, i: int) -> Option<(char, int)> {
    let w = lead_width(s[i]);
    if 2 <= w && i + w <= s.len() && is_char_value(code_point(s, i, w)) {
        Some((code_point(s, i, w) as char, w))
    } else {
        None
    }
}

/// The width of the white space character at offset `i`, if one of more than one
/// byte starts there; 0 otherwise.
pub open spec fn space_width(s: Seq<u8>, i: int) -> int {
    if 0 <= i < s.len() && s[i] >= 0x80 {
        match char_at(s, i) {
            Some((c, w)) => if is_white_space(c) {
                w
            } else {
                0
            },
            None => 0,
        }
    } else {
        0
    }
}

/// The character that replaces bytes that encode no character.
pub open spec fn replacement_char() -> char {
    '\u{fffd}'
}

/// ASCII punctuation, as `char::is_ascii_punctuation` classifies it.
pub open spec fn is_punct(b: u8) -> bool {
    (33 <= b && b <= 47) || (58 <= b && b <= 64) || (91 <= b && b <= 96) || (123 <= b && b <= 126)
}

/// A decimal digit.
pub open spec fn is_digit(b: u8) -> bool {
    48 <= b && b <= 57
}

/// Length of the punctuator that starts at `i`: two for `==`, `!=`, `<=` and `>=`, else one.
pub open spec fn punct_len(s: Seq<u8>, i: int) -> int {
    if i + 1 < s.len() && s[i + 1] == 61 && (s[i] == 33 || s[i] == 61 || s[i] == 60 || s[i] == 62) {
        2
    } else {
        1
    }
}

/// End (exclusive) of the run of digits that starts at `i`.
pub open spec fn digit_end(s: Seq<u8>, i: int) -> int
    decreases s.len() - i,
{
    if 0 <= i < s.len() && is_digit(s[i]) {
        digit_end(s, i + 1)
    } else {
        i
    }
}

/// The decimal value of a sequence of digits.
pub open spec fn digits_value(d: Seq<u8>) -> int
    decreases d.len(),
{
    if d.len() == 0 {
        0
    } else {
        digits_value(d.drop_last()) * 10 + (d.last() - 48)
    }
}

/// The characters of ASCII bytes.
pub open spec fn ascii_chars(b: Seq<u8>) -> Seq<char> {
    b.map_values(|x: u8| x as char)
}

/// The token that ends every token sequence.
pub open spec fn eof_token(n: int) -> TokenV {
    TokenV { kind: TokenKind::TKEof, value: None, loc: n as usize, len: 0 }
}

/// The run of digits from `i` ends within the text, holds only digits, and is followed
/// by a byte that is not one.
pub proof fn lemma_digit_end(s: Seq<u8>, i: int)
    requires
        0 <= i <= s.len(),
    ensures
        i <= digit_end(s, i) <= s.len(),
        forall|k: int| i <= k < digit_end(s, i) ==> is_digit(#[trigger] s[k]),
        digit_end(s, i) < s.len() ==> !is_digit(s[digit_end(s, i)]),
    decreases s.len() - i,
{
    if i < s.len() && is_digit(s[i]) {
        lemma_digit_end(s, i + 1);
    }
}

/// The tokens of the bytes of `s` from offset `i` on, as the lexer produces them.
pub open spec fn lex_from(s: Seq<u8>, i: int) -> Result<Seq<TokenV>, LexError>
    decreases s.len() - i,
{
    if i < 0 || i >= s.len() {
        Ok(seq![eof_token(s.len() as int)])
    } else if is_space(s[i]) {
        lex_from(s, i + 1)
    } else if is_punct(s[i]) {
        let n = punct_len(s, i);
        let tok = TokenV {
            kind: TokenKind::TkPunct,
            value: Some(ValV::Str(ascii_chars(s.subrange(i, i + n)))),
            loc: i as usize,
            len: n as usize,
        };
        match lex_from(s, i + n) {
            Ok(rest) => Ok(seq![tok] + rest),
            Err(e) => Err(e),
        }
    } else if is_digit(s[i]) {
        let e = digit_end(s, i);
        let v = digits_value(s.subrange(i, e));
        if v > i32::MAX {
            Err(LexError::NumberTooLarge { loc: i as usize })
        } else {
            let tok = TokenV {
                kind: TokenKind::TkNum,
                value: Some(ValV::Int(v as i32)),
                loc: i as usize,
                len: (e - i) as usize,
            };
            if i < e <= s.len() {
                match lex_from(s, e) {
                    Ok(rest) => Ok(seq![tok] + rest),
                    Err(e) => Err(e),
                }
            } else {
                Err(LexError::NumberTooLarge { loc: i as usize })
            }
        }
    } else if s[i] < 0x80 {
        Err(LexError::UnexpectedChar { loc: i as usize, ch: s[i] as char })
    } else {
        match char_at(s, i) {
            Some((c, w)) => if is_white_space(c) {
                lex_from(s, i + w)
            } else {
                Err(LexError::UnexpectedChar { loc: i as usize, ch: c })
            },
            None => Err(LexError::UnexpectedChar { loc: i as usize, ch: replacement_char() }),
        }
    }
}

/// The tokens of a whole source text.
pub open spec fn lex(s: Seq<u8>) -> Result<Seq<TokenV>, LexError> {
    lex_from(s, 0)
}

/// `char::from_u32`: the character whose value is `v`, or `None` when `v` is above
/// 0x10FFFF or a surrogate.
#[verifier::external_body]
fn char_from_u32(v: u32) -> (r: Option<char>)
    ensures
        r == (if is_char_value(v) {
            Some(v as char)
        } else {
            None
        }),
{
    char::from_u32(v)
}

/// The multi-byte character at offset `i` (see `char_at`).
fn char_at_exec(s: &[u8], i: usize) -> (r: Option<(char, usize)>)
    requires
        i < s@.len(),
        s@[i as int] >= 0x80,
    ensures
        match r {
            Some((c, w)) => char_at(s@, i as int) == Some((c, w as int)),
            None => char_at(s@, i as int) is None,
        },
{
    let b0 = s[i];
    let w: usize = if 0xc0 <= b0 && b0 <= 0xdf {
        2
    } else if 0xe0 <= b0 && b0 <= 0xef {
        3
    } else if 0xf0 <= b0 && b0 <= 0xf7 {
        4
    } else {
        return None;
    };
    if w > s.len() - i {
        return None;
    }
    let v: u32 = if w == 2 {
        (((b0 & 0x1f) as u32) << 6) | ((s[i + 1] & 0x3f) as u32)
    } else if w == 3 {
        (((b0 & 0x0f) as u32) << 12) | (((s[i + 1] & 0x3f) as u32) << 6) | ((s[i + 2] & 0x3f) as u32)
    } else {
        (((b0 & 0x07) as u32) << 18) | (((s[i + 1] & 0x3f) as u32) << 12) | (((s[i + 2] & 0x3f) as u32)
            << 6) | ((s[i + 3] & 0x3f) as u32)
    };
    assert(v == code_point(s@, i as int, w as int));
    match char_from_u32(v) {
        Some(c) => Some((c, w)),
        None => None,
    }
}

/// Whether `c` is white space (see `is_white_space`).
pub fn is_white_space_exec(c: char) -> (b: bool)
    ensures
        b == is_white_space(c),
{
    let v = c as u32;
    (9 <= v && v <= 13) || v == 32 || v == 0x85 || v == 0xa0 || v == 0x1680 || (0x2000 <= v && v
        <= 0x200a) || v == 0x2028 || v == 0x2029 || v == 0x202f || v == 0x205f || v == 0x3000
}

/// Prefixes `prefix` to the tokens of a successful result.
pub open spec fn prepend(prefix: Seq<TokenV>, r: Result<Seq<TokenV>, LexError>) -> Result<Seq<TokenV>, LexError> {
    match r {
        Ok(rest) => Ok(prefix + rest),
        Err(e) => Err(e),
    }
}

/// Splits `s` into tokens; a numeric literal too large for an `i32` is reported as
/// `NumberTooLarge`.
fn lex_bytes(s: &[u8]) -> (res: Result<Vec<Token>, LexError>)
    ensures
        match res {
            Ok(ts) => lex(s@) == Ok::<Seq<TokenV>, LexError>(tokens_view(ts@)),
            Err(e) => lex(s@) == Err::<Seq<TokenV>, LexError>(e),
        },
        res matches Ok(ts) ==> ts@.len() > 0 && ts@.last()@ == eof_token(s@.len() as int),
{
    let n = s.len();
    let mut tokens: Vec<Token> = Vec::new();
    let mut i: usize = 0;
    while i < n
        invariant
            n == s@.len(),
            i <= n,
            lex(s@) == prepend(tokens_view(tokens@), lex_from(s@, i as int)),
        decreases n - i,
    {
        let b = s[i];
        if b == 32 || (9 <= b && b <= 13) {
            i = i + 1;
        } else if (33 <= b && b <= 47) || (58 <= b && b <= 64) || (91 <= b && b <= 96) || (123 <= b
            && b <= 126) {
            let mut plen: usize = 1;
            if i + 1 < n && s[i + 1] == 61 && (b == 33 || b == 61 || b == 60 || b == 62) {
                plen = 2;
            }
            let mut text = String::new();
            push_char(&mut text, b as char);
            if plen == 2 {
                push_char(&mut text, s[i + 1] as char);
            }
            proof {
                assert(text@ =~= ascii_chars(s@.subrange(i as int, i + plen)));
            }
            let tok = Token {
                kind: TokenKind::TkPunct,
                value: Some(V::Str(text)),
                loc: i,
                len: plen,
            };
            let ghost old_tokens = tokens@;
            tokens.push(tok);
            proof {
                assert(tokens_view(tokens@) =~= tokens_view(old_tokens).push(tok@));
                let r = lex_from(s@, i + plen);
                match r {
                    Ok(rest) => {
                        assert(tokens_view(old_tokens) + (seq![tok@] + rest) =~= tokens_view(
                            tokens@,
                        ) + rest);
                    },
                    Err(_) => {},
                }
            }
            i = i + plen;
        } else if 48 <= b && b <= 57 {
            let mut end: usize = i;
            let mut v: u64 = 0;
            proof {
                lemma_digit_end(s@, i as int);
                assert(s@.subrange(i as int, i as int) =~= Seq::<u8>::empty());
            }
            while end < n && 48 <= s[end] && s[end] <= 57
                invariant
                    n == s@.len(),
                    i <= end <= n,
                    i < n,
                    is_digit(s@[i as int]),
                    digit_end(s@, i as int) == digit_end(s@, end as int),
                    forall|k: int| i <= k < end ==> is_digit(#[trigger] s@[k]),
                    digits_value(s@.subrange(i as int, end as int)) <= i32::MAX ==> v
                        == digits_value(s@.subrange(i as int, end as int)),
                    digits_value(s@.subrange(i as int, end as int)) > i32::MAX ==> v > i32::MAX,
                    v <= 21474836479,
                decreases n - end,
            {
                let ghost old_sub = s@.subrange(i as int, end as int);
                let d = s[end] - 48;
                if v <= 2147483647 {
                    v = v * 10 + d as u64;
                }
                end = end + 1;
                proof {
                    let sub = s@.subrange(i as int, end as int);
                    assert(sub.drop_last() =~= old_sub);
                    assert(digits_value(old_sub) >= 0) by {
                        assert(forall|k: int| 0 <= k < old_sub.len() ==> old_sub[k] == s@[i + k]);
                        lemma_digits_value_nonneg(old_sub);
                    }
                }
            }
            proof {
                lemma_digit_end(s@, end as int);
            }
            if v > 2147483647 {
                return Err(LexError::NumberTooLarge { loc: i });
            }
            let tok = Token { kind: TokenKind::TkNum, value: Some(V::Int(v as i32)), loc: i, len: end - i };
            let ghost old_tokens = tokens@;
            tokens.push(tok);
            proof {
                assert(tokens_view(tokens@) =~= tokens_view(old_tokens).push(tok@));
                let r = lex_from(s@, end as int);
                match r {
                    Ok(rest) => {
                        assert(tokens_view(old_tokens) + (seq![tok@] + rest) =~= tokens_view(
                            tokens@,
                        ) + rest);
                    },
                    Err(_) => {},
                }
            }
            i = end;
        } else if b < 128 {
            return Err(LexError::UnexpectedChar { loc: i, ch: b as char });
        } else {
            match char_at_exec(s, i) {
                Some((c, w)) => {
                    if is_white_space_exec(c) {
                        i = i + w;
                    } else {
                        return Err(LexError::UnexpectedChar { loc: i, ch: c });
                    }
                },
                None => {
                    return Err(LexError::UnexpectedChar { loc: i, ch: '\u{fffd}' });
                },
            }
        }
    }
    let eof = Token { kind: TokenKind::TKEof, value: None, loc: n, len: 0 };
    let ghost old_tokens = tokens@;
    tokens.push(eof);
    proof {
        assert(tokens_view(tokens@) =~= tokens_view(old_tokens) + seq![eof_token(n as int)]);
        lemma_lex_in_order(s@, 0);
        assert(tokens_view(tokens@).last() == tokens@.last()@);
    }
    Ok(tokens)
}

/// The tokens of a text lie in it in order and do not overlap: each token but the
/// last is non-empty and ends within the text, at or before the start of the next,
/// and the last one is the end-of-input token, at the end of the text.
pub proof fn lemma_lex_in_order(s: Seq<u8>, i: int)
    requires
        0 <= i,
        s.len() <= usize::MAX,
        lex_from(s, i) is Ok,
    ensures
        ({
            let r = lex_from(s, i).unwrap();
            &&& r.len() > 0
            &&& r.last() == eof_token(s.len() as int)
            &&& forall|k: int| 0 <= k < r.len() - 1 ==> i <= #[trigger] r[k].loc && 0 < r[k].len
                && r[k].loc + r[k].len <= s.len()
            &&& forall|j: int, k: int| 0 <= j < k < r.len() ==> #[trigger] r[j].loc + r[j].len
                <= #[trigger] r[k].loc
        }),
    decreases s.len() - i,
{
    if i >= s.len() {
    } else if is_space(s[i]) {
        lemma_lex_in_order(s, i + 1);
    } else if !is_punct(s[i]) && !is_digit(s[i]) {
        lemma_lex_in_order(s, i + space_width(s, i));
    } else {
        let next = if is_punct(s[i]) {
            i + punct_len(s, i)
        } else {
            lemma_digit_end(s, i);
            digit_end(s, i)
        };
        lemma_lex_in_order(s, next);
        let rest = lex_from(s, next).unwrap();
        let r = lex_from(s, i).unwrap();
        assert(r =~= seq![r[0]] + rest);
        assert(r[0].loc == i && r[0].loc + r[0].len == next);
        assert forall|j: int, k: int| 0 <= j < k < r.len() implies #[trigger] r[j].loc + r[j].len
            <= #[trigger] r[k].loc by {
            if j == 0 {
                assert(r[k] == rest[k - 1]);
                if k - 1 < rest.len() - 1 {
                    assert(next <= rest[k - 1].loc);
                }
            } else {
                assert(r[j] == rest[j - 1] && r[k] == rest[k - 1]);
            }
        }
        assert forall|k: int| 0 <= k < r.len() - 1 implies i <= #[trigger] r[k].loc && 0 < r[k].len
            && r[k].loc + r[k].len <= s.len() by {
            if k > 0 {
                assert(r[k] == rest[k - 1]);
            }
        }
    }
}

/// Whether the token `t` is what the text `s` holds at its place: a punctuator whose
/// text is the bytes it covers, or a numeric literal whose value is that of the digits
/// it covers.
pub open spec fn token_of_text(s: Seq<u8>, t: TokenV) -> bool {
    let text = s.subrange(t.loc as int, t.loc + t.len);
    ||| t.kind == TokenKind::TkPunct && t.value == Some(ValV::Str(ascii_chars(text)))
    ||| t.kind == TokenKind::TkNum && t.value == Some(ValV::Int(digits_value(text) as i32))
        && forall|p: int| 0 <= p < text.len() ==> is_digit(#[trigger] text[p])
}

/// Where the token before the `k`-th of `r` ends, `i` for the first one.
pub open spec fn gap_start(r: Seq<TokenV>, i: int, k: int) -> int {
    if k == 0 {
        i
    } else {
        r[k - 1].loc + r[k - 1].len
    }
}

/// Whether the byte at offset `p` is white space: ASCII white space, or a byte of a
/// white space character of more than one byte.
pub open spec fn blank(s: Seq<u8>, p: int) -> bool {
    ||| is_space(s[p])
    ||| exists|j: int| j <= p < j + #[trigger] space_width(s, j)
}

/// Lexing keeps all of the text but its white space: each token but the last is what
/// the text holds at its place, and the bytes before each token that no token covers
/// are white space.
#[verifier::rlimit(50)]
pub proof fn lemma_lex_covers(s: Seq<u8>, i: int)
    requires
        0 <= i,
        s.len() <= usize::MAX,
        lex_from(s, i) is Ok,
    ensures
        ({
            let r = lex_from(s, i).unwrap();
            &&& forall|k: int| 0 <= k < r.len() - 1 ==> token_of_text(s, #[trigger] r[k])
            &&& forall|k: int, p: int|
                #![trigger r[k], s[p]]
                0 <= k < r.len() && gap_start(r, i, k) <= p < r[k].loc ==> blank(s, p)
        }),
    decreases s.len() - i,
{
    lemma_lex_in_order(s, i);
    let r = lex_from(s, i).unwrap();
    if i >= s.len() {
    } else if is_space(s[i]) {
        lemma_lex_covers(s, i + 1);
        assert forall|k: int, p: int|
            #![trigger r[k], s[p]]
            0 <= k < r.len() && gap_start(r, i, k) <= p < r[k].loc implies blank(s, p) by {
            if p > i && k == 0 {
                assert(gap_start(r, i + 1, 0) <= p);
            }
        }
    } else if !is_punct(s[i]) && !is_digit(s[i]) {
        let w = space_width(s, i);
        lemma_lex_covers(s, i + w);
        assert forall|k: int, p: int|
            #![trigger r[k], s[p]]
            0 <= k < r.len() && gap_start(r, i, k) <= p < r[k].loc implies blank(s, p) by {
            if p < i + w {
                assert(i <= p < i + space_width(s, i));
            } else if k == 0 {
                assert(gap_start(r, i + w, 0) <= p);
            }
        }
    } else {
        let next = if is_punct(s[i]) {
            i + punct_len(s, i)
        } else {
            lemma_digit_end(s, i);
            digit_end(s, i)
        };
        lemma_lex_covers(s, next);
        lemma_lex_in_order(s, next);
        let rest = lex_from(s, next).unwrap();
        assert(r =~= seq![r[0]] + rest);
        assert(token_of_text(s, r[0])) by {
            if !is_punct(s[i]) {
                let text = s.subrange(i, next);
                assert forall|p: int| 0 <= p < text.len() implies is_digit(#[trigger] text[p]) by {
                    assert(text[p] == s[i + p]);
                }
            }
        }
        assert forall|k: int| 0 <= k < r.len() - 1 implies token_of_text(s, #[trigger] r[k]) by {
            if k > 0 {
                assert(r[k] == rest[k - 1]);
            }
        }
        assert forall|k: int, p: int|
            #![trigger r[k], s[p]]
            0 <= k < r.len() && gap_start(r, i, k) <= p < r[k].loc implies blank(s, p) by {
            if k > 0 {
                assert(r[k] == rest[k - 1]);
                if k == 1 {
                    assert(gap_start(rest, next, 0) == next);
                } else {
                    assert(r[k - 1] == rest[k - 2]);
                    assert(gap_start(r, i, k) == gap_start(rest, next, k - 1));
                }
                assert(rest[k - 1] == r[k]);
            }
        }
    }
}

/// Why a token did not give a number.
#[derive(Debug, Clone, Copy, PartialEq, Eq, Structural)]
pub enum NumberError {
    /// The token is not a numeric literal.
    NotANumber,
    /// There is no token, or a numeric literal carries no value.
    Missing,
}

/// The value of a numeric literal token.
pub fn get_token_number(token: Option<&Token>) -> (r: Result<i32, NumberError>)
    ensures
        r == match token {
            Some(t) => if t.kind != TokenKind::TkNum {
                Err(NumberError::NotANumber)
            } else {
                match t.value {
                    Some(V::Int(n)) => Ok(n),
                    _ => Err(NumberError::Missing),
                }
            },
            None => Err(NumberError::Missing),
        },
{
    match token {
        Some(t) => {
            if t.kind != TokenKind::TkNum {
                Err(NumberError::NotANumber)
            } else {
                match &t.value {
                    Some(V::Int(n)) => Ok(*n),
                    _ => Err(NumberError::Missing),
                }
            }
        },
        None => Err(NumberError::Missing),
    }
}

/// Whether every numeric literal that the lexer reaches fits in an `i32`.
pub open spec fn literals_fit(s: Seq<u8>) -> bool {
    !(lex(s) matches Err(LexError::NumberTooLarge { .. }))
}

/// Splits the source text into tokens, the last of which marks the end of the input.
/// White space (Unicode white space included) separates tokens; `==`, `!=`, `<=` and
/// `>=` are single punctuators; any other character that is neither ASCII punctuation
/// nor a digit is an error that names it.
/// The text is lexed by bytes: token offsets and lengths are byte positions, and the
/// look-ahead that joins a two-character operator reads the byte right after the first
/// one, so offsets and operators come out the same after a multi-byte character as
/// after an ASCII one (a no-break space then `" <="` gives the single token `<=`).
pub fn tokenize(arg: &str) -> (res: Result<Vec<Token>, LexError>)
    requires
        literals_fit(arg.spec_bytes()),
    ensures
        match res {
            Ok(ts) => lex(arg.spec_bytes()) == Ok::<Seq<TokenV>, LexError>(tokens_view(ts@)),
            Err(e) => lex(arg.spec_bytes()) == Err::<Seq<TokenV>, LexError>(e) && e is UnexpectedChar,
        },
        res matches Ok(ts) ==> ts@.len() > 0 && ts@.last()@ == eof_token(arg.spec_bytes().len() as int),
{
    lex_bytes(arg.as_bytes())
}

/// Whether every numeric literal that `tokenize` would reach in `arg` fits in an `i32`.
pub fn number_literals_fit(arg: &str) -> (r: bool)
    ensures
        r == literals_fit(arg.spec_bytes()),
{
    match lex_bytes(arg.as_bytes()) {
        Err(LexError::NumberTooLarge { .. }) => false,
        _ => true,
    }
}

/// The value of a sequence of digits is not negative.
pub proof fn lemma_digits_value_nonneg(d: Seq<u8>)
    requires
        forall|k: int| 0 <= k < d.len() ==> is_digit(#[trigger] d[k]),
    ensures
        digits_value(d) >= 0,
    decreases d.len(),
{
    if d.len() > 0 {
        lemma_digits_value_nonneg(d.drop_last());
    }
}

} // verus!
