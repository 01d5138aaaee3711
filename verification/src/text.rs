//! Building text: characters and decimal numerals.
use vstd::prelude::*;

verus! {

/// `std::string::String::push`: appends one character to the end of the string.
#[verifier::external_body]
pub(crate) fn push_char(s: &mut String, c: char)
    ensures
        final(s)@ == old(s)@.push(c),
{
    s.push(c);
}

/// The character of a decimal digit.
pub open spec fn digit_char(d: int) -> char {
    (d + 48) as char
}

/// The decimal numeral of a natural number, without leading zeros.
pub open spec fn dec_nat(n: nat) -> Seq<char>
    decreases n,
{
    if n < 10 {
        seq![digit_char(n as int)]
    } else {
        dec_nat(n / 10).push(digit_char((n % 10) as int))
    }
}

/// The decimal numeral of an integer, with a leading `-` when it is negative.
pub open spec fn dec_int(v: int) -> Seq<char> {
    if v < 0 {
        seq!['-'] + dec_nat((-v) as nat)
    } else {
        dec_nat(v as nat)
    }
}

/// Appends the decimal numeral of `n`.
pub fn append_nat(s: &mut String, n: u64)
    ensures
        final(s)@ == old(s)@ + dec_nat(n as nat),
    decreases n,
{
    if n >= 10 {
        append_nat(s, n / 10);
    }
    let d = (n % 10) as u8;
    push_char(s, (d + 48) as char);
    proof {
        assert(old(s)@ + dec_nat(n as nat) =~= s@) by {
            if n >= 10 {
                assert(dec_nat(n as nat) == dec_nat((n / 10) as nat).push(digit_char((n % 10) as int)));
            }
        }
    }
}

/// Appends the decimal numeral of `v`, with a leading `-` when it is negative.
pub fn append_int(s: &mut String, v: i64)
    ensures
        final(s)@ == old(s)@ + dec_int(v as int),
{
    if v < 0 {
        push_char(s, '-');
        let m: u64 = if v == i64::MIN {
            9223372036854775808u64
        } else {
            (-v) as u64
        };
        append_nat(s, m);
        proof {
            assert(s@ =~= old(s)@ + dec_int(v as int));
        }
    } else {
        append_nat(s, v as u64);
    }
}

/// The decimal numeral of `v` as a string.
pub fn int_to_string(v: i64) -> (s: String)
    ensures
        s@ == dec_int(v as int),
{
    let mut s = String::new();
    append_int(&mut s, v);
    proof {
        assert(s@ =~= dec_int(v as int));
    }
    s
}

} // verus!
