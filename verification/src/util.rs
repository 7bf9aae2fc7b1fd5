//! Small string helpers: the trusted character/string primitives of the
//! standard library that the rest of the crate builds strings with, and
//! chat-formatting stripping.

use vstd::prelude::*;

pub mod sanitize;

verus! {

/// Whether a 32-bit value is a Unicode scalar value, i.e. a valid `char`.
pub open spec fn is_scalar_value(v: u32) -> bool {
    v <= 0x10FFFF && !(0xD800 <= v && v <= 0xDFFF)
}

/// Relies on `char::from_u32` of the standard library: it returns `Some`
/// exactly when the value is a Unicode scalar value, and then the
/// character has that value.
#[verifier::external_body]
pub(crate) fn char_from_u32(v: u32) -> (r: Option<char>)
    ensures
        r is Some <==> is_scalar_value(v),
        r matches Some(c) ==> c == v as char && c as u32 == v,
{
    char::from_u32(v)
}

/// Relies on `String::push` of the standard library: it appends the given
/// character to the end of the string.
#[verifier::external_body]
pub(crate) fn push_char(s: &mut String, c: char)
    ensures
        final(s)@ == old(s)@.push(c),
{
    s.push(c)
}

/// Relies on `String::from_utf8` of the standard library: it succeeds
/// exactly on valid UTF-8 and then returns the string those bytes spell.
#[verifier::external_body]
pub(crate) fn string_from_utf8(v: Vec<u8>) -> (r: Option<String>)
    ensures
        r is Some <==> vstd::utf8::valid_utf8(v@),
        r matches Some(s) ==> vstd::utf8::encode_utf8(s@) == v@,
{
    match String::from_utf8(v) {
        Ok(s) => Some(s),
        Err(_) => None,
    }
}

/// Relies on `str` equality of the standard library (`PartialEq` on
/// `str`): two string slices are equal exactly when their characters
/// are.
#[verifier::external_body]
pub(crate) fn str_eq(a: &str, b: &str) -> (r: bool)
    ensures
        r == (a@ == b@),
{
    a == b
}

/// The decimal digit character for a value below ten.
pub open spec fn decimal_digit(d: u64) -> char {
    ((48 + d) as u8) as char
}

/// The decimal text of `n`, most significant digit first.
pub open spec fn u64_decimal(n: u64) -> Seq<char>
    decreases n,
{
    if n < 10 {
        seq![decimal_digit(n)]
    } else {
        u64_decimal(n / 10).push(decimal_digit(n % 10))
    }
}

/// Appends the decimal text of `n` to `out`.
pub fn push_u64_decimal(out: &mut String, n: u64)
    ensures
        final(out)@ == old(out)@ + u64_decimal(n),
    decreases n,
{
    if n < 10 {
        push_char(out, ((48 + n) as u8) as char);
        proof {
            assert(out@ =~= old(out)@ + u64_decimal(n));
        }
    } else {
        push_u64_decimal(out, n / 10);
        push_char(out, ((48 + n % 10) as u8) as char);
        proof {
            assert(out@ =~= old(out)@ + u64_decimal(n));
        }
    }
}

/// Whether `c` opens a formatting mark: a backtick directly followed by
/// an ASCII alphanumeric selector.
pub open spec fn is_format_selector(c: char) -> bool {
    (97 <= c as u32 && c as u32 <= 122) || (65 <= c as u32 && c as u32 <= 90) || (48 <= c as u32
        && c as u32 <= 57)
}

/// The text with every backtick-plus-selector formatting mark removed,
/// scanning left to right without overlap.
pub open spec fn strip_formatting_spec(s: Seq<char>) -> Seq<char>
    decreases s.len(),
{
    if s.len() == 0 {
        Seq::empty()
    } else if s.len() >= 2 && s[0] == '`' && is_format_selector(s[1]) {
        strip_formatting_spec(s.skip(2))
    } else {
        seq![s[0]] + strip_formatting_spec(s.skip(1))
    }
}

fn exec_is_format_selector(c: char) -> (r: bool)
    ensures
        r == is_format_selector(c),
{
    let v = c as u32;
    (97 <= v && v <= 122) || (65 <= v && v <= 90) || (48 <= v && v <= 57)
}

/// Removes lightweight inline chat formatting (a backtick followed by an
/// alphanumeric selector) before console printing.
pub fn strip_formatting(msg: &str) -> (r: String)
    ensures
        r@ == strip_formatting_spec(msg@),
{
    let n = msg.unicode_len();
    let mut out = String::new();
    proof {
        assert(msg@.skip(0) =~= msg@);
        assert(out@ + strip_formatting_spec(msg@) =~= strip_formatting_spec(msg@));
    }
    let mut i: usize = 0;
    while i < n
        invariant
            n == msg@.len(),
            i <= n,
            strip_formatting_spec(msg@) == out@ + strip_formatting_spec(msg@.skip(i as int)),
        decreases n - i,
    {
        let c = msg.get_char(i);
        if c == '`' && i + 1 < n && exec_is_format_selector(msg.get_char(i + 1)) {
            proof {
                assert(msg@.skip(i as int)[0] == '`');
                assert(msg@.skip(i as int)[1] == msg@[i + 1]);
                assert(msg@.skip(i as int).skip(2) =~= msg@.skip(i + 2));
            }
            i += 2;
        } else {
            proof {
                assert(msg@.skip(i as int)[0] == c);
                assert(msg@.skip(i as int).skip(1) =~= msg@.skip(i + 1));
                assert(out@ + (seq![c] + strip_formatting_spec(msg@.skip(i + 1))) =~= out@.push(c)
                    + strip_formatting_spec(msg@.skip(i + 1)));
            }
            push_char(&mut out, c);
            i += 1;
        }
    }
    proof {
        assert(msg@.skip(n as int) =~= Seq::<char>::empty());
        assert(out@ + Seq::<char>::empty() =~= out@);
    }
    out
}

} // verus!
