//! String sanitization for names that reach the filesystem.

use vstd::prelude::*;

use crate::util::push_char;

verus! {

/// ASCII letters and digits.
pub open spec fn is_alphanumeric_char(c: char) -> bool {
    (97 <= c as u32 && c as u32 <= 122) || (65 <= c as u32 && c as u32 <= 90) || (48 <= c as u32
        && c as u32 <= 57)
}

/// ASCII letters, digits, dashes and underscores.
pub open spec fn is_alphanumeric_dash_char(c: char) -> bool {
    is_alphanumeric_char(c) || c as u32 == 45 || c as u32 == 95
}

/// The characters of `s` that satisfy `is_alphanumeric_char`, in order.
pub open spec fn sanitize_alphanumeric_spec(s: Seq<char>) -> Seq<char>
    decreases s.len(),
{
    if s.len() == 0 {
        Seq::empty()
    } else if is_alphanumeric_char(s[0]) {
        seq![s[0]] + sanitize_alphanumeric_spec(s.skip(1))
    } else {
        sanitize_alphanumeric_spec(s.skip(1))
    }
}

/// The characters of `s` that satisfy `is_alphanumeric_dash_char`, in
/// order.
pub open spec fn sanitize_alphanumeric_dash_spec(s: Seq<char>) -> Seq<char>
    decreases s.len(),
{
    if s.len() == 0 {
        Seq::empty()
    } else if is_alphanumeric_dash_char(s[0]) {
        seq![s[0]] + sanitize_alphanumeric_dash_spec(s.skip(1))
    } else {
        sanitize_alphanumeric_dash_spec(s.skip(1))
    }
}

fn exec_is_alphanumeric_char(c: char) -> (r: bool)
    ensures
        r == is_alphanumeric_char(c),
{
    let v = c as u32;
    (97 <= v && v <= 122) || (65 <= v && v <= 90) || (48 <= v && v <= 57)
}

fn exec_is_alphanumeric_dash_char(c: char) -> (r: bool)
    ensures
        r == is_alphanumeric_dash_char(c),
{
    let v = c as u32;
    exec_is_alphanumeric_char(c) || v == 45 || v == 95
}

/// Sanitizes a string, allowing only alphanumeric characters, dashes,
/// and underscores.
pub fn sanitize_alphanumeric_dash(input: &str) -> (r: String)
    ensures
        r@ == sanitize_alphanumeric_dash_spec(input@),
{
    let n = input.unicode_len();
    let mut out = String::new();
    proof {
        assert(input@.skip(0) =~= input@);
        assert(out@ + sanitize_alphanumeric_dash_spec(input@) =~= sanitize_alphanumeric_dash_spec(input@));
    }
    let mut i: usize = 0;
    while i < n
        invariant
            n == input@.len(),
            i <= n,
            sanitize_alphanumeric_dash_spec(input@) == out@ + sanitize_alphanumeric_dash_spec(
                input@.skip(i as int),
            ),
        decreases n - i,
    {
        let c = input.get_char(i);
        proof {
            assert(input@.skip(i as int)[0] == c);
            assert(input@.skip(i as int).skip(1) =~= input@.skip(i + 1));
        }
        if exec_is_alphanumeric_dash_char(c) {
            proof {
                assert(out@ + (seq![c] + sanitize_alphanumeric_dash_spec(input@.skip(i + 1)))
                    =~= out@.push(c) + sanitize_alphanumeric_dash_spec(input@.skip(i + 1)));
            }
            push_char(&mut out, c);
        }
        i += 1;
    }
    proof {
        assert(input@.skip(n as int) =~= Seq::<char>::empty());
        assert(out@ + Seq::<char>::empty() =~= out@);
    }
    out
}

/// Sanitizes a string, allowing only alphanumeric characters.
pub fn sanitize_alphanumeric(input: &str) -> (r: String)
    ensures
        r@ == sanitize_alphanumeric_spec(input@),
{
    let n = input.unicode_len();
    let mut out = String::new();
    proof {
        assert(input@.skip(0) =~= input@);
        assert(out@ + sanitize_alphanumeric_spec(input@) =~= sanitize_alphanumeric_spec(input@));
    }
    let mut i: usize = 0;
    while i < n
        invariant
            n == input@.len(),
            i <= n,
            sanitize_alphanumeric_spec(input@) == out@ + sanitize_alphanumeric_spec(
                input@.skip(i as int),
            ),
        decreases n - i,
    {
        let c = input.get_char(i);
        proof {
            assert(input@.skip(i as int)[0] == c);
            assert(input@.skip(i as int).skip(1) =~= input@.skip(i + 1));
        }
        if exec_is_alphanumeric_char(c) {
            proof {
                assert(out@ + (seq![c] + sanitize_alphanumeric_spec(input@.skip(i + 1)))
                    =~= out@.push(c) + sanitize_alphanumeric_spec(input@.skip(i + 1)));
            }
            push_char(&mut out, c);
        }
        i += 1;
    }
    proof {
        assert(input@.skip(n as int) =~= Seq::<char>::empty());
        assert(out@ + Seq::<char>::empty() =~= out@);
    }
    out
}

} // verus!
