//! Helpers for the `"namespace:item"` text form of asset locations.

use vstd::prelude::*;

use crate::util::push_char;

verus! {

/// Whether `s` contains a colon.
pub open spec fn has_colon(s: Seq<char>) -> bool {
    exists|i: int| 0 <= i < s.len() && s[i] == ':'
}

/// Whether position `i` holds the first colon of `s`.
pub open spec fn first_colon_at(s: Seq<char>, i: int) -> bool {
    0 <= i < s.len() && s[i] == ':' && (forall|j: int| 0 <= j < i ==> s[j] != ':')
}

fn find_colon(s: &str) -> (r: Option<usize>)
    ensures
        r is Some <==> has_colon(s@),
        r matches Some(i) ==> first_colon_at(s@, i as int),
{
    let n = s.unicode_len();
    let mut i: usize = 0;
    while i < n
        invariant
            n == s@.len(),
            i <= n,
            forall|j: int| 0 <= j < i ==> s@[j] != ':',
        decreases n - i,
    {
        if s.get_char(i) == ':' {
            return Some(i);
        }
        i += 1;
    }
    None
}

/// Gets the proper location of the asset at the given location with
/// format `<namespace>:<asset>`: the first colon becomes a slash.
pub fn from_asset_loc_raw(location: String) -> (r: String)
    ensures
        !has_colon(location@) ==> r@ == location@,
        forall|i: int| first_colon_at(location@, i) ==> r@ == location@.update(i, '/'),
{
    let n = location.as_str().unicode_len();
    match find_colon(location.as_str()) {
        None => location,
        Some(i) => {
            let mut out = location.as_str().substring_char(0, i).to_owned();
            push_char(&mut out, '/');
            let rest = location.as_str().substring_char(i + 1, n);
            out.append(rest);
            proof {
                assert(out@ =~= location@.update(i as int, '/'));
                assert forall|k: int| first_colon_at(location@, k) implies out@ == location@.update(
                    k,
                    '/',
                ) by {
                    assert(k == i as int);
                }
            }
            out
        },
    }
}

/// Gets the proper location of the asset at the given location in the
/// given namespace.
pub fn from_asset_loc(namespace: &str, location: &str) -> (r: String)
    ensures
        r@ == namespace@ + seq!['/'] + location@,
{
    let mut out = namespace.to_owned();
    push_char(&mut out, '/');
    out.append(location);
    proof {
        assert(out@ =~= namespace@ + seq!['/'] + location@);
    }
    out
}

/// Gets the namespace and item from a given namespaced item with format
/// `<namespace>:<item>`, split at the first colon.
pub fn parse_namespaced<'a>(item: &'a str) -> (r: (&'a str, &'a str))
    requires
        has_colon(item@),
    ensures
        forall|i: int|
            first_colon_at(item@, i) ==> r.0@ == item@.take(i) && r.1@ == item@.skip(i + 1),
{
    let n = item.unicode_len();
    let i = match find_colon(item) {
        Some(i) => i,
        None => {
            proof {
                assert(false);
            }
            0
        },
    };
    let ns = item.substring_char(0, i);
    let rest = item.substring_char(i + 1, n);
    proof {
        assert forall|k: int|
            first_colon_at(item@, k) implies ns@ == item@.take(k) && rest@ == item@.skip(
            k + 1,
        ) by {
            assert(k == i as int);
            assert(ns@ =~= item@.take(i as int));
            assert(rest@ =~= item@.skip(i as int + 1));
        }
    }
    (ns, rest)
}

/// Translates the item into a namespaced item with format
/// `<namespace>:<item>`.
pub fn namespaced(namespace: &str, item: &str) -> (r: String)
    ensures
        r@ == namespace@ + seq![':'] + item@,
{
    let mut out = namespace.to_owned();
    push_char(&mut out, ':');
    out.append(item);
    proof {
        assert(out@ =~= namespace@ + seq![':'] + item@);
    }
    out
}

} // verus!
