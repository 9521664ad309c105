//! Name lookup over ordered association lists, with the wildcard rule: an
//! exactly registered name always wins over a wildcard entry, whatever the
//! insertion order; the wildcard only catches names no entry registers.

use vstd::prelude::*;
use vstd::utf8::encode_utf8_decode_utf8;

verus! {

/// The name under which a module or method entry matches any name.
pub const WILDCARD: &'static str = "*";

/// The wildcard name, as a character sequence.
pub open spec fn spec_wildcard() -> Seq<char> {
    seq!['*']
}

/// The first entry registered under exactly `name`, if any.
pub open spec fn lookup_first<T>(entries: Seq<(Seq<char>, T)>, name: Seq<char>) -> Option<T>
    decreases entries.len(),
{
    if entries.len() == 0 {
        None
    } else if entries[0].0 == name {
        Some(entries[0].1)
    } else {
        lookup_first(entries.drop_first(), name)
    }
}

/// The entry that a lookup of `name` resolves to: the first entry registered
/// under exactly `name`, and failing that the first wildcard entry.
pub open spec fn lookup<T>(entries: Seq<(Seq<char>, T)>, name: Seq<char>) -> Option<T> {
    match lookup_first(entries, name) {
        Some(t) => Some(t),
        None => lookup_first(entries, spec_wildcard()),
    }
}

/// Whether two string slices hold the same characters.
pub fn str_eq(a: &str, b: &str) -> (r: bool)
    ensures
        r == (a@ == b@),
{
    let ab = a.as_bytes();
    let bb = b.as_bytes();
    if ab.len() != bb.len() {
        return false;
    }
    let n = ab.len();
    let mut i: usize = 0;
    while i < n
        invariant
            i <= n,
            n == ab@.len(),
            ab@.len() == bb@.len(),
            ab@ == vstd::utf8::encode_utf8(a@),
            bb@ == vstd::utf8::encode_utf8(b@),
            forall|j: int| 0 <= j < i ==> ab@[j] == bb@[j],
        decreases n - i,
    {
        if ab[i] != bb[i] {
            return false;
        }
        i += 1;
    }
    proof {
        assert(ab@ =~= bb@);
        encode_utf8_decode_utf8(a@);
        encode_utf8_decode_utf8(b@);
    }
    true
}

/// Whether a string slice is the wildcard name.
pub fn is_wildcard(s: &str) -> (r: bool)
    ensures
        r == (s@ == spec_wildcard()),
{
    proof {
        reveal_strlit("*");
        assert("*"@ =~= spec_wildcard());
    }
    str_eq(s, "*")
}

} // verus!
