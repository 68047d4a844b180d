//! Case-insensitive text comparison.
//!
//! Display names are unique among active entries *case-insensitively*. Rather
//! than relying on collation-dependent equality, every name is compared
//! through a canonical lowercase key: the sequence of its character codes
//! with the ASCII uppercase letters folded to lowercase.

use vstd::prelude::*;

verus! {

/// The canonical code of a single character: ASCII uppercase letters fold to
/// their lowercase counterparts, every other character stands for itself.
pub open spec fn lower_code(c: char) -> int {
    if 65 <= c as int <= 90 {
        c as int + 32
    } else {
        c as int
    }
}

/// The canonical comparison key of a string: its characters' codes with
/// ASCII uppercase folded to lowercase.
pub open spec fn name_key(s: Seq<char>) -> Seq<int> {
    s.map_values(|c: char| lower_code(c))
}

/// Two strings are the same name when their canonical keys agree.
pub open spec fn same_name(a: Seq<char>, b: Seq<char>) -> bool {
    name_key(a) == name_key(b)
}

/// Whether two characters agree under case folding.
fn char_eq_ci(a: char, b: char) -> (r: bool)
    ensures
        r == (lower_code(a) == lower_code(b)),
{
    let au = a as u32;
    let bu = b as u32;
    if au == bu {
        true
    } else if 65 <= au && au <= 90 && bu == au + 32 {
        true
    } else if 65 <= bu && bu <= 90 && au == bu + 32 {
        true
    } else {
        false
    }
}

/// Whether two strings agree under case folding, that is, whether they name
/// the same entry.
pub fn str_eq_ci(a: &str, b: &str) -> (r: bool)
    ensures
        r == same_name(a@, b@),
{
    let alen = a.unicode_len();
    let blen = b.unicode_len();
    if alen != blen {
        assert(name_key(a@).len() != name_key(b@).len());
        return false;
    }
    let mut i: usize = 0;
    while i < alen
        invariant
            alen == a@.len(),
            alen == b@.len(),
            i <= alen,
            forall|j: int| 0 <= j < i ==> lower_code(a@[j]) == lower_code(b@[j]),
        decreases alen - i,
    {
        let ca = a.get_char(i);
        let cb = b.get_char(i);
        if !char_eq_ci(ca, cb) {
            assert(name_key(a@)[i as int] != name_key(b@)[i as int]);
            return false;
        }
        i += 1;
    }
    assert(name_key(a@) =~= name_key(b@));
    true
}

/// Whether `s` begins with the prefix `p`.
pub open spec fn starts_with(s: Seq<char>, p: Seq<char>) -> bool {
    s.len() >= p.len() && s.subrange(0, p.len() as int) == p
}

/// Whether the string `s` begins with the prefix `p`.
pub fn str_starts_with(s: &str, p: &str) -> (r: bool)
    ensures
        r == starts_with(s@, p@),
{
    let slen = s.unicode_len();
    let plen = p.unicode_len();
    if slen < plen {
        return false;
    }
    let mut i: usize = 0;
    while i < plen
        invariant
            slen == s@.len(),
            plen == p@.len(),
            plen <= slen,
            i <= plen,
            forall|j: int| 0 <= j < i ==> s@[j] == p@[j],
        decreases plen - i,
    {
        if s.get_char(i) != p.get_char(i) {
            assert(s@.subrange(0, p@.len() as int)[i as int] != p@[i as int]);
            return false;
        }
        i += 1;
    }
    assert(s@.subrange(0, p@.len() as int) =~= p@);
    true
}

} // verus!
