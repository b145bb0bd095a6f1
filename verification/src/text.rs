//! Character-level string helpers shared by the decision logic.

use vstd::prelude::*;

verus! {

/// Whether two string slices hold the same characters.
pub(crate) fn str_eq(a: &str, b: &str) -> (r: bool)
    ensures
        r == (a@ == b@),
{
    let x = a.to_owned();
    let y = b.to_owned();
    x == y
}

/// Split off `p` from the front of `s`, yielding the remainder.
pub(crate) fn strip_prefix_chars<'a>(s: &'a str, p: &str) -> (r: Option<&'a str>)
    ensures
        r matches Some(rest) ==> {
            &&& s@.len() >= p@.len()
            &&& s@.subrange(0, p@.len() as int) == p@
            &&& rest@ == s@.skip(p@.len() as int)
        },
        r is None ==> !(s@.len() >= p@.len() && s@.subrange(0, p@.len() as int) == p@),
{
    let n = p.unicode_len();
    let m = s.unicode_len();
    if m < n {
        return None;
    }
    let head = s.substring_char(0, n);
    if str_eq(head, p) {
        Some(s.substring_char(n, m))
    } else {
        None
    }
}

/// The position of the first occurrence of `target` in `s`, if any.
pub(crate) fn find_char(s: &str, target: char) -> (r: Option<usize>)
    ensures
        r matches Some(i) ==> {
            &&& i < s@.len()
            &&& s@[i as int] == target
            &&& forall|k: int| 0 <= k < i ==> s@[k] != target
        },
        r is None ==> forall|k: int| 0 <= k < s@.len() ==> s@[k] != target,
{
    let n = s.unicode_len();
    let mut i: usize = 0;
    while i < n
        invariant
            n == s@.len(),
            i <= n,
            forall|k: int| 0 <= k < i ==> s@[k] != target,
        decreases n - i,
    {
        if s.get_char(i) == target {
            return Some(i);
        }
        i = i + 1;
    }
    None
}

} // verus!
