//! Character-level helpers: string comparison and placeholder substitution.

use vstd::prelude::*;
use vstd::string::StrSliceExecFns;

verus! {

/// Whether two strings hold the same characters.
pub fn str_eq(a: &str, b: &str) -> (r: bool)
    ensures
        r == (a@ == b@),
{
    let alen = a.unicode_len();
    let blen = b.unicode_len();
    if alen != blen {
        return false;
    }
    let mut i: usize = 0;
    while i < alen
        invariant
            alen == a@.len(),
            blen == b@.len(),
            alen == blen,
            i <= alen,
            forall|j: int| 0 <= j < i as int ==> a@[j] == b@[j],
        decreases alen - i,
    {
        if a.get_char(i) != b.get_char(i) {
            return false;
        }
        i = i + 1;
    }
    proof {
        assert(a@ =~= b@);
    }
    true
}

/// The placeholder that prompt substitution fills.
pub open spec fn placeholder() -> Seq<char> {
    "{}"@
}

/// The first position at or after `i` where the `{}` placeholder occurs.
pub open spec fn find_placeholder(s: Seq<char>, i: int) -> Option<int>
    decreases s.len() - i,
{
    if i < 0 || i + 2 > s.len() {
        None
    } else if s[i] == '{' && s[i + 1] == '}' {
        Some(i)
    } else {
        find_placeholder(s, i + 1)
    }
}

/// `s` with its first `{}` placeholder, if any, replaced by `rep`.
pub open spec fn replace_placeholder(s: Seq<char>, rep: Seq<char>) -> Seq<char> {
    match find_placeholder(s, 0) {
        Some(i) => s.subrange(0, i) + rep + s.subrange(i + 2, s.len() as int),
        None => s,
    }
}

/// A template with one `{}` placeholder filled per value, left to right.
pub open spec fn subst_all(template: Seq<char>, vals: Seq<Seq<char>>) -> Seq<char>
    decreases vals.len(),
{
    if vals.len() == 0 {
        template
    } else {
        subst_all(replace_placeholder(template, vals.first()), vals.drop_first())
    }
}

/// Replaces the first `{}` placeholder in `s`, if any, with `rep`.
pub fn substitute_placeholder(s: &str, rep: &str) -> (r: String)
    ensures
        r@ == replace_placeholder(s@, rep@),
{
    let n = s.unicode_len();
    if n < 2 {
        return s.to_owned();
    }
    let mut i: usize = 0;
    while i < n - 1
        invariant
            n == s@.len(),
            2 <= n,
            i <= n - 1,
            find_placeholder(s@, 0) == find_placeholder(s@, i as int),
        decreases n - i,
    {
        if s.get_char(i) == '{' && s.get_char(i + 1) == '}' {
            let mut out = s.substring_char(0, i).to_owned();
            out.append(rep);
            out.append(s.substring_char(i + 2, n));
            proof {
                assert(out@ =~= replace_placeholder(s@, rep@));
            }
            return out;
        }
        i = i + 1;
    }
    s.to_owned()
}

} // verus!
