//! Splitting a demangled path on the `::` separator, exactly as the naive
//! fallback of the decomposer does it.

use vstd::prelude::*;

verus! {

/// Position of the first `::` separator at or after `i`, or `s.len()` if
/// there is none.
pub open spec fn sep_pos(s: Seq<char>, i: int) -> int
    decreases s.len() - i,
{
    if i + 2 > s.len() {
        s.len() as int
    } else if s[i] == ':' && s[i + 1] == ':' {
        i
    } else {
        sep_pos(s, i + 1)
    }
}

pub proof fn lemma_sep_pos_range(s: Seq<char>, i: int)
    requires
        0 <= i <= s.len(),
    ensures
        i <= sep_pos(s, i) <= s.len(),
    decreases s.len() - i,
{
    if i + 2 > s.len() {
    } else if s[i] == ':' && s[i + 1] == ':' {
    } else {
        lemma_sep_pos_range(s, i + 1);
    }
}

/// What `str::split("::")` returns: the pieces between non-overlapping
/// occurrences of the separator, scanned left to right. The empty string
/// splits to one empty piece.
pub open spec fn spec_split(s: Seq<char>) -> Seq<Seq<char>>
    decreases s.len(),
{
    let p = sep_pos(s, 0);
    if 0 <= p && p + 2 <= s.len() {
        seq![s.subrange(0, p)] + spec_split(s.subrange(p + 2, s.len() as int))
    } else {
        seq![s]
    }
}

/// Index of the first `::` in `s`, or `s.len()` (in characters) if none.
fn find_first_sep(s: &str) -> (p: usize)
    ensures
        p == sep_pos(s@, 0),
        p <= s@.len(),
{
    let n = s.unicode_len();
    let mut i: usize = 0;
    proof {
        lemma_sep_pos_range(s@, 0);
    }
    while n >= 2 && i <= n - 2
        invariant
            0 <= i <= n,
            n == s@.len(),
            sep_pos(s@, 0) == sep_pos(s@, i as int),
            sep_pos(s@, 0) <= n,
        decreases n - i,
    {
        if s.get_char(i) == ':' && s.get_char(i + 1) == ':' {
            assert(sep_pos(s@, i as int) == i);
            return i;
        }
        assert(sep_pos(s@, i as int) == sep_pos(s@, i + 1));
        i = i + 1;
    }
    assert(sep_pos(s@, i as int) == n);
    n
}

/// Split `s` on the two-character path separator, as `str::split("::")`
/// would: the naive decomposition used as the best-effort fallback.
pub fn split_components(s: &str) -> (r: Vec<String>)
    ensures
        r.deep_view() == spec_split(s@),
        r@.len() >= 1,
    decreases s@.len(),
{
    let n = s.unicode_len();
    let p = find_first_sep(s);
    if n >= 2 && p <= n - 2 {
        let head: String = s.substring_char(0, p).to_owned();
        let rest: &str = s.substring_char(p + 2, n);
        let mut out = split_components(rest);
        out.insert(0, head);
        proof {
            assert(out.deep_view() =~= seq![head@] + spec_split(rest@));
            assert(out.deep_view() =~= spec_split(s@));
        }
        out
    } else {
        let mut out: Vec<String> = Vec::new();
        out.push(s.to_owned());
        proof {
            assert(out.deep_view() =~= seq![s@]);
        }
        out
    }
}

} // verus!
