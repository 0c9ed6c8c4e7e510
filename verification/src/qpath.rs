//! Parsing of the qualified-path syntax used for trait-implementation
//! methods: `<Self as Trait>::method`, where `Self` may itself be a nested
//! qualified path. `spec_parse_qpath` defines exactly which inputs parse and
//! to what, and `spec_qpath_components` defines the flattening used by the
//! symbol decomposer, including its best-effort fallback.

use vstd::prelude::*;

use crate::split::spec_split;
use crate::split::split_components;

verus! {

/// Why a qualified path failed to parse.
#[derive(Debug, Clone, Copy, PartialEq, Eq)]
pub enum QPathError {
    /// The qualifying clause never closes: angle brackets are unbalanced.
    UnclosedQualifier,
    /// No space splits self-type from trait at nesting depth one, or the
    /// split leaves an empty self-type or an empty trait name.
    MissingAsClause,
    /// The text after the qualifying clause does not begin with `::`.
    MissingLeadingSeparator,
}

/// A qualified path `<qself as trait_>::pathy_bit`. `qself` may itself be a
/// serialized qualified path.
#[derive(Debug, PartialEq, Eq)]
pub struct QPath {
    pub qself: String,
    pub trait_: String,
    pub pathy_bit: String,
}

/// Mathematical form of a qualified path.
#[verifier::ext_equal]
pub ghost struct SpecQPath {
    pub qself: Seq<char>,
    pub trait_name: Seq<char>,
    pub pathy: Seq<char>,
}

/// The mathematical value of a `QPath`.
pub open spec fn qpath_view(q: QPath) -> SpecQPath {
    SpecQPath { qself: q.qself@, trait_name: q.trait_@, pathy: q.pathy_bit@ }
}

spec fn opt_int(o: Option<usize>) -> Option<int> {
    match o {
        Some(v) => Some(v as int),
        None => None,
    }
}

/// Scan of the qualifying clause from position `i` at bracket depth
/// `depth`: returns the position of the closing bracket of depth one (or
/// `None` if brackets never balance) and the position of the first space
/// seen at depth one (`as_idx` carries a space already found).
pub open spec fn spec_qscan(s: Seq<char>, i: int, depth: int, as_idx: Option<int>) -> (Option<
    int,
>, Option<int>)
    decreases s.len() - i,
{
    if i >= s.len() {
        (None, as_idx)
    } else if s[i] == '<' {
        spec_qscan(s, i + 1, depth + 1, as_idx)
    } else if s[i] == '>' {
        if depth == 1 {
            (Some(i), as_idx)
        } else {
            spec_qscan(s, i + 1, depth - 1, as_idx)
        }
    } else if s[i] == ' ' && depth == 1 && as_idx is None {
        spec_qscan(s, i + 1, depth, Some(i))
    } else {
        spec_qscan(s, i + 1, depth, as_idx)
    }
}

/// The parse of a qualified path: the clause between the opening bracket
/// and its balancing close splits at the first depth-one space into a
/// non-empty self-type and, past the ` as ` marker, a non-empty trait name;
/// the text after the close must begin with `::`, and the rest of it is the
/// trailing path.
pub open spec fn spec_parse_qpath(s: Seq<char>) -> Result<SpecQPath, QPathError> {
    let (close_opt, as_opt) = spec_qscan(s, 1, 1, None);
    if close_opt is None {
        Err(QPathError::UnclosedQualifier)
    } else {
        let close = close_opt->0;
        if !(as_opt is Some && 1 < as_opt->0 && as_opt->0 + 4 < close) {
            Err(QPathError::MissingAsClause)
        } else {
            let a = as_opt->0;
            if close + 3 <= s.len() && s[close + 1] == ':' && s[close + 2] == ':' {
                Ok(
                    SpecQPath {
                        qself: s.subrange(1, a),
                        trait_name: s.subrange(a + 4, close),
                        pathy: s.subrange(close + 3, s.len() as int),
                    },
                )
            } else {
                Err(QPathError::MissingLeadingSeparator)
            }
        }
    }
}

pub proof fn lemma_qscan_close_bound(s: Seq<char>, i: int, depth: int, as_idx: Option<int>)
    ensures
        spec_qscan(s, i, depth, as_idx).0 matches Some(c) ==> i <= c < s.len(),
    decreases s.len() - i,
{
    if i >= s.len() {
    } else if s[i] == '<' {
        lemma_qscan_close_bound(s, i + 1, depth + 1, as_idx);
    } else if s[i] == '>' {
        if depth != 1 {
            lemma_qscan_close_bound(s, i + 1, depth - 1, as_idx);
        }
    } else if s[i] == ' ' && depth == 1 && as_idx is None {
        lemma_qscan_close_bound(s, i + 1, depth, Some(i));
    } else {
        lemma_qscan_close_bound(s, i + 1, depth, as_idx);
    }
}

/// A successfully parsed qualified path has a self-type strictly shorter
/// than the whole input: the flattening below recurses on it.
pub proof fn lemma_parse_qpath_qself_shorter(s: Seq<char>)
    ensures
        spec_parse_qpath(s) matches Ok(q) ==> q.qself.len() + 9 <= s.len(),
{
    lemma_qscan_close_bound(s, 1, 1, None);
}

/// The component flattening of a qualified path: if the self-type is itself
/// a qualified path, recurse one level and append the split of the trailing
/// path; otherwise (including when the nested parse fails) fall back to the
/// naive split of the self-type followed by the split of the trailing path.
/// The trait name is discarded, never emitted. This never fails.
pub open spec fn spec_qpath_components(q: SpecQPath) -> Seq<Seq<char>>
    decreases q.qself.len(),
{
    if q.qself.len() > 0 && q.qself[0] == '<' {
        match spec_parse_qpath(q.qself) {
            Ok(sub) => {
                if sub.qself.len() < q.qself.len() {
                    spec_qpath_components(sub) + spec_split(q.pathy)
                } else {
                    spec_split(q.qself) + spec_split(q.pathy)
                }
            },
            Err(_) => spec_split(q.qself) + spec_split(q.pathy),
        }
    } else {
        spec_split(q.qself) + spec_split(q.pathy)
    }
}

/// For a doubly-nested qualified path — one whose self-type parses as a
/// qualified path whose own self-type is not one — the flattening recurses
/// exactly one level: the components are the inner self-type split, the
/// inner trailing path split, then the outer trailing path split, in that
/// order. Neither level's trait name contributes a component.
pub proof fn lemma_qpath_components_nested(q: SpecQPath)
    requires
        q.qself.len() > 0,
        q.qself[0] == '<',
        spec_parse_qpath(q.qself) matches Ok(sub) && !(sub.qself.len() > 0 && sub.qself[0]
            == '<'),
    ensures
        spec_parse_qpath(q.qself) matches Ok(sub) ==> spec_qpath_components(q) == spec_split(
            sub.qself,
        ) + spec_split(sub.pathy) + spec_split(q.pathy),
{
    lemma_parse_qpath_qself_shorter(q.qself);
    match spec_parse_qpath(q.qself) {
        Ok(sub) => {
            assert(sub.qself.len() < q.qself.len());
            assert(spec_qpath_components(q) == spec_qpath_components(sub) + spec_split(q.pathy));
            assert(spec_qpath_components(sub) == spec_split(sub.qself) + spec_split(sub.pathy));
        },
        Err(_) => {},
    }
}

/// Parse a qualified path `<qself as trait>::path`, reporting exactly which
/// malformation was found: unbalanced qualifying brackets, a missing or
/// degenerate ` as ` clause, or a missing `::` after the close. Returns
/// exactly the parse that `spec_parse_qpath` defines.
pub fn parse_qpath(s: &str) -> (r: Result<QPath, QPathError>)
    ensures
        match r {
            Ok(q) => spec_parse_qpath(s@) == Ok::<_, QPathError>(qpath_view(q))
                && q.qself@.len() + 9 <= s@.len(),
            Err(e) => spec_parse_qpath(s@) == Err::<SpecQPath, _>(e),
        },
{
    let n = s.unicode_len();
    let ghost target = spec_qscan(s@, 1, 1, None);
    let mut i: usize = 1;
    let mut depth: usize = 1;
    let mut as_idx: Option<usize> = None;
    let mut close: Option<usize> = None;
    while close.is_none() && i < n
        invariant
            n == s@.len(),
            1 <= depth <= i,
            close is None ==> target == spec_qscan(s@, i as int, depth as int, opt_int(as_idx)),
            close matches Some(c) ==> c < n && target == (Some(c as int), opt_int(as_idx)),
            as_idx matches Some(a) ==> 1 <= a < n,
        decreases n - i + (if close is None { 1int } else { 0int }),
    {
        let c = s.get_char(i);
        if c == '<' {
            depth = depth + 1;
            i = i + 1;
        } else if c == '>' {
            if depth == 1 {
                close = Some(i);
            } else {
                depth = depth - 1;
                i = i + 1;
            }
        } else if c == ' ' {
            if depth == 1 && as_idx.is_none() {
                as_idx = Some(i);
            }
            i = i + 1;
        } else {
            i = i + 1;
        }
    }
    match close {
        None => Err(QPathError::UnclosedQualifier),
        Some(cl) => {
            let as_ok = match as_idx {
                Some(a) => 1 < a && a < cl && cl - a > 4,
                None => false,
            };
            if !as_ok {
                Err(QPathError::MissingAsClause)
            } else {
                let a = as_idx.unwrap();
                if n >= 3 && cl <= n - 3 && s.get_char(cl + 1) == ':' && s.get_char(cl + 2)
                    == ':' {
                    let q = QPath {
                        qself: s.substring_char(1, a).to_owned(),
                        trait_: s.substring_char(a + 4, cl).to_owned(),
                        pathy_bit: s.substring_char(cl + 3, n).to_owned(),
                    };
                    proof {
                        assert(qpath_view(q) =~= SpecQPath {
                            qself: s@.subrange(1, a as int),
                            trait_name: s@.subrange(a + 4, cl as int),
                            pathy: s@.subrange(cl + 3, n as int),
                        });
                    }
                    Ok(q)
                } else {
                    Err(QPathError::MissingLeadingSeparator)
                }
            }
        },
    }
}

/// Flatten a qualified path into its hierarchy components, as
/// `spec_qpath_components` defines: recurse into a self-type that is itself
/// a qualified path, fall back to the naive split when it is not one (or
/// does not parse), and append the split trailing path. The trait name is
/// discarded. This is best-effort and never fails.
pub fn qpath_components(qpath: &QPath) -> (r: Vec<String>)
    ensures
        r.deep_view() == spec_qpath_components(qpath_view(*qpath)),
    decreases qpath.qself@.len(),
{
    let is_nested = qpath.qself.unicode_len() > 0 && qpath.qself.as_str().get_char(0) == '<';
    if is_nested {
        match parse_qpath(qpath.qself.as_str()) {
            Ok(sub) => {
                let mut out = qpath_components(&sub);
                let ghost head_view = out.deep_view();
                let mut tail = split_components(qpath.pathy_bit.as_str());
                let ghost tail_view = tail.deep_view();
                out.append(&mut tail);
                proof {
                    assert(out.deep_view() =~= head_view + tail_view);
                }
                out
            },
            Err(_) => {
                let mut out = split_components(qpath.qself.as_str());
                let ghost head_view = out.deep_view();
                let mut tail = split_components(qpath.pathy_bit.as_str());
                let ghost tail_view = tail.deep_view();
                out.append(&mut tail);
                proof {
                    assert(out.deep_view() =~= head_view + tail_view);
                }
                out
            },
        }
    } else {
        let mut out = split_components(qpath.qself.as_str());
        let ghost head_view = out.deep_view();
        let mut tail = split_components(qpath.pathy_bit.as_str());
        let ghost tail_view = tail.deep_view();
        out.append(&mut tail);
        proof {
            assert(out.deep_view() =~= head_view + tail_view);
        }
        out
    }
}

} // verus!
