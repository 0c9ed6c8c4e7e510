//! Recursive-descent parser for plain (non-qualified) demangled paths such
//! as `core::panicking::panic_nounwind<T>::h078e837899a661cc`.
//!
//! The grammar is informal: a path is a `::`-separated list of segments, a
//! segment may carry one nested generic-argument list between `<` and `>`,
//! and the closing `>` of an argument list is consumed by the nested parse.
//! `spec_parse_path` / `spec_parse_segment` define the accepted language and
//! its parse exactly; the executable functions return precisely that parse.

use vstd::prelude::*;

verus! {

/// Why a path failed to parse.
#[derive(Debug, Clone, Copy, PartialEq, Eq)]
pub enum PathError {
    /// A generic-argument list opened where a segment name was expected.
    UnexpectedGenericOpen,
    /// A generic-argument close with no segment name before it.
    UnexpectedGenericClose,
    /// A segment boundary that is not a full two-character separator.
    MissingSeparator,
}

/// Marks whether a parsed segment also terminated its enclosing path.
pub enum PathFinished {
    Yes,
    No,
}

/// One level of a compiler path: a name, optionally carrying a nested
/// generic-argument list.
#[derive(Debug, PartialEq, Eq)]
pub struct PathSegment {
    pub path: String,
    pub generic_args: Vec<Path>,
}

/// An ordered sequence of path segments, e.g. `std::sync::OnceLock<T>`.
#[derive(Debug, PartialEq, Eq)]
pub struct Path(pub Vec<PathSegment>);

/// Mathematical form of a parsed segment: its name and, per generic-argument
/// list, the segment sequence of that argument path.
#[verifier::ext_equal]
pub ghost struct SpecSegment {
    pub name: Seq<char>,
    pub args: Seq<Seq<SpecSegment>>,
}

/// The mathematical value of a `PathSegment`.
pub open spec fn seg_view(seg: PathSegment) -> SpecSegment
    decreases seg,
{
    SpecSegment { name: seg.path@, args: args_view(seg.generic_args@) }
}

/// The mathematical values of a sequence of segments, elementwise.
pub open spec fn segs_view(v: Seq<PathSegment>) -> Seq<SpecSegment>
    decreases v,
{
    if v.len() == 0 {
        Seq::empty()
    } else {
        segs_view(v.subrange(0, v.len() - 1)).push(seg_view(v[v.len() - 1]))
    }
}

/// The mathematical values of a sequence of generic-argument paths.
pub open spec fn args_view(v: Seq<Path>) -> Seq<Seq<SpecSegment>>
    decreases v,
{
    if v.len() == 0 {
        Seq::empty()
    } else {
        args_view(v.subrange(0, v.len() - 1)).push(segs_view(v[v.len() - 1].0@))
    }
}

/// The mathematical value of a `Path`.
pub open spec fn path_view(p: Path) -> Seq<SpecSegment> {
    segs_view(p.0@)
}

pub proof fn lemma_segs_view(v: Seq<PathSegment>)
    ensures
        segs_view(v).len() == v.len(),
        forall|i: int| 0 <= i < v.len() ==> segs_view(v)[i] == seg_view(v[i]),
    decreases v.len(),
{
    if v.len() > 0 {
        lemma_segs_view(v.subrange(0, v.len() - 1));
    }
}

pub proof fn lemma_args_view(v: Seq<Path>)
    ensures
        args_view(v).len() == v.len(),
        forall|i: int| 0 <= i < v.len() ==> args_view(v)[i] == segs_view(v[i].0@),
    decreases v.len(),
{
    if v.len() > 0 {
        lemma_args_view(v.subrange(0, v.len() - 1));
    }
}

/// The parse of `s` from position `i` up to the end of one path: the parsed
/// segments and the position just past what was consumed (past the closing
/// `>` when the path is a generic-argument list). A two-character separator
/// is a segment boundary; a lone separator character before a segment is
/// skipped; a generic open or close at the start of a segment is an error,
/// as is a boundary that is not a full separator.
pub open spec fn spec_parse_path(s: Seq<char>, i: int) -> Result<(Seq<SpecSegment>, int), PathError>
    decreases s.len() - i, 1int,
{
    if i >= s.len() {
        Ok((Seq::empty(), s.len() as int))
    } else if s[i] == ':' {
        if i + 1 < s.len() && s[i + 1] == ':' {
            spec_parse_path(s, i + 2)
        } else {
            spec_parse_path(s, i + 1)
        }
    } else if s[i] == '<' {
        Err(PathError::UnexpectedGenericOpen)
    } else if s[i] == '>' {
        Err(PathError::UnexpectedGenericClose)
    } else {
        match spec_parse_segment(s, i, i + 1) {
            Err(e) => Err(e),
            Ok((seg, fin, j)) => {
                if fin {
                    Ok((seq![seg], j))
                } else if i < j && j < s.len() && s[j] == ':' {
                    match spec_parse_path(s, j + 1) {
                        Err(e) => Err(e),
                        Ok((rest, k)) => Ok((seq![seg] + rest, k)),
                    }
                } else {
                    Err(PathError::MissingSeparator)
                }
            },
        }
    }
}

/// The parse of one segment whose text began at `start`, scanning from
/// `cur`: stops at a separator character (path continues), at a generic
/// close (path ends, close consumed), at a generic open (one nested
/// argument path is parsed, which consumes the close), or at end of input.
pub open spec fn spec_parse_segment(s: Seq<char>, start: int, cur: int) -> Result<
    (SpecSegment, bool, int),
    PathError,
>
    decreases s.len() - cur, 0int,
{
    if cur >= s.len() {
        Ok((SpecSegment { name: s.subrange(start, s.len() as int), args: Seq::empty() }, true, s.len() as int))
    } else if s[cur] == ':' {
        Ok((SpecSegment { name: s.subrange(start, cur), args: Seq::empty() }, false, cur + 1))
    } else if s[cur] == '>' {
        Ok((SpecSegment { name: s.subrange(start, cur), args: Seq::empty() }, true, cur + 1))
    } else if s[cur] == '<' {
        match spec_parse_path(s, cur + 1) {
            Err(e) => Err(e),
            Ok((args, j)) => Ok((SpecSegment { name: s.subrange(start, cur), args: seq![args] }, false, j)),
        }
    } else {
        spec_parse_segment(s, start, cur + 1)
    }
}

/// Parse one path starting at `*pos`, advancing `*pos` past what was
/// consumed. Returns exactly the parse that `spec_parse_path` defines,
/// including which error is reported.
pub fn parse_path(path: &str, pos: &mut usize) -> (r: Result<Path, PathError>)
    requires
        *old(pos) <= path@.len(),
    ensures
        *old(pos) <= *final(pos) <= path@.len(),
        match r {
            Ok(p) => spec_parse_path(path@, *old(pos) as int) == Ok::<_, PathError>(
                (path_view(p), *final(pos) as int),
            ),
            Err(e) => spec_parse_path(path@, *old(pos) as int) == Err::<(Seq<SpecSegment>, int), _>(e),
        },
    decreases path@.len() - *pos, 1int,
{
    let n = path.unicode_len();
    if *pos >= n {
        let p = Path(Vec::new());
        proof {
            assert(path_view(p) =~= Seq::<SpecSegment>::empty());
        }
        return Ok(p);
    }
    let c = path.get_char(*pos);
    if c == ':' {
        let two = *pos + 1 < n && path.get_char(*pos + 1) == ':';
        if two {
            *pos = *pos + 2;
        } else {
            *pos = *pos + 1;
        }
        parse_path(path, pos)
    } else if c == '<' {
        Err(PathError::UnexpectedGenericOpen)
    } else if c == '>' {
        Err(PathError::UnexpectedGenericClose)
    } else {
        let start = *pos;
        *pos = *pos + 1;
        match parse_path_segment(path, pos, start) {
            Err(e) => Err(e),
            Ok((seg, PathFinished::Yes)) => {
                let mut v: Vec<PathSegment> = Vec::new();
                v.push(seg);
                let p = Path(v);
                proof {
                    lemma_segs_view(p.0@);
                    assert(path_view(p) =~= seq![seg_view(seg)]);
                }
                Ok(p)
            },
            Ok((seg, PathFinished::No)) => {
                if *pos < n && path.get_char(*pos) == ':' {
                    *pos = *pos + 1;
                    match parse_path(path, pos) {
                        Err(e) => Err(e),
                        Ok(rest) => {
                            let Path(mut v) = rest;
                            let ghost v_before = v@;
                            v.insert(0, seg);
                            let p = Path(v);
                            proof {
                                lemma_segs_view(v_before);
                                lemma_segs_view(p.0@);
                                assert(path_view(p) =~= seq![seg_view(seg)] + segs_view(
                                    v_before,
                                ));
                            }
                            Ok(p)
                        },
                    }
                } else {
                    Err(PathError::MissingSeparator)
                }
            },
        }
    }
}

/// Parse one path segment whose text began at `start_of_path`, scanning
/// from `*pos`. Returns exactly the parse that `spec_parse_segment`
/// defines; the flag says whether the segment also ended the path.
pub fn parse_path_segment(path: &str, pos: &mut usize, start_of_path: usize) -> (r: Result<
    (PathSegment, PathFinished),
    PathError,
>)
    requires
        start_of_path <= *old(pos) <= path@.len(),
    ensures
        *old(pos) <= *final(pos) <= path@.len(),
        match r {
            Ok((seg, fin)) => spec_parse_segment(
                path@,
                start_of_path as int,
                *old(pos) as int,
            ) == Ok::<_, PathError>((seg_view(seg), fin is Yes, *final(pos) as int)),
            Err(e) => spec_parse_segment(path@, start_of_path as int, *old(pos) as int) == Err::<
                (SpecSegment, bool, int),
                _,
            >(e),
        },
    decreases path@.len() - *pos, 0int,
{
    let n = path.unicode_len();
    if *pos >= n {
        let name: String = path.substring_char(start_of_path, n).to_owned();
        let seg = PathSegment { path: name, generic_args: Vec::new() };
        proof {
            assert(seg_view(seg) =~= SpecSegment {
                name: path@.subrange(start_of_path as int, path@.len() as int),
                args: Seq::empty(),
            });
        }
        return Ok((seg, PathFinished::Yes));
    }
    let c = path.get_char(*pos);
    if c == ':' || c == '>' {
        let name: String = path.substring_char(start_of_path, *pos).to_owned();
        let seg = PathSegment { path: name, generic_args: Vec::new() };
        proof {
            assert(seg_view(seg) =~= SpecSegment {
                name: path@.subrange(start_of_path as int, *pos as int),
                args: Seq::empty(),
            });
        }
        let fin = if c == '>' {
            PathFinished::Yes
        } else {
            PathFinished::No
        };
        *pos = *pos + 1;
        Ok((seg, fin))
    } else if c == '<' {
        let open = *pos;
        *pos = *pos + 1;
        match parse_path(path, pos) {
            Err(e) => Err(e),
            Ok(arg) => {
                let name: String = path.substring_char(start_of_path, open).to_owned();
                let ghost arg_view = path_view(arg);
                let mut args: Vec<Path> = Vec::new();
                args.push(arg);
                let seg = PathSegment { path: name, generic_args: args };
                proof {
                    lemma_args_view(seg.generic_args@);
                    assert(seg_view(seg).args =~= seq![arg_view]);
                    assert(seg_view(seg) =~= SpecSegment {
                        name: path@.subrange(start_of_path as int, open as int),
                        args: seq![arg_view],
                    });
                }
                Ok((seg, PathFinished::No))
            },
        }
    } else {
        *pos = *pos + 1;
        parse_path_segment(path, pos, start_of_path)
    }
}

} // verus!
