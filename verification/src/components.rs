//! The symbol path decomposer: from one demangled symbol string to the
//! ordered list of hierarchy components used as a tree-insertion key.

use vstd::prelude::*;

use crate::demangle::demangle_symbol;
use crate::demangle::demangled_of;
use crate::qpath::parse_qpath;
use crate::qpath::qpath_components;
use crate::qpath::spec_parse_qpath;
use crate::qpath::spec_qpath_components;
use crate::split::spec_split;
use crate::split::split_components;

verus! {

/// The most components a symbol may decompose to: pathological generic
/// nesting is cut off here rather than deepening the tree without bound.
pub const COMPONENT_LIMIT: usize = 100;

/// A component whose text contains a comma (a multi-argument generic list
/// that leaked through unflattened) is wrapped in double quotes, so that
/// downstream consumers treat it as one atomic token.
pub open spec fn quote_component(c: Seq<char>) -> Seq<char> {
    if c.contains(',') {
        seq!['"'] + c + seq!['"']
    } else {
        c
    }
}

pub open spec fn quote_all(cs: Seq<Seq<char>>) -> Seq<Seq<char>> {
    cs.map_values(|c: Seq<char>| quote_component(c))
}

/// At most the first `COMPONENT_LIMIT` components are kept; excess trailing
/// components are discarded, not merged.
pub open spec fn truncate_components(cs: Seq<Seq<char>>) -> Seq<Seq<char>> {
    if cs.len() > COMPONENT_LIMIT {
        cs.take(COMPONENT_LIMIT as int)
    } else {
        cs
    }
}

/// The decomposition of one demangled symbol string: a string that opens a
/// qualifying clause is parsed as a qualified path and flattened, with the
/// naive `::` split as the fallback when that parse fails; any other string
/// is split naively. Components are then comma-quoted and the list is cut
/// at the depth limit.
pub open spec fn spec_symbol_components(d: Seq<char>) -> Seq<Seq<char>> {
    let base = if d.len() > 0 && d[0] == '<' {
        match spec_parse_qpath(d) {
            Ok(q) => spec_qpath_components(q),
            Err(_) => spec_split(d),
        }
    } else {
        spec_split(d)
    };
    truncate_components(quote_all(base))
}

/// For a non-qualified demangled path the decomposition is exactly the
/// naive split on the path separator (quoted and depth-limited): generic
/// argument text stays inside the component that its segment falls in.
pub proof fn lemma_components_non_qualified(d: Seq<char>)
    requires
        d.len() == 0 || d[0] != '<',
    ensures
        spec_symbol_components(d) == truncate_components(quote_all(spec_split(d))),
{
}

fn contains_comma(s: &str) -> (b: bool)
    ensures
        b == s@.contains(','),
{
    let n = s.unicode_len();
    let mut i: usize = 0;
    while i < n
        invariant
            i <= n == s@.len(),
            forall|j: int| 0 <= j < i ==> s@[j] != ',',
        decreases n - i,
    {
        if s.get_char(i) == ',' {
            proof {
                assert(s@.contains(',')) by {
                    assert(s@[i as int] == ',');
                }
            }
            return true;
        }
        i = i + 1;
    }
    false
}

fn quote_if_comma(c: String) -> (r: String)
    ensures
        r@ == quote_component(c@),
{
    if contains_comma(c.as_str()) {
        let mut out = String::new();
        out.append("\"");
        out.append(c.as_str());
        out.append("\"");
        proof {
            reveal_strlit("\"");
            assert(out@ =~= seq!['"'] + c@ + seq!['"']);
        }
        out
    } else {
        c
    }
}

/// Decompose one already-demangled symbol string into its hierarchy
/// components, as `spec_symbol_components` defines. Parse failures degrade
/// to the naive split; this never fails.
pub fn components_of_demangled(demangled: &str) -> (r: Vec<String>)
    ensures
        r.deep_view() == spec_symbol_components(demangled@),
{
    let base: Vec<String> = if demangled.unicode_len() > 0 && demangled.get_char(0) == '<' {
        match parse_qpath(demangled) {
            Ok(q) => qpath_components(&q),
            Err(_) => split_components(demangled),
        }
    } else {
        split_components(demangled)
    };
    let ghost base_view = base.deep_view();
    let n = base.len();
    let mut out: Vec<String> = Vec::new();
    let mut i: usize = 0;
    while i < n
        invariant
            i <= n == base@.len(),
            base.deep_view() == base_view,
            out@.len() == i,
            forall|j: int| 0 <= j < i ==> out.deep_view()[j] == quote_component(base_view[j]),
        decreases n - i,
    {
        let c = base[i].clone();
        let q = quote_if_comma(c);
        let ghost pre = out.deep_view();
        let ghost qv = q@;
        out.push(q);
        proof {
            assert(out.deep_view() =~= pre.push(qv));
        }
        i = i + 1;
    }
    proof {
        assert(out.deep_view() =~= quote_all(base_view));
    }
    if out.len() > COMPONENT_LIMIT {
        out.truncate(COMPONENT_LIMIT);
        proof {
            assert(out.deep_view() =~= truncate_components(quote_all(base_view)));
        }
    }
    out
}

/// Decompose one raw symbol name: demangle it, then split the demangled
/// text into hierarchy components. Best-effort: malformed qualified paths
/// fall back to the naive split, and the component count is capped, so this
/// never fails.
pub fn symbol_components(sym: &str) -> (r: Vec<String>)
    ensures
        r.deep_view() == spec_symbol_components(demangled_of(sym@)),
{
    let demangled = demangle_symbol(sym);
    components_of_demangled(demangled.as_str())
}

} // verus!
