//! The size attributor: from a symbol table window to ordered
//! `(name, size)` pairs, by one of two strategies — each symbol's recorded
//! size, or the delta between adjacent addresses.

use vstd::prelude::*;

verus! {

broadcast use vstd::seq_lib::group_to_multiset_ensures;

/// One symbol-table entry, reduced to what sizing reads: its name, its
/// address, and its recorded size.
#[derive(Debug, PartialEq, Eq)]
pub struct SymbolInfo {
    pub name: String,
    pub address: u64,
    pub size: u64,
}

/// `a` lies in the half-open address window `[lo, hi)`.
pub open spec fn in_window(lo: u64, hi: u64, a: u64) -> bool {
    lo <= a < hi
}

/// The `(name, recorded size)` pairs of the in-window symbols, in order.
pub open spec fn spec_recorded_sizes(s: Seq<SymbolInfo>, lo: u64, hi: u64) -> Seq<(String, u64)>
    decreases s.len(),
{
    if s.len() == 0 {
        Seq::empty()
    } else {
        let rest = spec_recorded_sizes(s.drop_last(), lo, hi);
        if in_window(lo, hi, s.last().address) {
            rest.push((s.last().name, s.last().size))
        } else {
            rest
        }
    }
}

/// The in-window symbols themselves, in order.
pub open spec fn spec_in_window(s: Seq<SymbolInfo>, lo: u64, hi: u64) -> Seq<SymbolInfo>
    decreases s.len(),
{
    if s.len() == 0 {
        Seq::empty()
    } else {
        let rest = spec_in_window(s.drop_last(), lo, hi);
        if in_window(lo, hi, s.last().address) {
            rest.push(s.last())
        } else {
            rest
        }
    }
}

/// Sorted by size, largest first.
pub open spec fn sorted_desc(s: Seq<(String, u64)>) -> bool {
    forall|i: int, j: int| 0 <= i < j < s.len() ==> s[i].1 >= s[j].1
}

/// Sorted by address, lowest first.
pub open spec fn sorted_by_addr(s: Seq<SymbolInfo>) -> bool {
    forall|i: int, j: int| 0 <= i < j < s.len() ==> s[i].address <= s[j].address
}

/// Address-delta attribution over an address-sorted symbol line: each
/// symbol but the last gets the distance to its successor; the
/// highest-addressed symbol has no successor and is dropped entirely.
pub open spec fn spec_deltas(s: Seq<SymbolInfo>) -> Seq<(String, u64)> {
    if s.len() == 0 {
        Seq::empty()
    } else {
        Seq::new(
            (s.len() - 1) as nat,
            |i: int| (s[i].name, (s[i + 1].address - s[i].address) as u64),
        )
    }
}

fn filter_recorded(symbols: &Vec<SymbolInfo>, lo: u64, hi: u64) -> (r: Vec<(String, u64)>)
    ensures
        r@ == spec_recorded_sizes(symbols@, lo, hi),
{
    let n = symbols.len();
    let mut out: Vec<(String, u64)> = Vec::new();
    let mut i: usize = 0;
    while i < n
        invariant
            i <= n == symbols@.len(),
            out@ == spec_recorded_sizes(symbols@.subrange(0, i as int), lo, hi),
        decreases n - i,
    {
        let a = symbols[i].address;
        if lo <= a && a < hi {
            out.push((symbols[i].name.clone(), symbols[i].size));
        }
        proof {
            assert(symbols@.subrange(0, i + 1).drop_last() =~= symbols@.subrange(0, i as int));
            assert(symbols@.subrange(0, i + 1).last() == symbols@[i as int]);
        }
        i = i + 1;
    }
    proof {
        assert(symbols@.subrange(0, n as int) =~= symbols@);
    }
    out
}

fn filter_in_window(symbols: &Vec<SymbolInfo>, lo: u64, hi: u64) -> (r: Vec<SymbolInfo>)
    ensures
        r@ == spec_in_window(symbols@, lo, hi),
{
    let n = symbols.len();
    let mut out: Vec<SymbolInfo> = Vec::new();
    let mut i: usize = 0;
    while i < n
        invariant
            i <= n == symbols@.len(),
            out@ == spec_in_window(symbols@.subrange(0, i as int), lo, hi),
        decreases n - i,
    {
        let a = symbols[i].address;
        if lo <= a && a < hi {
            out.push(
                SymbolInfo {
                    name: symbols[i].name.clone(),
                    address: symbols[i].address,
                    size: symbols[i].size,
                },
            );
            proof {
                assert(SymbolInfo {
                    name: symbols@[i as int].name,
                    address: symbols@[i as int].address,
                    size: symbols@[i as int].size,
                } == symbols@[i as int]);
            }
        }
        proof {
            assert(symbols@.subrange(0, i + 1).drop_last() =~= symbols@.subrange(0, i as int));
            assert(symbols@.subrange(0, i + 1).last() == symbols@[i as int]);
        }
        i = i + 1;
    }
    proof {
        assert(symbols@.subrange(0, n as int) =~= symbols@);
    }
    out
}

/// Selection sort, largest size first: keeps exactly the same pairs.
fn sort_sizes_desc(v: Vec<(String, u64)>) -> (r: Vec<(String, u64)>)
    ensures
        sorted_desc(r@),
        r@.to_multiset() == v@.to_multiset(),
{
    let mut src = v;
    let ghost orig = src@;
    let mut out: Vec<(String, u64)> = Vec::new();
    while src.len() > 0
        invariant
            out@.to_multiset().add(src@.to_multiset()) == orig.to_multiset(),
            sorted_desc(out@),
            forall|a: int, b: int|
                0 <= a < out@.len() && 0 <= b < src@.len() ==> out@[a].1 >= src@[b].1,
        decreases src.len(),
    {
        let mut mi: usize = 0;
        let mut i: usize = 1;
        while i < src.len()
            invariant
                mi < i <= src@.len(),
                forall|j: int| 0 <= j < i ==> src@[j].1 <= src@[mi as int].1,
            decreases src@.len() - i,
        {
            if src[i].1 > src[mi].1 {
                mi = i;
            }
            i = i + 1;
        }
        let ghost src_before = src@;
        let ghost out_before = out@;
        let e = src.remove(mi);
        out.push(e);
        proof {
            assert(src@.to_multiset() =~= src_before.to_multiset().remove(src_before[mi as int]));
            assert(out@.to_multiset() =~= out_before.to_multiset().insert(e));
            assert(out@.to_multiset().add(src@.to_multiset()) =~= orig.to_multiset());
        }
    }
    out
}

/// Selection sort by ascending address: keeps exactly the same symbols.
fn sort_by_address(v: Vec<SymbolInfo>) -> (r: Vec<SymbolInfo>)
    ensures
        sorted_by_addr(r@),
        r@.to_multiset() == v@.to_multiset(),
{
    let mut src = v;
    let ghost orig = src@;
    let mut out: Vec<SymbolInfo> = Vec::new();
    while src.len() > 0
        invariant
            out@.to_multiset().add(src@.to_multiset()) == orig.to_multiset(),
            sorted_by_addr(out@),
            forall|a: int, b: int|
                0 <= a < out@.len() && 0 <= b < src@.len() ==> out@[a].address
                    <= src@[b].address,
        decreases src.len(),
    {
        let mut mi: usize = 0;
        let mut i: usize = 1;
        while i < src.len()
            invariant
                mi < i <= src@.len(),
                forall|j: int| 0 <= j < i ==> src@[j].address >= src@[mi as int].address,
            decreases src@.len() - i,
        {
            if src[i].address < src[mi].address {
                mi = i;
            }
            i = i + 1;
        }
        let ghost src_before = src@;
        let ghost out_before = out@;
        let e = src.remove(mi);
        out.push(e);
        proof {
            assert(src@.to_multiset() =~= src_before.to_multiset().remove(src_before[mi as int]));
            assert(out@.to_multiset() =~= out_before.to_multiset().insert(e));
            assert(out@.to_multiset().add(src@.to_multiset()) =~= orig.to_multiset());
        }
    }
    out
}

/// The address-delta attribution of an address-sorted line, exactly
/// `spec_deltas`: each pair is a symbol's name with the distance to its
/// successor; the last symbol is dropped.
pub fn delta_sizes(sorted: &Vec<SymbolInfo>) -> (r: Vec<(String, u64)>)
    requires
        sorted_by_addr(sorted@),
    ensures
        r@ == spec_deltas(sorted@),
{
    let n = sorted.len();
    let mut out: Vec<(String, u64)> = Vec::new();
    if n == 0 {
        proof {
            assert(out@ =~= spec_deltas(sorted@));
        }
        return out;
    }
    let mut i: usize = 0;
    while i < n - 1
        invariant
            n == sorted@.len(),
            n > 0,
            i <= n - 1,
            sorted_by_addr(sorted@),
            out@.len() == i,
            forall|j: int|
                0 <= j < i ==> out@[j] == (
                    sorted@[j].name,
                    (sorted@[j + 1].address - sorted@[j].address) as u64,
                ),
        decreases n - i,
    {
        let d = sorted[i + 1].address - sorted[i].address;
        out.push((sorted[i].name.clone(), d));
        i = i + 1;
    }
    proof {
        assert(out@ =~= spec_deltas(sorted@));
    }
    out
}

/// Direct sizing: each in-window symbol keeps its recorded size (zero-size
/// symbols stay, as zero-weight leaves), and the pairs come out sorted by
/// descending size. Exactly the in-window `(name, size)` pairs survive.
pub fn symbol_sizes_in(symbols: &Vec<SymbolInfo>, lo: u64, hi: u64) -> (r: Vec<(String, u64)>)
    ensures
        sorted_desc(r@),
        r@.to_multiset() == spec_recorded_sizes(symbols@, lo, hi).to_multiset(),
{
    let f = filter_recorded(symbols, lo, hi);
    sort_sizes_desc(f)
}

/// Address-delta sizing: the in-window symbols are sorted by ascending
/// address; each gets the distance to its successor as its size, and the
/// highest-addressed symbol is dropped from the output entirely. The pairs
/// come out sorted by descending size. There is an address-sorted
/// arrangement of the in-window symbols whose deltas are exactly the
/// output; when addresses are distinct that arrangement is unique.
pub fn address_delta_sizes(symbols: &Vec<SymbolInfo>, lo: u64, hi: u64) -> (r: Vec<(String, u64)>)
    ensures
        sorted_desc(r@),
        exists|srt: Seq<SymbolInfo>|
            {
                &&& #[trigger] spec_deltas(srt).to_multiset() == r@.to_multiset()
                &&& srt.to_multiset() == spec_in_window(symbols@, lo, hi).to_multiset()
                &&& sorted_by_addr(srt)
            },
{
    let f = filter_in_window(symbols, lo, hi);
    let srt = sort_by_address(f);
    let ghost srt_view = srt@;
    let d = delta_sizes(&srt);
    let r = sort_sizes_desc(d);
    proof {
        assert({
            &&& spec_deltas(srt_view).to_multiset() == r@.to_multiset()
            &&& srt_view.to_multiset() == spec_in_window(symbols@, lo, hi).to_multiset()
            &&& sorted_by_addr(srt_view)
        });
    }
    r
}

} // verus!
