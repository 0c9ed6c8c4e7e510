//! The hierarchical weight aggregator: a shared-prefix tree keyed by path
//! components. Insertion merges common prefixes; a post-order pass then
//! makes every internal node's weight the sum of its children's weights.

use vstd::prelude::*;

use crate::components::spec_symbol_components;
use crate::components::symbol_components;
use crate::demangle::demangled_of;

verus! {

/// One node of the group tree: a weight and the children, keyed by
/// component string. Keys are unique per level and keep insertion order.
#[derive(Debug, PartialEq, Eq)]
pub struct Group {
    pub weight: u64,
    pub children: Groups,
}

/// A forest level: the children of one node, or the roots. Order is the
/// insertion order of first appearance; keys are unique.
#[derive(Debug, PartialEq, Eq)]
pub struct Groups(pub Vec<(String, Group)>);

/// Mathematical form of a group node.
#[verifier::ext_equal]
pub ghost struct SpecGroup {
    pub weight: nat,
    pub children: Seq<(Seq<char>, SpecGroup)>,
}

/// The mathematical value of a `Group`.
pub open spec fn group_view(g: Group) -> SpecGroup
    decreases g,
{
    SpecGroup { weight: g.weight as nat, children: forest_view(g.children.0@) }
}

/// The mathematical values of one forest level, elementwise.
pub open spec fn forest_view(v: Seq<(String, Group)>) -> Seq<(Seq<char>, SpecGroup)>
    decreases v,
{
    if v.len() == 0 {
        Seq::empty()
    } else {
        forest_view(v.subrange(0, v.len() - 1)).push(
            (v[v.len() - 1].0@, group_view(v[v.len() - 1].1)),
        )
    }
}

/// The mathematical value of a `Groups`.
pub open spec fn groups_view(gs: Groups) -> Seq<(Seq<char>, SpecGroup)> {
    forest_view(gs.0@)
}

pub proof fn lemma_forest_view(v: Seq<(String, Group)>)
    ensures
        forest_view(v).len() == v.len(),
        forall|i: int|
            0 <= i < v.len() ==> forest_view(v)[i] == (v[i].0@, group_view(v[i].1)),
    decreases v.len(),
{
    if v.len() > 0 {
        lemma_forest_view(v.subrange(0, v.len() - 1));
    }
}

/// The first position holding key `k`, or `cs.len()` if no entry does.
pub open spec fn find_key(cs: Seq<(Seq<char>, SpecGroup)>, k: Seq<char>) -> int
    decreases cs.len(),
{
    if cs.len() == 0 {
        0
    } else if cs[0].0 == k {
        0
    } else {
        1 + find_key(cs.drop_first(), k)
    }
}

pub proof fn lemma_find_key_props(cs: Seq<(Seq<char>, SpecGroup)>, k: Seq<char>)
    ensures
        0 <= find_key(cs, k) <= cs.len(),
        find_key(cs, k) < cs.len() ==> cs[find_key(cs, k)].0 == k,
    decreases cs.len(),
{
    if cs.len() > 0 && cs[0].0 != k {
        lemma_find_key_props(cs.drop_first(), k);
    }
}

pub proof fn lemma_find_key_is(cs: Seq<(Seq<char>, SpecGroup)>, k: Seq<char>, f: int)
    requires
        0 <= f <= cs.len(),
        forall|j: int| 0 <= j < f ==> cs[j].0 != k,
        f < cs.len() ==> cs[f].0 == k,
    ensures
        find_key(cs, k) == f,
    decreases cs.len(),
{
    if cs.len() > 0 && cs[0].0 != k {
        lemma_find_key_is(cs.drop_first(), k, f - 1);
    }
}

/// Insertion of one `(component list, size)` pair: walk the components,
/// looking up or creating a child keyed by each component in turn, and
/// write `size` into the weight of every node on the walk (a placeholder
/// for nodes that turn out to have children; propagation corrects those).
pub open spec fn spec_add(
    cs: Seq<(Seq<char>, SpecGroup)>,
    comps: Seq<Seq<char>>,
    size: nat,
) -> Seq<(Seq<char>, SpecGroup)>
    decreases comps.len(),
{
    if comps.len() == 0 {
        cs
    } else {
        let k = comps[0];
        let f = find_key(cs, k);
        if 0 <= f < cs.len() {
            cs.update(
                f,
                (
                    k,
                    SpecGroup {
                        weight: size,
                        children: spec_add(cs[f].1.children, comps.drop_first(), size),
                    },
                ),
            )
        } else {
            cs.push(
                (
                    k,
                    SpecGroup {
                        weight: size,
                        children: spec_add(Seq::empty(), comps.drop_first(), size),
                    },
                ),
            )
        }
    }
}

fn find_child(gs: &Vec<(String, Group)>, key: &String) -> (r: Option<usize>)
    ensures
        match r {
            Some(i) => i < gs@.len() && find_key(forest_view(gs@), key@) == i as int,
            None => find_key(forest_view(gs@), key@) == gs@.len() as int,
        },
{
    let n = gs.len();
    let mut i: usize = 0;
    while i < n
        invariant
            i <= n == gs@.len(),
            forall|j: int| 0 <= j < i ==> gs@[j].0@ != key@,
        decreases n - i,
    {
        if gs[i].0 == *key {
            proof {
                lemma_forest_view(gs@);
                lemma_find_key_is(forest_view(gs@), key@, i as int);
            }
            return Some(i);
        }
        i = i + 1;
    }
    proof {
        lemma_forest_view(gs@);
        lemma_find_key_is(forest_view(gs@), key@, n as int);
    }
    None
}

fn add_rec(cur_groups: &mut Groups, components: &Vec<String>, pos: usize, sym_size: u64)
    requires
        pos <= components@.len(),
    ensures
        groups_view(*final(cur_groups)) == spec_add(
            groups_view(*old(cur_groups)),
            components.deep_view().skip(pos as int),
            sym_size as nat,
        ),
    decreases components@.len() - pos,
{
    if pos >= components.len() {
        return ;
    }
    let ghost old_view = forest_view(cur_groups.0@);
    let ghost comps = components.deep_view().skip(pos as int);
    proof {
        assert(comps[0] == components.deep_view()[pos as int]);
        assert(comps.drop_first() =~= components.deep_view().skip(pos as int + 1));
    }
    match find_child(&cur_groups.0, &components[pos]) {
        Some(i) => {
            let ghost pre = cur_groups.0@;
            let (k, mut g) = cur_groups.0.remove(i);
            g.weight = sym_size;
            add_rec(&mut g.children, components, pos + 1, sym_size);
            cur_groups.0.insert(i, (k, g));
            proof {
                lemma_forest_view(pre);
                lemma_forest_view(cur_groups.0@);
                lemma_find_key_props(old_view, comps[0]);
                assert(cur_groups.0@ =~= pre.update(i as int, cur_groups.0@[i as int]));
                assert(cur_groups.0@[i as int].0@ == old_view[i as int].0);
                assert(forest_view(cur_groups.0@) =~= old_view.update(
                    i as int,
                    (
                        comps[0],
                        SpecGroup {
                            weight: sym_size as nat,
                            children: spec_add(
                                old_view[i as int].1.children,
                                comps.drop_first(),
                                sym_size as nat,
                            ),
                        },
                    ),
                ));
            }
        },
        None => {
            let key = components[pos].clone();
            let mut g = Group { weight: sym_size, children: Groups(Vec::new()) };
            add_rec(&mut g.children, components, pos + 1, sym_size);
            let ghost pre = cur_groups.0@;
            cur_groups.0.push((key, g));
            proof {
                lemma_forest_view(pre);
                lemma_forest_view(cur_groups.0@);
                assert(forest_view(cur_groups.0@) =~= old_view.push(
                    (
                        comps[0],
                        SpecGroup {
                            weight: sym_size as nat,
                            children: spec_add(Seq::empty(), comps.drop_first(), sym_size as nat),
                        },
                    ),
                ));
            }
        },
    }
}

/// The sum of the ultimate leaf weights beneath a node: the node's own
/// weight if it is a leaf, else the sum over its children.
pub open spec fn leaf_sum(g: SpecGroup) -> nat
    decreases g,
{
    if g.children.len() == 0 {
        g.weight
    } else {
        forest_leaf_sum(g.children)
    }
}

/// The sum of the leaf weights beneath every node of one forest level.
pub open spec fn forest_leaf_sum(cs: Seq<(Seq<char>, SpecGroup)>) -> nat
    decreases cs,
{
    if cs.len() == 0 {
        0
    } else {
        leaf_sum(cs[0].1) + forest_leaf_sum(cs.drop_first())
    }
}

pub proof fn lemma_forest_leaf_sum_split(cs: Seq<(Seq<char>, SpecGroup)>, i: int)
    requires
        0 <= i <= cs.len(),
    ensures
        forest_leaf_sum(cs) == forest_leaf_sum(cs.subrange(0, i)) + forest_leaf_sum(
            cs.subrange(i, cs.len() as int),
        ),
    decreases cs.len(),
{
    if i == 0 {
        assert(cs.subrange(0, 0) =~= Seq::empty());
        assert(cs.subrange(0, cs.len() as int) =~= cs);
    } else {
        lemma_forest_leaf_sum_split(cs.drop_first(), i - 1);
        assert(cs.subrange(0, i).drop_first() =~= cs.drop_first().subrange(0, i - 1));
        assert(cs.subrange(i, cs.len() as int) =~= cs.drop_first().subrange(
            i - 1,
            cs.drop_first().len() as int,
        ));
        assert(cs.subrange(0, i)[0] == cs[0]);
    }
}

pub proof fn lemma_child_leaf_sum_le(cs: Seq<(Seq<char>, SpecGroup)>, i: int)
    requires
        0 <= i < cs.len(),
    ensures
        leaf_sum(cs[i].1) <= forest_leaf_sum(cs),
{
    lemma_forest_leaf_sum_split(cs, i);
    assert(cs.subrange(i, cs.len() as int)[0] == cs[i]);
    assert(forest_leaf_sum(cs.subrange(i, cs.len() as int)) == leaf_sum(cs[i].1)
        + forest_leaf_sum(cs.subrange(i, cs.len() as int).drop_first()));
}

/// The tree after the bottom-up correction pass: every node that has
/// children takes the sum of the leaf weights beneath it as its weight;
/// leaves keep their weight.
pub open spec fn spec_propagate(g: SpecGroup) -> SpecGroup
    decreases g,
{
    if g.children.len() == 0 {
        g
    } else {
        SpecGroup { weight: forest_leaf_sum(g.children), children: propagate_forest(g.children) }
    }
}

pub open spec fn propagate_forest(cs: Seq<(Seq<char>, SpecGroup)>) -> Seq<(Seq<char>, SpecGroup)>
    decreases cs,
{
    if cs.len() == 0 {
        Seq::empty()
    } else {
        seq![(cs[0].0, spec_propagate(cs[0].1))] + propagate_forest(cs.drop_first())
    }
}

pub proof fn lemma_propagate_forest_index(cs: Seq<(Seq<char>, SpecGroup)>)
    ensures
        propagate_forest(cs).len() == cs.len(),
        forall|i: int|
            0 <= i < cs.len() ==> propagate_forest(cs)[i] == (
                cs[i].0,
                spec_propagate(cs[i].1),
            ),
    decreases cs.len(),
{
    if cs.len() > 0 {
        lemma_propagate_forest_index(cs.drop_first());
        assert forall|i: int| 0 <= i < cs.len() implies propagate_forest(cs)[i] == (
            cs[i].0,
            spec_propagate(cs[i].1),
        ) by {
            if i > 0 {
                assert(propagate_forest(cs)[i] == propagate_forest(cs.drop_first())[i - 1]);
                assert(cs.drop_first()[i - 1] == cs[i]);
            }
        }
    }
}

/// Correcting a node's weight does not change the leaf weights beneath it.
pub proof fn lemma_propagate_leaf_sum(g: SpecGroup)
    ensures
        leaf_sum(spec_propagate(g)) == leaf_sum(g),
        spec_propagate(g).weight == leaf_sum(g),
    decreases g,
{
    if g.children.len() > 0 {
        lemma_propagate_forest_leaf_sum(g.children);
        assert(spec_propagate(g).children.len() == g.children.len()) by {
            lemma_propagate_forest_index(g.children);
        }
    }
}

pub proof fn lemma_propagate_forest_leaf_sum(cs: Seq<(Seq<char>, SpecGroup)>)
    ensures
        forest_leaf_sum(propagate_forest(cs)) == forest_leaf_sum(cs),
    decreases cs,
{
    if cs.len() > 0 {
        lemma_propagate_leaf_sum(cs[0].1);
        lemma_propagate_forest_leaf_sum(cs.drop_first());
        assert(propagate_forest(cs).drop_first() =~= propagate_forest(cs.drop_first()));
        assert(propagate_forest(cs)[0] == (cs[0].0, spec_propagate(cs[0].1)));
    }
}

/// Make every node's weight the sum of the leaf weights beneath it, by a
/// post-order pass; a node without children keeps its weight, which is the
/// returned total. Exactly `spec_propagate`.
pub fn propagate_weight(group: &mut Group) -> (total: u64)
    requires
        leaf_sum(group_view(*old(group))) <= u64::MAX,
    ensures
        group_view(*final(group)) == spec_propagate(group_view(*old(group))),
        total as nat == leaf_sum(group_view(*old(group))),
    decreases *old(group),
{
    let ghost old_g = group_view(*old(group));
    let n = group.children.0.len();
    if n == 0 {
        return group.weight;
    }
    let ghost old_children = group.children.0@;
    proof {
        lemma_forest_view(old_children);
    }
    let mut total: u64 = 0;
    let mut i: usize = 0;
    while i < n
        invariant
            i <= n == group.children.0@.len(),
            n == old_children.len(),
            n > 0,
            group.weight == old(group).weight,
            old_g == group_view(*old(group)),
            old(group).children.0@ == old_children,
            old_g.children == forest_view(old_children),
            forest_view(old_children).len() == n,
            leaf_sum(old_g) <= u64::MAX,
            forall|j: int| i <= j < n ==> group.children.0@[j] == old_children[j],
            forall|j: int|
                0 <= j < i ==> group.children.0@[j].0 == old_children[j].0 && group_view(
                    group.children.0@[j].1,
                ) == spec_propagate(group_view(old_children[j].1)),
            total as nat == forest_leaf_sum(forest_view(old_children).subrange(0, i as int)),
        decreases n - i,
    {
        proof {
            lemma_forest_view(old_children);
        }
        let ghost pre = group.children.0@;
        let (k, mut child) = group.children.0.remove(i);
        proof {
            assert(child == old_children[i as int].1);
            lemma_child_leaf_sum_le(forest_view(old_children), i as int);
            assert(forest_view(old_children)[i as int].1 == group_view(child));
            assert(forest_leaf_sum(forest_view(old_children)) == leaf_sum(old_g));
            assert(decreases_to!(*old(group) => old(group).children.0@));
            assert(decreases_to!(old(group).children.0@ => old(group).children.0@[i as int].1));
            assert(decreases_to!(*old(group) => child));
        }
        let w = propagate_weight(&mut child);
        group.children.0.insert(i, (k, child));
        proof {
            assert(group.children.0@ =~= pre.update(i as int, group.children.0@[i as int]));
            lemma_forest_leaf_sum_split(forest_view(old_children), i as int);
            lemma_forest_leaf_sum_split(forest_view(old_children), i + 1);
            assert(forest_view(old_children).subrange(0, i + 1).drop_last() =~= forest_view(
                old_children,
            ).subrange(0, i as int));
            assert(forest_leaf_sum(forest_view(old_children).subrange(0, i + 1))
                == forest_leaf_sum(forest_view(old_children).subrange(0, i as int)) + leaf_sum(
                forest_view(old_children)[i as int].1,
            )) by {
                lemma_forest_leaf_sum_snoc(forest_view(old_children).subrange(0, i + 1));
            }
        }
        total = total + w;
        i = i + 1;
    }
    group.weight = total;
    proof {
        assert(forest_view(old_children).subrange(0, n as int) =~= forest_view(old_children));
        lemma_forest_view(group.children.0@);
        lemma_propagate_forest_index(forest_view(old_children));
        assert(forest_view(group.children.0@) =~= propagate_forest(forest_view(old_children)));
    }
    total
}

pub proof fn lemma_forest_leaf_sum_snoc(cs: Seq<(Seq<char>, SpecGroup)>)
    requires
        cs.len() > 0,
    ensures
        forest_leaf_sum(cs) == forest_leaf_sum(cs.drop_last()) + leaf_sum(cs[cs.len() - 1].1),
    decreases cs.len(),
{
    if cs.len() == 1 {
        assert(cs.drop_last() =~= Seq::empty());
        assert(cs.drop_first() =~= Seq::empty());
    } else {
        lemma_forest_leaf_sum_snoc(cs.drop_first());
        assert(cs.drop_last().drop_first() =~= cs.drop_first().drop_last());
        assert(cs.drop_first()[cs.drop_first().len() - 1] == cs[cs.len() - 1]);
        assert(cs.drop_last()[0] == cs[0]);
    }
}

/// Well-formedness of a forest: keys are unique at every level, all the
/// way down.
pub open spec fn forest_wf(cs: Seq<(Seq<char>, SpecGroup)>) -> bool
    decreases cs,
{
    if cs.len() == 0 {
        true
    } else {
        (forall|j: int| 1 <= j < cs.len() ==> (#[trigger] cs[j]).0 != cs[0].0) && forest_wf(
            cs[0].1.children,
        )
            && forest_wf(cs.drop_first())
    }
}

pub proof fn lemma_forest_wf_char(cs: Seq<(Seq<char>, SpecGroup)>)
    ensures
        forest_wf(cs) <==> ((forall|i: int, j: int|
            0 <= i < j < cs.len() ==> cs[i].0 != cs[j].0) && (forall|i: int|
            0 <= i < cs.len() ==> forest_wf(cs[i].1.children))),
    decreases cs.len(),
{
    if cs.len() > 0 {
        let d = cs.drop_first();
        lemma_forest_wf_char(d);
        assert(forall|i: int| 0 <= i < d.len() ==> d[i] == cs[i + 1]);
        if forest_wf(cs) {
            assert forall|i: int, j: int| 0 <= i < j < cs.len() implies cs[i].0 != cs[j].0 by {
                if i > 0 {
                    assert(d[i - 1] == cs[i]);
                    assert(d[j - 1] == cs[j]);
                }
            }
            assert forall|i: int| 0 <= i < cs.len() implies forest_wf(cs[i].1.children) by {
                if i > 0 {
                    assert(d[i - 1] == cs[i]);
                }
            }
        }
        if (forall|i: int, j: int| 0 <= i < j < cs.len() ==> cs[i].0 != cs[j].0) && (forall|
            i: int,
        |
            0 <= i < cs.len() ==> forest_wf(cs[i].1.children)) {
            assert forall|i: int, j: int| 0 <= i < j < d.len() implies d[i].0 != d[j].0 by {
                assert(d[i] == cs[i + 1]);
                assert(d[j] == cs[j + 1]);
            }
            assert forall|i: int| 0 <= i < d.len() implies forest_wf(d[i].1.children) by {
                assert(d[i] == cs[i + 1]);
            }
            assert(forest_wf(d));
            assert(forest_wf(cs));
        }
    }
}

pub proof fn lemma_find_key_all_ne(cs: Seq<(Seq<char>, SpecGroup)>, k: Seq<char>)
    requires
        find_key(cs, k) == cs.len(),
    ensures
        forall|j: int| 0 <= j < cs.len() ==> cs[j].0 != k,
    decreases cs.len(),
{
    if cs.len() > 0 {
        lemma_find_key_props(cs.drop_first(), k);
        lemma_find_key_all_ne(cs.drop_first(), k);
        assert(forall|j: int| 1 <= j < cs.len() ==> cs[j] == cs.drop_first()[j - 1]);
    }
}

/// Insertion keeps the forest well formed: it reuses an existing key where
/// one matches and adds at most one fresh key per level.
pub proof fn lemma_add_preserves_wf(
    cs: Seq<(Seq<char>, SpecGroup)>,
    comps: Seq<Seq<char>>,
    size: nat,
)
    requires
        forest_wf(cs),
    ensures
        forest_wf(spec_add(cs, comps, size)),
    decreases comps.len(),
{
    if comps.len() > 0 {
        let k = comps[0];
        let f = find_key(cs, k);
        lemma_find_key_props(cs, k);
        lemma_forest_wf_char(cs);
        let res = spec_add(cs, comps, size);
        if 0 <= f < cs.len() {
            lemma_add_preserves_wf(cs[f].1.children, comps.drop_first(), size);
            lemma_forest_wf_char(res);
            assert(forall|i: int| 0 <= i < cs.len() && i != f ==> res[i] == cs[i]);
            assert(res[f].0 == cs[f].0);
        } else {
            lemma_find_key_all_ne(cs, k);
            lemma_add_preserves_wf(Seq::empty(), comps.drop_first(), size);
            lemma_forest_wf_char(res);
            assert(forall|i: int| 0 <= i < cs.len() ==> res[i] == cs[i]);
        }
    }
}

/// Propagation keeps the forest well formed: it changes no key anywhere.
pub proof fn lemma_propagate_forest_wf(cs: Seq<(Seq<char>, SpecGroup)>)
    requires
        forest_wf(cs),
    ensures
        forest_wf(propagate_forest(cs)),
    decreases cs,
{
    lemma_forest_wf_char(cs);
    lemma_propagate_forest_index(cs);
    let res = propagate_forest(cs);
    assert forall|i: int| 0 <= i < res.len() implies forest_wf(res[i].1.children) by {
        lemma_propagate_node_wf(cs[i].1);
    }
    lemma_forest_wf_char(res);
}

pub proof fn lemma_propagate_node_wf(g: SpecGroup)
    requires
        forest_wf(g.children),
    ensures
        forest_wf(spec_propagate(g).children),
    decreases g,
{
    if g.children.len() > 0 {
        lemma_propagate_forest_wf(g.children);
    }
}

/// Every node's weight equals the sum of the ultimate leaf weights beneath
/// it (a leaf's weight being its own).
pub open spec fn fully_propagated(g: SpecGroup) -> bool
    decreases g,
{
    &&& (g.children.len() > 0 ==> g.weight == forest_leaf_sum(g.children))
    &&& forest_fully_propagated(g.children)
}

pub open spec fn forest_fully_propagated(cs: Seq<(Seq<char>, SpecGroup)>) -> bool
    decreases cs,
{
    cs.len() == 0 || (fully_propagated(cs[0].1) && forest_fully_propagated(cs.drop_first()))
}

/// One propagation pass leaves every node, at every depth, with a weight
/// equal to the sum of all ultimate leaf weights beneath it — whatever
/// placeholder weights insertion had left on internal nodes.
pub proof fn lemma_propagate_fully(g: SpecGroup)
    ensures
        fully_propagated(spec_propagate(g)),
    decreases g,
{
    if g.children.len() > 0 {
        lemma_propagate_forest_fully(g.children);
        lemma_propagate_forest_leaf_sum(g.children);
        lemma_propagate_forest_index(g.children);
    }
}

pub proof fn lemma_propagate_forest_fully(cs: Seq<(Seq<char>, SpecGroup)>)
    ensures
        forest_fully_propagated(propagate_forest(cs)),
    decreases cs,
{
    if cs.len() > 0 {
        lemma_propagate_fully(cs[0].1);
        lemma_propagate_forest_fully(cs.drop_first());
        assert(propagate_forest(cs)[0] == (cs[0].0, spec_propagate(cs[0].1)));
        assert(propagate_forest(cs).drop_first() =~= propagate_forest(cs.drop_first()));
    }
}

/// A tree in which every weight already is the leaf sum beneath it is a
/// fixed point of propagation.
pub proof fn lemma_propagate_fixed_point(g: SpecGroup)
    requires
        fully_propagated(g),
    ensures
        spec_propagate(g) == g,
    decreases g,
{
    if g.children.len() > 0 {
        lemma_propagate_forest_fixed_point(g.children);
    }
}

pub proof fn lemma_propagate_forest_fixed_point(cs: Seq<(Seq<char>, SpecGroup)>)
    requires
        forest_fully_propagated(cs),
    ensures
        propagate_forest(cs) == cs,
    decreases cs,
{
    if cs.len() > 0 {
        lemma_propagate_fixed_point(cs[0].1);
        lemma_propagate_forest_fixed_point(cs.drop_first());
        assert(propagate_forest(cs) =~= cs) by {
            assert(propagate_forest(cs)[0] == (cs[0].0, spec_propagate(cs[0].1)));
            assert((cs[0].0, cs[0].1) == cs[0]);
        }
    }
}

/// The sum of the weights carried by the nodes of one forest level.
pub open spec fn forest_weight_sum(cs: Seq<(Seq<char>, SpecGroup)>) -> nat
    decreases cs,
{
    if cs.len() == 0 {
        0
    } else {
        cs[0].1.weight + forest_weight_sum(cs.drop_first())
    }
}

/// In a fully propagated tree the leaf sum of a level is just the sum of
/// the weights its nodes carry.
pub proof fn lemma_leaf_sum_is_weight_sum(cs: Seq<(Seq<char>, SpecGroup)>)
    requires
        forest_fully_propagated(cs),
    ensures
        forest_leaf_sum(cs) == forest_weight_sum(cs),
    decreases cs,
{
    if cs.len() > 0 {
        lemma_leaf_sum_is_weight_sum(cs.drop_first());
        assert(fully_propagated(cs[0].1));
        assert(leaf_sum(cs[0].1) == cs[0].1.weight);
    }
}

/// After propagation, every non-leaf node's weight equals the sum of its
/// children's weights, and every leaf keeps the size written at it.
pub proof fn lemma_fully_propagated_children_sum(g: SpecGroup)
    requires
        fully_propagated(g),
        g.children.len() > 0,
    ensures
        g.weight == forest_weight_sum(g.children),
{
    lemma_leaf_sum_is_weight_sum(g.children);
}

/// Weight propagation is idempotent: running the pass a second time
/// changes nothing.
pub proof fn lemma_propagate_idempotent(g: SpecGroup)
    ensures
        spec_propagate(spec_propagate(g)) == spec_propagate(g),
{
    lemma_propagate_fully(g);
    lemma_propagate_fixed_point(spec_propagate(g));
}

pub proof fn lemma_forest_leaf_sum_update(
    cs: Seq<(Seq<char>, SpecGroup)>,
    f: int,
    e: (Seq<char>, SpecGroup),
)
    requires
        0 <= f < cs.len(),
    ensures
        forest_leaf_sum(cs.update(f, e)) + leaf_sum(cs[f].1) == forest_leaf_sum(cs) + leaf_sum(
            e.1,
        ),
    decreases cs.len(),
{
    if f == 0 {
        assert(cs.update(0, e).drop_first() =~= cs.drop_first());
        assert(cs.update(0, e)[0] == e);
    } else {
        lemma_forest_leaf_sum_update(cs.drop_first(), f - 1, e);
        assert(cs.update(f, e).drop_first() =~= cs.drop_first().update(f - 1, e));
        assert(cs.update(f, e)[0] == cs[0]);
        assert(cs.drop_first()[f - 1] == cs[f]);
    }
}

/// One insertion raises the total of the leaf weights by at most the
/// inserted size: the terminal node of the walk is the only leaf the
/// insertion can have (over)written or created.
pub proof fn lemma_add_leaf_sum(cs: Seq<(Seq<char>, SpecGroup)>, comps: Seq<Seq<char>>, size: nat)
    ensures
        forest_leaf_sum(spec_add(cs, comps, size)) <= forest_leaf_sum(cs) + size,
    decreases comps.len(),
{
    if comps.len() > 0 {
        let k = comps[0];
        let f = find_key(cs, k);
        lemma_find_key_props(cs, k);
        if 0 <= f < cs.len() {
            let oldnode = cs[f].1;
            let newchildren = spec_add(oldnode.children, comps.drop_first(), size);
            lemma_add_leaf_sum(oldnode.children, comps.drop_first(), size);
            let newnode = SpecGroup { weight: size, children: newchildren };
            assert(leaf_sum(newnode) <= leaf_sum(oldnode) + size);
            lemma_forest_leaf_sum_update(cs, f, (k, newnode));
        } else {
            let newnode = SpecGroup {
                weight: size,
                children: spec_add(Seq::empty(), comps.drop_first(), size),
            };
            lemma_add_leaf_sum(Seq::empty(), comps.drop_first(), size);
            assert(leaf_sum(newnode) <= size);
            let pushed = cs.push((k, newnode));
            lemma_forest_leaf_sum_snoc(pushed);
            assert(pushed.drop_last() =~= cs);
        }
    }
}

proof fn lemma_find_key_same_keys(
    cs: Seq<(Seq<char>, SpecGroup)>,
    ds: Seq<(Seq<char>, SpecGroup)>,
    k: Seq<char>,
)
    requires
        cs.len() == ds.len(),
        forall|i: int| 0 <= i < cs.len() ==> cs[i].0 == ds[i].0,
    ensures
        find_key(cs, k) == find_key(ds, k),
    decreases cs.len(),
{
    if cs.len() > 0 && cs[0].0 != k {
        assert(forall|i: int|
            0 <= i < cs.drop_first().len() ==> cs.drop_first()[i] == cs[i + 1] && ds.drop_first()[
                i
            ] == ds[i + 1]);
        lemma_find_key_same_keys(cs.drop_first(), ds.drop_first(), k);
    }
}

/// Two insertions whose first components are distinct keys already present
/// at the top level commute exactly: their walks touch disjoint subtrees,
/// so either order yields the very same tree. (When a first component is
/// new, the two orders differ only in which key is appended first.)
pub proof fn lemma_add_commutes(
    cs: Seq<(Seq<char>, SpecGroup)>,
    c1: Seq<Seq<char>>,
    s1: nat,
    c2: Seq<Seq<char>>,
    s2: nat,
)
    requires
        c1.len() > 0,
        c2.len() > 0,
        c1[0] != c2[0],
        find_key(cs, c1[0]) < cs.len(),
        find_key(cs, c2[0]) < cs.len(),
    ensures
        spec_add(spec_add(cs, c1, s1), c2, s2) == spec_add(spec_add(cs, c2, s2), c1, s1),
{
    let f1 = find_key(cs, c1[0]);
    let f2 = find_key(cs, c2[0]);
    lemma_find_key_props(cs, c1[0]);
    lemma_find_key_props(cs, c2[0]);
    assert(f1 != f2);
    let e1 = (
        c1[0],
        SpecGroup { weight: s1, children: spec_add(cs[f1].1.children, c1.drop_first(), s1) },
    );
    let e2 = (
        c2[0],
        SpecGroup { weight: s2, children: spec_add(cs[f2].1.children, c2.drop_first(), s2) },
    );
    let a1 = cs.update(f1, e1);
    assert(spec_add(cs, c1, s1) == a1);
    lemma_find_key_same_keys(cs, a1, c2[0]);
    assert(a1[f2].1 == cs[f2].1);
    assert(spec_add(a1, c2, s2) == a1.update(f2, e2));
    let a2 = cs.update(f2, e2);
    assert(spec_add(cs, c2, s2) == a2);
    lemma_find_key_same_keys(cs, a2, c1[0]);
    assert(a2[f1].1 == cs[f1].1);
    assert(spec_add(a2, c1, s1) == a2.update(f1, e1));
    assert(a1.update(f2, e2) =~= a2.update(f1, e1));
}

proof fn lemma_find_key_push(cs: Seq<(Seq<char>, SpecGroup)>, e: (Seq<char>, SpecGroup), k: Seq<char>)
    ensures
        find_key(cs.push(e), k) == (if find_key(cs, k) < cs.len() {
            find_key(cs, k)
        } else if e.0 == k {
            cs.len() as int
        } else {
            cs.len() + 1int
        }),
    decreases cs.len(),
{
    lemma_find_key_props(cs, k);
    if cs.len() == 0 {
        assert(cs.push(e)[0] == e);
        assert(cs.push(e).drop_first() =~= Seq::<(Seq<char>, SpecGroup)>::empty());
        if e.0 != k {
            assert(find_key(cs.push(e), k) == 1 + find_key(cs.push(e).drop_first(), k));
        }
    } else {
        assert(cs.push(e)[0] == cs[0]);
        assert(cs.push(e).drop_first() =~= cs.drop_first().push(e));
        lemma_find_key_push(cs.drop_first(), e, k);
        if cs[0].0 != k {
            lemma_find_key_props(cs.drop_first(), k);
            assert(find_key(cs, k) == 1 + find_key(cs.drop_first(), k));
            assert(find_key(cs.push(e), k) == 1 + find_key(cs.drop_first().push(e), k));
        }
    }
}

/// Two insertions with distinct first components always commute up to the
/// order of the root entries: the same keys carry the very same subtrees
/// either way, and only when both keys are new does the order decide which
/// is appended first.
pub proof fn lemma_add_commutes_multiset(
    cs: Seq<(Seq<char>, SpecGroup)>,
    c1: Seq<Seq<char>>,
    s1: nat,
    c2: Seq<Seq<char>>,
    s2: nat,
)
    requires
        c1.len() > 0,
        c2.len() > 0,
        c1[0] != c2[0],
    ensures
        spec_add(spec_add(cs, c1, s1), c2, s2).to_multiset() == spec_add(
            spec_add(cs, c2, s2),
            c1,
            s1,
        ).to_multiset(),
{
    broadcast use vstd::seq_lib::group_to_multiset_ensures;

    let f1 = find_key(cs, c1[0]);
    let f2 = find_key(cs, c2[0]);
    lemma_find_key_props(cs, c1[0]);
    lemma_find_key_props(cs, c2[0]);
    if f1 < cs.len() && f2 < cs.len() {
        lemma_add_commutes(cs, c1, s1, c2, s2);
    } else if f1 < cs.len() {
        lemma_add_commutes_one_new(cs, c1, s1, c2, s2);
    } else if f2 < cs.len() {
        lemma_add_commutes_one_new(cs, c2, s2, c1, s1);
    } else {
        let e1 = (
            c1[0],
            SpecGroup { weight: s1, children: spec_add(Seq::empty(), c1.drop_first(), s1) },
        );
        let e2 = (
            c2[0],
            SpecGroup { weight: s2, children: spec_add(Seq::empty(), c2.drop_first(), s2) },
        );
        assert(spec_add(cs, c1, s1) == cs.push(e1));
        lemma_find_key_push(cs, e1, c2[0]);
        assert(spec_add(cs.push(e1), c2, s2) == cs.push(e1).push(e2));
        assert(spec_add(cs, c2, s2) == cs.push(e2));
        lemma_find_key_push(cs, e2, c1[0]);
        assert(spec_add(cs.push(e2), c1, s1) == cs.push(e2).push(e1));
        assert(cs.push(e1).push(e2).to_multiset() =~= cs.push(e2).push(e1).to_multiset());
    }
}

/// The case where `c1`'s first component is an existing key and `c2`'s is
/// new: the update and the append commute exactly.
proof fn lemma_add_commutes_one_new(
    cs: Seq<(Seq<char>, SpecGroup)>,
    c1: Seq<Seq<char>>,
    s1: nat,
    c2: Seq<Seq<char>>,
    s2: nat,
)
    requires
        c1.len() > 0,
        c2.len() > 0,
        c1[0] != c2[0],
        find_key(cs, c1[0]) < cs.len(),
        find_key(cs, c2[0]) == cs.len(),
    ensures
        spec_add(spec_add(cs, c1, s1), c2, s2) == spec_add(spec_add(cs, c2, s2), c1, s1),
{
    let f1 = find_key(cs, c1[0]);
    lemma_find_key_props(cs, c1[0]);
    let e1 = (
        c1[0],
        SpecGroup { weight: s1, children: spec_add(cs[f1].1.children, c1.drop_first(), s1) },
    );
    let e2 = (
        c2[0],
        SpecGroup { weight: s2, children: spec_add(Seq::empty(), c2.drop_first(), s2) },
    );
    let a1 = cs.update(f1, e1);
    assert(spec_add(cs, c1, s1) == a1);
    lemma_find_key_same_keys(cs, a1, c2[0]);
    assert(spec_add(a1, c2, s2) == a1.push(e2));
    let a2 = cs.push(e2);
    assert(spec_add(cs, c2, s2) == a2);
    lemma_find_key_push(cs, e2, c1[0]);
    assert(a2[f1].1 == cs[f1].1);
    assert(spec_add(a2, c1, s1) == a2.update(f1, e1));
    assert(a1.push(e2) =~= a2.update(f1, e1));
}

/// The sum of the recorded sizes of a symbol list.
pub open spec fn total_size(syms: Seq<(String, u64)>) -> nat
    decreases syms.len(),
{
    if syms.len() == 0 {
        0
    } else {
        syms[0].1 as nat + total_size(syms.drop_first())
    }
}

/// Insert one decomposed symbol into the tree: look up or create a child
/// for each component in order, writing `sym_size` into every node on the
/// walk, exactly as `spec_add` defines.
pub fn add_to_group(cur_groups: &mut Groups, components: Vec<String>, sym_size: u64)
    ensures
        groups_view(*final(cur_groups)) == spec_add(
            groups_view(*old(cur_groups)),
            components.deep_view(),
            sym_size as nat,
        ),
        forest_wf(groups_view(*old(cur_groups))) ==> forest_wf(groups_view(*final(cur_groups))),
{
    proof {
        assert(components.deep_view().skip(0) =~= components.deep_view());
        if forest_wf(groups_view(*cur_groups)) {
            lemma_add_preserves_wf(
                groups_view(*cur_groups),
                components.deep_view(),
                sym_size as nat,
            );
        }
    }
    add_rec(cur_groups, &components, 0, sym_size);
}

/// The forest obtained by inserting every symbol of `syms`, in order, into
/// `cs`: each symbol's raw name is demangled and decomposed, and its size
/// inserted along the resulting component path.
pub open spec fn spec_insert_all(
    cs: Seq<(Seq<char>, SpecGroup)>,
    syms: Seq<(String, u64)>,
) -> Seq<(Seq<char>, SpecGroup)>
    decreases syms.len(),
{
    if syms.len() == 0 {
        cs
    } else {
        spec_insert_all(
            spec_add(cs, spec_symbol_components(demangled_of(syms[0].0@)), syms[0].1 as nat),
            syms.drop_first(),
        )
    }
}

/// Build the whole group tree from a `(raw symbol name, size)` list: insert
/// every symbol's decomposed path with its size, then run the weight
/// propagation pass over each root. The result is exactly
/// `propagate_forest(spec_insert_all(empty, symbol_sizes))`: every node's
/// weight is the sum of the leaf weights beneath it.
pub fn analyze_sym_modules(symbol_sizes: Vec<(String, u64)>) -> (roots: Groups)
    requires
        total_size(symbol_sizes@) <= u64::MAX,
    ensures
        groups_view(roots) == propagate_forest(
            spec_insert_all(Seq::empty(), symbol_sizes@),
        ),
        forest_wf(groups_view(roots)),
{
    let mut roots = Groups(Vec::new());
    let n = symbol_sizes.len();
    let mut i: usize = 0;
    proof {
        assert(symbol_sizes@.skip(0) =~= symbol_sizes@);
    }
    while i < n
        invariant
            i <= n == symbol_sizes@.len(),
            total_size(symbol_sizes@) <= u64::MAX,
            spec_insert_all(forest_view(roots.0@), symbol_sizes@.skip(i as int))
                == spec_insert_all(Seq::empty(), symbol_sizes@),
            forest_leaf_sum(forest_view(roots.0@)) + total_size(symbol_sizes@.skip(i as int))
                <= u64::MAX,
        decreases n - i,
    {
        let ghost pre = forest_view(roots.0@);
        let ghost rem = symbol_sizes@.skip(i as int);
        let size = symbol_sizes[i].1;
        let comps = symbol_components(symbol_sizes[i].0.as_str());
        add_to_group(&mut roots, comps, size);
        proof {
            assert(rem[0] == symbol_sizes@[i as int]);
            assert(rem.drop_first() =~= symbol_sizes@.skip(i as int + 1));
            lemma_add_leaf_sum(
                pre,
                spec_symbol_components(demangled_of(symbol_sizes@[i as int].0@)),
                size as nat,
            );
        }
        i = i + 1;
    }
    let ghost built = roots.0@;
    proof {
        assert(symbol_sizes@.skip(n as int) =~= Seq::<(String, u64)>::empty());
        assert(forest_view(built) == spec_insert_all(Seq::empty(), symbol_sizes@));
        lemma_forest_view(built);
    }
    let m = roots.0.len();
    let mut j: usize = 0;
    while j < m
        invariant
            j <= m == roots.0@.len(),
            m == built.len(),
            forest_leaf_sum(forest_view(built)) <= u64::MAX,
            forest_view(built).len() == m,
            forall|l: int| j <= l < m ==> roots.0@[l] == built[l],
            forall|l: int|
                0 <= l < j ==> roots.0@[l].0 == built[l].0 && group_view(roots.0@[l].1)
                    == spec_propagate(group_view(built[l].1)),
        decreases m - j,
    {
        proof {
            lemma_forest_view(built);
        }
        let ghost pre = roots.0@;
        let (k, mut g) = roots.0.remove(j);
        proof {
            assert(g == built[j as int].1);
            lemma_child_leaf_sum_le(forest_view(built), j as int);
            assert(forest_view(built)[j as int].1 == group_view(g));
        }
        let _ = propagate_weight(&mut g);
        roots.0.insert(j, (k, g));
        proof {
            assert(roots.0@ =~= pre.update(j as int, roots.0@[j as int]));
        }
        j = j + 1;
    }
    proof {
        lemma_forest_view(roots.0@);
        lemma_propagate_forest_index(forest_view(built));
        assert(forest_view(roots.0@) =~= propagate_forest(forest_view(built)));
        lemma_insert_all_wf(Seq::empty(), symbol_sizes@);
        lemma_propagate_forest_wf(spec_insert_all(Seq::empty(), symbol_sizes@));
    }
    roots
}

pub proof fn lemma_insert_all_wf(cs: Seq<(Seq<char>, SpecGroup)>, syms: Seq<(String, u64)>)
    requires
        forest_wf(cs),
    ensures
        forest_wf(spec_insert_all(cs, syms)),
    decreases syms.len(),
{
    if syms.len() > 0 {
        let comps = spec_symbol_components(demangled_of(syms[0].0@));
        lemma_add_preserves_wf(cs, comps, syms[0].1 as nat);
        lemma_insert_all_wf(spec_add(cs, comps, syms[0].1 as nat), syms.drop_first());
    }
}

} // verus!
