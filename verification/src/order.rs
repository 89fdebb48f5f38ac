//! The order in which bones are evaluated: every bone after its parent.
//!
//! A bone has a depth when the chain of its parents ends: a bone without a
//! parent has depth 0, and a bone whose parent has depth `d` has depth
//! `d + 1`. A parent index that names no bone of the list ends the chain as a
//! root would, one level up. Bones on a cycle of parent links, and bones that
//! hang below such a cycle, have no depth and are left out of the order.
//!
//! The order lists the bones by depth, and the bones of one depth by their
//! position in the skeleton.

use vstd::prelude::*;
use crate::animated_bone::AnimatedBone;

verus! {

/// The parent index of every bone, in the order of the bones.
pub open spec fn parent_links(bones: Seq<AnimatedBone>) -> Seq<Option<usize>> {
    Seq::new(bones.len(), |i: int| bones[i].bone.parent_index)
}

/// Whether bone `i` lies `d` parent links below the end of its chain.
pub open spec fn has_depth(links: Seq<Option<usize>>, i: int, d: nat) -> bool
    decreases d,
{
    0 <= i < links.len() && match links[i] {
        None => d == 0,
        Some(p) => d > 0 && if p as int >= links.len() {
            d == 1
        } else {
            has_depth(links, p as int, (d - 1) as nat)
        },
    }
}

/// The bones of depth `d` among the first `end` bones, in rising order.
pub open spec fn layer_below(links: Seq<Option<usize>>, d: nat, end: nat) -> Seq<usize>
    decreases end,
{
    if end == 0 {
        Seq::empty()
    } else {
        let rest = layer_below(links, d, (end - 1) as nat);
        if has_depth(links, end - 1, d) {
            rest.push((end - 1) as usize)
        } else {
            rest
        }
    }
}

/// The bones of depth `d`, in rising order.
pub open spec fn layer(links: Seq<Option<usize>>, d: nat) -> Seq<usize> {
    layer_below(links, d, links.len())
}

/// The bones of depth 0 to `d`, layer after layer.
pub open spec fn layers_through(links: Seq<Option<usize>>, d: nat) -> Seq<usize>
    decreases d,
{
    if d == 0 {
        layer(links, 0)
    } else {
        layers_through(links, (d - 1) as nat) + layer(links, d)
    }
}

/// The evaluation order of a skeleton with these parent links.
pub open spec fn evaluation_order_spec(links: Seq<Option<usize>>) -> Seq<usize> {
    layers_through(links, links.len())
}

/// The bone reached from `i` by following `k` parent links, while each link
/// names a bone.
pub open spec fn ancestor(links: Seq<Option<usize>>, i: int, k: nat) -> Option<int>
    decreases k,
{
    if k == 0 {
        if 0 <= i < links.len() {
            Some(i)
        } else {
            None
        }
    } else {
        match ancestor(links, i, (k - 1) as nat) {
            Some(a) => match links[a] {
                Some(p) => if (p as int) < links.len() {
                    Some(p as int)
                } else {
                    None
                },
                None => None,
            },
            None => None,
        }
    }
}

/// Whether following parent links from bone `i` leads back to `i`.
pub open spec fn on_cycle(links: Seq<Option<usize>>, i: int) -> bool {
    exists|k: nat| k >= 1 && ancestor(links, i, k) == Some(i)
}

/// Whether the chain of parents of bone `i` ends: at a bone without a parent,
/// or at a parent index that names no bone.
pub open spec fn chain_ends(links: Seq<Option<usize>>, i: int) -> bool {
    exists|k: nat, a: int|
        ancestor(links, i, k) == Some(a) && match links[a] {
            None => true,
            Some(p) => p as int >= links.len(),
        }
}

/// A bone has at most one depth.
pub proof fn lemma_depth_unique(links: Seq<Option<usize>>, i: int, d1: nat, d2: nat)
    requires
        has_depth(links, i, d1),
        has_depth(links, i, d2),
    ensures
        d1 == d2,
    decreases d1,
{
    match links[i] {
        None => {},
        Some(p) => {
            if (p as int) < links.len() {
                lemma_depth_unique(links, p as int, (d1 - 1) as nat, (d2 - 1) as nat);
            }
        },
    }
}

/// What a layer holds: exactly the bones of its depth, each once, rising.
pub proof fn lemma_layer_below(links: Seq<Option<usize>>, d: nat, end: nat)
    requires
        end <= links.len() <= usize::MAX,
    ensures
        layer_below(links, d, end).len() <= end,
        forall|k: int|
            0 <= k < layer_below(links, d, end).len() ==> {
                &&& (#[trigger] layer_below(links, d, end)[k] as int) < end
                &&& has_depth(links, layer_below(links, d, end)[k] as int, d)
            },
        forall|j: int, k: int|
            0 <= j < k < layer_below(links, d, end).len() ==> layer_below(links, d, end)[j]
                < layer_below(links, d, end)[k],
        forall|i: int|
            0 <= i < end && has_depth(links, i, d) ==> layer_below(links, d, end).contains(
                i as usize,
            ),
    decreases end,
{
    if end > 0 {
        let rest = layer_below(links, d, (end - 1) as nat);
        lemma_layer_below(links, d, (end - 1) as nat);
        let whole = layer_below(links, d, end);
        if has_depth(links, end - 1, d) {
            assert(whole == rest.push((end - 1) as usize));
            assert(whole[whole.len() - 1] == (end - 1) as usize);
            assert forall|j: int, k: int| 0 <= j < k < whole.len() implies whole[j] < whole[k] by {
                if k < rest.len() {
                    assert(rest[j] < rest[k]);
                } else {
                    assert((rest[j] as int) < end - 1);
                }
            }
            assert forall|i: int| 0 <= i < end && has_depth(links, i, d) implies whole.contains(
                i as usize,
            ) by {
                if i < end - 1 {
                    let k = choose|k: int| 0 <= k < rest.len() && rest[k] == i as usize;
                    assert(whole[k] == i as usize);
                } else {
                    assert(whole[whole.len() - 1] == i as usize);
                }
            }
        } else {
            assert(whole == rest);
        }
    }
}

/// What the layers through `d` hold: exactly the bones of depth at most `d`.
pub proof fn lemma_layers_members(links: Seq<Option<usize>>, d: nat)
    requires
        links.len() <= usize::MAX,
    ensures
        forall|k: int|
            0 <= k < layers_through(links, d).len() ==> {
                &&& (#[trigger] layers_through(links, d)[k] as int) < links.len()
                &&& exists|e: nat| e <= d && has_depth(links, layers_through(links, d)[k] as int, e)
            },
        forall|i: int, e: nat|
            e <= d && has_depth(links, i, e) ==> layers_through(links, d).contains(i as usize),
    decreases d,
{
    let whole = layers_through(links, d);
    let last = layer(links, d);
    lemma_layer_below(links, d, links.len());
    if d == 0 {
        assert forall|k: int| 0 <= k < whole.len() implies {
            &&& (#[trigger] whole[k] as int) < links.len()
            &&& exists|e: nat| e <= d && has_depth(links, whole[k] as int, e)
        } by {
            assert(has_depth(links, last[k] as int, 0));
        }
    } else {
        let before = layers_through(links, (d - 1) as nat);
        lemma_layers_members(links, (d - 1) as nat);
        assert(whole == before + last);
        assert forall|k: int| 0 <= k < whole.len() implies {
            &&& (#[trigger] whole[k] as int) < links.len()
            &&& exists|e: nat| e <= d && has_depth(links, whole[k] as int, e)
        } by {
            if k < before.len() {
                assert(whole[k] == before[k]);
                let e = choose|e: nat| e <= d - 1 && has_depth(links, before[k] as int, e);
                assert(e <= d && has_depth(links, whole[k] as int, e));
            } else {
                assert(whole[k] == last[k - before.len()]);
                assert(has_depth(links, last[k - before.len()] as int, d));
            }
        }
        assert forall|i: int, e: nat| e <= d && has_depth(links, i, e) implies whole.contains(
            i as usize,
        ) by {
            if e < d {
                assert(before.contains(i as usize));
                let k = choose|k: int| 0 <= k < before.len() && before[k] == i as usize;
                assert(whole[k] == i as usize);
            } else {
                assert(last.contains(i as usize));
                let k = choose|k: int| 0 <= k < last.len() && last[k] == i as usize;
                assert(whole[before.len() + k] == i as usize);
            }
        }
    }
}

/// No bone stands twice in the layers through `d`.
pub proof fn lemma_layers_no_duplicates(links: Seq<Option<usize>>, d: nat)
    requires
        links.len() <= usize::MAX,
    ensures
        layers_through(links, d).no_duplicates(),
    decreases d,
{
    let whole = layers_through(links, d);
    let last = layer(links, d);
    lemma_layer_below(links, d, links.len());
    if d > 0 {
        let before = layers_through(links, (d - 1) as nat);
        lemma_layers_no_duplicates(links, (d - 1) as nat);
        lemma_layers_members(links, (d - 1) as nat);
        assert(whole == before + last);
        assert forall|j: int, k: int| 0 <= j < whole.len() && 0 <= k < whole.len() && j != k implies whole[j]
            != whole[k] by {
            if j < before.len() && k >= before.len() {
                let e = choose|e: nat| e <= d - 1 && has_depth(links, before[j] as int, e);
                assert(has_depth(links, last[k - before.len()] as int, d));
                if whole[j] == whole[k] {
                    lemma_depth_unique(links, whole[j] as int, e, d);
                }
            } else if k < before.len() && j >= before.len() {
                let e = choose|e: nat| e <= d - 1 && has_depth(links, before[k] as int, e);
                assert(has_depth(links, last[j - before.len()] as int, d));
                if whole[j] == whole[k] {
                    lemma_depth_unique(links, whole[k] as int, e, d);
                }
            } else if j < before.len() && k < before.len() {
                assert(before[j] != before[k]);
            } else {
                let jj = j - before.len();
                let kk = k - before.len();
                assert(whole[j] == last[jj] && whole[k] == last[kk]);
                if jj < kk {
                    assert(last[jj] < last[kk]);
                } else {
                    assert(last[kk] < last[jj]);
                }
            }
        }
    } else {
        assert forall|j: int, k: int| 0 <= j < whole.len() && 0 <= k < whole.len() && j != k implies whole[j]
            != whole[k] by {
            if j < k {
                assert(last[j] < last[k]);
            } else {
                assert(last[k] < last[j]);
            }
        }
    }
}

/// In the layers through `d`, a bone stands after its parent.
pub proof fn lemma_layers_parent_first(links: Seq<Option<usize>>, d: nat)
    requires
        links.len() <= usize::MAX,
    ensures
        forall|k: int, p: usize|
            0 <= k < layers_through(links, d).len() && links[layers_through(links, d)[k] as int]
                == Some(p) && (p as int) < links.len() ==> exists|j: int|
                0 <= j < k && layers_through(links, d)[j] == p,
    decreases d,
{
    let whole = layers_through(links, d);
    let last = layer(links, d);
    lemma_layer_below(links, d, links.len());
    if d == 0 {
        assert forall|k: int, p: usize|
            0 <= k < whole.len() && links[whole[k] as int] == Some(p) && (p as int)
                < links.len() implies exists|j: int| 0 <= j < k && whole[j] == p by {
            assert(has_depth(links, last[k] as int, 0));
        }
    } else {
        let before = layers_through(links, (d - 1) as nat);
        lemma_layers_parent_first(links, (d - 1) as nat);
        lemma_layers_members(links, (d - 1) as nat);
        assert(whole == before + last);
        assert forall|k: int, p: usize|
            0 <= k < whole.len() && links[whole[k] as int] == Some(p) && (p as int)
                < links.len() implies exists|j: int| 0 <= j < k && whole[j] == p by {
            if k < before.len() {
                assert(whole[k] == before[k]);
                let j = choose|j: int| 0 <= j < k && before[j] == p;
                assert(whole[j] == p);
            } else {
                assert(whole[k] == last[k - before.len()]);
                assert(has_depth(links, last[k - before.len()] as int, d));
                assert(has_depth(links, p as int, (d - 1) as nat));
                assert(before.contains(p));
                let j = choose|j: int| 0 <= j < before.len() && before[j] == p;
                assert(whole[j] == p);
            }
        }
    }
}

/// Once a layer past the roots is empty, every later layer is empty too.
pub proof fn lemma_layers_stay_empty(links: Seq<Option<usize>>, d: nat, e: nat)
    requires
        links.len() <= usize::MAX,
        1 <= d <= e,
        forall|i: int| 0 <= i < links.len() ==> !has_depth(links, i, d),
    ensures
        forall|i: int| 0 <= i < links.len() ==> !has_depth(links, i, e),
        layers_through(links, e) == layers_through(links, (d - 1) as nat),
    decreases e,
{
    lemma_layer_below(links, e, links.len());
    if d < e {
        lemma_layers_stay_empty(links, d, (e - 1) as nat);
        assert forall|i: int| 0 <= i < links.len() implies !has_depth(links, i, e) by {
            if has_depth(links, i, e) {
                let p = links[i]->0;
                assert(has_depth(links, p as int, (e - 1) as nat));
            }
        }
    }
    if layer(links, e).len() > 0 {
        assert(has_depth(links, layer(links, e)[0] as int, e));
    }
    assert(layers_through(links, e) == layers_through(links, (e - 1) as nat) + layer(links, e));
    assert(layers_through(links, e) == layers_through(links, (e - 1) as nat));
}

/// Following one parent link and then `k` more is following `k + 1`.
pub proof fn lemma_ancestor_shift(links: Seq<Option<usize>>, i: int, p: usize, k: nat)
    requires
        0 <= i < links.len(),
        links[i] == Some(p),
        (p as int) < links.len(),
    ensures
        ancestor(links, i, k + 1) == ancestor(links, p as int, k),
    decreases k,
{
    if k > 0 {
        lemma_ancestor_shift(links, i, p, (k - 1) as nat);
    } else {
        assert(ancestor(links, i, 0) == Some(i));
    }
}

/// Walking up from a bone of depth `d` takes at most `d` links, and each link
/// lowers the depth by one.
pub proof fn lemma_depth_along_chain(links: Seq<Option<usize>>, i: int, d: nat, k: nat, a: int)
    requires
        has_depth(links, i, d),
        ancestor(links, i, k) == Some(a),
    ensures
        k <= d,
        has_depth(links, a, (d - k) as nat),
    decreases k,
{
    if k > 0 {
        let b = ancestor(links, i, (k - 1) as nat)->0;
        lemma_depth_along_chain(links, i, d, (k - 1) as nat, b);
    }
}

/// A bone `k` links below a bone of depth `m` has depth `m + k`.
pub proof fn lemma_depth_below(links: Seq<Option<usize>>, i: int, k: nat, a: int, m: nat)
    requires
        ancestor(links, i, k) == Some(a),
        has_depth(links, a, m),
    ensures
        has_depth(links, i, m + k),
    decreases k,
{
    if k > 0 {
        let b = ancestor(links, i, (k - 1) as nat)->0;
        assert(has_depth(links, b, m + 1));
        lemma_depth_below(links, i, (k - 1) as nat, b, m + 1);
    }
}

/// The chain of parents of a bone that has a depth ends.
pub proof fn lemma_depth_ends_chain(links: Seq<Option<usize>>, i: int, d: nat)
    requires
        has_depth(links, i, d),
    ensures
        chain_ends(links, i),
    decreases d,
{
    assert(ancestor(links, i, 0) == Some(i));
    match links[i] {
        None => {},
        Some(p) => {
            if (p as int) < links.len() {
                lemma_depth_ends_chain(links, p as int, (d - 1) as nat);
                let (k, a) = choose|k: nat, a: int|
                    ancestor(links, p as int, k) == Some(a) && match links[a] {
                        None => true,
                        Some(q) => q as int >= links.len(),
                    };
                lemma_ancestor_shift(links, i, p, k);
                assert(ancestor(links, i, k + 1) == Some(a));
            }
        },
    }
}

/// Different values below `bound` are at most `bound` many.
pub proof fn lemma_distinct_values_bounded(values: Seq<int>, bound: nat)
    requires
        forall|k: int| 0 <= k < values.len() ==> 0 <= #[trigger] values[k] < bound,
        values.no_duplicates(),
    ensures
        values.len() <= bound,
    decreases bound,
{
    if values.len() > 0 {
        if bound == 0 {
            assert(0 <= values[0] < bound);
        } else {
            let top = bound - 1;
            if exists|k: int| 0 <= k < values.len() && values[k] == top {
                let hit = choose|k: int| 0 <= k < values.len() && values[k] == top;
                let rest = values.remove(hit);
                assert forall|k: int| 0 <= k < rest.len() implies 0 <= #[trigger] rest[k] < top by {
                    if k < hit {
                        assert(rest[k] == values[k]);
                        assert(values[k] != values[hit]);
                    } else {
                        assert(rest[k] == values[k + 1]);
                        assert(values[hit] != values[k + 1]);
                    }
                }
                assert forall|j: int, k: int|
                    0 <= j < rest.len() && 0 <= k < rest.len() && j != k implies rest[j]
                    != rest[k] by {
                    let jj = if j < hit { j } else { j + 1 };
                    let kk = if k < hit { k } else { k + 1 };
                    assert(rest[j] == values[jj] && rest[k] == values[kk]);
                }
                lemma_distinct_values_bounded(rest, top as nat);
            } else {
                let rest = values.drop_last();
                assert forall|k: int| 0 <= k < rest.len() implies 0 <= #[trigger] rest[k] < top by {
                    assert(rest[k] == values[k]);
                }
                assert forall|j: int, k: int|
                    0 <= j < rest.len() && 0 <= k < rest.len() && j != k implies rest[j]
                    != rest[k] by {
                    assert(rest[j] == values[j] && rest[k] == values[k]);
                }
                lemma_distinct_values_bounded(rest, top as nat);
            }
        }
    }
}

/// No bone lies deeper than there are bones.
pub proof fn lemma_depth_bounded(links: Seq<Option<usize>>, i: int, d: nat)
    requires
        has_depth(links, i, d),
    ensures
        d <= links.len(),
{
    let n = links.len();
    if d > n {
        let walk = Seq::new(n + 1, |k: int| ancestor(links, i, k as nat)->0);
        assert forall|k: int| 0 <= k < walk.len() implies 0 <= #[trigger] walk[k] < n by {
            lemma_chain_reaches(links, i, d, k as nat);
            lemma_depth_along_chain(links, i, d, k as nat, walk[k]);
        }
        assert forall|j: int, k: int|
            0 <= j < walk.len() && 0 <= k < walk.len() && j != k implies walk[j] != walk[k] by {
            lemma_chain_reaches(links, i, d, j as nat);
            lemma_chain_reaches(links, i, d, k as nat);
            lemma_depth_along_chain(links, i, d, j as nat, walk[j]);
            lemma_depth_along_chain(links, i, d, k as nat, walk[k]);
            if walk[j] == walk[k] {
                lemma_depth_unique(links, walk[j], (d - j) as nat, (d - k) as nat);
            }
        }
        lemma_distinct_values_bounded(walk, n);
    }
}

/// From a bone of depth `d`, every walk of fewer than `d` links stays among
/// the bones.
pub proof fn lemma_chain_reaches(links: Seq<Option<usize>>, i: int, d: nat, k: nat)
    requires
        has_depth(links, i, d),
        k < d,
    ensures
        ancestor(links, i, k) is Some,
    decreases k,
{
    if k > 0 {
        lemma_chain_reaches(links, i, d, (k - 1) as nat);
        let b = ancestor(links, i, (k - 1) as nat)->0;
        lemma_depth_along_chain(links, i, d, (k - 1) as nat, b);
        assert(has_depth(links, b, (d - (k - 1)) as nat));
    }
}

/// The bones of depth 0 of a skeleton without parent links are all its bones,
/// in the order of the skeleton.
pub proof fn lemma_all_roots_layer(links: Seq<Option<usize>>, end: nat)
    requires
        end <= links.len() <= usize::MAX,
        forall|i: int| 0 <= i < links.len() ==> links[i] is None,
    ensures
        layer_below(links, 0, end) == Seq::new(end, |k: int| k as usize),
    decreases end,
{
    if end > 0 {
        lemma_all_roots_layer(links, (end - 1) as nat);
        assert(has_depth(links, end - 1, 0));
    }
    assert(layer_below(links, 0, end) =~= Seq::new(end, |k: int| k as usize));
}

/// In a skeleton where no bone has a parent, the evaluation order lists every
/// bone once, in the order of the skeleton.
pub proof fn lemma_roots_keep_skeleton_order(links: Seq<Option<usize>>)
    requires
        links.len() <= usize::MAX,
        forall|i: int| 0 <= i < links.len() ==> links[i] is None,
    ensures
        evaluation_order_spec(links) == Seq::new(links.len(), |k: int| k as usize),
{
    lemma_all_roots_layer(links, links.len());
    if links.len() > 0 {
        lemma_layers_stay_empty(links, 1, links.len());
    }
}

/// A bone stands in the evaluation order exactly if its chain of parents ends.
pub proof fn lemma_order_members(links: Seq<Option<usize>>, i: int)
    requires
        links.len() <= usize::MAX,
        0 <= i < links.len(),
    ensures
        evaluation_order_spec(links).contains(i as usize) <==> chain_ends(links, i),
{
    let order = evaluation_order_spec(links);
    lemma_layers_members(links, links.len());
    if order.contains(i as usize) {
        let k = choose|k: int| 0 <= k < order.len() && order[k] == i as usize;
        let e = choose|e: nat| e <= links.len() && has_depth(links, order[k] as int, e);
        lemma_depth_ends_chain(links, i, e);
    }
    if chain_ends(links, i) {
        let (k, a) = choose|k: nat, a: int|
            ancestor(links, i, k) == Some(a) && match links[a] {
                None => true,
                Some(p) => p as int >= links.len(),
            };
        lemma_ancestor_in_range(links, i, k);
        let m: nat = if links[a] is None { 0 } else { 1 };
        assert(has_depth(links, a, m));
        lemma_depth_below(links, i, k, a, m);
        lemma_depth_bounded(links, i, m + k);
    }
}

/// What a walk along parent links reaches is a bone.
pub proof fn lemma_ancestor_in_range(links: Seq<Option<usize>>, i: int, k: nat)
    ensures
        ancestor(links, i, k) is Some ==> 0 <= ancestor(links, i, k)->0 < links.len(),
        ancestor(links, i, k) is Some ==> 0 <= i < links.len(),
    decreases k,
{
    if k > 0 {
        lemma_ancestor_in_range(links, i, (k - 1) as nat);
    }
}

/// A bone on a cycle of parent links never stands in the evaluation order.
pub proof fn lemma_cycle_bones_left_out(links: Seq<Option<usize>>, i: int)
    requires
        links.len() <= usize::MAX,
        on_cycle(links, i),
    ensures
        !evaluation_order_spec(links).contains(i as usize),
{
    let order = evaluation_order_spec(links);
    let c = choose|k: nat| k >= 1 && ancestor(links, i, k) == Some(i);
    lemma_ancestor_in_range(links, i, c);
    lemma_layers_members(links, links.len());
    if order.contains(i as usize) {
        let k = choose|k: int| 0 <= k < order.len() && order[k] == i as usize;
        let e = choose|e: nat| e <= links.len() && has_depth(links, order[k] as int, e);
        lemma_depth_along_chain(links, i, e, c, i);
        lemma_depth_unique(links, i, e, (e - c) as nat);
    }
}

/// A bone whose chain of parents ends stands in the evaluation order,
/// whatever cycles the rest of the skeleton holds.
pub proof fn lemma_bones_off_cycles_listed(links: Seq<Option<usize>>, i: int)
    requires
        links.len() <= usize::MAX,
        0 <= i < links.len(),
        chain_ends(links, i),
    ensures
        evaluation_order_spec(links).contains(i as usize),
{
    lemma_order_members(links, i);
}

/// Computes the order in which the bones are evaluated.
///
/// Bones without a parent come first, in the order of the skeleton. Then
/// come, level by level, the bones whose parent stands in the level before,
/// each level in the order of the skeleton. A bone whose chain of parents
/// runs into a cycle never becomes ready and is left out.
///
/// The order therefore lists no bone twice and every bone after its parent.
/// It lists exactly the bones whose chain of parents ends, so none that
/// stands on a cycle. Where no bone has a parent, it is the order of the
/// skeleton.
pub fn evaluation_order(bones: &[AnimatedBone]) -> (order: Vec<usize>)
    ensures
        order@ == evaluation_order_spec(parent_links(bones@)),
        order@.no_duplicates(),
        forall|k: int| 0 <= k < order.len() ==> (#[trigger] order[k]) < bones.len(),
        forall|k: int, p: usize|
            0 <= k < order.len() && bones[order[k] as int].bone.parent_index == Some(p) && p
                < bones.len() ==> exists|j: int| 0 <= j < k && order[j] == p,
        forall|i: int|
            0 <= i < bones.len() ==> (order@.contains(i as usize) <==> #[trigger] chain_ends(
                parent_links(bones@),
                i,
            )),
        forall|i: int| #[trigger] on_cycle(parent_links(bones@), i) ==> !order@.contains(i as usize),
        (forall|i: int| 0 <= i < bones.len() ==> (#[trigger] bones[i]).bone.parent_index is None)
            ==> order@ == Seq::new(bones.len() as nat, |k: int| k as usize),
{
    let n = bones.len();
    let ghost links = parent_links(bones@);
    let mut depths: Vec<Option<usize>> = Vec::new();
    let mut order: Vec<usize> = Vec::new();
    let mut i: usize = 0;
    while i < n
        invariant
            n == bones.len(),
            links == parent_links(bones@),
            i <= n,
            depths.len() == i,
            order@ == layer_below(links, 0, i as nat),
            forall|j: int|
                0 <= j < i ==> match #[trigger] depths[j] {
                    Some(k) => k == 0 && has_depth(links, j, 0),
                    None => !has_depth(links, j, 0),
                },
        decreases n - i,
    {
        match bones[i].bone.parent_index {
            None => {
                depths.push(Some(0));
                order.push(i);
            },
            Some(_) => {
                depths.push(None);
            },
        }
        i += 1;
    }
    let mut d: usize = 1;
    while d <= n
        invariant_except_break
            order@ == layers_through(links, (d - 1) as nat),
            forall|j: int|
                0 <= j < n ==> match #[trigger] depths[j] {
                    Some(k) => k < d && has_depth(links, j, k as nat),
                    None => forall|k: nat| k < d ==> !has_depth(links, j, k),
                },
        invariant
            n == bones.len(),
            links == parent_links(bones@),
            1 <= d <= n + 1,
            depths.len() == n,
        ensures
            order@ == layers_through(links, n as nat),
        decreases n + 1 - d,
    {
        let ghost before = order@;
        let mut added = false;
        let mut i: usize = 0;
        while i < n
            invariant
                n == bones.len(),
                links == parent_links(bones@),
                1 <= d <= n,
                i <= n,
                depths.len() == n,
                order@ == before + layer_below(links, d as nat, i as nat),
                !added ==> forall|j: int| 0 <= j < i ==> !has_depth(links, j, d as nat),
                forall|j: int|
                    0 <= j < n ==> match #[trigger] depths[j] {
                        Some(k) => has_depth(links, j, k as nat) && (k < d || (k == d && j < i)),
                        None => (forall|k: nat| k < d ==> !has_depth(links, j, k)) && (j < i
                            ==> !has_depth(links, j, d as nat)),
                    },
            decreases n - i,
        {
            let ready = match bones[i].bone.parent_index {
                None => false,
                Some(p) => if p >= n {
                    d == 1
                } else {
                    match depths[p] {
                        Some(k) => k == d - 1,
                        None => false,
                    }
                },
            };
            proof {
                assert(links[i as int] == bones[i as int].bone.parent_index);
                match links[i as int] {
                    None => {
                        assert(!has_depth(links, i as int, d as nat));
                    },
                    Some(p) => {
                        if (p as int) < n {
                            let parent_has = has_depth(links, p as int, (d - 1) as nat);
                            assert(has_depth(links, i as int, d as nat) == parent_has);
                            match depths[p as int] {
                                Some(k) => {
                                    assert(has_depth(links, p as int, k as nat));
                                    if parent_has {
                                        lemma_depth_unique(
                                            links,
                                            p as int,
                                            k as nat,
                                            (d - 1) as nat,
                                        );
                                    }
                                    assert(ready == parent_has);
                                },
                                None => {
                                    assert(!has_depth(links, p as int, (d - 1) as nat));
                                },
                            }
                        } else {
                            assert(has_depth(links, i as int, d as nat) == (d == 1));
                        }
                    },
                }
                assert(ready == has_depth(links, i as int, d as nat));
            }
            if ready {
                depths.set(i, Some(d));
                order.push(i);
                added = true;
                assert(order@ == before + layer_below(links, d as nat, (i + 1) as nat));
            }
            i += 1;
        }
        proof {
            assert(order@ == layers_through(links, d as nat));
            if !added {
                lemma_layers_stay_empty(links, d as nat, n as nat);
                lemma_layer_below(links, d as nat, n as nat);
                if layer(links, d as nat).len() > 0 {
                    assert(has_depth(links, layer(links, d as nat)[0] as int, d as nat));
                }
                assert(layers_through(links, d as nat) == layers_through(links, (d - 1) as nat)
                    + layer(links, d as nat));
            }
        }
        if !added || d == n {
            break ;
        }
        d += 1;
    }
    proof {
        lemma_layers_no_duplicates(links, n as nat);
        lemma_layers_members(links, n as nat);
        lemma_layers_parent_first(links, n as nat);
        assert forall|k: int, p: usize|
            0 <= k < order.len() && bones[order[k] as int].bone.parent_index == Some(p) && p
                < bones.len() implies exists|j: int| 0 <= j < k && order[j] == p by {
            assert(links[order[k] as int] == Some(p));
        }
        assert forall|i: int| 0 <= i < bones.len() implies (order@.contains(i as usize)
            <==> #[trigger] chain_ends(links, i)) by {
            lemma_order_members(links, i);
        }
        assert forall|i: int| #[trigger] on_cycle(links, i) implies !order@.contains(
            i as usize,
        ) by {
            lemma_cycle_bones_left_out(links, i);
        }
        if forall|i: int| 0 <= i < bones.len() ==> (#[trigger] bones[i]).bone.parent_index is None {
            assert forall|i: int| 0 <= i < links.len() implies links[i] is None by {
                assert(bones[i].bone.parent_index is None);
            }
            lemma_roots_keep_skeleton_order(links);
        }
    }
    order
}

} // verus!
