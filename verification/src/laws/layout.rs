//! What the cycle order depends on.

use vstd::prelude::*;

use crate::order::{
    ahead, build_order, cycle_order, head_len, is_cycle_order, layout_rank, lemma_cycle_order_exists,
    lemma_cycle_order_unique, lemma_layout_rank, lists,
};
use crate::pane::{
    focused_ref_view_opt, node_views, pane_views, CyclePane, FocusedPaneInfo, NavigationNode,
    PaneView,
};
use vstd::hash_map::StringHashMap;

verus! {

/// Whether a pane that may be absent has the identifier `id`.
pub open spec fn is_pane(pane: Option<PaneView>, id: Seq<char>) -> bool {
    pane matches Some(p) && p.pane_id == id
}

/// Panes that are not live do not matter, nor does when the focused pane was
/// focused: the order is the same for all focus times that agree on the other
/// live panes.
pub proof fn law_dead_panes_do_not_matter(
    nodes: Seq<PaneView>,
    focused: Option<PaneView>,
    a: Map<Seq<char>, u64>,
    b: Map<Seq<char>, u64>,
)
    requires
        forall|k: int|
            0 <= k < nodes.len() && !is_pane(focused, (#[trigger] nodes[k]).pane_id) ==> {
                let id = nodes[k].pane_id;
                &&& a.contains_key(id) == b.contains_key(id)
                &&& a.contains_key(id) ==> a[id] == b[id]
            },
    ensures
        cycle_order(nodes, focused, a) == cycle_order(nodes, focused, b),
{
    lemma_cycle_order_exists(nodes, focused, a);
    lemma_cycle_order_exists(nodes, focused, b);
    let order = cycle_order(nodes, focused, a);
    assert forall|i: int, j: int| head_len(focused) <= i < j < order.len() implies ahead(
        nodes,
        b,
        (#[trigger] order[i]).pane_id,
        (#[trigger] order[j]).pane_id,
    ) by {
        lemma_layout_rank(nodes, order[i].pane_id);
        lemma_layout_rank(nodes, order[j].pane_id);
        assert(ahead(nodes, a, order[i].pane_id, order[j].pane_id));
        assert(order[i] == nodes[layout_rank(nodes, order[i].pane_id)]);
        assert(order[j] == nodes[layout_rank(nodes, order[j].pane_id)]);
        if focused is Some {
            assert(order[0].pane_id != order[i].pane_id);
            assert(order[0].pane_id != order[j].pane_id);
        }
    }
    assert(is_cycle_order(order, nodes, focused, b));
    lemma_cycle_order_unique(order, cycle_order(nodes, focused, b), nodes, focused, b);
}

/// The cycle visits the focused pane and the live panes, and no others.
pub proof fn law_order_lists_live_panes(
    nodes: Seq<PaneView>,
    focused: Option<PaneView>,
    pane_ts: Map<Seq<char>, u64>,
    id: Seq<char>,
)
    ensures
        lists(cycle_order(nodes, focused, pane_ts), id) <==> lists(nodes, id) || (focused is Some
            && focused->0.pane_id == id),
{
    lemma_cycle_order_exists(nodes, focused, pane_ts);
    let order = cycle_order(nodes, focused, pane_ts);
    if lists(order, id) {
        let i = choose|i: int| 0 <= i < order.len() && (#[trigger] order[i]).pane_id == id;
        lemma_layout_rank(nodes, id);
        if i >= head_len(focused) {
            assert(nodes[layout_rank(nodes, id)].pane_id == id);
        }
    }
    if lists(nodes, id) {
        let k = choose|k: int| 0 <= k < nodes.len() && (#[trigger] nodes[k]).pane_id == id;
        assert(lists(order, nodes[k].pane_id));
    }
    if focused is Some && focused->0.pane_id == id {
        assert(order[0].pane_id == id);
    }
}

/// What a filter keeps is what it was meant to keep.
pub proof fn lemma_filter_place<A>(s: Seq<A>, keep: spec_fn(A) -> bool, i: int) -> (p: int)
    requires
        0 <= i < s.filter(keep).len(),
    ensures
        0 <= p < s.len(),
        s[p] == s.filter(keep)[i],
        keep(s[p]),
    decreases s.len(),
{
    reveal(Seq::filter);
    let shorter = s.drop_last();
    if i < shorter.filter(keep).len() {
        lemma_filter_place(shorter, keep, i)
    } else {
        s.len() - 1
    }
}

/// What a filter keeps stands in the order in which it stood.
pub proof fn lemma_filter_places<A>(s: Seq<A>, keep: spec_fn(A) -> bool, i: int, j: int) -> (r: (
    int,
    int,
))
    requires
        0 <= i < j < s.filter(keep).len(),
    ensures
        0 <= r.0 < r.1 < s.len(),
        s[r.0] == s.filter(keep)[i],
        s[r.1] == s.filter(keep)[j],
    decreases s.len(),
{
    reveal(Seq::filter);
    let shorter = s.drop_last();
    if j < shorter.filter(keep).len() {
        lemma_filter_places(shorter, keep, i, j)
    } else {
        (lemma_filter_place(shorter, keep, i), s.len() - 1)
    }
}

/// Focusing a pane only moves it to the front: the others follow in the order
/// that they have without a focused pane.
pub proof fn law_focused_pane_leads(
    nodes: Seq<PaneView>,
    focused: PaneView,
    pane_ts: Map<Seq<char>, u64>,
)
    ensures
        cycle_order(nodes, Some(focused), pane_ts) == seq![focused] + cycle_order(
            nodes,
            None,
            pane_ts,
        ).filter(|p: PaneView| p.pane_id != focused.pane_id),
{
    let keep = |p: PaneView| p.pane_id != focused.pane_id;
    let plain = cycle_order(nodes, None, pane_ts);
    let rest = plain.filter(keep);
    let order = seq![focused] + rest;
    lemma_cycle_order_exists(nodes, None, pane_ts);
    lemma_cycle_order_exists(nodes, Some(focused), pane_ts);
    assert forall|i: int, j: int| 0 <= i < j < order.len() implies (
    #[trigger] order[i]).pane_id != (#[trigger] order[j]).pane_id by {
        assert(order[j] == rest[j - 1]);
        let last = lemma_filter_place(plain, keep, j - 1);
        if i > 0 {
            assert(order[i] == rest[i - 1]);
            let (p, q) = lemma_filter_places(plain, keep, i - 1, j - 1);
            assert(plain[p].pane_id != plain[q].pane_id);
        }
    }
    assert forall|i: int| 1 <= i < order.len() implies {
        let rank = layout_rank(nodes, (#[trigger] order[i]).pane_id);
        rank < nodes.len() && order[i] == nodes[rank]
    } by {
        let p = lemma_filter_place(plain, keep, i - 1);
        assert(order[i] == plain[p]);
    }
    assert forall|i: int, j: int| 1 <= i < j < order.len() implies ahead(
        nodes,
        pane_ts,
        (#[trigger] order[i]).pane_id,
        (#[trigger] order[j]).pane_id,
    ) by {
        let (p, q) = lemma_filter_places(plain, keep, i - 1, j - 1);
        assert(ahead(nodes, pane_ts, plain[p].pane_id, plain[q].pane_id));
    }
    assert forall|k: int| 0 <= k < nodes.len() implies lists(
        order,
        (#[trigger] nodes[k]).pane_id,
    ) by {
        let id = nodes[k].pane_id;
        if id == focused.pane_id {
            assert(order[0].pane_id == id);
        } else {
            assert(lists(plain, id));
            let p = choose|p: int| 0 <= p < plain.len() && (#[trigger] plain[p]).pane_id == id;
            plain.lemma_filter_contains(keep, p);
            let i = choose|i: int| 0 <= i < rest.len() && rest[i] == plain[p];
            assert(order[i + 1].pane_id == id);
        }
    }
    assert(is_cycle_order(order, nodes, Some(focused), pane_ts));
    lemma_cycle_order_unique(
        order,
        cycle_order(nodes, Some(focused), pane_ts),
        nodes,
        Some(focused),
        pane_ts,
    );
}

/// Of two live panes other than the focused one, the one that was focused later
/// stands earlier in the order; one that was focused at some time stands before
/// one that never was; and two that were focused at the same time, or both
/// never, stand as the layout first lists them. Here `i` and `j` are their
/// places in the order, and `k` and `m` those at which the layout first lists
/// them.
pub proof fn law_later_focused_stands_earlier(
    nodes: Seq<PaneView>,
    focused: Option<PaneView>,
    pane_ts: Map<Seq<char>, u64>,
    i: int,
    j: int,
    k: int,
    m: int,
)
    requires
        0 <= i < cycle_order(nodes, focused, pane_ts).len(),
        0 <= j < cycle_order(nodes, focused, pane_ts).len(),
        0 <= k < nodes.len(),
        0 <= m < nodes.len(),
        cycle_order(nodes, focused, pane_ts)[i].pane_id == nodes[k].pane_id,
        cycle_order(nodes, focused, pane_ts)[j].pane_id == nodes[m].pane_id,
        focused matches Some(f) ==> f.pane_id != nodes[k].pane_id && f.pane_id != nodes[m].pane_id,
        forall|x: int| 0 <= x < k ==> (#[trigger] nodes[x]).pane_id != nodes[k].pane_id,
        forall|x: int| 0 <= x < m ==> (#[trigger] nodes[x]).pane_id != nodes[m].pane_id,
    ensures
        ({
            let (a, b) = (nodes[k].pane_id, nodes[m].pane_id);
            let (timed, also) = (pane_ts.contains_key(a), pane_ts.contains_key(b));
            &&& timed && also && pane_ts[a] > pane_ts[b] ==> i < j
            &&& timed && !also ==> i < j
            &&& timed && also && pane_ts[a] == pane_ts[b] && k < m ==> i < j
            &&& !timed && !also && k < m ==> i < j
        }),
{
    lemma_cycle_order_exists(nodes, focused, pane_ts);
    let order = cycle_order(nodes, focused, pane_ts);
    let (a, b) = (nodes[k].pane_id, nodes[m].pane_id);
    lemma_layout_rank(nodes, a);
    lemma_layout_rank(nodes, b);
    assert(layout_rank(nodes, a) == k);
    assert(layout_rank(nodes, b) == m);
    if focused is Some {
        assert(order[0] == focused->0);
    }
    if j < i {
        assert(ahead(nodes, pane_ts, order[j].pane_id, order[i].pane_id));
    }
}

/// The order that is built leads with the focused pane, holds no pane twice and
/// leaves no live pane out. Every pane in it, but for the focused one, is live
/// and in the workspace where the layout first lists it.
pub proof fn law_built_order_holds_live_panes(
    nodes: &[NavigationNode],
    focused: Option<&FocusedPaneInfo>,
    pane_ts: &StringHashMap<u64>,
    order: Vec<CyclePane>,
)
    requires
        call_ensures(build_order, (nodes, focused, pane_ts), order),
    ensures
        focused matches Some(f) ==> order@.len() > 0 && order@[0].pane_id@ == f.pane_id@
            && order@[0].workspace_id@ == f.workspace_id@,
        forall|i: int, j: int|
            0 <= i < j < order@.len() ==> (#[trigger] order@[i]).pane_id@ != (
            #[trigger] order@[j]).pane_id@,
        forall|k: int|
            0 <= k < nodes@.len() ==> exists|i: int|
                0 <= i < order@.len() && (#[trigger] order@[i]).pane_id@ == (
                #[trigger] nodes@[k]).pane_id@,
        forall|i: int|
            0 <= i < order@.len() && (focused is None || i > 0) ==> exists|k: int|
                {
                    &&& 0 <= k < nodes@.len()
                    &&& (#[trigger] nodes@[k]).pane_id@ == (#[trigger] order@[i]).pane_id@
                    &&& nodes@[k].workspace_id@ == order@[i].workspace_id@
                    &&& forall|x: int|
                        0 <= x < k ==> (#[trigger] nodes@[x]).pane_id@ != order@[i].pane_id@
                },
{
    let views = node_views(nodes@);
    let panes = pane_views(order@);
    assert forall|k: int| 0 <= k < nodes@.len() implies views[k] == (#[trigger] nodes@[k])@ by {}
    assert forall|i: int| 0 <= i < order@.len() implies panes[i] == (#[trigger] order@[i])@ by {}
    assert forall|i: int, j: int| 0 <= i < j < order@.len() implies (
    #[trigger] order@[i]).pane_id@ != (#[trigger] order@[j]).pane_id@ by {
        assert(panes[i].pane_id != panes[j].pane_id);
    }
    assert forall|k: int| 0 <= k < nodes@.len() implies exists|i: int|
        0 <= i < order@.len() && (#[trigger] order@[i]).pane_id@ == (
        #[trigger] nodes@[k]).pane_id@ by {
        assert(lists(panes, views[k].pane_id));
        let i = choose|i: int|
            0 <= i < panes.len() && (#[trigger] panes[i]).pane_id == views[k].pane_id;
        assert(order@[i].pane_id@ == nodes@[k].pane_id@);
    }
    assert forall|i: int| 0 <= i < order@.len() && (focused is None || i > 0) implies exists|k: int|
        {
            &&& 0 <= k < nodes@.len()
            &&& (#[trigger] nodes@[k]).pane_id@ == (#[trigger] order@[i]).pane_id@
            &&& nodes@[k].workspace_id@ == order@[i].workspace_id@
            &&& forall|x: int|
                0 <= x < k ==> (#[trigger] nodes@[x]).pane_id@ != order@[i].pane_id@
        } by {
        let id = panes[i].pane_id;
        let k = layout_rank(views, id);
        lemma_layout_rank(views, id);
        assert(panes[i] == views[k]);
        assert forall|x: int| 0 <= x < k implies (
        #[trigger] nodes@[x]).pane_id@ != order@[i].pane_id@ by {
            assert(views[x] == nodes@[x]@);
        }
        assert(nodes@[k].pane_id@ == order@[i].pane_id@);
    }
    if focused is Some {
        assert(panes[0] == order@[0]@);
    }
}

/// In the order that is built, the later a pane was focused, the earlier it
/// stands; panes that never were focused come last. Panes that were focused at
/// the same time, or never, stand as the layout first lists them: at `k` and
/// `m`, for the panes at `i` and `j` of the order.
pub proof fn law_built_order_goes_by_time(
    nodes: &[NavigationNode],
    focused: Option<&FocusedPaneInfo>,
    pane_ts: &StringHashMap<u64>,
    order: Vec<CyclePane>,
    i: int,
    j: int,
    k: int,
    m: int,
)
    requires
        call_ensures(build_order, (nodes, focused, pane_ts), order),
        0 <= i < order@.len(),
        0 <= j < order@.len(),
        focused is Some ==> i > 0 && j > 0,
        0 <= k < nodes@.len(),
        0 <= m < nodes@.len(),
        nodes@[k].pane_id@ == order@[i].pane_id@,
        nodes@[m].pane_id@ == order@[j].pane_id@,
        forall|x: int| 0 <= x < k ==> (#[trigger] nodes@[x]).pane_id@ != nodes@[k].pane_id@,
        forall|x: int| 0 <= x < m ==> (#[trigger] nodes@[x]).pane_id@ != nodes@[m].pane_id@,
    ensures
        ({
            let (a, b) = (order@[i].pane_id@, order@[j].pane_id@);
            let (timed, also) = (pane_ts@.contains_key(a), pane_ts@.contains_key(b));
            &&& timed && also && pane_ts@[a] > pane_ts@[b] ==> i < j
            &&& timed && !also ==> i < j
            &&& timed && also && pane_ts@[a] == pane_ts@[b] && k < m ==> i < j
            &&& !timed && !also && k < m ==> i < j
        }),
{
    let views = node_views(nodes@);
    let panes = pane_views(order@);
    let head = focused_ref_view_opt(focused);
    assert forall|x: int| 0 <= x < nodes@.len() implies views[x] == (#[trigger] nodes@[x])@ by {}
    assert(panes[i] == order@[i]@);
    assert(panes[j] == order@[j]@);
    assert(panes == cycle_order(views, head, pane_ts@));
    if focused is Some {
        assert(panes[0] == head->0);
        assert(panes[0].pane_id != panes[i].pane_id);
        assert(panes[0].pane_id != panes[j].pane_id);
    }
    assert forall|x: int| 0 <= x < k implies (#[trigger] views[x]).pane_id
        != views[k].pane_id by {
        assert(nodes@[x].pane_id@ != nodes@[k].pane_id@);
    }
    assert forall|x: int| 0 <= x < m implies (#[trigger] views[x]).pane_id
        != views[m].pane_id by {
        assert(nodes@[x].pane_id@ != nodes@[m].pane_id@);
    }
    law_later_focused_stands_earlier(views, head, pane_ts@, i, j, k, m);
}

} // verus!
