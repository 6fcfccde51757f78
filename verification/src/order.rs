//! The order in which a cycle visits the live panes.

use vstd::prelude::*;

use crate::pane::{
    focused_ref_view_opt, node_views, pane_views, CyclePane, FocusedPaneInfo, NavigationNode,
    PaneView,
};
use vstd::hash_map::StringHashMap;
use vstd::hash_set::StringHashSet;

verus! {

/// The index at which `nodes` first lists the pane `id`, or the length of
/// `nodes` if it lists no such pane.
pub open spec fn layout_rank(nodes: Seq<PaneView>, id: Seq<char>) -> int
    decreases nodes.len(),
{
    if nodes.len() == 0 {
        0
    } else if nodes[0].pane_id == id {
        0
    } else {
        1 + layout_rank(nodes.drop_first(), id)
    }
}

/// Whether pane `a` is visited before pane `b`: panes with a focus time come
/// first, the latest leading; panes with equal times, and panes without one,
/// keep the layout order.
pub open spec fn ahead(
    nodes: Seq<PaneView>,
    pane_ts: Map<Seq<char>, u64>,
    a: Seq<char>,
    b: Seq<char>,
) -> bool {
    if pane_ts.contains_key(a) && pane_ts.contains_key(b) && pane_ts[a] != pane_ts[b] {
        pane_ts[a] > pane_ts[b]
    } else if pane_ts.contains_key(a) != pane_ts.contains_key(b) {
        pane_ts.contains_key(a)
    } else {
        layout_rank(nodes, a) < layout_rank(nodes, b)
    }
}

/// Whether `order` holds a pane with the identifier `id`.
pub open spec fn lists(order: Seq<PaneView>, id: Seq<char>) -> bool {
    exists|i: int| 0 <= i < order.len() && (#[trigger] order[i]).pane_id == id
}

/// The number of leading places in an order that the focused pane takes.
pub open spec fn head_len(focused: Option<PaneView>) -> int {
    if focused is Some {
        1
    } else {
        0
    }
}

/// Whether `order` visits no pane twice, leads with the focused pane, and
/// otherwise holds live panes only, as the layout first lists them, each
/// before those that it goes ahead of.
pub open spec fn is_order_of_some(
    order: Seq<PaneView>,
    nodes: Seq<PaneView>,
    focused: Option<PaneView>,
    pane_ts: Map<Seq<char>, u64>,
) -> bool {
    &&& focused matches Some(f) ==> order.len() > 0 && order[0] == f
    &&& forall|i: int, j: int|
        0 <= i < j < order.len() ==> (#[trigger] order[i]).pane_id != (
        #[trigger] order[j]).pane_id
    &&& forall|i: int|
        head_len(focused) <= i < order.len() ==> {
            let rank = layout_rank(nodes, (#[trigger] order[i]).pane_id);
            rank < nodes.len() && order[i] == nodes[rank]
        }
    &&& forall|i: int, j: int|
        head_len(focused) <= i < j < order.len() ==> ahead(
            nodes,
            pane_ts,
            (#[trigger] order[i]).pane_id,
            (#[trigger] order[j]).pane_id,
        )
}

/// The cycle order: the focused pane, then every other live pane once, in the
/// order that `ahead` gives.
pub open spec fn is_cycle_order(
    order: Seq<PaneView>,
    nodes: Seq<PaneView>,
    focused: Option<PaneView>,
    pane_ts: Map<Seq<char>, u64>,
) -> bool {
    &&& is_order_of_some(order, nodes, focused, pane_ts)
    &&& forall|k: int| 0 <= k < nodes.len() ==> lists(order, (#[trigger] nodes[k]).pane_id)
}

/// The cycle order of the live panes. There is exactly one: see
/// `lemma_cycle_order_exists` and `lemma_cycle_order_unique`.
pub open spec fn cycle_order(
    nodes: Seq<PaneView>,
    focused: Option<PaneView>,
    pane_ts: Map<Seq<char>, u64>,
) -> Seq<PaneView> {
    choose|order: Seq<PaneView>| is_cycle_order(order, nodes, focused, pane_ts)
}

/// What `layout_rank` is: the pane stands at the rank, and nowhere before it.
pub proof fn lemma_layout_rank(nodes: Seq<PaneView>, id: Seq<char>)
    ensures
        0 <= layout_rank(nodes, id) <= nodes.len(),
        layout_rank(nodes, id) < nodes.len() ==> nodes[layout_rank(nodes, id)].pane_id == id,
        forall|k: int|
            0 <= k < nodes.len() && (#[trigger] nodes[k]).pane_id == id ==> layout_rank(nodes, id)
                <= k,
    decreases nodes.len(),
{
    if nodes.len() > 0 && nodes[0].pane_id != id {
        let rest = nodes.drop_first();
        lemma_layout_rank(rest, id);
        assert forall|k: int|
            0 <= k < nodes.len() && (#[trigger] nodes[k]).pane_id == id implies layout_rank(
            nodes,
            id,
        ) <= k by {
            assert(rest[k - 1] == nodes[k]);
        }
    }
}

/// A live pane that is not listed yet, and that all panes but the focused one
/// go ahead of, extends an order.
proof fn lemma_extend_order(
    order: Seq<PaneView>,
    nodes: Seq<PaneView>,
    focused: Option<PaneView>,
    pane_ts: Map<Seq<char>, u64>,
    k: int,
)
    requires
        is_order_of_some(order, nodes, focused, pane_ts),
        0 <= k < nodes.len(),
        k == layout_rank(nodes, nodes[k].pane_id),
        !lists(order, nodes[k].pane_id),
        forall|i: int|
            head_len(focused) <= i < order.len() ==> ahead(
                nodes,
                pane_ts,
                (#[trigger] order[i]).pane_id,
                nodes[k].pane_id,
            ),
    ensures
        is_order_of_some(order.push(nodes[k]), nodes, focused, pane_ts),
{
    let longer = order.push(nodes[k]);
    assert forall|i: int, j: int| 0 <= i < j < longer.len() implies (
    #[trigger] longer[i]).pane_id != (#[trigger] longer[j]).pane_id by {
        assert(longer[i] == order[i]);
        if j < order.len() {
            assert(longer[j] == order[j]);
        }
    }
    assert forall|i: int, j: int| head_len(focused) <= i < j < longer.len() implies ahead(
        nodes,
        pane_ts,
        (#[trigger] longer[i]).pane_id,
        (#[trigger] longer[j]).pane_id,
    ) by {
        assert(longer[i] == order[i]);
        if j < order.len() {
            assert(longer[j] == order[j]);
        }
    }
}

/// The cycle order is determined: whatever meets its description is the same
/// sequence of panes.
pub proof fn lemma_cycle_order_unique(
    a: Seq<PaneView>,
    b: Seq<PaneView>,
    nodes: Seq<PaneView>,
    focused: Option<PaneView>,
    pane_ts: Map<Seq<char>, u64>,
)
    requires
        is_cycle_order(a, nodes, focused, pane_ts),
        is_cycle_order(b, nodes, focused, pane_ts),
    ensures
        a == b,
{
    lemma_orders_agree(a, b, nodes, focused, pane_ts, a.len() as int);
    if b.len() > a.len() {
        lemma_order_index(b, a, nodes, focused, pane_ts, a.len() as int);
    }
    assert(a =~= b);
}

/// A pane of one order stands somewhere in the other.
proof fn lemma_order_index(
    a: Seq<PaneView>,
    b: Seq<PaneView>,
    nodes: Seq<PaneView>,
    focused: Option<PaneView>,
    pane_ts: Map<Seq<char>, u64>,
    i: int,
) -> (p: int)
    requires
        is_cycle_order(a, nodes, focused, pane_ts),
        is_cycle_order(b, nodes, focused, pane_ts),
        0 <= i < a.len(),
    ensures
        0 <= p < b.len(),
        b[p] == a[i],
{
    let id = a[i].pane_id;
    lemma_layout_rank(nodes, id);
    if i < head_len(focused) {
        0
    } else {
        assert(nodes[layout_rank(nodes, id)].pane_id == id);
        assert(lists(b, id));
        let p = choose|p: int| 0 <= p < b.len() && (#[trigger] b[p]).pane_id == id;
        if p < head_len(focused) {
            assert(a[0].pane_id != a[i].pane_id);
        }
        p
    }
}

/// Two cycle orders agree on their first `n` panes.
proof fn lemma_orders_agree(
    a: Seq<PaneView>,
    b: Seq<PaneView>,
    nodes: Seq<PaneView>,
    focused: Option<PaneView>,
    pane_ts: Map<Seq<char>, u64>,
    n: int,
)
    requires
        is_cycle_order(a, nodes, focused, pane_ts),
        is_cycle_order(b, nodes, focused, pane_ts),
        0 <= n <= a.len(),
    ensures
        n <= b.len(),
        forall|i: int| 0 <= i < n ==> #[trigger] a[i] == b[i],
    decreases n,
{
    if n > 0 {
        let i = n - 1;
        lemma_orders_agree(a, b, nodes, focused, pane_ts, i);
        let p = lemma_order_index(a, b, nodes, focused, pane_ts, i);
        if p < i {
            assert(a[p] == b[p]);
            assert(a[p].pane_id != a[i].pane_id);
        }
        if p > i {
            let q = lemma_order_index(b, a, nodes, focused, pane_ts, i);
            if q < i {
                assert(a[q] == b[q]);
                assert(b[q].pane_id != b[i].pane_id);
            }
            if q == i {
                assert(b[i].pane_id != b[p].pane_id);
            }
            if i >= head_len(focused) {
                assert(ahead(nodes, pane_ts, b[i].pane_id, b[p].pane_id));
                assert(ahead(nodes, pane_ts, a[i].pane_id, a[q].pane_id));
            }
        }
    }
}

/// Every layout has a cycle order.
pub proof fn lemma_cycle_order_exists(
    nodes: Seq<PaneView>,
    focused: Option<PaneView>,
    pane_ts: Map<Seq<char>, u64>,
)
    ensures
        is_cycle_order(cycle_order(nodes, focused, pane_ts), nodes, focused, pane_ts),
    decreases nodes.len(),
{
    if nodes.len() == 0 {
        let order = match focused {
            Some(f) => seq![f],
            None => Seq::empty(),
        };
        assert(is_cycle_order(order, nodes, focused, pane_ts));
    } else {
        let shorter = nodes.drop_last();
        let pane = nodes.last();
        lemma_cycle_order_exists(shorter, focused, pane_ts);
        let order = cycle_order(shorter, focused, pane_ts);
        let next = lemma_order_with_one_more(order, shorter, focused, pane_ts, pane);
        assert(shorter.push(pane) =~= nodes);
        assert(is_cycle_order(next, nodes, focused, pane_ts));
    }
}

/// A cycle order for one more pane, listed last in the layout.
proof fn lemma_order_with_one_more(
    order: Seq<PaneView>,
    nodes: Seq<PaneView>,
    focused: Option<PaneView>,
    pane_ts: Map<Seq<char>, u64>,
    pane: PaneView,
) -> (next: Seq<PaneView>)
    requires
        is_cycle_order(order, nodes, focused, pane_ts),
    ensures
        is_cycle_order(next, nodes.push(pane), focused, pane_ts),
{
    let longer = nodes.push(pane);
    let head = head_len(focused);
    assert forall|id: Seq<char>| #[trigger]
        layout_rank(longer, id) == if layout_rank(nodes, id) < nodes.len() || id == pane.pane_id {
            layout_rank(nodes, id)
        } else {
            longer.len() as int
        } by {
        lemma_layout_rank_push(nodes, pane, id);
    }
    assert forall|i: int| head <= i < order.len() implies {
        let rank = layout_rank(longer, (#[trigger] order[i]).pane_id);
        &&& rank == layout_rank(nodes, order[i].pane_id)
        &&& rank < nodes.len()
        &&& longer[rank] == order[i]
    } by {
        lemma_layout_rank(nodes, order[i].pane_id);
    }
    if lists(order, pane.pane_id) {
        assert(is_order_of_some(order, longer, focused, pane_ts)) by {
            assert forall|i: int, j: int| head <= i < j < order.len() implies ahead(
                longer,
                pane_ts,
                (#[trigger] order[i]).pane_id,
                (#[trigger] order[j]).pane_id,
            ) by {
                assert(ahead(nodes, pane_ts, order[i].pane_id, order[j].pane_id));
            }
        }
        assert forall|k: int| 0 <= k < longer.len() implies lists(
            order,
            (#[trigger] longer[k]).pane_id,
        ) by {
            if k < nodes.len() {
                assert(longer[k] == nodes[k]);
            }
        }
        order
    } else {
        let id = pane.pane_id;
        lemma_layout_rank(nodes, id);
        if layout_rank(nodes, id) < nodes.len() {
            assert(lists(order, nodes[layout_rank(nodes, id)].pane_id));
        }
        let p = lemma_place(order, longer, focused, pane_ts, id, order.len() as int);
        let next = order.insert(p, pane);
        assert forall|i: int| 0 <= i < order.len() implies #[trigger] order[i] == next[if i < p {
            i
        } else {
            i + 1
        }] by {}
        assert forall|i: int| 0 <= i < next.len() && i != p implies #[trigger] next[i]
            == order[if i < p {
            i
        } else {
            i - 1
        }] by {}
        assert(next[p] == pane);
        assert(is_order_of_some(next, longer, focused, pane_ts)) by {
            assert forall|i: int| head <= i < next.len() implies {
                let rank = layout_rank(longer, (#[trigger] next[i]).pane_id);
                rank < longer.len() && next[i] == longer[rank]
            } by {
                if i != p {
                    assert(next[i] == order[if i < p { i } else { i - 1 }]);
                }
            }
            assert forall|i: int, j: int| 0 <= i < j < next.len() implies (
            #[trigger] next[i]).pane_id != (#[trigger] next[j]).pane_id by {
                let oi = if i < p { i } else { i - 1 };
                let oj = if j < p { j } else { j - 1 };
                if i == p {
                    assert(next[j] == order[oj]);
                } else if j == p {
                    assert(next[i] == order[oi]);
                } else {
                    assert(next[i] == order[oi] && next[j] == order[oj]);
                }
            }
            assert forall|i: int, j: int| head <= i < j < next.len() implies ahead(
                longer,
                pane_ts,
                (#[trigger] next[i]).pane_id,
                (#[trigger] next[j]).pane_id,
            ) by {
                let oi = if i < p { i } else { i - 1 };
                let oj = if j < p { j } else { j - 1 };
                if i == p {
                    assert(next[j] == order[oj]);
                } else if j == p {
                    assert(next[i] == order[oi]);
                } else {
                    assert(next[i] == order[oi] && next[j] == order[oj]);
                    assert(ahead(nodes, pane_ts, order[oi].pane_id, order[oj].pane_id));
                }
            }
        }
        assert forall|k: int| 0 <= k < longer.len() implies lists(
            next,
            (#[trigger] longer[k]).pane_id,
        ) by {
            if k < nodes.len() {
                assert(longer[k] == nodes[k]);
                assert(lists(order, nodes[k].pane_id));
                let i = choose|i: int|
                    0 <= i < order.len() && (#[trigger] order[i]).pane_id == nodes[k].pane_id;
                assert(next[if i < p { i } else { i + 1 }] == order[i]);
            } else {
                assert(next[p] == longer[k]);
            }
        }
        next
    }
}

/// The rank of a pane in a layout with one more entry.
proof fn lemma_layout_rank_push(nodes: Seq<PaneView>, pane: PaneView, id: Seq<char>)
    ensures
        layout_rank(nodes.push(pane), id) == if layout_rank(nodes, id) < nodes.len() || id
            == pane.pane_id {
            layout_rank(nodes, id)
        } else {
            (nodes.len() + 1) as int
        },
    decreases nodes.len(),
{
    let longer = nodes.push(pane);
    lemma_layout_rank(nodes, id);
    if nodes.len() == 0 {
        assert(longer.drop_first() =~= nodes);
        assert(longer[0] == pane);
        assert(layout_rank(nodes, id) == 0);
    } else {
        assert(longer[0] == nodes[0]);
        assert(longer.drop_first() =~= nodes.drop_first().push(pane));
        lemma_layout_rank_push(nodes.drop_first(), pane, id);
    }
}

/// The place among the first `n` panes of an order that falls to a pane the
/// order does not list: after those that go ahead of it, before all others.
proof fn lemma_place(
    order: Seq<PaneView>,
    nodes: Seq<PaneView>,
    focused: Option<PaneView>,
    pane_ts: Map<Seq<char>, u64>,
    id: Seq<char>,
    n: int,
) -> (p: int)
    requires
        head_len(focused) <= n <= order.len(),
        layout_rank(nodes, id) < nodes.len(),
        forall|i: int|
            head_len(focused) <= i < n ==> layout_rank(nodes, (#[trigger] order[i]).pane_id)
                != layout_rank(nodes, id),
        forall|i: int, j: int|
            head_len(focused) <= i < j < n ==> ahead(
                nodes,
                pane_ts,
                (#[trigger] order[i]).pane_id,
                (#[trigger] order[j]).pane_id,
            ),
    ensures
        head_len(focused) <= p <= n,
        forall|i: int|
            head_len(focused) <= i < p ==> ahead(
                nodes,
                pane_ts,
                (#[trigger] order[i]).pane_id,
                id,
            ),
        forall|i: int|
            p <= i < n ==> ahead(nodes, pane_ts, id, (#[trigger] order[i]).pane_id),
    decreases n,
{
    if n == head_len(focused) {
        n
    } else if ahead(nodes, pane_ts, order[n - 1].pane_id, id) {
        n
    } else {
        let p = lemma_place(order, nodes, focused, pane_ts, id, n - 1);
        p
    }
}

/// Whether entry `a` of a ranking, a layout index with its focus time, comes
/// before entry `b`.
spec fn entry_ahead(a: (usize, u64), b: (usize, u64)) -> bool {
    a.1 > b.1 || (a.1 == b.1 && a.0 < b.0)
}

/// Whether a ranking is in order.
spec fn is_ranking(entries: Seq<(usize, u64)>) -> bool {
    forall|x: int, y: int|
        0 <= x < y < entries.len() ==> entry_ahead(#[trigger] entries[x], #[trigger] entries[y])
}

/// Whether a ranking has an entry for the layout index `i`.
spec fn ranks(entries: Seq<(usize, u64)>, i: int) -> bool {
    exists|x: int| 0 <= x < entries.len() && (#[trigger] entries[x]).0 == i
}

/// Whether one of the first `n` entries of a ranking is for the layout index `i`.
spec fn came_from(entries: Seq<(usize, u64)>, n: int, i: int) -> bool {
    exists|x: int| 0 <= x < n && (#[trigger] entries[x]).0 == i
}

/// Whether `entries` ranks the live panes that have a focus time and whose
/// identifiers are not among `seen`.
spec fn is_ranking_of(
    entries: Seq<(usize, u64)>,
    nodes: Seq<PaneView>,
    seen: Set<Seq<char>>,
    pane_ts: Map<Seq<char>, u64>,
) -> bool {
    &&& is_ranking(entries)
    &&& forall|x: int|
        0 <= x < entries.len() ==> {
            let (i, ts) = #[trigger] entries[x];
            &&& i < nodes.len()
            &&& !seen.contains(nodes[i as int].pane_id)
            &&& pane_ts.contains_key(nodes[i as int].pane_id)
            &&& ts == pane_ts[nodes[i as int].pane_id]
        }
    &&& forall|i: int|
        0 <= i < nodes.len() && !seen.contains((#[trigger] nodes[i]).pane_id)
            && pane_ts.contains_key(nodes[i].pane_id) ==> ranks(entries, i)
}

/// What an order lists after one more pane.
proof fn lemma_lists_push(order: Seq<PaneView>, pane: PaneView)
    ensures
        forall|id: Seq<char>|
            #[trigger] lists(order.push(pane), id) <==> lists(order, id) || id == pane.pane_id,
{
    let longer = order.push(pane);
    assert forall|id: Seq<char>|
        #[trigger] lists(longer, id) <==> lists(order, id) || id == pane.pane_id by {
        if lists(order, id) {
            let i = choose|i: int| 0 <= i < order.len() && (#[trigger] order[i]).pane_id == id;
            assert(longer[i] == order[i]);
        }
        if id == pane.pane_id {
            assert(longer[order.len() as int] == pane);
        }
        if lists(longer, id) {
            let i = choose|i: int| 0 <= i < longer.len() && (#[trigger] longer[i]).pane_id == id;
            if i < order.len() {
                assert(order[i] == longer[i]);
            }
        }
    }
}

/// The next entry of a ranking, where its pane is not listed yet, is for the
/// place at which the layout first lists that pane, and all panes of the
/// earlier entries go ahead of it.
proof fn lemma_rank_next(
    order: Seq<PaneView>,
    nodes: Seq<PaneView>,
    focused: Option<PaneView>,
    pane_ts: Map<Seq<char>, u64>,
    seen: Set<Seq<char>>,
    entries: Seq<(usize, u64)>,
    x: int,
)
    requires
        is_ranking_of(entries, nodes, seen, pane_ts),
        0 <= x < entries.len(),
        !lists(order, nodes[entries[x].0 as int].pane_id),
        forall|y: int|
            0 <= y < x ==> lists(order, nodes[(#[trigger] entries[y]).0 as int].pane_id),
        forall|i: int|
            head_len(focused) <= i < order.len() ==> came_from(
                entries,
                x,
                layout_rank(nodes, (#[trigger] order[i]).pane_id),
            ),
    ensures
        entries[x].0 == layout_rank(nodes, nodes[entries[x].0 as int].pane_id),
        forall|i: int|
            head_len(focused) <= i < order.len() ==> ahead(
                nodes,
                pane_ts,
                (#[trigger] order[i]).pane_id,
                nodes[entries[x].0 as int].pane_id,
            ),
{
    let k = entries[x].0 as int;
    let id = nodes[k].pane_id;
    lemma_layout_rank(nodes, id);
    let r = layout_rank(nodes, id);
    assert(r <= k);
    if r < k {
        assert(nodes[r].pane_id == id);
        assert(ranks(entries, r));
        let y = choose|y: int| 0 <= y < entries.len() && (#[trigger] entries[y]).0 == r;
        if y > x {
            assert(entry_ahead(entries[x], entries[y]));
        }
        assert(y < x);
        assert(false);
    }
    assert forall|i: int| head_len(focused) <= i < order.len() implies ahead(
        nodes,
        pane_ts,
        (#[trigger] order[i]).pane_id,
        id,
    ) by {
        let a = order[i].pane_id;
        let ra = layout_rank(nodes, a);
        lemma_layout_rank(nodes, a);
        let y = choose|y: int| 0 <= y < x && (#[trigger] entries[y]).0 == ra;
        assert(entry_ahead(entries[y], entries[x]));
    }
}

/// Puts an entry in its place in a ranking of earlier layout indices.
fn insert_ranked(ranked: &mut Vec<(usize, u64)>, entry: (usize, u64))
    requires
        is_ranking(old(ranked)@),
        forall|x: int| 0 <= x < old(ranked)@.len() ==> (#[trigger] old(ranked)@[x]).0 < entry.0,
    ensures
        is_ranking(final(ranked)@),
        exists|p: int|
            0 <= p <= old(ranked)@.len() && final(ranked)@ == #[trigger] old(ranked)@.insert(
                p,
                entry,
            ),
{
    let mut p: usize = ranked.len();
    while p > 0 && ranked[p - 1].1 < entry.1
        invariant
            p <= ranked@.len(),
            is_ranking(ranked@),
            ranked@ == old(ranked)@,
            forall|x: int| p <= x < ranked@.len() ==> (#[trigger] ranked@[x]).1 < entry.1,
        decreases p,
    {
        p = p - 1;
    }
    ranked.insert(p, entry);
    proof {
        let before = old(ranked)@;
        let after = ranked@;
        assert(after == before.insert(p as int, entry));
        assert forall|x: int, y: int| 0 <= x < y < after.len() implies entry_ahead(
            #[trigger] after[x],
            #[trigger] after[y],
        ) by {
            let bx = if x < p { x } else { x - 1 };
            let by = if y < p { y } else { y - 1 };
            if x != p {
                assert(after[x] == before[bx]);
            }
            if y != p {
                assert(after[y] == before[by]);
            }
            if y == p {
                assert(before[x].1 >= entry.1) by {
                    if x < p - 1 {
                        assert(entry_ahead(before[x], before[p - 1]));
                    }
                }
            }
        }
    }
}

/// The layout indices of the live panes that have a focus time, other than
/// those that `seen` holds, the latest leading and equal times in layout order.
fn rank_by_time(
    nodes: &[NavigationNode],
    seen: &StringHashSet,
    pane_ts: &StringHashMap<u64>,
) -> (ranked: Vec<(usize, u64)>)
    ensures
        is_ranking_of(ranked@, node_views(nodes@), seen@, pane_ts@),
{
    let ghost views = node_views(nodes@);
    let mut ranked: Vec<(usize, u64)> = Vec::new();
    let mut k: usize = 0;
    while k < nodes.len()
        invariant
            k <= nodes@.len(),
            views == node_views(nodes@),
            is_ranking(ranked@),
            forall|x: int|
                0 <= x < ranked@.len() ==> {
                    let (i, ts) = #[trigger] ranked@[x];
                    &&& i < k
                    &&& !seen@.contains(views[i as int].pane_id)
                    &&& pane_ts@.contains_key(views[i as int].pane_id)
                    &&& ts == pane_ts@[views[i as int].pane_id]
                },
            forall|i: int|
                0 <= i < k && !seen@.contains((#[trigger] views[i]).pane_id)
                    && pane_ts@.contains_key(views[i].pane_id) ==> ranks(ranked@, i),
        decreases nodes@.len() - k,
    {
        let node = &nodes[k];
        assert(views[k as int] == node@);
        let ghost before = ranked@;
        if !seen.contains(node.pane_id.as_str()) {
            if let Some(ts) = pane_ts.get(node.pane_id.as_str()) {
                insert_ranked(&mut ranked, (k, *ts));
                proof {
                    let p = choose|p: int|
                        0 <= p <= before.len() && ranked@ == #[trigger] before.insert(p, (k, *ts));
                    assert(ranked@[p] == (k, *ts));
                    assert forall|i: int| ranks(before, i) implies ranks(ranked@, i) by {
                        let x = choose|x: int| 0 <= x < before.len() && (#[trigger] before[x]).0 == i;
                        assert(ranked@[if x < p { x } else { x + 1 }] == before[x]);
                    }
                    assert forall|x: int| 0 <= x < ranked@.len() implies {
                        let (i, ts) = #[trigger] ranked@[x];
                        &&& i < k + 1
                        &&& !seen@.contains(views[i as int].pane_id)
                        &&& pane_ts@.contains_key(views[i as int].pane_id)
                        &&& ts == pane_ts@[views[i as int].pane_id]
                    } by {
                        if x != p {
                            assert(ranked@[x] == before[if x < p { x } else { x - 1 }]);
                        }
                    }
                }
            }
        }
        k = k + 1;
    }
    ranked
}

/// Builds the frozen cycle order: the current pane first, then live panes by
/// focus time (latest first), then live panes without one, in layout order.
pub fn build_order(
    nodes: &[NavigationNode],
    focused: Option<&FocusedPaneInfo>,
    pane_ts: &StringHashMap<u64>,
) -> (order: Vec<CyclePane>)
    ensures
        is_cycle_order(
            pane_views(order@),
            node_views(nodes@),
            focused_ref_view_opt(focused),
            pane_ts@,
        ),
        pane_views(order@) == cycle_order(
            node_views(nodes@),
            focused_ref_view_opt(focused),
            pane_ts@,
        ),
{
    let ghost views = node_views(nodes@);
    let ghost head = focused_ref_view_opt(focused);
    let mut seen = StringHashSet::new();
    let mut order: Vec<CyclePane> = Vec::new();
    if let Some(f) = focused {
        seen.insert(f.pane_id.clone());
        order.push(
            CyclePane { pane_id: f.pane_id.clone(), workspace_id: f.workspace_id.clone() },
        );
    }
    proof {
        let o = pane_views(order@);
        if head is Some {
            assert(o[0] == head->0);
        }
        assert(is_order_of_some(o, views, head, pane_ts@));
        assert forall|id: Seq<char>| seen@.contains(id) <==> lists(o, id) by {
            if seen@.contains(id) {
                assert(o[0].pane_id == id);
            }
        }
    }

    let ranked = rank_by_time(nodes, &seen, pane_ts);
    let ghost first_seen = seen@;
    let mut x: usize = 0;
    while x < ranked.len()
        invariant
            x <= ranked@.len(),
            views == node_views(nodes@),
            is_ranking_of(ranked@, views, first_seen, pane_ts@),
            is_order_of_some(pane_views(order@), views, head, pane_ts@),
            forall|id: Seq<char>| seen@.contains(id) <==> #[trigger] lists(pane_views(order@), id),
            forall|id: Seq<char>| first_seen.contains(id) ==> seen@.contains(id),
            forall|i: int|
                head_len(head) <= i < order@.len() ==> came_from(
                    ranked@,
                    x as int,
                    layout_rank(views, (#[trigger] pane_views(order@)[i]).pane_id),
                ) && pane_ts@.contains_key(pane_views(order@)[i].pane_id),
            forall|y: int|
                0 <= y < x ==> seen@.contains(views[(#[trigger] ranked@[y]).0 as int].pane_id),
        decreases ranked@.len() - x,
    {
        let k: usize = ranked[x].0;
        assert(k < nodes@.len());
        let node = &nodes[k];
        let ghost before = pane_views(order@);
        if seen.insert(node.pane_id.clone()) {
            proof {
                lemma_rank_next(before, views, head, pane_ts@, first_seen, ranked@, x as int);
            }
            order.push(
                CyclePane { pane_id: node.pane_id.clone(), workspace_id: node.workspace_id.clone() },
            );
            proof {
                let after = pane_views(order@);
                assert(after =~= before.push(views[k as int]));
                lemma_extend_order(before, views, head, pane_ts@, k as int);
                lemma_lists_push(before, views[k as int]);
            }
        }
        x = x + 1;
    }

    let mut k: usize = 0;
    while k < nodes.len()
        invariant
            k <= nodes@.len(),
            views == node_views(nodes@),
            is_order_of_some(pane_views(order@), views, head, pane_ts@),
            forall|id: Seq<char>| seen@.contains(id) <==> #[trigger] lists(pane_views(order@), id),
            forall|i: int|
                0 <= i < nodes@.len() && pane_ts@.contains_key((#[trigger] views[i]).pane_id)
                    ==> seen@.contains(views[i].pane_id),
            forall|i: int|
                head_len(head) <= i < order@.len() ==> pane_ts@.contains_key(
                    (#[trigger] pane_views(order@)[i]).pane_id,
                ) || layout_rank(views, pane_views(order@)[i].pane_id) < k,
            forall|i: int| 0 <= i < k ==> seen@.contains((#[trigger] views[i]).pane_id),
        decreases nodes@.len() - k,
    {
        let node = &nodes[k];
        assert(views[k as int] == node@);
        let ghost before = pane_views(order@);
        if seen.insert(node.pane_id.clone()) {
            proof {
                lemma_layout_rank(views, node@.pane_id);
            }
            order.push(
                CyclePane { pane_id: node.pane_id.clone(), workspace_id: node.workspace_id.clone() },
            );
            proof {
                let after = pane_views(order@);
                assert(after =~= before.push(views[k as int]));
                lemma_extend_order(before, views, head, pane_ts@, k as int);
                lemma_lists_push(before, views[k as int]);
            }
        }
        k = k + 1;
    }
    proof {
        lemma_cycle_order_unique(
            pane_views(order@),
            cycle_order(views, head, pane_ts@),
            views,
            head,
            pane_ts@,
        );
    }
    order
}

} // verus!
