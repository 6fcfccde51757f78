//! What a finished session does to the recency history.

use vstd::prelude::*;

use crate::mru::{bump, enter_all, mentions, others, same_subject, RecordView};
use crate::reconcile::{
    lemma_squeeze_last, pane_record, reconciled_panes, records_of, workspace_record,
};
use crate::session::SessionView;
use crate::track::closing_records;

verus! {

/// The entries of a history that none of `records` is about.
pub open spec fn untouched(
    history: Seq<RecordView>,
    records: Seq<RecordView>,
) -> Seq<RecordView> {
    history.filter(|e: RecordView| !mentions(records, e))
}

/// What one more record is about.
proof fn lemma_mentions_push(records: Seq<RecordView>, last: RecordView, entry: RecordView)
    ensures
        mentions(records.push(last), entry) <==> mentions(records, entry) || same_subject(
            entry,
            last,
        ),
{
    let longer = records.push(last);
    if mentions(records, entry) {
        let i = choose|i: int|
            0 <= i < records.len() && same_subject(entry, #[trigger] records[i]);
        assert(longer[i] == records[i]);
    }
    if same_subject(entry, last) {
        assert(longer[records.len() as int] == last);
    }
    if mentions(longer, entry) {
        let i = choose|i: int| 0 <= i < longer.len() && same_subject(entry, #[trigger] longer[i]);
        if i < records.len() {
            assert(records[i] == longer[i]);
        }
    }
}

/// Two filters in a row, the second of which is for one more record.
proof fn lemma_untouched_push(
    history: Seq<RecordView>,
    records: Seq<RecordView>,
    last: RecordView,
)
    ensures
        others(untouched(history, records), last) == untouched(history, records.push(last)),
    decreases history.len(),
{
    reveal(Seq::filter);
    if history.len() > 0 {
        let e = history.last();
        lemma_untouched_push(history.drop_last(), records, last);
        lemma_mentions_push(records, last, e);
        let fewer = untouched(history.drop_last(), records);
        assert(fewer.push(e).drop_last() =~= fewer);
    }
}

/// The others in two histories, one after the other.
proof fn lemma_others_add(a: Seq<RecordView>, b: Seq<RecordView>, record: RecordView)
    ensures
        others(a + b, record) == others(a, record) + others(b, record),
    decreases b.len(),
{
    reveal(Seq::filter);
    if b.len() > 0 {
        lemma_others_add(a, b.drop_last(), record);
        assert((a + b).drop_last() =~= a + b.drop_last());
        assert(others(a + b, record) =~= others(a, record) + others(b, record));
    } else {
        assert(a + b =~= a);
        assert(others(b, record) =~= Seq::empty());
        assert(others(a, record) + others(b, record) =~= others(a, record));
    }
}

/// Entries that no record is about keep their order, below all that were
/// entered.
pub proof fn law_history_rest_untouched(history: Seq<RecordView>, records: Seq<RecordView>)
    ensures
        enter_all(history, records) == enter_all(Seq::empty(), records) + untouched(
            history,
            records,
        ),
    decreases records.len(),
{
    reveal(Seq::filter);
    if records.len() == 0 {
        lemma_untouched_by_none(history, records);
        assert(enter_all(Seq::empty(), records) + untouched(history, records) =~= history);
    } else {
        let fewer = records.drop_last();
        let last = records.last();
        law_history_rest_untouched(history, fewer);
        let entered = enter_all(Seq::empty(), fewer);
        lemma_others_add(entered, untouched(history, fewer), last);
        lemma_untouched_push(history, fewer, last);
        assert(fewer.push(last) =~= records);
        assert(bump(entered + untouched(history, fewer), last) =~= bump(entered, last)
            + untouched(history, records));
    }
}

proof fn lemma_untouched_by_none(history: Seq<RecordView>, records: Seq<RecordView>)
    requires
        records.len() == 0,
    ensures
        untouched(history, records) == history,
    decreases history.len(),
{
    reveal(Seq::filter);
    if history.len() > 0 {
        lemma_untouched_by_none(history.drop_last(), records);
        assert(history.drop_last().push(history.last()) =~= history);
    } else {
        assert(untouched(history, records) =~= history);
    }
}

/// A filter keeps what it admits.
proof fn lemma_filter_keeps<A>(s: Seq<A>, pred: spec_fn(A) -> bool, q: int) -> (j: int)
    requires
        0 <= q < s.len(),
        pred(s[q]),
    ensures
        0 <= j < s.filter(pred).len(),
        s.filter(pred)[j] == s[q],
    decreases s.len(),
{
    reveal(Seq::filter);
    if q == s.len() - 1 {
        s.filter(pred).len() - 1
    } else {
        lemma_filter_keeps(s.drop_last(), pred, q)
    }
}

/// A filter keeps the order of what it admits.
proof fn lemma_filter_keeps_order<A>(
    s: Seq<A>,
    pred: spec_fn(A) -> bool,
    p: int,
    q: int,
) -> (r: (int, int))
    requires
        0 <= p < q < s.len(),
        pred(s[p]),
        pred(s[q]),
    ensures
        0 <= r.0 < r.1 < s.filter(pred).len(),
        s.filter(pred)[r.0] == s[p],
        s.filter(pred)[r.1] == s[q],
    decreases s.len(),
{
    reveal(Seq::filter);
    if q == s.len() - 1 {
        let i = lemma_filter_keeps(s.drop_last(), pred, p);
        (i, s.filter(pred).len() - 1)
    } else {
        lemma_filter_keeps_order(s.drop_last(), pred, p, q)
    }
}

/// Whether no record after the one at `i` is about the same thing.
pub open spec fn last_word(records: Seq<RecordView>, i: int) -> bool {
    forall|k: int|
        i < k < records.len() ==> !same_subject(records[i], #[trigger] records[k])
}

/// Whether `a` stands above `b` in a history, most recent first.
pub open spec fn above(history: Seq<RecordView>, a: RecordView, b: RecordView) -> bool {
    exists|p: int, q: int|
        0 <= p < q < history.len() && #[trigger] history[p] == a && #[trigger] history[q] == b
}

/// The last word about a thing is in the history.
proof fn lemma_last_word_entered(
    history: Seq<RecordView>,
    records: Seq<RecordView>,
    i: int,
) -> (p: int)
    requires
        0 <= i < records.len(),
        last_word(records, i),
    ensures
        0 <= p < enter_all(history, records).len(),
        enter_all(history, records)[p] == records[i],
    decreases records.len(),
{
    let fewer = records.drop_last();
    let last = records.last();
    if i == records.len() - 1 {
        0
    } else {
        assert forall|k: int| i < k < fewer.len() implies !same_subject(
            fewer[i],
            #[trigger] fewer[k],
        ) by {
            assert(!same_subject(records[i], records[k]));
        }
        let p = lemma_last_word_entered(history, fewer, i);
        assert(!same_subject(records[i], records[records.len() - 1]));
        let j = lemma_filter_keeps(
            enter_all(history, fewer),
            |e: RecordView| !same_subject(e, last),
            p,
        );
        j + 1
    }
}

/// What was entered later is more recent: of two things, the one that had the
/// last word later stands above the other.
pub proof fn law_later_is_more_recent(
    history: Seq<RecordView>,
    records: Seq<RecordView>,
    i: int,
    j: int,
)
    requires
        0 <= i < j < records.len(),
        last_word(records, i),
        last_word(records, j),
    ensures
        above(enter_all(history, records), records[j], records[i]),
    decreases records.len(),
{
    let after = enter_all(history, records);
    let fewer = records.drop_last();
    let last = records.last();
    let prior = enter_all(history, fewer);
    let keep = |e: RecordView| !same_subject(e, last);
    assert(!same_subject(records[i], records[records.len() - 1]));
    if j == records.len() - 1 {
        assert(after[0] == records[j]);
        let q = lemma_last_word_entered(history, records, i);
        assert(same_subject(records[j], records[j]));
        assert(q != 0);
        assert(after[q] == records[i]);
    } else {
        assert(!same_subject(records[j], records[records.len() - 1]));
        assert forall|k: int| i < k < fewer.len() implies !same_subject(
            fewer[i],
            #[trigger] fewer[k],
        ) by {
            assert(!same_subject(records[i], records[k]));
        }
        assert forall|k: int| j < k < fewer.len() implies !same_subject(
            fewer[j],
            #[trigger] fewer[k],
        ) by {
            assert(!same_subject(records[j], records[k]));
        }
        law_later_is_more_recent(history, fewer, i, j);
        let (p, q) = choose|p: int, q: int|
            0 <= p < q < prior.len() && #[trigger] prior[p] == fewer[j] && #[trigger] prior[q]
                == fewer[i];
        let (p2, q2) = lemma_filter_keeps_order(prior, keep, p, q);
        assert(after[p2 + 1] == records[j]);
        assert(after[q2 + 1] == records[i]);
    }
}

/// When a session ends, the pane that was focused last becomes the most recent
/// pane, and its workspace the most recent workspace: the pane it landed on,
/// where nothing was focused by other means since.
pub proof fn law_last_focus_becomes_most_recent(session: SessionView, history: Seq<RecordView>)
    requires
        session.focus_log().len() > 0,
    ensures
        ({
            let last = session.focus_log().last();
            let after = enter_all(history, closing_records(session));
            &&& after.len() >= 2
            &&& after[0] == workspace_record(last)
            &&& after[1] == pane_record(last)
        }),
        session.landing_is_last() ==> session.focus_log().last() == session.landed->0,
{
    reveal(Seq::filter);
    let all = session.focus_log();
    let panes = reconciled_panes(session);
    lemma_squeeze_last(all);
    let records = records_of(panes);
    let n = records.len();
    let pane = all.last();
    assert(records[n - 1] == workspace_record(pane));
    assert(records[n - 2] == pane_record(pane));
    let fewer = records.drop_last();
    assert(fewer.last() == pane_record(pane));
    let prior = enter_all(history, fewer);
    assert(prior[0] == pane_record(pane));
    let rest = enter_all(history, fewer.drop_last());
    lemma_others_add(
        seq![pane_record(pane)],
        others(rest, pane_record(pane)),
        workspace_record(pane),
    );
    let one = seq![pane_record(pane)];
    assert(one.drop_last() =~= Seq::empty());
    assert(others(one, workspace_record(pane)) =~= one);
}

/// Records one after the other.
pub proof fn lemma_enter_add(
    history: Seq<RecordView>,
    first: Seq<RecordView>,
    second: Seq<RecordView>,
)
    ensures
        enter_all(history, first + second) == enter_all(enter_all(history, first), second),
    decreases second.len(),
{
    if second.len() == 0 {
        assert(first + second =~= first);
    } else {
        lemma_enter_add(history, first, second.drop_last());
        assert((first + second).drop_last() =~= first + second.drop_last());
    }
}

/// The last word counts: what was entered about a thing before makes no
/// difference, where later records are about the same thing.
pub proof fn law_last_word_counts(
    history: Seq<RecordView>,
    record: RecordView,
    records: Seq<RecordView>,
)
    requires
        mentions(records, record),
    ensures
        enter_all(bump(history, record), records) == enter_all(history, records),
{
    law_history_rest_untouched(bump(history, record), records);
    law_history_rest_untouched(history, records);
    let rest = others(history, record);
    lemma_untouched_add(seq![record], rest, records);
    lemma_untouched_others(history, record, records);
    reveal(Seq::filter);
    let one = seq![record];
    assert(one.drop_last() =~= Seq::empty());
    assert(untouched(Seq::empty(), records) =~= Seq::empty());
    assert(untouched(one, records) =~= Seq::empty());
    assert(untouched(one, records) + untouched(rest, records) =~= untouched(rest, records));
}

/// What is untouched in two histories, one after the other.
proof fn lemma_untouched_add(
    a: Seq<RecordView>,
    b: Seq<RecordView>,
    records: Seq<RecordView>,
)
    ensures
        untouched(a + b, records) == untouched(a, records) + untouched(b, records),
    decreases b.len(),
{
    reveal(Seq::filter);
    if b.len() > 0 {
        lemma_untouched_add(a, b.drop_last(), records);
        assert((a + b).drop_last() =~= a + b.drop_last());
        assert(untouched(a + b, records) =~= untouched(a, records) + untouched(b, records));
    } else {
        assert(a + b =~= a);
        assert(untouched(a, records) + untouched(b, records) =~= untouched(a, records));
    }
}

/// What is untouched does not depend on entries that a record is about.
proof fn lemma_untouched_others(
    history: Seq<RecordView>,
    record: RecordView,
    records: Seq<RecordView>,
)
    requires
        mentions(records, record),
    ensures
        untouched(others(history, record), records) == untouched(history, records),
    decreases history.len(),
{
    reveal(Seq::filter);
    if history.len() > 0 {
        let e = history.last();
        let shorter = history.drop_last();
        lemma_untouched_others(shorter, record, records);
        if same_subject(e, record) {
            let i = choose|i: int|
                0 <= i < records.len() && same_subject(record, #[trigger] records[i]);
            assert(same_subject(e, records[i]));
        } else {
            assert(others(shorter, record).push(e).drop_last() =~= others(shorter, record));
        }
    }
}

} // verus!
