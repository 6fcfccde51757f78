//! Recency records: what was focused, in which workspace.

use vstd::prelude::*;

verus! {

/// What a recency record is about.
#[derive(Debug, Clone, Copy, PartialEq, Eq, Structural)]
pub enum MruKind {
    Pane,
    Workspace,
    Tab,
}

/// What a record is, apart from how its strings are stored.
#[verifier::ext_equal]
pub struct RecordView {
    pub kind: MruKind,
    pub id: Seq<char>,
    pub workspace_id: Seq<char>,
}

/// A focus that is entered into the recency history.
#[derive(Debug, Clone)]
pub struct MruRecord {
    pub kind: MruKind,
    pub id: String,
    pub workspace_id: String,
}

impl View for MruRecord {
    type V = RecordView;

    open spec fn view(&self) -> RecordView {
        RecordView { kind: self.kind, id: self.id@, workspace_id: self.workspace_id@ }
    }
}

/// The records of `records`, in order.
pub open spec fn record_views(records: Seq<MruRecord>) -> Seq<RecordView> {
    records.map_values(|r: MruRecord| r@)
}

/// Whether two records are about the same thing.
pub open spec fn same_subject(a: RecordView, b: RecordView) -> bool {
    a.kind == b.kind && a.id == b.id
}

/// Whether `records` holds one about the same thing as `entry`.
pub open spec fn mentions(records: Seq<RecordView>, entry: RecordView) -> bool {
    exists|i: int| 0 <= i < records.len() && same_subject(entry, #[trigger] records[i])
}

/// The entries of a history that are not about the same thing as `record`.
pub open spec fn others(history: Seq<RecordView>, record: RecordView) -> Seq<RecordView> {
    history.filter(|e: RecordView| !same_subject(e, record))
}

/// A recency history, most recent first, after one more record: the record is
/// on top, and nothing else is about the same thing.
pub open spec fn bump(history: Seq<RecordView>, record: RecordView) -> Seq<RecordView> {
    seq![record] + others(history, record)
}

/// A recency history after several records, entered first to last.
pub open spec fn enter_all(history: Seq<RecordView>, records: Seq<RecordView>) -> Seq<RecordView>
    decreases records.len(),
{
    if records.len() == 0 {
        history
    } else {
        bump(enter_all(history, records.drop_last()), records.last())
    }
}

/// Enters a record into a recency history, most recent first: an earlier entry
/// about the same thing makes way for it.
pub fn enter_record(history: &mut Vec<MruRecord>, record: MruRecord)
    ensures
        record_views(final(history)@) == bump(record_views(old(history)@), record@),
        final(history)@ == seq![record] + old(history)@.filter(
            |e: MruRecord| e.kind != record.kind || e.id@ != record.id@,
        ),
{
    let ghost entries = history@;
    let ghost before = record_views(history@);
    let ghost keep = |e: RecordView| !same_subject(e, record@);
    let ghost stays = |e: MruRecord| e.kind != record.kind || e.id@ != record.id@;
    let ghost top = record@;
    let mut k: usize = 0;
    let mut i: usize = 0;
    let n: usize = history.len();
    assert(before.skip(0) =~= before);
    assert(entries.skip(0) =~= entries);
    while i < n
        invariant
            k + (n - i) == history@.len(),
            i <= n == before.len(),
            record_views(history@) =~= before.take(i as int).filter(keep) + before.skip(i as int),
            before.take(i as int).filter(keep).len() == k,
            before == record_views(entries),
            history@ =~= entries.take(i as int).filter(stays) + entries.skip(i as int),
            entries.take(i as int).filter(stays).len() == k,
            stays == (|e: MruRecord| e.kind != record.kind || e.id@ != record.id@),
            keep == (|e: RecordView| !same_subject(e, record@)),
        decreases n - i,
    {
        let ghost seen = before.take(i as int);
        let same = history[k].kind == record.kind && history[k].id == record.id;
        proof {
            assert(record_views(history@)[k as int] == before[i as int]);
            assert(before.take(i + 1) =~= seen.push(before[i as int]));
            reveal(Seq::filter);
            assert(seen.push(before[i as int]).drop_last() =~= seen);
            assert(history@[k as int] == entries[i as int]);
            assert(entries.take(i + 1) =~= entries.take(i as int).push(entries[i as int]));
            assert(entries.take(i as int).push(entries[i as int]).drop_last() =~= entries.take(
                i as int,
            ));
        }
        if same {
            let ghost prior = history@;
            history.remove(k);
            assert(record_views(history@) =~= record_views(prior).remove(k as int));
        } else {
            k = k + 1;
        }
        i = i + 1;
    }
    assert(before.take(n as int) =~= before);
    assert(entries.take(n as int) =~= entries);
    history.insert(0, record);
    assert(record_views(history@) =~= bump(before, top));
}

} // verus!
