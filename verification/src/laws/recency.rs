//! Records and the history, entry by entry.

use vstd::prelude::*;

use crate::laws::layout::{lemma_filter_place, lemma_filter_places};
use crate::mru::{
    bump, enter_record, record_views, same_subject, MruKind, MruRecord, RecordView,
};
use crate::pane::{pane_view_opt, pane_views, PaneView};
use crate::reconcile::{lemma_squeeze_last, reconcile_records, reconciled_panes, squeeze};
use crate::session::{landed_seq, CycleSession};
use crate::track::{end_session_now, SessionUpdate};

verus! {

/// A record, of whatever kind, goes to the top of the history. Below it stand
/// the earlier entries that differ from it in kind or in identifier, all of
/// them, as they were and in the same order, and no others.
pub proof fn law_entered_record_on_top(history: &mut Vec<MruRecord>, record: MruRecord)
    requires
        call_ensures(enter_record, (history, record), ()),
    ensures
        final(history)@.len() > 0,
        final(history)@[0] == record,
        final(history)@.skip(1) == old(history)@.filter(
            |e: MruRecord| !(e.kind == record.kind && e.id@ == record.id@),
        ),
{
    let stays = |e: MruRecord| e.kind != record.kind || e.id@ != record.id@;
    let differs = |e: MruRecord| !(e.kind == record.kind && e.id@ == record.id@);
    assert(stays =~= differs);
    assert(final(history)@.skip(1) =~= old(history)@.filter(stays));
}

/// An earlier entry that differs from the new record in kind or in identifier
/// stays; one that differs in neither is gone.
pub proof fn law_other_entries_stay(
    history: &mut Vec<MruRecord>,
    record: MruRecord,
    i: int,
    j: int,
)
    requires
        call_ensures(enter_record, (history, record), ()),
    ensures
        0 <= i < old(history)@.len() ==> {
            let entry = old(history)@[i];
            entry.kind != record.kind || entry.id@ != record.id@ ==> final(history)@.skip(
                1,
            ).contains(entry)
        },
        0 < j < final(history)@.len() ==> {
            let left = final(history)@[j];
            &&& left.kind != record.kind || left.id@ != record.id@
            &&& old(history)@.contains(left)
        },
{
    let stays = |e: MruRecord| e.kind != record.kind || e.id@ != record.id@;
    let before = old(history)@;
    let rest = before.filter(stays);
    assert(final(history)@.skip(1) =~= rest);
    if 0 <= i < before.len() && stays(before[i]) {
        before.lemma_filter_contains(stays, i);
    }
    if 0 < j < final(history)@.len() {
        let p = lemma_filter_place(before, stays, j - 1);
        assert(final(history)@[j] == rest[j - 1]);
    }
}

/// A history that lists each thing once goes on doing so.
pub proof fn law_history_lists_once(history: &mut Vec<MruRecord>, record: MruRecord)
    requires
        call_ensures(enter_record, (history, record), ()),
        forall|i: int, j: int|
            0 <= i < j < old(history)@.len() ==> {
                let (a, b) = (#[trigger] old(history)@[i], #[trigger] old(history)@[j]);
                a.kind != b.kind || a.id@ != b.id@
            },
    ensures
        forall|i: int, j: int|
            0 <= i < j < final(history)@.len() ==> {
                let (a, b) = (#[trigger] final(history)@[i], #[trigger] final(history)@[j]);
                a.kind != b.kind || a.id@ != b.id@
            },
{
    let stays = |e: MruRecord| e.kind != record.kind || e.id@ != record.id@;
    let before = old(history)@;
    let after = final(history)@;
    let rest = before.filter(stays);
    assert(after == seq![record] + rest);
    assert forall|i: int, j: int| 0 <= i < j < after.len() implies {
        let (a, b) = (#[trigger] after[i], #[trigger] after[j]);
        a.kind != b.kind || a.id@ != b.id@
    } by {
        assert(after[j] == rest[j - 1]);
        if i == 0 {
            let q = lemma_filter_place(before, stays, j - 1);
        } else {
            assert(after[i] == rest[i - 1]);
            let (p, q) = lemma_filter_places(before, stays, i - 1, j - 1);
            assert(before[p] == after[i] && before[q] == after[j]);
        }
    }
}

/// The same of a history as the other laws speak of it.
pub proof fn law_bump_drops_same_kind_and_id(history: Seq<RecordView>, record: RecordView)
    ensures
        bump(history, record).len() > 0,
        bump(history, record)[0] == record,
        bump(history, record).skip(1) == history.filter(
            |e: RecordView| !(e.kind == record.kind && e.id == record.id),
        ),
{
    let drops = |e: RecordView| !(e.kind == record.kind && e.id == record.id);
    let keeps = |e: RecordView| !same_subject(e, record);
    assert(drops =~= keeps);
    assert(bump(history, record).skip(1) =~= history.filter(keeps));
}

/// Where each pane of a sequence is found when runs of the same pane are
/// reduced to one.
proof fn lemma_squeeze_places(panes: Seq<PaneView>) -> (place: Seq<int>)
    ensures
        place.len() == panes.len(),
        panes.len() == 0 ==> squeeze(panes).len() == 0,
        panes.len() > 0 ==> place[0] == 0 && squeeze(panes).len() == place.last() + 1,
        forall|i: int|
            0 < i < panes.len() ==> #[trigger] place[i] == place[i - 1] + (if panes[i] == panes[i
                - 1] {
                0int
            } else {
                1int
            }),
        forall|i: int|
            0 <= i < panes.len() ==> 0 <= #[trigger] place[i] < squeeze(panes).len()
                && squeeze(panes)[place[i]] == panes[i],
    decreases panes.len(),
{
    if panes.len() == 0 {
        Seq::empty()
    } else {
        let shorter = panes.drop_last();
        let fewer = lemma_squeeze_places(shorter);
        lemma_squeeze_last(panes);
        lemma_squeeze_last(shorter);
        let n = squeeze(panes).len();
        let place = fewer.push(n - 1);
        assert forall|i: int| 0 < i < panes.len() implies #[trigger] place[i] == place[i - 1] + (
        if panes[i] == panes[i - 1] {
            0int
        } else {
            1int
        }) by {
            if i < shorter.len() {
                assert(fewer[i] == place[i]);
                assert(fewer[i - 1] == place[i - 1]);
                assert(shorter[i] == panes[i] && shorter[i - 1] == panes[i - 1]);
            } else {
                assert(fewer.last() == place[i - 1]);
            }
        }
        assert forall|i: int| 0 <= i < panes.len() implies 0 <= #[trigger] place[i] < n && squeeze(
            panes,
        )[place[i]] == panes[i] by {
            if i < shorter.len() {
                assert(fewer[i] == place[i]);
                assert(shorter[i] == panes[i]);
            }
        }
        if shorter.len() == 0 {
            assert(n == 1);
        } else {
            assert(place[0] == fewer[0]);
        }
        place
    }
}

/// The panes that a session remembers from before its landing, the landing and
/// the panes since, in this order, are what the records are about: each pane
/// and then its workspace, with runs of the same pane counted once. The result
/// says which of the panes recorded each of these focuses is.
pub proof fn law_records_follow_focuses(s: CycleSession, records: Vec<MruRecord>) -> (place: Seq<
    int,
>)
    requires
        call_ensures(reconcile_records, (&s,), records),
    ensures
        ({
            let n = s.post_focus@.len() as int;
            let k = if s.before_landing <= n {
                s.before_landing as int
            } else {
                n
            };
            let landing = match s.landed {
                Some(p) => seq![p],
                None => Seq::empty(),
            };
            let log = s.post_focus@.take(k) + landing + s.post_focus@.skip(k);
            &&& place.len() == log.len()
            &&& log.len() == 0 ==> records@.len() == 0
            &&& log.len() > 0 ==> place[0] == 0 && records@.len() == 2 * (place.last() + 1)
            &&& forall|i: int|
                0 < i < log.len() ==> #[trigger] place[i] == place[i - 1] + (if log[i].pane_id@
                    == log[i - 1].pane_id@ && log[i].workspace_id@ == log[i - 1].workspace_id@ {
                    0int
                } else {
                    1int
                })
            &&& forall|i: int|
                0 <= i < log.len() ==> 0 <= #[trigger] place[i] && 2 * place[i] + 1 < records@.len()
                    && {
                    let pane = records@[2 * place[i]];
                    let workspace = records@[2 * place[i] + 1];
                    &&& pane.kind == MruKind::Pane
                    &&& pane.id@ == log[i].pane_id@
                    &&& pane.workspace_id@ == log[i].workspace_id@
                    &&& workspace.kind == MruKind::Workspace
                    &&& workspace.id@ == log[i].workspace_id@
                    &&& workspace.workspace_id@ == log[i].workspace_id@
                }
        }),
{
    let n = s.post_focus@.len() as int;
    let k = if s.before_landing <= n {
        s.before_landing as int
    } else {
        n
    };
    let landing = match s.landed {
        Some(p) => seq![p],
        None => Seq::empty(),
    };
    let log = s.post_focus@.take(k) + landing + s.post_focus@.skip(k);
    let views = s@.focus_log();
    let place = lemma_squeeze_places(views);
    assert(pane_views(log) =~= views) by {
        assert(pane_views(landing) =~= landed_seq(pane_view_opt(s.landed)));
    }
    let recorded = record_views(records@);
    assert(recorded.len() == 2 * squeeze(views).len());
    assert forall|i: int| 0 <= i < log.len() implies views[i] == (#[trigger] log[i])@ by {
        assert(pane_views(log)[i] == log[i]@);
    }
    assert forall|j: int| 0 <= j < records@.len() implies recorded[j] == (
    #[trigger] records@[j])@ by {}
    assert forall|i: int| 0 < i < log.len() implies #[trigger] place[i] == place[i - 1] + (
    if log[i].pane_id@ == log[i - 1].pane_id@ && log[i].workspace_id@ == log[i - 1].workspace_id@ {
        0int
    } else {
        1int
    }) by {
        assert(views[i] == log[i]@);
        assert(views[i - 1] == log[i - 1]@);
    }
    assert forall|i: int| 0 <= i < log.len() implies 0 <= #[trigger] place[i] && 2 * place[i] + 1
        < records@.len() && {
        let pane = records@[2 * place[i]];
        let workspace = records@[2 * place[i] + 1];
        &&& pane.kind == MruKind::Pane
        &&& pane.id@ == log[i].pane_id@
        &&& pane.workspace_id@ == log[i].workspace_id@
        &&& workspace.kind == MruKind::Workspace
        &&& workspace.id@ == log[i].workspace_id@
        &&& workspace.workspace_id@ == log[i].workspace_id@
    } by {
        assert(views[i] == log[i]@);
        let p = place[i];
        assert(reconciled_panes(s@)[p] == views[i]);
        assert(recorded[2 * p] == records@[2 * p]@);
        assert(recorded[2 * p + 1] == records@[2 * p + 1]@);
        assert((2 * p) % 2 == 0 && (2 * p) / 2 == p);
        assert((2 * p + 1) % 2 == 1 && (2 * p + 1) / 2 == p);
    }
    place
}

/// Whether two lists of records say the same.
pub open spec fn same_records(a: Seq<MruRecord>, b: Seq<MruRecord>) -> bool {
    &&& a.len() == b.len()
    &&& forall|i: int|
        0 <= i < a.len() ==> {
            &&& (#[trigger] a[i]).kind == b[i].kind
            &&& a[i].id@ == b[i].id@
            &&& a[i].workspace_id@ == b[i].workspace_id@
        }
}

/// Records with the same views say the same.
pub proof fn lemma_same_records(a: Seq<MruRecord>, b: Seq<MruRecord>)
    requires
        record_views(a) == record_views(b),
    ensures
        same_records(a, b),
{
    assert(record_views(a).len() == a.len());
    assert(record_views(b).len() == b.len());
    assert forall|i: int| 0 <= i < a.len() implies {
        &&& (#[trigger] a[i]).kind == b[i].kind
        &&& a[i].id@ == b[i].id@
        &&& a[i].workspace_id@ == b[i].workspace_id@
    } by {
        assert(record_views(a)[i] == a[i]@);
        assert(record_views(b)[i] == b[i]@);
    }
}

/// The switcher ends any session with the records that it leaves, and where
/// there is none it leaves everything alone.
pub proof fn law_switcher_closes_with_records(
    kept: Option<CycleSession>,
    update: SessionUpdate,
    records: Vec<MruRecord>,
)
    requires
        call_ensures(end_session_now, (kept,), update),
        kept matches Some(s) ==> call_ensures(reconcile_records, (&s,), records),
    ensures
        kept is None ==> update is Keep,
        kept is Some ==> (update matches SessionUpdate::Close(left) && same_records(
            left@,
            records@,
        )),
{
    if let SessionUpdate::Close(left) = update {
        if kept is Some {
            lemma_same_records(left@, records@);
        }
    }
}

} // verus!
