//! What a finished session leaves in the recency history.

use vstd::prelude::*;

use crate::mru::{record_views, MruKind, MruRecord, RecordView};
use crate::pane::{pane_view_opt, pane_views, CyclePane, PaneView};
use crate::session::{landed_seq, CycleSession, SessionView};

verus! {

/// `panes` with each run of the same pane reduced to one.
pub open spec fn squeeze(panes: Seq<PaneView>) -> Seq<PaneView>
    decreases panes.len(),
{
    if panes.len() == 0 {
        panes
    } else if panes.len() > 1 && panes.last() == panes[panes.len() - 2] {
        squeeze(panes.drop_last())
    } else {
        squeeze(panes.drop_last()).push(panes.last())
    }
}

/// The panes that a session leaves behind, in the order in which they were
/// focused, none twice in a row.
pub open spec fn reconciled_panes(session: SessionView) -> Seq<PaneView> {
    squeeze(session.focus_log())
}

/// The record of a pane.
pub open spec fn pane_record(pane: PaneView) -> RecordView {
    RecordView { kind: MruKind::Pane, id: pane.pane_id, workspace_id: pane.workspace_id }
}

/// The record of the workspace that holds a pane.
pub open spec fn workspace_record(pane: PaneView) -> RecordView {
    RecordView { kind: MruKind::Workspace, id: pane.workspace_id, workspace_id: pane.workspace_id }
}

/// For each pane in turn, its own record and that of its workspace.
pub open spec fn records_of(panes: Seq<PaneView>) -> Seq<RecordView> {
    Seq::new(
        2 * panes.len(),
        |i: int|
            if i % 2 == 0 {
                pane_record(panes[i / 2])
            } else {
                workspace_record(panes[i / 2])
            },
    )
}

/// A squeezed sequence ends with the same pane, and is empty only if it was.
pub proof fn lemma_squeeze_last(panes: Seq<PaneView>)
    ensures
        squeeze(panes).len() == 0 <==> panes.len() == 0,
        panes.len() > 0 ==> squeeze(panes).last() == panes.last(),
    decreases panes.len(),
{
    if panes.len() > 0 {
        lemma_squeeze_last(panes.drop_last());
    }
}

/// The records of one more pane.
proof fn lemma_records_push(panes: Seq<PaneView>, pane: PaneView)
    ensures
        records_of(panes.push(pane)) == records_of(panes).push(pane_record(pane)).push(
            workspace_record(pane),
        ),
{
    assert(records_of(panes.push(pane)) =~= records_of(panes).push(pane_record(pane)).push(
        workspace_record(pane),
    ));
}

/// Appends the records of a pane and of its workspace.
fn push_records(records: &mut Vec<MruRecord>, pane: &CyclePane)
    ensures
        record_views(final(records)@) == record_views(old(records)@).push(pane_record(pane@)).push(
            workspace_record(pane@),
        ),
{
    records.push(
        MruRecord {
            kind: MruKind::Pane,
            id: pane.pane_id.clone(),
            workspace_id: pane.workspace_id.clone(),
        },
    );
    records.push(
        MruRecord {
            kind: MruKind::Workspace,
            id: pane.workspace_id.clone(),
            workspace_id: pane.workspace_id.clone(),
        },
    );
    assert(record_views(records@) =~= record_views(old(records)@).push(pane_record(pane@)).push(
        workspace_record(pane@),
    ));
}

/// The panes of `panes`, in order.
spec fn ref_views(panes: Seq<&CyclePane>) -> Seq<PaneView> {
    panes.map_values(|p: &CyclePane| p@)
}

/// The focuses of a session in the order in which they came.
fn focus_log(s: &CycleSession) -> (log: Vec<&CyclePane>)
    ensures
        ref_views(log@) == s@.focus_log(),
{
    let n: usize = s.post_focus.len();
    let k: usize = if s.before_landing <= n {
        s.before_landing
    } else {
        n
    };
    let ghost post = pane_views(s.post_focus@);
    let ghost landed = landed_seq(pane_view_opt(s.landed));
    let mut log: Vec<&CyclePane> = Vec::new();
    let mut i: usize = 0;
    while i < k
        invariant
            i <= k <= n == s.post_focus@.len(),
            post == pane_views(s.post_focus@),
            ref_views(log@) =~= post.take(i as int),
        decreases k - i,
    {
        let ghost before = log@;
        log.push(&s.post_focus[i]);
        assert(ref_views(log@) =~= ref_views(before).push(post[i as int]));
        i = i + 1;
    }
    if let Some(p) = &s.landed {
        log.push(p);
    }
    assert(ref_views(log@) =~= post.take(k as int) + landed);
    while i < n
        invariant
            k <= i <= n == s.post_focus@.len(),
            post == pane_views(s.post_focus@),
            ref_views(log@) =~= post.take(k as int) + landed + post.subrange(k as int, i as int),
        decreases n - i,
    {
        let ghost before = log@;
        log.push(&s.post_focus[i]);
        assert(ref_views(log@) =~= ref_views(before).push(post[i as int]));
        i = i + 1;
    }
    assert(ref_views(log@) =~= s@.focus_log());
    log
}

/// The records of a finished session, in the order in which they are entered:
/// the landed pane and any panes the user focused during the window,
/// chronologically. Each record goes to the top of the history, so the last one
/// entered ends up most recent, matching real focus order.
pub fn reconcile_records(s: &CycleSession) -> (records: Vec<MruRecord>)
    ensures
        record_views(records@) == records_of(reconciled_panes(s@)),
{
    let log = focus_log(s);
    let ghost views = ref_views(log@);
    let mut records: Vec<MruRecord> = Vec::new();
    let mut i: usize = 0;
    assert(record_views(records@) =~= records_of(squeeze(views.take(0))));
    while i < log.len()
        invariant
            i <= log@.len(),
            views == ref_views(log@),
            record_views(records@) == records_of(squeeze(views.take(i as int))),
        decreases log@.len() - i,
    {
        let ghost before = views.take(i as int);
        let ghost after = views.take(i + 1);
        proof {
            assert(after =~= before.push(log@[i as int]@));
            assert(after.drop_last() =~= before);
            if i > 0 {
                assert(after[i - 1] == log@[i - 1]@);
            }
        }
        let repeated = i > 0 && *log[i - 1] == *log[i];
        if !repeated {
            push_records(&mut records, log[i]);
            proof {
                lemma_records_push(squeeze(before), log@[i as int]@);
            }
        }
        i = i + 1;
    }
    assert(views.take(views.len() as int) =~= views);
    records
}

} // verus!
