//! Focus events, and what a session leaves behind.

use vstd::prelude::*;

use crate::mru::{enter_all, mentions, same_subject, RecordView};
use crate::order::lists;
use crate::pane::PaneView;
use crate::reconcile::{
    lemma_squeeze_last, pane_record, records_of, squeeze, workspace_record,
};
use crate::session::{landed_seq, no_repeats, SessionView};
use crate::track::{
    closing_records, end_update, track_disposition, track_update, SessionUpdateView,
    TrackDisposition,
};

verus! {

/// The session that is kept after an update.
pub open spec fn kept_after(
    kept: Option<SessionView>,
    update: SessionUpdateView,
) -> Option<SessionView> {
    match update {
        SessionUpdateView::Keep => kept,
        SessionUpdateView::Save(s) => Some(s),
        SessionUpdateView::Close(_) => None,
    }
}

/// The recency history after an update.
pub open spec fn history_after(
    history: Seq<RecordView>,
    update: SessionUpdateView,
) -> Seq<RecordView> {
    match update {
        SessionUpdateView::Close(records) => enter_all(history, records),
        _ => history,
    }
}

/// An active session after a focus event.
pub open spec fn after_event(session: SessionView, event: PaneView) -> SessionView {
    if session.is_news(event) {
        session.remember(event)
    } else {
        session
    }
}

/// While a session is active, every event is absorbed: it stays out of the
/// recency history, and the session remembers it if it is news. Nothing else of
/// the session changes, so it stays active for as long as it would have.
pub proof fn law_active_session_absorbs(
    session: SessionView,
    event: Option<PaneView>,
    now: u64,
    timeout: u64,
    history: Seq<RecordView>,
)
    requires
        session.is_fresh(now, timeout),
    ensures
        ({
            let update = track_update(Some(session), event, now, timeout);
            &&& track_disposition(Some(session), now, timeout) == TrackDisposition::Absorbed
            &&& history_after(history, update) == history
            &&& kept_after(Some(session), update) == Some(
                match event {
                    Some(e) => after_event(session, e),
                    None => session,
                },
            )
        }),
        event matches Some(e) ==> after_event(session, e) == (SessionView {
            post_focus: after_event(session, e).post_focus,
            before_landing: after_event(session, e).before_landing,
            ..session
        }),
{
}

/// An event that finds no active session is for the caller to record. A stale
/// session ends with it, leaving its records in the history.
pub proof fn law_stale_session_ends(
    kept: Option<SessionView>,
    event: Option<PaneView>,
    now: u64,
    timeout: u64,
    history: Seq<RecordView>,
)
    requires
        kept is Some ==> !kept->0.is_fresh(now, timeout),
    ensures
        ({
            let update = track_update(kept, event, now, timeout);
            &&& track_disposition(kept, now, timeout) == TrackDisposition::Proceed
            &&& kept_after(kept, update) is None
            &&& history_after(history, update) == match kept {
                Some(s) => enter_all(history, closing_records(s)),
                None => history,
            }
        }),
{
}

/// Opening the switcher ends any session, active or stale, and leaves its
/// records in the history.
pub proof fn law_switcher_ends_session(kept: Option<SessionView>, history: Seq<RecordView>)
    ensures
        kept_after(kept, end_update(kept)) is None,
        history_after(history, end_update(kept)) == match kept {
            Some(s) => enter_all(history, closing_records(s)),
            None => history,
        },
{
}

/// A session ends once: when none is kept any more, neither an event nor the
/// switcher changes anything.
pub proof fn law_session_ends_once(
    event: Option<PaneView>,
    now: u64,
    timeout: u64,
    history: Seq<RecordView>,
)
    ensures
        track_disposition(None, now, timeout) == TrackDisposition::Proceed,
        kept_after(None, track_update(None, event, now, timeout)) is None,
        history_after(history, track_update(None, event, now, timeout)) == history,
        history_after(history, end_update(None)) == history,
{
}

/// Events keep a session well formed.
pub proof fn law_event_keeps_well_formed(session: SessionView, event: PaneView)
    requires
        session.well_formed(),
    ensures
        after_event(session, event).well_formed(),
{
    if session.is_news(event) {
        let after = session.remember(event).post_focus;
        assert forall|i: int| 0 < i < after.len() implies #[trigger] after[i] != after[i - 1] by {
            if i < session.post_focus.len() {
                assert(session.post_focus[i] != session.post_focus[i - 1]);
            }
        }
    }
}

/// A sequence without repeats is squeezed already.
pub proof fn lemma_squeeze_of_no_repeats(panes: Seq<PaneView>)
    requires
        no_repeats(panes),
    ensures
        squeeze(panes) == panes,
    decreases panes.len(),
{
    if panes.len() > 0 {
        let shorter = panes.drop_last();
        assert forall|i: int| 0 < i < shorter.len() implies #[trigger] shorter[i] != shorter[i
            - 1] by {
            assert(panes[i] != panes[i - 1]);
        }
        lemma_squeeze_of_no_repeats(shorter);
        if panes.len() > 1 {
            assert(panes[panes.len() - 1] != panes[panes.len() - 2]);
        }
        assert(shorter.push(panes.last()) =~= panes);
    } else {
        assert(squeeze(panes) =~= panes);
    }
}

/// Squeezing neither loses nor adds a pane.
pub proof fn lemma_squeeze_contains(panes: Seq<PaneView>, pane: PaneView)
    ensures
        squeeze(panes).contains(pane) <==> panes.contains(pane),
    decreases panes.len(),
{
    if panes.len() > 0 {
        let shorter = panes.drop_last();
        lemma_squeeze_contains(shorter, pane);
        lemma_squeeze_last(shorter);
        assert(panes =~= shorter.push(panes.last()));
        lemma_push_contains(shorter, panes.last(), pane);
        lemma_push_contains(squeeze(shorter), panes.last(), pane);
        if panes.len() > 1 && panes.last() == panes[panes.len() - 2] {
            assert(shorter[shorter.len() - 1] == panes.last());
        }
    }
}

proof fn lemma_push_contains<A>(s: Seq<A>, last: A, x: A)
    ensures
        s.push(last).contains(x) <==> s.contains(x) || x == last,
{
    if s.contains(x) {
        let i = choose|i: int| 0 <= i < s.len() && s[i] == x;
        assert(s.push(last)[i] == x);
    }
    if x == last {
        assert(s.push(last)[s.len() as int] == x);
    }
    if s.push(last).contains(x) {
        let i = choose|i: int| 0 <= i < s.push(last).len() && s.push(last)[i] == x;
        if i < s.len() {
            assert(s[i] == x);
        }
    }
}

/// The focuses of a session are its landing and the panes it remembers.
pub proof fn lemma_log_contains(session: SessionView, pane: PaneView)
    requires
        0 <= session.before_landing,
    ensures
        session.focus_log().contains(pane) <==> (landed_seq(session.landed)
            + session.post_focus).contains(pane),
{
    let k = session.split();
    let post = session.post_focus;
    let landed = landed_seq(session.landed);
    let log = session.focus_log();
    let all = landed + post;
    let n = landed.len();
    if log.contains(pane) {
        let i = choose|i: int| 0 <= i < log.len() && log[i] == pane;
        if i < k {
            assert(all[n + i] == pane);
        } else if i < k + n {
            assert(all[i - k] == pane);
        } else {
            assert(all[i] == pane);
        }
    }
    if all.contains(pane) {
        let i = choose|i: int| 0 <= i < all.len() && all[i] == pane;
        if i < n {
            assert(log[k + i] == pane);
        } else if i - n < k {
            assert(log[i - n] == pane);
        } else {
            assert(log[i] == pane);
        }
    }
}

/// What a session leaves behind is about the pane it landed on, the panes
/// focused by other means, and their workspaces: all of these, and nothing else.
pub proof fn law_records_are_landed_or_focused(session: SessionView, record: RecordView)
    requires
        0 <= session.before_landing,
    ensures
        closing_records(session).contains(record) <==> exists|pane: PaneView| #[trigger]
            (landed_seq(session.landed) + session.post_focus).contains(pane) && (record
                == pane_record(pane) || record == workspace_record(pane)),
{
    let all = landed_seq(session.landed) + session.post_focus;
    let log = session.focus_log();
    let panes = squeeze(log);
    let records = records_of(panes);
    assert forall|p: PaneView| #[trigger] log.contains(p) <==> all.contains(p) by {
        lemma_log_contains(session, p);
    }
    if records.contains(record) {
        let i = choose|i: int| 0 <= i < records.len() && records[i] == record;
        let pane = panes[i / 2];
        assert(panes.contains(pane));
        lemma_squeeze_contains(log, pane);
        assert(log.contains(pane));
        assert(all.contains(pane));
    }
    if exists|pane: PaneView| #[trigger]
        all.contains(pane) && (record == pane_record(pane) || record == workspace_record(pane)) {
        let pane = choose|pane: PaneView| #[trigger]
            all.contains(pane) && (record == pane_record(pane) || record == workspace_record(
                pane,
            ));
        assert(log.contains(pane));
        lemma_squeeze_contains(log, pane);
        let k = choose|k: int| 0 <= k < panes.len() && panes[k] == pane;
        if record == pane_record(pane) {
            assert(records[2 * k] == record);
        } else {
            assert(records[2 * k + 1] == record);
        }
    }
}

/// A pane that the cycle merely hopped through is not recorded.
pub proof fn law_hopped_through_not_recorded(session: SessionView, pane: PaneView)
    requires
        0 <= session.before_landing,
        !lists(landed_seq(session.landed) + session.post_focus, pane.pane_id),
    ensures
        !mentions(closing_records(session), pane_record(pane)),
{
    let records = closing_records(session);
    let all = landed_seq(session.landed) + session.post_focus;
    if mentions(records, pane_record(pane)) {
        let i = choose|i: int|
            0 <= i < records.len() && same_subject(pane_record(pane), #[trigger] records[i]);
        assert(records.contains(records[i]));
        law_records_are_landed_or_focused(session, records[i]);
        let p = choose|p: PaneView| #[trigger]
            all.contains(p) && (records[i] == pane_record(p) || records[i] == workspace_record(p));
        let k = choose|k: int| 0 <= k < all.len() && all[k] == p;
        assert(all[k].pane_id == pane.pane_id);
    }
}

} // verus!
