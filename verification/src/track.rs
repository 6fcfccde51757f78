//! Focus events, and the end of a session.
//!
//! The session is kept between presses by the caller, who hands over what was
//! kept and carries out the update that comes back.

use vstd::prelude::*;

use crate::mru::{record_views, MruRecord, RecordView};
use crate::pane::{CyclePane, PaneView};
use crate::reconcile::{reconcile_records, reconciled_panes, records_of};
use crate::session::{fresh, session_view_opt, CycleSession, SessionView};

verus! {

/// Outcome of consulting the cycle session for an incoming track event.
#[derive(Debug, PartialEq, Eq, Structural)]
pub enum TrackDisposition {
    /// Event belongs to an active cycle session; do not record it.
    Absorbed,
    /// No active session (any stale one has been reconciled); record normally.
    Proceed,
}

/// What is to be done with the kept session.
pub enum SessionUpdateView {
    Keep,
    Save(SessionView),
    Close(Seq<RecordView>),
}

/// What is to be done with the kept session.
#[derive(Debug, Clone)]
pub enum SessionUpdate {
    /// Leave it as it is.
    Keep,
    /// Keep this session in its place.
    Save(CycleSession),
    /// Drop it, then enter these records, first to last.
    Close(Vec<MruRecord>),
}

impl View for SessionUpdate {
    type V = SessionUpdateView;

    open spec fn view(&self) -> SessionUpdateView {
        match self {
            SessionUpdate::Keep => SessionUpdateView::Keep,
            SessionUpdate::Save(s) => SessionUpdateView::Save(s@),
            SessionUpdate::Close(records) => SessionUpdateView::Close(record_views(records@)),
        }
    }
}

/// The answer to a track event.
#[derive(Debug)]
pub struct TrackOutcome {
    pub disposition: TrackDisposition,
    pub update: SessionUpdate,
}

impl SessionView {
    /// Whether a focus event is the echo of the session's own landing: it is
    /// about the pane that was landed on, and nothing was focused since. Where
    /// something was, the user has gone back to that pane.
    pub open spec fn is_echo(self, event: PaneView) -> bool {
        self.landing_is_last() && self.landed->0.pane_id == event.pane_id
    }

    /// Whether a focus event is new to the session: no echo, and not the pane
    /// that was focused last.
    pub open spec fn is_news(self, event: PaneView) -> bool {
        &&& !self.is_echo(event)
        &&& self.focus_log().len() > 0 ==> self.focus_log().last() != event
    }

    /// The session with one more focus remembered. A pane that is remembered as
    /// the last one before the landing moves past it.
    pub open spec fn remember(self, event: PaneView) -> SessionView {
        if self.post_focus.len() > 0 && self.post_focus.last() == event {
            SessionView { before_landing: self.post_focus.len() - 1, ..self }
        } else {
            SessionView {
                post_focus: self.post_focus.push(event),
                before_landing: self.split(),
                ..self
            }
        }
    }
}

/// The view of a focus event: a pane and its workspace.
pub open spec fn event_view(event: Option<(&str, &str)>) -> Option<PaneView> {
    match event {
        Some((pane_id, workspace_id)) => Some(
            PaneView { pane_id: pane_id@, workspace_id: workspace_id@ },
        ),
        None => None,
    }
}

/// Whether a track event at time `now` belongs to an active session.
pub open spec fn track_disposition(
    session: Option<SessionView>,
    now: u64,
    timeout: u64,
) -> TrackDisposition {
    if session is Some && session->0.is_fresh(now, timeout) {
        TrackDisposition::Absorbed
    } else {
        TrackDisposition::Proceed
    }
}

/// The records that a session leaves behind when it ends.
pub open spec fn closing_records(session: SessionView) -> Seq<RecordView> {
    records_of(reconciled_panes(session))
}

/// What a track event does to the kept session: an active one remembers a pane
/// that is news, and a stale one ends.
pub open spec fn track_update(
    session: Option<SessionView>,
    event: Option<PaneView>,
    now: u64,
    timeout: u64,
) -> SessionUpdateView {
    match session {
        None => SessionUpdateView::Keep,
        Some(s) => if !s.is_fresh(now, timeout) {
            SessionUpdateView::Close(closing_records(s))
        } else if event is Some && s.is_news(event->0) {
            SessionUpdateView::Save(s.remember(event->0))
        } else {
            SessionUpdateView::Keep
        },
    }
}

/// What the end of cycling does to the kept session, active or stale.
pub open spec fn end_update(session: Option<SessionView>) -> SessionUpdateView {
    match session {
        Some(s) => SessionUpdateView::Close(closing_records(s)),
        None => SessionUpdateView::Keep,
    }
}

/// Consults the session for an incoming track event. Pane focus events that
/// are not the cycle's own echo are remembered for reconciliation, in the order
/// in which they come; all events during an active session are absorbed (kept
/// out of the recency history).
pub fn on_track_event(
    session: Option<CycleSession>,
    pane_event: Option<(&str, &str)>,
    now: u64,
    timeout: u64,
) -> (r: TrackOutcome)
    ensures
        r.disposition == track_disposition(session_view_opt(session), now, timeout),
        r.update@ == track_update(
            session_view_opt(session),
            event_view(pane_event),
            now,
            timeout,
        ),
{
    let mut s = match session {
        Some(s) => s,
        None => {
            return TrackOutcome {
                disposition: TrackDisposition::Proceed,
                update: SessionUpdate::Keep,
            };
        },
    };
    if !fresh(&s, now, timeout) {
        return TrackOutcome {
            disposition: TrackDisposition::Proceed,
            update: SessionUpdate::Close(reconcile_records(&s)),
        };
    }
    if let Some((pane_id, workspace_id)) = pane_event {
        let p = CyclePane { pane_id: pane_id.to_owned(), workspace_id: workspace_id.to_owned() };
        let n: usize = s.post_focus.len();
        let k: usize = if s.before_landing <= n {
            s.before_landing
        } else {
            n
        };
        let repeated = n > 0 && s.post_focus[n - 1] == p;
        let is_news = match &s.landed {
            Some(l) => if k == n {
                l.pane_id != p.pane_id
            } else {
                !repeated
            },
            None => !repeated,
        };
        let ghost before = s@;
        let ghost event = event_view(pane_event)->0;
        proof {
            if n > 0 {
                assert(before.post_focus.last() == s.post_focus@[n - 1]@);
            }
            if before.landing_is_last() {
                assert(before.focus_log().last() == before.landed->0);
            } else if n > 0 {
                if before.landed is None {
                    assert(before.focus_log() =~= before.post_focus);
                }
                assert(before.focus_log().last() == before.post_focus.last());
            }
            assert(is_news == before.is_news(event));
        }
        if is_news {
            if repeated {
                s.before_landing = n - 1;
            } else {
                s.post_focus.push(p);
                s.before_landing = k;
            }
            assert(s@ =~= before.remember(event));
            return TrackOutcome {
                disposition: TrackDisposition::Absorbed,
                update: SessionUpdate::Save(s),
            };
        }
    }
    TrackOutcome { disposition: TrackDisposition::Absorbed, update: SessionUpdate::Keep }
}

/// Ends any session (fresh or stale) and reconciles it. Opening the switcher is
/// a deliberate action that terminates a cycle.
pub fn end_session_now(session: Option<CycleSession>) -> (r: SessionUpdate)
    ensures
        r@ == end_update(session_view_opt(session)),
{
    match session {
        Some(s) => SessionUpdate::Close(reconcile_records(&s)),
        None => SessionUpdate::Keep,
    }
}

} // verus!
