//! The kept session over any course of presses, focus events and openings of
//! the switcher.

use vstd::prelude::*;

use crate::laws::events::{kept_after, law_event_keeps_well_formed};
use crate::laws::press::{law_kept_session_well_formed, press, walks_well};
use crate::pane::PaneView;
use crate::run::{ActionView, EventView, PhaseView, RunView};
use crate::session::SessionView;
use crate::track::{end_update, track_update};

verus! {

/// The session that is kept, and the press that is under way, if any, with
/// what it asks for.
pub struct SystemView {
    pub kept: Option<SessionView>,
    pub run: Option<(RunView, ActionView)>,
}

/// What can come next.
pub enum Deed {
    /// The key is pressed.
    Press { reverse: bool, now: u64, timeout: u64 },
    /// The press under way is told how its action went. To drop the kept
    /// session may fail unnoticed: `dropped` says whether it is gone.
    Answer { event: EventView, dropped: bool },
    /// A focus event comes in, or one about something else than a pane; its
    /// update of the kept session may fail.
    Track { event: Option<PaneView>, now: u64, timeout: u64, updated: bool },
    /// The switcher opens; its update of the kept session may fail.
    Switch { updated: bool },
}

/// Whether `event` can be how `action` went: what is read is the session that
/// is kept, unless it cannot be read.
pub open spec fn answers(action: ActionView, event: EventView, kept: Option<SessionView>) -> bool {
    match action {
        ActionView::LoadSession => event is Loaded && (event->Loaded_0 == kept
            || event->Loaded_0 is None),
        ActionView::FocusPane(_) => event is Focused,
        ActionView::CloseSession(_) => event is Recorded,
        ActionView::SurveyPanes => event is Surveyed,
        ActionView::SaveSession(_) => event is Saved,
        ActionView::Finish(_) => false,
    }
}

/// Whether a run asks for what it waits for.
pub open spec fn asks_in_phase(run: RunView, action: ActionView) -> bool {
    match run.phase {
        PhaseView::Opening => action is LoadSession,
        PhaseView::Walking { walk, .. } => action == ActionView::FocusPane(
            walk.candidate().pane_id,
        ),
        PhaseView::ClosingWalked => action is CloseSession,
        PhaseView::Reopening => action is LoadSession,
        PhaseView::ClosingStale => action is CloseSession,
        PhaseView::Surveying => action is SurveyPanes,
        PhaseView::Saving => action matches ActionView::SaveSession(s) && s.well_formed(),
        PhaseView::Finished => action is Finish,
    }
}

impl SystemView {
    /// The invariant: the kept session is well formed, and a press under way is
    /// on its way to one that is.
    pub open spec fn sound(self) -> bool {
        &&& self.kept matches Some(s) ==> s.well_formed()
        &&& self.run matches Some((run, action)) ==> {
            &&& run.valid()
            &&& walks_well(run)
            &&& asks_in_phase(run, action)
        }
    }

    /// Whether a deed can come next: an answer is to what was asked.
    pub open spec fn allows(self, deed: Deed) -> bool {
        deed matches Deed::Answer { event, .. } ==> (self.run matches Some((_, action)) && answers(
            action,
            event,
            self.kept,
        ))
    }

    /// What follows a deed.
    pub open spec fn after(self, deed: Deed) -> SystemView {
        match deed {
            Deed::Press { reverse, now, timeout } => SystemView {
                run: Some((press(reverse, now, timeout), ActionView::LoadSession)),
                ..self
            },
            Deed::Answer { event, dropped } => {
                let (run, action) = self.run->0;
                let kept = match action {
                    ActionView::CloseSession(_) => if dropped {
                        None
                    } else {
                        self.kept
                    },
                    ActionView::SaveSession(s) => if event == EventView::Saved(true) {
                        Some(s)
                    } else {
                        self.kept
                    },
                    _ => self.kept,
                };
                SystemView { kept, run: Some(run.next(event)) }
            },
            Deed::Track { event, now, timeout, updated } => if updated {
                SystemView {
                    kept: kept_after(self.kept, track_update(self.kept, event, now, timeout)),
                    ..self
                }
            } else {
                self
            },
            Deed::Switch { updated } => if updated {
                SystemView { kept: kept_after(self.kept, end_update(self.kept)), ..self }
            } else {
                self
            },
        }
    }
}

/// What follows several deeds.
pub open spec fn after_deeds(system: SystemView, deeds: Seq<Deed>) -> SystemView
    decreases deeds.len(),
{
    if deeds.len() == 0 {
        system
    } else {
        after_deeds(system, deeds.drop_last()).after(deeds.last())
    }
}

/// Whether each of several deeds can come when it does.
pub open spec fn allows_deeds(system: SystemView, deeds: Seq<Deed>) -> bool {
    forall|i: int|
        0 <= i < deeds.len() ==> after_deeds(system, deeds.take(i)).allows(#[trigger] deeds[i])
}

/// Every deed keeps the invariant, and every answer to what a press asks for is
/// one that it expects.
pub proof fn law_deed_keeps_sound(system: SystemView, deed: Deed)
    requires
        system.sound(),
        system.allows(deed),
    ensures
        system.after(deed).sound(),
        deed matches Deed::Answer { event, .. } ==> (system.run->0).0.expects(event),
{
    match deed {
        Deed::Answer { event, .. } => {
            let run = (system.run->0).0;
            assert(run.expects(event));
            law_kept_session_well_formed(run, event);
        },
        Deed::Track { event, .. } => {
            if system.kept is Some && event is Some {
                law_event_keeps_well_formed(system.kept->0, event->0);
            }
        },
        _ => {},
    }
}

/// From no kept session, or a well-formed one, any course of presses, focus
/// events and openings of the switcher leaves none or a well-formed one: an
/// order of at least two panes, none of them twice, with the session on the
/// pane it landed on, and no pane remembered twice in a row.
pub proof fn law_kept_session_stays_well_formed(system: SystemView, deeds: Seq<Deed>)
    requires
        system.sound(),
        allows_deeds(system, deeds),
    ensures
        after_deeds(system, deeds).sound(),
        after_deeds(system, deeds).kept matches Some(s) ==> s.well_formed(),
    decreases deeds.len(),
{
    if deeds.len() > 0 {
        let fewer = deeds.drop_last();
        assert forall|i: int| 0 <= i < fewer.len() implies after_deeds(
            system,
            fewer.take(i),
        ).allows(#[trigger] fewer[i]) by {
            assert(fewer.take(i) =~= deeds.take(i));
            assert(fewer[i] == deeds[i]);
        }
        law_kept_session_stays_well_formed(system, fewer);
        assert(deeds.take(deeds.len() - 1) =~= fewer);
        assert(after_deeds(system, fewer).allows(deeds[deeds.len() - 1]));
        law_deed_keeps_sound(after_deeds(system, fewer), deeds.last());
    }
}

} // verus!
