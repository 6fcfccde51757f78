//! The `cycle` command: one alt-tab step through the panes.
//!
//! Reading and writing the session, focusing panes and listing them are left to
//! the caller. A run names one such action at a time and is told how it went.

use vstd::prelude::*;

use crate::mru::{record_views, MruRecord, RecordView};
use crate::order::{build_order, cycle_order};
use crate::pane::{
    focused_view_opt, node_views, pane_views, FocusedPaneInfo, NavigationNode, PaneView,
};
use crate::reconcile::reconcile_records;
use crate::session::{fresh, session_view_opt, CycleSession, SessionView};
use crate::track::closing_records;
use crate::walk::{
    advance_and_focus, begin_walk, can_walk, walk_answer, walk_start, Walk, WalkStep, WalkStepView,
    WalkView,
};
use vstd::hash_map::StringHashMap;

verus! {

/// The live panes, the focused one, and when each pane was last focused.
pub struct Survey {
    pub nodes: Vec<NavigationNode>,
    pub focused: Option<FocusedPaneInfo>,
    pub pane_ts: StringHashMap<u64>,
}

/// What a survey is, apart from how it is stored.
#[verifier::ext_equal]
pub struct SurveyView {
    pub nodes: Seq<PaneView>,
    pub focused: Option<PaneView>,
    pub pane_ts: Map<Seq<char>, u64>,
}

impl View for Survey {
    type V = SurveyView;

    open spec fn view(&self) -> SurveyView {
        SurveyView {
            nodes: node_views(self.nodes@),
            focused: focused_view_opt(self.focused),
            pane_ts: self.pane_ts@,
        }
    }
}

/// What a run waits for.
pub enum PhaseView {
    Opening,
    Walking { walk: WalkView, resumed: bool },
    ClosingWalked,
    Reopening,
    ClosingStale,
    Surveying,
    Saving,
    Finished,
}

/// What a run waits for.
#[derive(Debug, Clone)]
pub enum Phase {
    /// The kept session, which this press may resume.
    Opening,
    /// Whether the pane on offer could be focused. The walk resumes a kept
    /// session, or begins a new one.
    Walking { walk: Walk, resumed: bool },
    /// The end of a session in which no pane could be focused any more.
    ClosingWalked,
    /// The kept session, which has to end before a new one begins.
    Reopening,
    /// The end of that session.
    ClosingStale,
    /// The live panes.
    Surveying,
    /// The session to be kept.
    Saving,
    /// Nothing: the run is over.
    Finished,
}

impl View for Phase {
    type V = PhaseView;

    open spec fn view(&self) -> PhaseView {
        match self {
            Phase::Opening => PhaseView::Opening,
            Phase::Walking { walk, resumed } => PhaseView::Walking {
                walk: walk@,
                resumed: *resumed,
            },
            Phase::ClosingWalked => PhaseView::ClosingWalked,
            Phase::Reopening => PhaseView::Reopening,
            Phase::ClosingStale => PhaseView::ClosingStale,
            Phase::Surveying => PhaseView::Surveying,
            Phase::Saving => PhaseView::Saving,
            Phase::Finished => PhaseView::Finished,
        }
    }
}

/// What a run is, apart from how its phase is stored.
pub struct RunView {
    pub reverse: bool,
    pub now: u64,
    pub timeout: u64,
    pub phase: PhaseView,
}

/// One press of the cycle key, under way.
#[derive(Debug, Clone)]
pub struct CycleRun {
    /// Whether the press walks backwards.
    pub reverse: bool,
    /// When the key was pressed.
    pub now: u64,
    /// How long a session stays active after a press.
    pub timeout: u64,
    pub phase: Phase,
}

impl View for CycleRun {
    type V = RunView;

    open spec fn view(&self) -> RunView {
        RunView {
            reverse: self.reverse,
            now: self.now,
            timeout: self.timeout,
            phase: self.phase@,
        }
    }
}

/// How the last action went.
pub enum EventView {
    Loaded(Option<SessionView>),
    Focused(bool),
    Recorded(bool),
    Surveyed(Option<SurveyView>),
    Saved(bool),
}

/// How the last action went.
pub enum CycleEvent {
    /// The kept session, if there is one that can be read.
    Loaded(Option<CycleSession>),
    /// Whether the pane took the focus.
    Focused(bool),
    /// Whether all records were entered.
    Recorded(bool),
    /// The live panes, unless they could not be listed.
    Surveyed(Option<Survey>),
    /// Whether the session could be kept.
    Saved(bool),
}

impl View for CycleEvent {
    type V = EventView;

    open spec fn view(&self) -> EventView {
        match self {
            CycleEvent::Loaded(s) => EventView::Loaded(session_view_opt(*s)),
            CycleEvent::Focused(ok) => EventView::Focused(*ok),
            CycleEvent::Recorded(ok) => EventView::Recorded(*ok),
            CycleEvent::Surveyed(s) => EventView::Surveyed(
                match s {
                    Some(survey) => Some(survey@),
                    None => None,
                },
            ),
            CycleEvent::Saved(ok) => EventView::Saved(*ok),
        }
    }
}

/// What the caller is to do next.
pub enum ActionView {
    LoadSession,
    FocusPane(Seq<char>),
    CloseSession(Seq<RecordView>),
    SurveyPanes,
    SaveSession(SessionView),
    Finish(bool),
}

/// What the caller is to do next.
#[derive(Debug, Clone)]
pub enum CycleAction {
    /// Read the kept session.
    LoadSession,
    /// Focus the pane with this identifier.
    FocusPane(String),
    /// Drop the kept session, then enter these records, first to last.
    CloseSession(Vec<MruRecord>),
    /// List the live panes.
    SurveyPanes,
    /// Keep this session.
    SaveSession(CycleSession),
    /// Stop; `false` if the last action failed.
    Finish(bool),
}

impl View for CycleAction {
    type V = ActionView;

    open spec fn view(&self) -> ActionView {
        match self {
            CycleAction::LoadSession => ActionView::LoadSession,
            CycleAction::FocusPane(id) => ActionView::FocusPane(id@),
            CycleAction::CloseSession(records) => ActionView::CloseSession(record_views(records@)),
            CycleAction::SurveyPanes => ActionView::SurveyPanes,
            CycleAction::SaveSession(s) => ActionView::SaveSession(s@),
            CycleAction::Finish(ok) => ActionView::Finish(*ok),
        }
    }
}

impl RunView {
    /// The run in another phase.
    pub open spec fn at(self, phase: PhaseView) -> RunView {
        RunView { phase, ..self }
    }

    /// Whether a walk under way is a valid one.
    pub open spec fn valid(self) -> bool {
        self.phase matches PhaseView::Walking { walk, .. } ==> walk.valid()
    }

    /// Whether `event` tells how the action went that the run waits for. A kept
    /// session that the press resumes must be one that can be walked.
    pub open spec fn expects(self, event: EventView) -> bool {
        match self.phase {
            PhaseView::Opening => {
                &&& event is Loaded
                &&& event->Loaded_0 matches Some(s) ==> s.is_fresh(self.now, self.timeout)
                    ==> can_walk(s, self.reverse)
            },
            PhaseView::Walking { .. } => event is Focused,
            PhaseView::ClosingWalked => event is Recorded,
            PhaseView::Reopening => event is Loaded,
            PhaseView::ClosingStale => event is Recorded,
            PhaseView::Surveying => event is Surveyed,
            PhaseView::Saving => event is Saved,
            PhaseView::Finished => false,
        }
    }

    /// Stops the run.
    pub open spec fn finish(self, ok: bool) -> (RunView, ActionView) {
        (self.at(PhaseView::Finished), ActionView::Finish(ok))
    }

    /// Follows a walk: offers its next pane, keeps the session that landed, or
    /// gives up. A resumed session that is given up ends.
    pub open spec fn follow(self, step: WalkStepView, resumed: bool) -> (RunView, ActionView) {
        match step {
            WalkStepView::Landed(s) => (self.at(PhaseView::Saving), ActionView::SaveSession(s)),
            WalkStepView::Next(walk) => (
                self.at(PhaseView::Walking { walk, resumed }),
                ActionView::FocusPane(walk.candidate().pane_id),
            ),
            WalkStepView::Exhausted(s) => if resumed {
                (
                    self.at(PhaseView::ClosingWalked),
                    ActionView::CloseSession(closing_records(s)),
                )
            } else {
                self.finish(true)
            },
        }
    }

    /// The session that a press begins: it sits on the first pane of its order.
    pub open spec fn new_session(self, order: Seq<PaneView>) -> SessionView {
        SessionView {
            started_at: self.now,
            last_press_at: self.now,
            order,
            position: 0,
            landed: None,
            post_focus: Seq::empty(),
            before_landing: 0,
        }
    }

    /// What follows an event.
    pub open spec fn next(self, event: EventView) -> (RunView, ActionView) {
        match (self.phase, event) {
            // An active session goes on; anything else is looked at again, to end it.
            (PhaseView::Opening, EventView::Loaded(session)) => if session is Some
                && session->0.is_fresh(self.now, self.timeout) {
                self.follow(walk_start(session->0, self.reverse), true)
            } else {
                (self.at(PhaseView::Reopening), ActionView::LoadSession)
            },
            (PhaseView::Walking { walk, resumed }, EventView::Focused(ok)) => self.follow(
                walk_answer(walk, ok, self.reverse, self.now),
                resumed,
            ),
            (PhaseView::ClosingWalked, EventView::Recorded(ok)) => if ok {
                (self.at(PhaseView::Reopening), ActionView::LoadSession)
            } else {
                self.finish(false)
            },
            (PhaseView::Reopening, EventView::Loaded(session)) => match session {
                Some(s) => (
                    self.at(PhaseView::ClosingStale),
                    ActionView::CloseSession(closing_records(s)),
                ),
                None => (self.at(PhaseView::Surveying), ActionView::SurveyPanes),
            },
            (PhaseView::ClosingStale, EventView::Recorded(ok)) => if ok {
                (self.at(PhaseView::Surveying), ActionView::SurveyPanes)
            } else {
                self.finish(false)
            },
            // A cycle takes at least two panes.
            (PhaseView::Surveying, EventView::Surveyed(survey)) => match survey {
                Some(s) => {
                    let order = cycle_order(s.nodes, s.focused, s.pane_ts);
                    if order.len() < 2 {
                        self.finish(true)
                    } else {
                        self.follow(walk_start(self.new_session(order), self.reverse), false)
                    }
                },
                None => self.finish(false),
            },
            (PhaseView::Saving, EventView::Saved(ok)) => self.finish(ok),
            _ => self.finish(false),
        }
    }
}

/// Begins a press at time `now`: the kept session comes first.
pub fn start_cycle(reverse: bool, now: u64, timeout: u64) -> (r: (CycleRun, CycleAction))
    ensures
        r.0@ == (RunView { reverse, now, timeout, phase: PhaseView::Opening }),
        r.0@.valid(),
        r.1@ == ActionView::LoadSession,
{
    (CycleRun { reverse, now, timeout, phase: Phase::Opening }, CycleAction::LoadSession)
}

/// The run in another phase.
fn run_at(run: CycleRun, phase: Phase) -> (r: CycleRun)
    ensures
        r@ == run@.at(phase@),
{
    CycleRun { reverse: run.reverse, now: run.now, timeout: run.timeout, phase }
}

/// Stops a run.
fn finish_run(run: CycleRun, ok: bool) -> (r: (CycleRun, CycleAction))
    ensures
        (r.0@, r.1@) == run@.finish(ok),
{
    (run_at(run, Phase::Finished), CycleAction::Finish(ok))
}

/// Follows a walk.
fn follow_walk(run: CycleRun, step: WalkStep, resumed: bool) -> (r: (CycleRun, CycleAction))
    requires
        step@ matches WalkStepView::Next(w) ==> w.valid(),
    ensures
        (r.0@, r.1@) == run@.follow(step@, resumed),
        r.0@.valid(),
{
    match step {
        WalkStep::Landed(s) => (run_at(run, Phase::Saving), CycleAction::SaveSession(s)),
        WalkStep::Next(walk) => {
            let id = walk.session.order[walk.pos].pane_id.clone();
            (run_at(run, Phase::Walking { walk, resumed }), CycleAction::FocusPane(id))
        },
        WalkStep::Exhausted(s) => {
            if resumed {
                let records = reconcile_records(&s);
                (run_at(run, Phase::ClosingWalked), CycleAction::CloseSession(records))
            } else {
                finish_run(run, true)
            }
        },
    }
}

/// Takes a run one action further. An active session goes on with the next pane
/// in its frozen order. Failing that, any kept session ends, and a new one
/// begins from the live panes.
pub fn run_cycle(run: CycleRun, event: CycleEvent) -> (r: (CycleRun, CycleAction))
    requires
        run@.valid(),
        run@.expects(event@),
    ensures
        (r.0@, r.1@) == run@.next(event@),
        r.0@.valid(),
{
    let reverse = run.reverse;
    let now: u64 = run.now;
    let timeout: u64 = run.timeout;
    let ghost before = run@;
    let CycleRun { phase, .. } = run;
    let rest = CycleRun { reverse, now, timeout, phase: Phase::Finished };
    match (phase, event) {
        (Phase::Opening, CycleEvent::Loaded(session)) => match session {
            Some(s) => {
                if fresh(&s, now, timeout) {
                    follow_walk(rest, begin_walk(s, reverse), true)
                } else {
                    (run_at(rest, Phase::Reopening), CycleAction::LoadSession)
                }
            },
            None => (run_at(rest, Phase::Reopening), CycleAction::LoadSession),
        },
        (Phase::Walking { walk, resumed }, CycleEvent::Focused(ok)) => {
            follow_walk(rest, advance_and_focus(walk, ok, reverse, now), resumed)
        },
        (Phase::ClosingWalked, CycleEvent::Recorded(ok)) => {
            if ok {
                (run_at(rest, Phase::Reopening), CycleAction::LoadSession)
            } else {
                finish_run(rest, false)
            }
        },
        (Phase::Reopening, CycleEvent::Loaded(session)) => match session {
            Some(s) => {
                let records = reconcile_records(&s);
                (run_at(rest, Phase::ClosingStale), CycleAction::CloseSession(records))
            },
            None => (run_at(rest, Phase::Surveying), CycleAction::SurveyPanes),
        },
        (Phase::ClosingStale, CycleEvent::Recorded(ok)) => {
            if ok {
                (run_at(rest, Phase::Surveying), CycleAction::SurveyPanes)
            } else {
                finish_run(rest, false)
            }
        },
        (Phase::Surveying, CycleEvent::Surveyed(survey)) => match survey {
            Some(s) => {
                let order = build_order(s.nodes.as_slice(), s.focused.as_ref(), &s.pane_ts);
                if order.len() < 2 {
                    finish_run(rest, true)
                } else {
                    let session = CycleSession {
                        started_at: now,
                        last_press_at: now,
                        order,
                        position: 0,
                        landed: None,
                        post_focus: Vec::new(),
                        before_landing: 0,
                    };
                    assert(session@ =~= before.new_session(pane_views(order@)));
                    follow_walk(rest, begin_walk(session, reverse), false)
                }
            },
            None => finish_run(rest, false),
        },
        (Phase::Saving, CycleEvent::Saved(ok)) => finish_run(rest, ok),
        _ => finish_run(rest, false),
    }
}

} // verus!
