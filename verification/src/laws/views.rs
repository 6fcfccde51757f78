//! A view holds what its value holds: nothing is lost or changed on the way
//! from the fields of a value to the model that the other laws speak of.

use vstd::prelude::*;

use crate::mru::{record_views, MruRecord};
use crate::pane::{
    focused_ref_view_opt, focused_view_opt, node_views, pane_views, CyclePane, FocusedPaneInfo,
    NavigationNode,
};
use crate::run::{
    ActionView, CycleAction, CycleEvent, CycleRun, EventView, Phase, PhaseView, Survey,
};
use crate::session::{session_view_opt, CycleSession};
use crate::track::{event_view, SessionUpdate, SessionUpdateView};
use crate::walk::{Walk, WalkStep, WalkStepView};

verus! {

/// Panes are told apart by both their identifiers and their workspaces, and by
/// nothing else.
pub proof fn law_panes_told_apart(a: CyclePane, b: CyclePane, same: bool)
    requires
        call_ensures(CyclePane::eq, (&a, &b), same),
    ensures
        same <==> a.pane_id@ == b.pane_id@ && a.workspace_id@ == b.workspace_id@,
        same <==> a@ == b@,
{
}

/// A copy of a pane is that pane.
pub proof fn law_pane_copied(pane: CyclePane, copy: CyclePane)
    requires
        call_ensures(CyclePane::clone, (&pane,), copy),
    ensures
        copy.pane_id@ == pane.pane_id@,
        copy.workspace_id@ == pane.workspace_id@,
{
}

/// Panes keep their identifier and their workspace.
pub proof fn law_pane_views(pane: CyclePane, node: NavigationNode, focused: FocusedPaneInfo)
    ensures
        pane@.pane_id == pane.pane_id@,
        pane@.workspace_id == pane.workspace_id@,
        node@.pane_id == node.pane_id@,
        node@.workspace_id == node.workspace_id@,
        focused@.pane_id == focused.pane_id@,
        focused@.workspace_id == focused.workspace_id@,
        focused_view_opt(Some(focused)) == Some(focused@),
        focused_ref_view_opt(Some(&focused)) == Some(focused@),
        focused_view_opt(None) is None,
        focused_ref_view_opt(None) is None,
{
}

/// Lists keep their order.
pub proof fn law_list_views(
    panes: Seq<CyclePane>,
    nodes: Seq<NavigationNode>,
    records: Seq<MruRecord>,
    i: int,
)
    ensures
        pane_views(panes).len() == panes.len(),
        node_views(nodes).len() == nodes.len(),
        record_views(records).len() == records.len(),
        0 <= i < panes.len() ==> pane_views(panes)[i] == panes[i]@,
        0 <= i < nodes.len() ==> node_views(nodes)[i] == nodes[i]@,
        0 <= i < records.len() ==> record_views(records)[i] == records[i]@,
{
}

/// Records keep what they are about.
pub proof fn law_record_view(record: MruRecord)
    ensures
        record@.kind == record.kind,
        record@.id == record.id@,
        record@.workspace_id == record.workspace_id@,
{
}

/// Sessions keep their times, their order and place, their landing and the
/// panes that they remember.
pub proof fn law_session_view(s: CycleSession, i: int)
    ensures
        s@.started_at == s.started_at,
        s@.last_press_at == s.last_press_at,
        s@.position == s.position,
        s@.before_landing == s.before_landing,
        s@.order.len() == s.order@.len(),
        0 <= i < s.order@.len() ==> s@.order[i].pane_id == s.order@[i].pane_id@
            && s@.order[i].workspace_id == s.order@[i].workspace_id@,
        s@.post_focus.len() == s.post_focus@.len(),
        0 <= i < s.post_focus@.len() ==> s@.post_focus[i].pane_id == s.post_focus@[i].pane_id@
            && s@.post_focus[i].workspace_id == s.post_focus@[i].workspace_id@,
        s.landed is None <==> s@.landed is None,
        s.landed matches Some(p) ==> (s@.landed->0).pane_id == p.pane_id@ && (
        s@.landed->0).workspace_id == p.workspace_id@,
        session_view_opt(Some(s)) == Some(s@),
        session_view_opt(None) is None,
{
}

/// Walks keep their session, their place and their count.
pub proof fn law_walk_views(walk: Walk, at: WalkStep)
    ensures
        walk@.session == walk.session@,
        walk@.pos == walk.pos,
        walk@.tried == walk.tried,
        match at {
            WalkStep::Landed(s) => at@ == WalkStepView::Landed(s@),
            WalkStep::Next(w) => at@ == WalkStepView::Next(w@),
            WalkStep::Exhausted(s) => at@ == WalkStepView::Exhausted(s@),
        },
{
}

/// Focus events keep their pane and workspace.
pub proof fn law_focus_event_view(event: Option<(&str, &str)>)
    ensures
        event is None <==> event_view(event) is None,
        event matches Some((pane, workspace)) ==> (event_view(event)->0).pane_id == pane@ && (
        event_view(event)->0).workspace_id == workspace@,
{
}

/// Updates keep the session or the records that they carry.
pub proof fn law_update_view(update: SessionUpdate)
    ensures
        match update {
            SessionUpdate::Keep => update@ is Keep,
            SessionUpdate::Save(s) => update@ == SessionUpdateView::Save(s@),
            SessionUpdate::Close(records) => update@ == SessionUpdateView::Close(
                record_views(records@),
            ),
        },
{
}

/// Surveys keep the panes, the focus and the times.
pub proof fn law_survey_view(survey: Survey)
    ensures
        survey@.nodes == node_views(survey.nodes@),
        survey@.focused == focused_view_opt(survey.focused),
        survey@.pane_ts == survey.pane_ts@,
{
}

/// Events of a run keep what they tell.
pub proof fn law_event_view(event: CycleEvent)
    ensures
        match event {
            CycleEvent::Loaded(s) => event@ == EventView::Loaded(session_view_opt(s)),
            CycleEvent::Focused(ok) => event@ == EventView::Focused(ok),
            CycleEvent::Recorded(ok) => event@ == EventView::Recorded(ok),
            CycleEvent::Surveyed(None) => event@ == EventView::Surveyed(None),
            CycleEvent::Surveyed(Some(s)) => event@ == EventView::Surveyed(Some(s@)),
            CycleEvent::Saved(ok) => event@ == EventView::Saved(ok),
        },
{
}

/// Actions of a run keep what they ask for.
pub proof fn law_action_view(action: CycleAction)
    ensures
        match action {
            CycleAction::LoadSession => action@ is LoadSession,
            CycleAction::FocusPane(id) => action@ == ActionView::FocusPane(id@),
            CycleAction::CloseSession(records) => action@ == ActionView::CloseSession(
                record_views(records@),
            ),
            CycleAction::SurveyPanes => action@ is SurveyPanes,
            CycleAction::SaveSession(s) => action@ == ActionView::SaveSession(s@),
            CycleAction::Finish(ok) => action@ == ActionView::Finish(ok),
        },
{
}

/// Runs keep their direction, their times and their phase.
pub proof fn law_run_view(run: CycleRun)
    ensures
        run@.reverse == run.reverse,
        run@.now == run.now,
        run@.timeout == run.timeout,
        run@.phase == run.phase@,
        match run.phase {
            Phase::Opening => run.phase@ is Opening,
            Phase::Walking { walk, resumed } => run.phase@ == (PhaseView::Walking {
                walk: walk@,
                resumed,
            }),
            Phase::ClosingWalked => run.phase@ is ClosingWalked,
            Phase::Reopening => run.phase@ is Reopening,
            Phase::ClosingStale => run.phase@ is ClosingStale,
            Phase::Surveying => run.phase@ is Surveying,
            Phase::Saving => run.phase@ is Saving,
            Phase::Finished => run.phase@ is Finished,
        },
{
}

} // verus!
