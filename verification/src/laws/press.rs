//! A whole press, from reading the kept session to keeping one.

use vstd::prelude::*;

use crate::laws::events::after_event;
use crate::laws::walk::{
    all_missed, law_steps_add_up, law_turn_repeats_no_place, law_walk_gives_up_last,
    law_walk_lands_on_first, law_walk_offers_in_turn, offered, steps, walk_fed,
};
use crate::order::{ahead, cycle_order, lemma_cycle_order_exists};
use crate::run::{ActionView, EventView, PhaseView, RunView, SurveyView};
use crate::session::{lemma_next_position, next_position, SessionView};
use crate::track::closing_records;
use crate::walk::{walk_start, WalkStepView};

verus! {

/// A press at its start.
pub open spec fn press(reverse: bool, now: u64, timeout: u64) -> RunView {
    RunView { reverse, now, timeout, phase: PhaseView::Opening }
}

/// Where a run stands after a number of events, and what it asks for.
pub open spec fn run_fed(
    start: (RunView, ActionView),
    events: Seq<EventView>,
) -> (RunView, ActionView)
    decreases events.len(),
{
    if events.len() == 0 {
        start
    } else {
        run_fed(start, events.drop_last()).0.next(events.last())
    }
}

/// Events that say whether panes could be focused.
pub open spec fn focus_events(answers: Seq<bool>) -> Seq<EventView> {
    answers.map_values(|ok: bool| EventView::Focused(ok))
}

/// A run that follows a walk does so to its end.
proof fn lemma_run_follows(
    run: RunView,
    action: ActionView,
    start: WalkStepView,
    resumed: bool,
    answers: Seq<bool>,
)
    requires
        (run, action) == run.follow(start, resumed),
        forall|k: int|
            0 <= k < answers.len() ==> walk_fed(
                start,
                #[trigger] answers.take(k),
                run.reverse,
                run.now,
            ) is Next,
    ensures
        run_fed((run, action), focus_events(answers)) == run.follow(
            walk_fed(start, answers, run.reverse, run.now),
            resumed,
        ),
    decreases answers.len(),
{
    let events = focus_events(answers);
    if answers.len() > 0 {
        let shorter = answers.drop_last();
        assert(shorter =~= answers.take(answers.len() - 1));
        assert forall|k: int| 0 <= k < shorter.len() implies walk_fed(
            start,
            #[trigger] shorter.take(k),
            run.reverse,
            run.now,
        ) is Next by {
            assert(shorter.take(k) =~= answers.take(k));
        }
        lemma_run_follows(run, action, start, resumed, shorter);
        assert(events.drop_last() =~= focus_events(shorter));
    }
}

/// Events one after the other.
proof fn lemma_run_fed_add(
    start: (RunView, ActionView),
    first: Seq<EventView>,
    second: Seq<EventView>,
)
    ensures
        run_fed(start, first + second) == run_fed(run_fed(start, first), second),
    decreases second.len(),
{
    if second.len() == 0 {
        assert(first + second =~= first);
    } else {
        lemma_run_fed_add(start, first, second.drop_last());
        assert((first + second).drop_last() =~= first + second.drop_last());
    }
}

/// A run follows a walk through misses, to a landing after them or to the end.
proof fn lemma_run_walks(
    run: RunView,
    session: SessionView,
    resumed: bool,
    misses: nat,
)
    requires
        misses < session.order.len(),
    ensures
        run_fed(
            run.follow(walk_start(session, run.reverse), resumed),
            focus_events(all_missed(misses).push(true)),
        ) == (
            run.at(PhaseView::Saving),
            ActionView::SaveSession(
                session.landing(offered(session, run.reverse, misses), run.now),
            ),
        ),
        run_fed(
            run.follow(walk_start(session, run.reverse), resumed),
            focus_events(all_missed(session.order.len())),
        ) == run.follow(WalkStepView::Exhausted(session), resumed),
{
    let start = walk_start(session, run.reverse);
    let (at, action) = run.follow(start, resumed);
    let landed = all_missed(misses).push(true);
    assert forall|k: int| 0 <= k < landed.len() implies walk_fed(
        start,
        #[trigger] landed.take(k),
        run.reverse,
        run.now,
    ) is Next by {
        assert(landed.take(k) =~= all_missed(k as nat));
        law_walk_offers_in_turn(session, run.reverse, run.now, k as nat);
    }
    lemma_run_follows(at, action, start, resumed, landed);
    law_walk_lands_on_first(session, run.reverse, run.now, misses);

    let gone = all_missed(session.order.len());
    assert forall|k: int| 0 <= k < gone.len() implies walk_fed(
        start,
        #[trigger] gone.take(k),
        run.reverse,
        run.now,
    ) is Next by {
        assert(gone.take(k) =~= all_missed(k as nat));
        law_walk_offers_in_turn(session, run.reverse, run.now, k as nat);
    }
    lemma_run_follows(at, action, start, resumed, gone);
    law_walk_gives_up_last(session, run.reverse, run.now, 0);
}

/// The events of a press that resumes a session: it is read, and a number of
/// panes cannot be focused before one can.
pub open spec fn resuming_events(session: SessionView, answers: Seq<bool>) -> Seq<EventView> {
    seq![EventView::Loaded(Some(session))] + focus_events(answers)
}

proof fn lemma_resuming(session: SessionView, reverse: bool, now: u64, timeout: u64)
    requires
        session.is_fresh(now, timeout),
    ensures
        run_fed(
            (press(reverse, now, timeout), ActionView::LoadSession),
            seq![EventView::Loaded(Some(session))],
        ) == press(reverse, now, timeout).follow(walk_start(session, reverse), true),
{
    let start = (press(reverse, now, timeout), ActionView::LoadSession);
    let events = seq![EventView::Loaded(Some(session))];
    assert(events.drop_last() =~= Seq::<EventView>::empty());
    assert(run_fed(start, events.drop_last()) == start);
    assert(events.last() == EventView::Loaded(Some(session)));
}

/// A press within the timeout of the last one goes on with the same session,
/// over its frozen order: the session that it keeps sits on the first pane
/// after the last place that can be focused, and is otherwise unchanged.
pub proof fn law_press_resumes(
    session: SessionView,
    reverse: bool,
    now: u64,
    timeout: u64,
    misses: nat,
)
    requires
        session.is_fresh(now, timeout),
        misses < session.order.len(),
    ensures
        run_fed(
            (press(reverse, now, timeout), ActionView::LoadSession),
            resuming_events(session, all_missed(misses).push(true)),
        ) == (
            press(reverse, now, timeout).at(PhaseView::Saving),
            ActionView::SaveSession(session.landing(offered(session, reverse, misses), now)),
        ),
{
    let run = press(reverse, now, timeout);
    lemma_resuming(session, reverse, now, timeout);
    lemma_run_walks(run, session, true, misses);
    lemma_run_fed_add(
        (run, ActionView::LoadSession),
        seq![EventView::Loaded(Some(session))],
        focus_events(all_missed(misses).push(true)),
    );
}

/// An active session in which no pane can be focused any more ends: what it
/// leaves behind is entered, and the press looks for a session to begin.
pub proof fn law_press_ends_dead_session(
    session: SessionView,
    reverse: bool,
    now: u64,
    timeout: u64,
)
    requires
        session.is_fresh(now, timeout),
    ensures
        run_fed(
            (press(reverse, now, timeout), ActionView::LoadSession),
            resuming_events(session, all_missed(session.order.len())),
        ) == (
            press(reverse, now, timeout).at(PhaseView::ClosingWalked),
            ActionView::CloseSession(closing_records(session)),
        ),
        run_fed(
            (press(reverse, now, timeout), ActionView::LoadSession),
            resuming_events(session, all_missed(session.order.len())).push(
                EventView::Recorded(true),
            ),
        ) == (press(reverse, now, timeout).at(PhaseView::Reopening), ActionView::LoadSession),
{
    let run = press(reverse, now, timeout);
    let start = (run, ActionView::LoadSession);
    let gone = all_missed(session.order.len());
    let events = resuming_events(session, gone);
    lemma_resuming(session, reverse, now, timeout);
    lemma_run_fed_add(start, seq![EventView::Loaded(Some(session))], focus_events(gone));
    if session.order.len() == 0 {
        assert(focus_events(gone) =~= Seq::<EventView>::empty());
    } else {
        lemma_run_walks(run, session, true, 0);
    }
    assert(events.push(EventView::Recorded(true)).drop_last() =~= events);
}

/// The events of a press that begins a session: the kept one, if any, is read
/// twice and ended, and the panes are listed.
pub open spec fn opening_events(kept: Option<SessionView>, survey: SurveyView) -> Seq<EventView> {
    let loads = seq![EventView::Loaded(kept), EventView::Loaded(kept)];
    let ended = if kept is Some {
        loads.push(EventView::Recorded(true))
    } else {
        loads
    };
    ended.push(EventView::Surveyed(Some(survey)))
}

/// After the timeout the next press starts over from the live panes: it ends
/// the kept session, if there is one, and begins a session whose frozen order
/// is the cycle order of the moment.
pub proof fn law_press_starts_over(
    kept: Option<SessionView>,
    survey: SurveyView,
    reverse: bool,
    now: u64,
    timeout: u64,
    misses: nat,
)
    requires
        kept is Some ==> !kept->0.is_fresh(now, timeout),
        2 <= cycle_order(survey.nodes, survey.focused, survey.pane_ts).len(),
        misses < cycle_order(survey.nodes, survey.focused, survey.pane_ts).len(),
    ensures
        ({
            let run = press(reverse, now, timeout);
            let order = cycle_order(survey.nodes, survey.focused, survey.pane_ts);
            let begun = run.new_session(order);
            run_fed(
                (run, ActionView::LoadSession),
                opening_events(kept, survey) + focus_events(all_missed(misses).push(true)),
            ) == (
                run.at(PhaseView::Saving),
                ActionView::SaveSession(begun.landing(offered(begun, reverse, misses), now)),
            )
        }),
        kept matches Some(s) ==> run_fed(
            (press(reverse, now, timeout), ActionView::LoadSession),
            seq![EventView::Loaded(kept), EventView::Loaded(kept)],
        ).1 == ActionView::CloseSession(closing_records(s)),
{
    let run = press(reverse, now, timeout);
    let start = (run, ActionView::LoadSession);
    let order = cycle_order(survey.nodes, survey.focused, survey.pane_ts);
    let begun = run.new_session(order);
    let events = opening_events(kept, survey);
    lemma_opening(kept, survey, reverse, now, timeout);
    lemma_run_walks(run, begun, false, misses);
    lemma_run_fed_add(start, events, focus_events(all_missed(misses).push(true)));
}

/// Where the events of a press that begins a session lead.
proof fn lemma_opening(
    kept: Option<SessionView>,
    survey: SurveyView,
    reverse: bool,
    now: u64,
    timeout: u64,
)
    requires
        kept is Some ==> !kept->0.is_fresh(now, timeout),
    ensures
        ({
            let run = press(reverse, now, timeout);
            let order = cycle_order(survey.nodes, survey.focused, survey.pane_ts);
            run_fed((run, ActionView::LoadSession), opening_events(kept, survey)) == if order.len()
                < 2 {
                run.finish(true)
            } else {
                run.follow(walk_start(run.new_session(order), reverse), false)
            }
        }),
        kept matches Some(s) ==> run_fed(
            (press(reverse, now, timeout), ActionView::LoadSession),
            seq![EventView::Loaded(kept), EventView::Loaded(kept)],
        ).1 == ActionView::CloseSession(closing_records(s)),
{
    let run = press(reverse, now, timeout);
    let start = (run, ActionView::LoadSession);
    let one = seq![EventView::Loaded(kept)];
    let two = seq![EventView::Loaded(kept), EventView::Loaded(kept)];
    assert(one.drop_last() =~= Seq::<EventView>::empty());
    assert(run_fed(start, one.drop_last()) == start);
    assert(run_fed(start, one) == (run.at(PhaseView::Reopening), ActionView::LoadSession));
    assert(two.drop_last() =~= one);
    let ended = if kept is Some {
        two.push(EventView::Recorded(true))
    } else {
        two
    };
    if kept is Some {
        assert(run_fed(start, two) == (
            run.at(PhaseView::ClosingStale),
            ActionView::CloseSession(closing_records(kept->0)),
        ));
        assert(ended.drop_last() =~= two);
    }
    assert(run_fed(start, ended) == (run.at(PhaseView::Surveying), ActionView::SurveyPanes));
    assert(opening_events(kept, survey).drop_last() =~= ended);
}

/// The events of a press whose first pane on offer takes the focus: it goes on
/// with a kept session that is active, and otherwise begins one.
pub open spec fn press_events(
    kept: Option<SessionView>,
    survey: SurveyView,
    now: u64,
    timeout: u64,
) -> Seq<EventView> {
    match kept {
        Some(s) if s.is_fresh(now, timeout) => resuming_events(s, seq![true]),
        _ => opening_events(kept, survey) + focus_events(seq![true]),
    }
}

/// What a press asks for after a number of events.
pub open spec fn asked(
    reverse: bool,
    now: u64,
    timeout: u64,
    events: Seq<EventView>,
) -> ActionView {
    run_fed((press(reverse, now, timeout), ActionView::LoadSession), events).1
}

/// The session that is kept after whole presses at the given times, each of
/// which would find the panes of its survey.
pub open spec fn kept_after_presses(
    kept: Option<SessionView>,
    surveys: Seq<SurveyView>,
    reverse: bool,
    times: Seq<u64>,
    timeout: u64,
) -> Option<SessionView>
    decreases times.len(),
{
    if times.len() == 0 {
        kept
    } else {
        let found = kept_after_presses(
            kept,
            surveys.drop_last(),
            reverse,
            times.drop_last(),
            timeout,
        );
        let events = press_events(found, surveys.last(), times.last(), timeout);
        match asked(reverse, times.last(), timeout, events) {
            ActionView::SaveSession(s) => Some(s),
            _ => None,
        }
    }
}

/// The pane that the last of such presses focuses.
pub open spec fn focused_by_presses(
    kept: Option<SessionView>,
    surveys: Seq<SurveyView>,
    reverse: bool,
    times: Seq<u64>,
    timeout: u64,
) -> ActionView {
    let found = kept_after_presses(kept, surveys.drop_last(), reverse, times.drop_last(), timeout);
    let events = press_events(found, surveys.last(), times.last(), timeout);
    asked(reverse, times.last(), timeout, events.drop_last())
}

/// Whether no press comes later than the timeout after the one before.
pub open spec fn in_a_row(times: Seq<u64>, timeout: u64) -> bool {
    forall|i: int| 0 < i < times.len() ==> #[trigger] times[i] - times[i - 1] <= timeout
}

/// Where no session is active, the k-th of several presses in a row focuses the
/// pane k steps from the first one in the order of the moment of the first
/// press, round the end: forward, the one at k modulo the number of panes. The
/// order and the start of the session stay those of the first press, and the
/// echo of a landing leaves the session as it is.
pub proof fn law_presses_cycle(
    kept: Option<SessionView>,
    surveys: Seq<SurveyView>,
    reverse: bool,
    times: Seq<u64>,
    timeout: u64,
)
    requires
        times.len() > 0,
        surveys.len() == times.len(),
        kept is Some ==> !kept->0.is_fresh(times[0], timeout),
        in_a_row(times, timeout),
        2 <= cycle_order(surveys[0].nodes, surveys[0].focused, surveys[0].pane_ts).len(),
    ensures
        ({
            let order = cycle_order(surveys[0].nodes, surveys[0].focused, surveys[0].pane_ts);
            let n = order.len() as int;
            let place = steps(0, n, reverse, times.len());
            let session = SessionView {
                started_at: times[0],
                last_press_at: times.last(),
                order,
                position: place,
                landed: Some(order[place]),
                post_focus: Seq::empty(),
                before_landing: 0,
            };
            &&& 0 <= place < n
            &&& !reverse ==> place == times.len() as int % n
            &&& focused_by_presses(kept, surveys, reverse, times, timeout)
                == ActionView::FocusPane(order[place].pane_id)
            &&& kept_after_presses(kept, surveys, reverse, times, timeout) == Some(session)
            &&& after_event(session, order[place]) == session
        }),
    decreases times.len(),
{
    let order = cycle_order(surveys[0].nodes, surveys[0].focused, surveys[0].pane_ts);
    let n = order.len() as int;
    let now = times.last();
    let run = press(reverse, now, timeout);
    let start = (run, ActionView::LoadSession);
    law_steps_add_up(0, n, reverse, times.len());
    let found = kept_after_presses(kept, surveys.drop_last(), reverse, times.drop_last(), timeout);
    let events = press_events(found, surveys.last(), now, timeout);
    assert(all_missed(0).push(true) =~= seq![true]);
    if times.len() == 1 {
        assert(found == kept);
        let begun = run.new_session(order);
        let opening = opening_events(kept, surveys[0]);
        assert(steps(0, n, reverse, 0) == 0);
        assert(offered(begun, reverse, 0) == steps(0, n, reverse, 1));
        law_press_starts_over(kept, surveys[0], reverse, now, timeout, 0);
        lemma_opening(kept, surveys[0], reverse, now, timeout);
        assert(events.drop_last() =~= opening);
    } else {
        let earlier = times.drop_last();
        assert(surveys.drop_last()[0] == surveys[0]);
        assert(earlier[0] == times[0]);
        assert forall|i: int| 0 < i < earlier.len() implies #[trigger] earlier[i] - earlier[i - 1]
            <= timeout by {
            assert(times[i] - times[i - 1] <= timeout);
        }
        law_presses_cycle(kept, surveys.drop_last(), reverse, earlier, timeout);
        let s = found->0;
        assert(times[times.len() - 1] - times[times.len() - 2] <= timeout);
        assert(s.is_fresh(now, timeout));
        law_press_resumes(s, reverse, now, timeout, 0);
        lemma_resuming(s, reverse, now, timeout);
        assert(events.drop_last() =~= seq![EventView::Loaded(Some(s))]);
        assert(offered(s, reverse, 0) == steps(0, n, reverse, times.len()));
    }
}

/// With fewer than two panes to cycle through, a press that finds no active
/// session focuses nothing and keeps nothing.
pub proof fn law_nothing_to_cycle(
    kept: Option<SessionView>,
    survey: SurveyView,
    reverse: bool,
    now: u64,
    timeout: u64,
)
    requires
        kept is Some ==> !kept->0.is_fresh(now, timeout),
        cycle_order(survey.nodes, survey.focused, survey.pane_ts).len() < 2,
    ensures
        run_fed(
            (press(reverse, now, timeout), ActionView::LoadSession),
            opening_events(kept, survey),
        ) == press(reverse, now, timeout).finish(true),
{
    lemma_opening(kept, survey, reverse, now, timeout);
}

/// A session that a press begins offers no pane twice in one turn.
pub proof fn law_turn_offers_each_once(
    survey: SurveyView,
    reverse: bool,
    now: u64,
    timeout: u64,
    a: nat,
    b: nat,
)
    requires
        a < b < cycle_order(survey.nodes, survey.focused, survey.pane_ts).len(),
    ensures
        ({
            let order = cycle_order(survey.nodes, survey.focused, survey.pane_ts);
            let begun = press(reverse, now, timeout).new_session(order);
            order[offered(begun, reverse, a)].pane_id != order[offered(begun, reverse, b)].pane_id
        }),
{
    lemma_cycle_order_exists(survey.nodes, survey.focused, survey.pane_ts);
    let order = cycle_order(survey.nodes, survey.focused, survey.pane_ts);
    let begun = press(reverse, now, timeout).new_session(order);
    let len = order.len() as int;
    lemma_next_position(0, len, reverse);
    let first = next_position(0, len, reverse);
    law_turn_repeats_no_place(first, len, reverse, a, b);
    law_steps_add_up(first, len, reverse, a);
    law_steps_add_up(first, len, reverse, b);
    let (i, j) = (offered(begun, reverse, a), offered(begun, reverse, b));
    if i < j {
        assert(order[i].pane_id != order[j].pane_id);
    } else {
        assert(order[j].pane_id != order[i].pane_id);
    }
}

/// The first press forward offers the pane that stands behind the focused one,
/// and that goes ahead of all others: the one that was focused last before it,
/// where any other live pane has a focus time.
pub proof fn law_first_press_offers_latest(survey: SurveyView, now: u64, timeout: u64, j: int)
    requires
        survey.focused is Some,
        1 < j < cycle_order(survey.nodes, survey.focused, survey.pane_ts).len(),
    ensures
        ({
            let order = cycle_order(survey.nodes, survey.focused, survey.pane_ts);
            let begun = press(false, now, timeout).new_session(order);
            &&& order[0] == survey.focused->0
            &&& offered(begun, false, 0) == 1
            &&& ahead(survey.nodes, survey.pane_ts, order[1].pane_id, order[j].pane_id)
        }),
{
    lemma_cycle_order_exists(survey.nodes, survey.focused, survey.pane_ts);
    let order = cycle_order(survey.nodes, survey.focused, survey.pane_ts);
    lemma_next_position(0, order.len() as int, false);
}

/// The stage that a run has reached, counted down to its end.
pub open spec fn stage(run: RunView) -> int {
    match run.phase {
        PhaseView::Opening => 8,
        PhaseView::Walking { resumed, .. } => if resumed {
            7
        } else {
            2
        },
        PhaseView::ClosingWalked => 6,
        PhaseView::Reopening => 5,
        PhaseView::ClosingStale => 4,
        PhaseView::Surveying => 3,
        PhaseView::Saving => 1,
        PhaseView::Finished => 0,
    }
}

/// The panes that a walk under way has yet to offer.
pub open spec fn left_to_offer(run: RunView) -> int {
    match run.phase {
        PhaseView::Walking { walk, .. } => walk.session.order.len() - walk.tried,
        _ => 0,
    }
}

/// Every run comes to an end: each event brings it to a later stage, or offers
/// one more pane of a finite walk; and it finishes when it says so.
pub proof fn law_run_ends(run: RunView, event: EventView)
    requires
        run.valid(),
        run.expects(event),
    ensures
        ({
            let (next, action) = run.next(event);
            &&& 0 <= stage(next) < stage(run) || (stage(next) == stage(run) && 0 <= left_to_offer(
                next,
            ) < left_to_offer(run))
            &&& next.phase is Finished <==> action is Finish
        }),
{
}

/// A run fails only where an action of its own has failed.
pub proof fn law_failure_reported(run: RunView, event: EventView)
    requires
        run.valid(),
        run.expects(event),
    ensures
        run.next(event).1 == ActionView::Finish(false) <==> (event == EventView::Recorded(false)
            || event == EventView::Saved(false) || event == EventView::Surveyed(None)),
{
}

/// Whether the session of a walk under way has an order to cycle through.
pub open spec fn walks_well(run: RunView) -> bool {
    run.phase matches PhaseView::Walking { walk, .. } ==> walk.session.can_cycle()
}

/// Every session that a run keeps is well formed, with the time of the press,
/// and a walk leaves its order, its start and what it remembers alone.
pub proof fn law_kept_session_well_formed(run: RunView, event: EventView)
    requires
        run.valid(),
        run.expects(event),
        walks_well(run),
        event matches EventView::Loaded(Some(s)) ==> s.well_formed(),
    ensures
        run.next(event).0.valid(),
        walks_well(run.next(event).0),
        run.next(event).1 matches ActionView::SaveSession(s) ==> {
            &&& s.well_formed()
            &&& s.last_press_at == run.now
            &&& run.phase matches PhaseView::Walking { walk, .. } && {
                &&& s.order == walk.session.order
                &&& s.started_at == walk.session.started_at
                &&& s.post_focus == walk.session.post_focus
            }
        },
{
    match event {
        EventView::Loaded(Some(s)) => {
            if s.order.len() > 0 {
                vstd::arithmetic::div_mod::lemma_mod_bound(s.position + 1, s.order.len() as int);
                vstd::arithmetic::div_mod::lemma_mod_bound(
                    s.position + s.order.len() - 1,
                    s.order.len() as int,
                );
            }
        },
        EventView::Surveyed(Some(survey)) => {
            let order = cycle_order(survey.nodes, survey.focused, survey.pane_ts);
            lemma_cycle_order_exists(survey.nodes, survey.focused, survey.pane_ts);
            if order.len() >= 2 {
                lemma_next_position(0, order.len() as int, run.reverse);
                assert(run.new_session(order).can_cycle());
            }
        },
        EventView::Focused(ok) => {
            if let PhaseView::Walking { walk, .. } = run.phase {
                lemma_next_position(walk.pos, walk.session.order.len() as int, run.reverse);
            }
        },
        _ => {},
    }
}

} // verus!
