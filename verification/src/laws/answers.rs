//! What a press and a focus event are answered, from the fields of what comes
//! in to the fields of what goes out.

use vstd::prelude::*;

use crate::laws::recency::{lemma_same_records, same_records};
use crate::laws::walk::{law_steps_add_up, steps};
use crate::mru::MruRecord;
use crate::order::build_order;
use crate::pane::{pane_views, CyclePane, NavigationNode, PaneView};
use crate::reconcile::reconcile_records;
use crate::run::{
    run_cycle, start_cycle, ActionView, CycleAction, CycleEvent, CycleRun, Phase, PhaseView, Survey,
};
use crate::session::{lemma_next_position, next_position, step, CycleSession, SessionView};
use crate::track::{on_track_event, SessionUpdate, TrackDisposition, TrackOutcome};
use crate::walk::{
    advance_and_focus, begin_walk, Walk, WalkStep, WalkStepView, WalkView,
};

verus! {

/// The place one step on, round the ring, from wherever the step starts.
proof fn lemma_one_step(pos: int, len: int, reverse: bool)
    requires
        len > 0,
    ensures
        0 <= next_position(pos, len, reverse) < len,
        next_position(pos, len, reverse) == if reverse {
            (pos - 1) % len
        } else {
            (pos + 1) % len
        },
{
    vstd::arithmetic::div_mod::lemma_mod_bound(pos + 1, len);
    vstd::arithmetic::div_mod::lemma_mod_bound(pos - 1, len);
    vstd::arithmetic::div_mod::lemma_mod_add_multiples_vanish(pos - 1, len);
    assert(pos + len - 1 == len + (pos - 1));
}

/// A step goes to the next place of the ring, or to the one before, and round
/// the end. A place past the end counts from the end of its last full turn.
pub proof fn law_step_goes_to_neighbour(pos: usize, len: usize, reverse: bool, r: usize)
    requires
        call_ensures(step, (pos, len, reverse), r),
        len > 0,
    ensures
        r < len,
        !reverse && pos + 1 < len ==> r == pos + 1,
        !reverse && pos + 1 == len ==> r == 0,
        reverse && 0 < pos < len ==> r == pos - 1,
        reverse && pos == 0 ==> r == len - 1,
        !reverse ==> r == (pos + 1) % (len as int),
        reverse ==> r == (pos - 1) % (len as int),
{
    lemma_one_step(pos as int, len as int, reverse);
    if pos < len {
        lemma_next_position(pos as int, len as int, reverse);
    }
}

/// From every place in the ring a step can be taken.
pub proof fn law_step_can_be_taken(pos: usize, len: usize, reverse: bool)
    requires
        pos < len,
    ensures
        call_requires(step, (pos, len, reverse)),
{
}

/// A walk begins one step from the place of its session, and leaves the session
/// as it is. An empty order offers nothing.
pub proof fn law_walk_begins_beside(session: CycleSession, reverse: bool, at: WalkStep)
    requires
        call_ensures(begin_walk, (session, reverse), at),
    ensures
        session.order@.len() == 0 ==> at@ == WalkStepView::Exhausted(session@),
        session.order@.len() > 0 ==> at@ == WalkStepView::Next(
            WalkView {
                session: session@,
                pos: if reverse {
                    (session.position - 1) % session.order@.len() as int
                } else {
                    (session.position + 1) % session.order@.len() as int
                },
                tried: 1,
            },
        ),
{
    if session.order@.len() > 0 {
        lemma_one_step(session.position as int, session.order@.len() as int, reverse);
    }
}

/// A pane that took the focus is where the walk lands: the session sits on it,
/// from the time of the press on, and everything that it remembers came before.
/// A pane that did not is passed over for the one beside it, until every place
/// has been tried; then the session is as it was.
pub proof fn law_walk_answered(walk: Walk, focused: bool, reverse: bool, now: u64, at: WalkStep)
    requires
        call_ensures(advance_and_focus, (walk, focused, reverse, now), at),
        walk.pos < walk.session.order@.len(),
        1 <= walk.tried <= walk.session.order@.len(),
    ensures
        focused ==> at@ == WalkStepView::Landed(
            SessionView {
                started_at: walk.session.started_at,
                last_press_at: now,
                order: walk.session@.order,
                position: walk.pos as int,
                landed: Some(walk.session.order@[walk.pos as int]@),
                post_focus: walk.session@.post_focus,
                before_landing: walk.session.post_focus@.len() as int,
            },
        ),
        !focused && walk.tried == walk.session.order@.len() ==> at@ == WalkStepView::Exhausted(
            walk.session@,
        ),
        !focused && walk.tried < walk.session.order@.len() ==> at@ == WalkStepView::Next(
            WalkView {
                session: walk.session@,
                pos: if reverse {
                    (walk.pos - 1) % walk.session.order@.len() as int
                } else {
                    (walk.pos + 1) % walk.session.order@.len() as int
                },
                tried: walk.tried + 1,
            },
        ),
{
    lemma_one_step(walk.pos as int, walk.session.order@.len() as int, reverse);
    assert(walk@.session.order[walk.pos as int] == walk.session.order@[walk.pos as int]@);
}

/// A press begins by asking for the kept session, with its direction and times.
pub proof fn law_press_begins(reverse: bool, now: u64, timeout: u64, r: (CycleRun, CycleAction))
    requires
        call_ensures(start_cycle, (reverse, now, timeout), r),
    ensures
        r.0.reverse == reverse,
        r.0.now == now,
        r.0.timeout == timeout,
        r.0.phase is Opening,
        r.1 is LoadSession,
{
}

/// A run keeps its direction and its times through every event.
pub proof fn law_run_keeps_direction(
    run: CycleRun,
    event: CycleEvent,
    r: (CycleRun, CycleAction),
)
    requires
        call_ensures(run_cycle, (run, event), r),
    ensures
        r.0.reverse == run.reverse,
        r.0.now == run.now,
        r.0.timeout == run.timeout,
{
}

/// Where a run stands in a walk, and the pane that it asks to focus.
spec fn offers(
    run: CycleRun,
    action: CycleAction,
    session: SessionView,
    place: int,
    tried: int,
    resumed: bool,
) -> bool {
    &&& run@.phase == (PhaseView::Walking {
        walk: WalkView { session, pos: place, tried },
        resumed,
    })
    &&& action@ == ActionView::FocusPane(session.order[place].pane_id)
}

/// One step and then `n` more.
proof fn lemma_steps_on(pos: int, len: int, reverse: bool, n: nat)
    requires
        len > 0,
    ensures
        0 <= steps(next_position(pos, len, reverse), len, reverse, n) < len,
        steps(next_position(pos, len, reverse), len, reverse, n) == if reverse {
            (pos - 1 - n) % len
        } else {
            (pos + 1 + n) % len
        },
{
    lemma_one_step(pos, len, reverse);
    let first = next_position(pos, len, reverse);
    law_steps_add_up(first, len, reverse, n);
    vstd::arithmetic::div_mod::lemma_small_mod(first as nat, len as nat);
    if reverse {
        vstd::arithmetic::div_mod::lemma_add_mod_noop_right(0 - n, pos - 1, len);
    } else {
        vstd::arithmetic::div_mod::lemma_add_mod_noop_right(n as int, pos + 1, len);
    }
}

/// Where a run stands after the panes that it offered could not be focused.
proof fn lemma_offers_in_turn(
    session: SessionView,
    resumed: bool,
    reverse: bool,
    runs: Seq<CycleRun>,
    actions: Seq<CycleAction>,
    misses: int,
)
    requires
        0 <= misses < session.order.len(),
        runs.len() > misses,
        actions.len() > misses,
        runs[0].reverse == reverse,
        offers(
            runs[0],
            actions[0],
            session,
            next_position(session.position, session.order.len() as int, reverse),
            1,
            resumed,
        ),
        forall|i: int|
            0 <= i < misses ==> call_ensures(
                run_cycle,
                (#[trigger] runs[i], CycleEvent::Focused(false)),
                (runs[i + 1], actions[i + 1]),
            ),
    ensures
        runs[misses].reverse == reverse,
        runs[misses].now == runs[0].now,
        offers(
            runs[misses],
            actions[misses],
            session,
            if reverse {
                (session.position - 1 - misses) % session.order.len() as int
            } else {
                (session.position + 1 + misses) % session.order.len() as int
            },
            misses + 1,
            resumed,
        ),
    decreases misses,
{
    let len = session.order.len() as int;
    lemma_steps_on(session.position, len, reverse, misses as nat);
    if misses > 0 {
        lemma_offers_in_turn(session, resumed, reverse, runs, actions, misses - 1);
        lemma_steps_on(session.position, len, reverse, (misses - 1) as nat);
        let before = runs[misses - 1];
        assert(call_ensures(
            run_cycle,
            (before, CycleEvent::Focused(false)),
            (runs[misses - 1 + 1], actions[misses - 1 + 1]),
        ));
    }
}

/// A press that finds an active session, whatever that remembers, asks for the
/// panes of its frozen order one by one from its place on: after any number of
/// them that could not be focused, for the next one round the ring.
pub proof fn law_press_offers_frozen_order(
    session: CycleSession,
    run: CycleRun,
    runs: Seq<CycleRun>,
    actions: Seq<CycleAction>,
    misses: int,
)
    requires
        run.phase is Opening,
        run.now <= session.last_press_at + run.timeout,
        0 <= misses < session.order@.len(),
        runs.len() > misses,
        actions.len() > misses,
        call_ensures(
            run_cycle,
            (run, CycleEvent::Loaded(Some(session))),
            (runs[0], actions[0]),
        ),
        forall|i: int|
            0 <= i < misses ==> call_ensures(
                run_cycle,
                (#[trigger] runs[i], CycleEvent::Focused(false)),
                (runs[i + 1], actions[i + 1]),
            ),
    ensures
        ({
            let place = if run.reverse {
                (session.position - 1 - misses) % session.order@.len() as int
            } else {
                (session.position + 1 + misses) % session.order@.len() as int
            };
            &&& 0 <= place < session.order@.len()
            &&& actions[misses] matches CycleAction::FocusPane(id) && id@
                == session.order@[place].pane_id@
        }),
{
    lemma_steps_on(
        session.position as int,
        session.order@.len() as int,
        run.reverse,
        misses as nat,
    );
    lemma_offers_in_turn(session@, true, run.reverse, runs, actions, misses);
}

/// Once the pane asked for takes the focus, the session is kept: on that pane,
/// at the time of the press, with the same order, start and memory, all of it
/// from before this landing.
pub proof fn law_press_lands_where_it_asked(
    session: CycleSession,
    run: CycleRun,
    runs: Seq<CycleRun>,
    actions: Seq<CycleAction>,
    misses: int,
    landed: (CycleRun, CycleAction),
)
    requires
        run.phase is Opening,
        run.now <= session.last_press_at + run.timeout,
        0 <= misses < session.order@.len(),
        runs.len() > misses,
        actions.len() > misses,
        call_ensures(
            run_cycle,
            (run, CycleEvent::Loaded(Some(session))),
            (runs[0], actions[0]),
        ),
        forall|i: int|
            0 <= i < misses ==> call_ensures(
                run_cycle,
                (#[trigger] runs[i], CycleEvent::Focused(false)),
                (runs[i + 1], actions[i + 1]),
            ),
        call_ensures(run_cycle, (runs[misses], CycleEvent::Focused(true)), landed),
    ensures
        landed.0.phase is Saving,
        ({
            let place = if run.reverse {
                (session.position - 1 - misses) % session.order@.len() as int
            } else {
                (session.position + 1 + misses) % session.order@.len() as int
            };
            &&& landed.1 matches CycleAction::SaveSession(s) && {
                &&& actions[misses]@ == ActionView::FocusPane(s@.landed->0.pane_id)
                &&& s@ == SessionView {
                    started_at: session.started_at,
                    last_press_at: run.now,
                    order: session@.order,
                    position: place,
                    landed: Some(session.order@[place]@),
                    post_focus: session@.post_focus,
                    before_landing: session.post_focus@.len() as int,
                }
            }
        }),
{
    let len = session.order@.len() as int;
    lemma_steps_on(session.position as int, len, run.reverse, misses as nat);
    lemma_offers_in_turn(session@, true, run.reverse, runs, actions, misses);
    let place = if run.reverse {
        (session.position - 1 - misses) % len
    } else {
        (session.position + 1 + misses) % len
    };
    assert(session@.order[place] == session.order@[place]@);
}

/// A press that finds no pane of an active session to focus any more ends that
/// session with the records that it leaves.
pub proof fn law_press_gives_up_last(
    session: CycleSession,
    run: CycleRun,
    runs: Seq<CycleRun>,
    actions: Seq<CycleAction>,
    records: Vec<MruRecord>,
)
    requires
        run.phase is Opening,
        run.now <= session.last_press_at + run.timeout,
        runs.len() > session.order@.len(),
        actions.len() > session.order@.len(),
        call_ensures(
            run_cycle,
            (run, CycleEvent::Loaded(Some(session))),
            (runs[0], actions[0]),
        ),
        forall|i: int|
            0 <= i < session.order@.len() ==> call_ensures(
                run_cycle,
                (#[trigger] runs[i], CycleEvent::Focused(false)),
                (runs[i + 1], actions[i + 1]),
            ),
        call_ensures(reconcile_records, (&session,), records),
    ensures
        runs[session.order@.len() as int].phase is ClosingWalked,
        actions[session.order@.len() as int] matches CycleAction::CloseSession(left)
            && same_records(left@, records@),
{
    let len = session.order@.len() as int;
    if len > 0 {
        lemma_offers_in_turn(session@, true, run.reverse, runs, actions, len - 1);
        assert(call_ensures(
            run_cycle,
            (runs[len - 1], CycleEvent::Focused(false)),
            (runs[len - 1 + 1], actions[len - 1 + 1]),
        ));
    }
    if let CycleAction::CloseSession(left) = actions[len] {
        lemma_same_records(left@, records@);
    }
}

/// A press that finds no session, or one that has timed out, reads it again to
/// end it: with the records that it leaves. Then the panes are listed.
pub proof fn law_press_ends_old_session(
    run: CycleRun,
    kept: Option<CycleSession>,
    r: (CycleRun, CycleAction),
    records: Vec<MruRecord>,
)
    requires
        call_ensures(run_cycle, (run, CycleEvent::Loaded(kept)), r),
        kept matches Some(s) ==> call_ensures(reconcile_records, (&s,), records),
    ensures
        run.phase is Opening && (kept matches Some(s) ==> run.now > s.last_press_at + run.timeout)
            ==> r.0.phase is Reopening && r.1 is LoadSession,
        run.phase is Reopening && kept is None ==> r.0.phase is Surveying && r.1 is SurveyPanes,
        run.phase is Reopening && kept is Some ==> r.0.phase is ClosingStale && (
        r.1 matches CycleAction::CloseSession(left) && same_records(left@, records@)),
{
    if let CycleAction::CloseSession(left) = r.1 {
        if run.phase is Reopening && kept is Some {
            lemma_same_records(left@, records@);
        }
    }
}

/// After the end of a session the press goes on, unless its records could not
/// be entered; it ends well if and only if its session could be kept.
pub proof fn law_run_heeds_failures(run: CycleRun, ok: bool, r: (CycleRun, CycleAction))
    ensures
        call_ensures(run_cycle, (run, CycleEvent::Recorded(ok)), r) ==> {
            &&& run.phase is ClosingWalked && ok ==> r.0.phase is Reopening && r.1 is LoadSession
            &&& run.phase is ClosingStale && ok ==> r.0.phase is Surveying && r.1 is SurveyPanes
            &&& (run.phase is ClosingWalked || run.phase is ClosingStale) && !ok
                ==> r.0.phase is Finished && r.1 == CycleAction::Finish(false)
        },
        call_ensures(run_cycle, (run, CycleEvent::Saved(ok)), r) && run.phase is Saving
            ==> r.0.phase is Finished && r.1 == CycleAction::Finish(ok),
        call_ensures(run_cycle, (run, CycleEvent::Surveyed(None)), r) && run.phase is Surveying
            ==> r.0.phase is Finished && r.1 == CycleAction::Finish(false),
{
}

/// The panes that are listed make a new session, over the order that is built
/// from them. With fewer than two panes in it the press ends, and is well.
/// Otherwise it asks for the pane after the first one, or for the last one.
pub proof fn law_press_starts_from_built_order(
    run: CycleRun,
    survey: Survey,
    nodes: &[NavigationNode],
    order: Vec<CyclePane>,
    r: (CycleRun, CycleAction),
)
    requires
        run.phase is Surveying,
        nodes@ == survey.nodes@,
        call_ensures(run_cycle, (run, CycleEvent::Surveyed(Some(survey))), r),
        match survey.focused {
            Some(f) => call_ensures(build_order, (nodes, Some(&f), &survey.pane_ts), order),
            None => call_ensures(build_order, (nodes, None, &survey.pane_ts), order),
        },
    ensures
        order@.len() < 2 ==> r.0.phase is Finished && r.1 == CycleAction::Finish(true),
        order@.len() >= 2 ==> {
            let place = if run.reverse {
                order@.len() - 1
            } else {
                1
            };
            &&& r.1 matches CycleAction::FocusPane(id) && id@ == order@[place].pane_id@
            &&& r.0.phase matches Phase::Walking { walk, resumed } && {
                &&& !resumed
                &&& walk.pos == place
                &&& walk.tried == 1
                &&& walk.session@ == (SessionView {
                    started_at: run.now,
                    last_press_at: run.now,
                    order: pane_views(order@),
                    position: 0,
                    landed: None,
                    post_focus: Seq::empty(),
                    before_landing: 0,
                })
            }
        },
{
    let len = order@.len() as int;
    if len >= 2 {
        lemma_next_position(0, len, run.reverse);
        assert(pane_views(order@)[1] == order@[1]@);
        assert(pane_views(order@)[len - 1] == order@[len - 1]@);
    }
}

/// The new session is walked as a kept one is: after any number of panes that
/// could not be focused the press asks for the next one, and lands where it
/// asked; if there is none, it ends well and keeps nothing.
pub proof fn law_press_walks_new_session(
    run: CycleRun,
    survey: Survey,
    nodes: &[NavigationNode],
    order: Vec<CyclePane>,
    runs: Seq<CycleRun>,
    actions: Seq<CycleAction>,
    misses: int,
    last: (CycleRun, CycleAction),
)
    requires
        run.phase is Surveying,
        nodes@ == survey.nodes@,
        match survey.focused {
            Some(f) => call_ensures(build_order, (nodes, Some(&f), &survey.pane_ts), order),
            None => call_ensures(build_order, (nodes, None, &survey.pane_ts), order),
        },
        order@.len() >= 2,
        0 <= misses < order@.len(),
        runs.len() > misses,
        actions.len() > misses,
        call_ensures(
            run_cycle,
            (run, CycleEvent::Surveyed(Some(survey))),
            (runs[0], actions[0]),
        ),
        forall|i: int|
            0 <= i < misses ==> call_ensures(
                run_cycle,
                (#[trigger] runs[i], CycleEvent::Focused(false)),
                (runs[i + 1], actions[i + 1]),
            ),
    ensures
        ({
            let place = if run.reverse {
                (0 - 1 - misses) % order@.len() as int
            } else {
                (0 + 1 + misses) % order@.len() as int
            };
            &&& 0 <= place < order@.len()
            &&& actions[misses] matches CycleAction::FocusPane(id) && id@ == order@[place].pane_id@
            &&& call_ensures(run_cycle, (runs[misses], CycleEvent::Focused(true)), last) ==> {
                &&& last.0.phase is Saving
                &&& last.1 matches CycleAction::SaveSession(s) && s@ == (SessionView {
                    started_at: run.now,
                    last_press_at: run.now,
                    order: pane_views(order@),
                    position: place,
                    landed: Some(order@[place]@),
                    post_focus: Seq::empty(),
                    before_landing: 0,
                })
            }
        }),
        misses == order@.len() - 1 && call_ensures(
            run_cycle,
            (runs[misses], CycleEvent::Focused(false)),
            last,
        ) ==> last.0.phase is Finished && last.1 == CycleAction::Finish(true),
{
    let len = order@.len() as int;
    let begun = SessionView {
        started_at: run.now,
        last_press_at: run.now,
        order: pane_views(order@),
        position: 0,
        landed: None,
        post_focus: Seq::empty(),
        before_landing: 0,
    };
    law_press_starts_from_built_order(run, survey, nodes, order, (runs[0], actions[0]));
    lemma_next_position(0, len, run.reverse);
    assert(pane_views(order@)[1] == order@[1]@);
    assert(pane_views(order@)[len - 1] == order@[len - 1]@);
    lemma_steps_on(0, len, run.reverse, misses as nat);
    lemma_offers_in_turn(begun, false, run.reverse, runs, actions, misses);
    let place = if run.reverse {
        (0 - 1 - misses) % len
    } else {
        (0 + 1 + misses) % len
    };
    assert(pane_views(order@)[place] == order@[place]@);
}

/// A run under way does what its walk comes to: it keeps the session that
/// landed, asks for the pane that the walk is at, or, when the walk has given
/// up, ends a session that was kept before, and otherwise the press.
pub proof fn law_run_follows_walk(
    run: CycleRun,
    walk: Walk,
    resumed: bool,
    focused: bool,
    at: WalkStep,
    r: (CycleRun, CycleAction),
    records: Vec<MruRecord>,
)
    requires
        run.phase == (Phase::Walking { walk, resumed }),
        walk.pos < walk.session.order@.len(),
        1 <= walk.tried <= walk.session.order@.len(),
        call_ensures(run_cycle, (run, CycleEvent::Focused(focused)), r),
        call_ensures(advance_and_focus, (walk, focused, run.reverse, run.now), at),
        call_ensures(reconcile_records, (&walk.session,), records),
    ensures
        match at {
            WalkStep::Landed(s) => r.0.phase is Saving && (r.1 matches CycleAction::SaveSession(
                kept,
            ) && kept@ == s@),
            WalkStep::Next(next) => {
                &&& r.1 matches CycleAction::FocusPane(id) && id@
                    == next.session.order@[next.pos as int].pane_id@
                &&& r.0.phase matches Phase::Walking { walk: on, resumed: still } && on@ == next@
                    && still == resumed
            },
            WalkStep::Exhausted(s) => if resumed {
                r.0.phase is ClosingWalked && (r.1 matches CycleAction::CloseSession(left)
                    && same_records(left@, records@))
            } else {
                r.0.phase is Finished && r.1 == CycleAction::Finish(true)
            },
        },
{
    law_walk_answered(walk, focused, run.reverse, run.now, at);
    let len = walk.session.order@.len() as int;
    lemma_one_step(walk.pos as int, len, run.reverse);
    if let WalkStep::Next(next) = at {
        assert(next@.session.order[next.pos as int] == next.session.order@[next.pos as int]@);
    }
    if let CycleAction::CloseSession(left) = r.1 {
        if at is Exhausted && resumed {
            lemma_same_records(left@, records@);
        }
    }
}

/// A press takes whatever it asked for: any session whose place lies in its
/// order, none, any answer on a pane, on records, on panes and on keeping.
pub proof fn law_press_takes_every_answer(
    run: CycleRun,
    kept: Option<CycleSession>,
    survey: Option<Survey>,
    ok: bool,
)
    requires
        kept matches Some(s) ==> s.position < s.order@.len(),
    ensures
        run.phase is Opening || run.phase is Reopening ==> call_requires(
            run_cycle,
            (run, CycleEvent::Loaded(kept)),
        ),
        run.phase matches Phase::Walking { walk, .. } ==> walk.pos < walk.session.order@.len()
            ==> 1 <= walk.tried <= walk.session.order@.len() ==> call_requires(
            run_cycle,
            (run, CycleEvent::Focused(ok)),
        ),
        run.phase is ClosingWalked || run.phase is ClosingStale ==> call_requires(
            run_cycle,
            (run, CycleEvent::Recorded(ok)),
        ),
        run.phase is Surveying ==> call_requires(run_cycle, (run, CycleEvent::Surveyed(survey))),
        run.phase is Saving ==> call_requires(run_cycle, (run, CycleEvent::Saved(ok))),
{
}

/// Where no session is kept, an event is for the caller to record.
pub proof fn law_event_without_session(
    event: Option<(&str, &str)>,
    now: u64,
    timeout: u64,
    outcome: TrackOutcome,
)
    requires
        call_ensures(on_track_event, (None, event, now, timeout), outcome),
    ensures
        outcome.disposition == TrackDisposition::Proceed,
        outcome.update is Keep,
{
}

/// After the timeout of a session, whatever it remembers, an event is for the
/// caller to record, and the session ends with the records that it leaves.
pub proof fn law_event_after_timeout(
    s: CycleSession,
    event: Option<(&str, &str)>,
    now: u64,
    timeout: u64,
    outcome: TrackOutcome,
    records: Vec<MruRecord>,
)
    requires
        call_ensures(on_track_event, (Some(s), event, now, timeout), outcome),
        call_ensures(reconcile_records, (&s,), records),
        now > s.last_press_at + timeout,
    ensures
        outcome.disposition == TrackDisposition::Proceed,
        outcome.update matches SessionUpdate::Close(left) && same_records(left@, records@),
{
    if let SessionUpdate::Close(left) = outcome.update {
        lemma_same_records(left@, records@);
    }
}

/// Up to the timeout every event is absorbed. It changes nothing where it is
/// about no pane, about the pane just landed on, or, with something focused
/// since the landing, about the pane focused last. Any other pane is remembered
/// as the last one: it is added, or, where it is the last one that is
/// remembered but the landing came after it, moved past the landing.
pub proof fn law_event_absorbed(
    s: CycleSession,
    event: Option<(&str, &str)>,
    now: u64,
    timeout: u64,
    outcome: TrackOutcome,
)
    requires
        call_ensures(on_track_event, (Some(s), event, now, timeout), outcome),
        now <= s.last_press_at + timeout,
    ensures
        outcome.disposition == TrackDisposition::Absorbed,
        event is None ==> outcome.update is Keep,
        event matches Some((pane, workspace)) ==> {
            let n = s.post_focus@.len() as int;
            let resting = s.landed is Some && s.before_landing >= n;
            let again = n > 0 && s.post_focus@[n - 1].pane_id@ == pane@ && s.post_focus@[n
                - 1].workspace_id@ == workspace@;
            let nothing_new = if resting {
                (s.landed->0).pane_id@ == pane@
            } else {
                again
            };
            &&& nothing_new ==> outcome.update is Keep
            &&& !nothing_new && again ==> (outcome.update matches SessionUpdate::Save(next)
                && next@ == (SessionView { before_landing: n - 1, ..s@ }))
            &&& !nothing_new && !again ==> (outcome.update matches SessionUpdate::Save(next)
                && next@ == (SessionView {
                post_focus: s@.post_focus.push(
                    PaneView { pane_id: pane@, workspace_id: workspace@ },
                ),
                before_landing: if s.before_landing <= n {
                    s.before_landing as int
                } else {
                    n
                },
                ..s@
            }))
        },
{
    if let Some((pane, workspace)) = event {
        let n = s.post_focus@.len() as int;
        let e = PaneView { pane_id: pane@, workspace_id: workspace@ };
        if n > 0 {
            assert(s@.post_focus[n - 1] == s.post_focus@[n - 1]@);
        }
        let log = s@.focus_log();
        if s@.landing_is_last() {
            assert(log.last() == s@.landed->0);
        } else if n > 0 {
            if s.landed is None {
                assert(log =~= s@.post_focus);
            }
            assert(log.last() == s@.post_focus.last());
        } else {
            assert(log.len() == 0);
        }
    }
}

} // verus!
