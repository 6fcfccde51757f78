//! A session as a course of landings and focuses, and the history it leaves.

use vstd::prelude::*;

use crate::laws::events::{
    after_event, lemma_log_contains, lemma_squeeze_contains, lemma_squeeze_of_no_repeats,
};
use crate::laws::history::{
    above, law_history_rest_untouched, law_last_word_counts, law_later_is_more_recent,
    lemma_enter_add, untouched,
};
use crate::laws::walk::steps;
use crate::mru::{bump, enter_all, mentions, others, same_subject, RecordView};
use crate::pane::PaneView;
use crate::reconcile::{
    lemma_squeeze_last, pane_record, reconciled_panes, records_of, squeeze, workspace_record,
};
use crate::session::{landed_seq, next_position, SessionView};
use crate::track::closing_records;

verus! {

/// What can happen to an active session.
pub enum Happening {
    /// A press at time `now` lands on the pane at `pos`.
    Landing { pos: int, now: u64 },
    /// A focus event comes in.
    Focus(PaneView),
}

/// A session after a course of landings and focus events.
pub open spec fn session_after(session: SessionView, course: Seq<Happening>) -> SessionView
    decreases course.len(),
{
    if course.len() == 0 {
        session
    } else {
        let before = session_after(session, course.drop_last());
        match course.last() {
            Happening::Landing { pos, now } => before.landing(pos, now),
            Happening::Focus(event) => after_event(before, event),
        }
    }
}

/// The pane that was landed on last.
pub open spec fn last_landing(session: SessionView, course: Seq<Happening>) -> Option<PaneView>
    decreases course.len(),
{
    if course.len() == 0 {
        session.landed
    } else {
        match course.last() {
            Happening::Landing { pos, now } => Some(session.order[pos]),
            Happening::Focus(_) => last_landing(session, course.drop_last()),
        }
    }
}

/// Whether the pane that was landed on last still has the focus.
pub open spec fn at_rest(session: SessionView, course: Seq<Happening>) -> bool
    decreases course.len(), 0int,
{
    if course.len() == 0 {
        session.landing_is_last()
    } else {
        match course.last() {
            Happening::Landing { pos, now } => true,
            Happening::Focus(event) => echoes(session, course.drop_last(), event),
        }
    }
}

/// Whether a focus event after a course is the echo of its last landing.
pub open spec fn echoes(session: SessionView, course: Seq<Happening>, event: PaneView) -> bool
    decreases course.len(), 1int,
{
    &&& at_rest(session, course)
    &&& last_landing(session, course) matches Some(p) && p.pane_id == event.pane_id
}

/// The panes that the user focused by other means, in order: all that focus
/// events are about, but for the echoes.
pub open spec fn user_focuses(session: SessionView, course: Seq<Happening>) -> Seq<PaneView>
    decreases course.len(),
{
    if course.len() == 0 {
        session.post_focus
    } else {
        let before = user_focuses(session, course.drop_last());
        match course.last() {
            Happening::Landing { pos, now } => before,
            Happening::Focus(event) => if echoes(session, course.drop_last(), event) {
                before
            } else {
                before.push(event)
            },
        }
    }
}

/// How many of these came before the last landing.
pub open spec fn focused_before(session: SessionView, course: Seq<Happening>) -> int
    decreases course.len(),
{
    if course.len() == 0 {
        session.before_landing
    } else {
        match course.last() {
            Happening::Landing { pos, now } => user_focuses(session, course).len() as int,
            Happening::Focus(_) => focused_before(session, course.drop_last()),
        }
    }
}

/// Where the user was, in the order of time: the panes focused by other means
/// and the last landing. The landings before that were merely hopped through.
pub open spec fn chronicle(session: SessionView, course: Seq<Happening>) -> Seq<PaneView>
    decreases course.len(),
{
    if course.len() == 0 {
        session.focus_log()
    } else {
        match course.last() {
            Happening::Landing { pos, now } => user_focuses(session, course).push(
                session.order[pos],
            ),
            Happening::Focus(event) => if echoes(session, course.drop_last(), event) {
                chronicle(session, course.drop_last())
            } else {
                chronicle(session, course.drop_last()).push(event)
            },
        }
    }
}

/// The squeezed end of a sequence is the end of the squeezed sequence. What
/// comes before is the squeezed start, short of a pane that both would hold.
proof fn lemma_squeeze_parts(panes: Seq<PaneView>, m: int)
    requires
        0 <= m <= panes.len(),
    ensures
        ({
            let all = squeeze(panes);
            let tail = squeeze(panes.skip(m));
            let k = all.len() - tail.len();
            &&& k >= 0
            &&& all.skip(k) == tail
            &&& all.take(k) == squeeze(panes.take(m)) || (all.take(k).push(panes[m]) == squeeze(
                panes.take(m),
            ) && m < panes.len())
        }),
    decreases panes.len(),
{
    let all = squeeze(panes);
    let tail = squeeze(panes.skip(m));
    let k = all.len() - tail.len();
    if m == panes.len() {
        assert(panes.skip(m) =~= Seq::empty());
        assert(panes.take(m) =~= panes);
        assert(all.take(k) =~= all);
        assert(all.skip(k) =~= tail);
    } else {
        let shorter = panes.drop_last();
        let last = panes.last();
        lemma_squeeze_last(shorter);
        lemma_squeeze_last(panes);
        lemma_squeeze_parts(shorter, m);
        assert(panes.take(m) =~= shorter.take(m));
        assert(panes.skip(m).drop_last() =~= shorter.skip(m));
        let head = squeeze(shorter);
        let rest = squeeze(shorter.skip(m));
        lemma_squeeze_last(shorter.skip(m));
        if m == shorter.len() {
            assert(panes.skip(m) =~= seq![last]);
            assert(shorter.skip(m) =~= Seq::empty());
            assert(tail =~= seq![last]);
            assert(shorter.take(m) =~= shorter);
            if all == head {
                assert(all.skip(k) =~= tail);
                assert(all.take(k).push(panes[m]) =~= all);
            } else {
                assert(all =~= head.push(last));
                assert(all.skip(k) =~= tail);
                assert(all.take(k) =~= head);
            }
        } else {
            assert(panes.skip(m)[panes.skip(m).len() - 2] == panes[panes.len() - 2]);
            assert(panes.skip(m).last() == last);
            if last == panes[panes.len() - 2] {
                assert(all == head);
                assert(tail == rest);
            } else {
                assert(all == head.push(last));
                assert(tail == rest.push(last));
                assert(all.skip(k) =~= head.skip(k).push(last));
                assert(all.take(k) =~= head.take(k));
            }
        }
    }
}

/// What a session holds after a course: the panes that the user focused, with
/// no pane twice in a row, the last landing, and its place among them.
spec fn follows(session: SessionView, course: Seq<Happening>) -> bool {
    let after = session_after(session, course);
    let focuses = user_focuses(session, course);
    let m = focused_before(session, course);
    &&& after.order == session.order
    &&& after.started_at == session.started_at
    &&& after.landed == last_landing(session, course)
    &&& 0 <= m <= focuses.len()
    &&& after.landed is None ==> m == 0
    &&& after.post_focus == squeeze(focuses)
    &&& after.before_landing == squeeze(focuses).len() - squeeze(focuses.skip(m)).len()
    &&& 0 <= after.before_landing <= after.post_focus.len()
    &&& at_rest(session, course) == after.landing_is_last()
    &&& at_rest(session, course) == (after.landed is Some && m == focuses.len())
    &&& chronicle(session, course) == focuses.take(m) + landed_seq(after.landed) + focuses.skip(m)
}

/// How squeezing goes on with one more pane.
proof fn lemma_squeeze_push(panes: Seq<PaneView>, last: PaneView)
    ensures
        squeeze(panes.push(last)) == if panes.len() > 0 && panes.last() == last {
            squeeze(panes)
        } else {
            squeeze(panes).push(last)
        },
        panes.len() > 0 ==> squeeze(panes).len() > 0 && squeeze(panes).last() == panes.last(),
        panes.len() == 0 ==> squeeze(panes).len() == 0,
{
    let longer = panes.push(last);
    lemma_squeeze_last(panes);
    assert(longer.drop_last() =~= panes);
    if panes.len() > 0 {
        assert(longer[longer.len() - 2] == panes.last());
    }
}

/// A focus that is no echo is the user's.
proof fn lemma_focus_follows(session: SessionView, fewer: Seq<Happening>, event: PaneView)
    requires
        follows(session, fewer),
        !echoes(session, fewer, event),
    ensures
        follows(session, fewer.push(Happening::Focus(event))),
{
    let course = fewer.push(Happening::Focus(event));
    assert(course.drop_last() =~= fewer);
    let before = session_after(session, fewer);
    let after = session_after(session, course);
    let earlier = user_focuses(session, fewer);
    let focuses = user_focuses(session, course);
    let m = focused_before(session, fewer);
    assert(after == after_event(before, event));
    assert(focuses == earlier.push(event));
    assert(focused_before(session, course) == m);
    assert(!before.is_echo(event));
    let old_tail = earlier.skip(m);
    lemma_squeeze_push(earlier, event);
    lemma_squeeze_push(old_tail, event);
    assert(focuses.skip(m) =~= old_tail.push(event));
    if old_tail.len() > 0 {
        assert(old_tail.last() == earlier.last());
    }
    let log = before.focus_log();
    if before.landing_is_last() {
        assert(log.last() == before.landed->0);
    } else if before.post_focus.len() > 0 {
        assert(log.last() == before.post_focus.last());
    }
    assert(focuses.take(m) =~= earlier.take(m));
    assert(focuses.take(m) + landed_seq(after.landed) + focuses.skip(m) =~= (earlier.take(m)
        + landed_seq(after.landed) + old_tail).push(event));
}

/// A session follows every course.
proof fn lemma_session_follows(session: SessionView, course: Seq<Happening>)
    requires
        session.remembers_well(),
    ensures
        follows(session, course),
    decreases course.len(),
{
    let after = session_after(session, course);
    let focuses = user_focuses(session, course);
    let m = focused_before(session, course);
    if course.len() == 0 {
        lemma_squeeze_of_no_repeats(session.post_focus);
        let tail = session.post_focus.skip(m);
        assert forall|i: int| 0 < i < tail.len() implies #[trigger] tail[i] != tail[i - 1] by {
            assert(session.post_focus[m + i] != session.post_focus[m + i - 1]);
        }
        lemma_squeeze_of_no_repeats(tail);
    } else {
        let fewer = course.drop_last();
        lemma_session_follows(session, fewer);
        match course.last() {
            Happening::Landing { pos, now } => {
                assert(focuses.skip(m) =~= Seq::empty());
                assert(focuses.take(m) + landed_seq(after.landed) + focuses.skip(m)
                    =~= focuses.push(session.order[pos]));
            },
            Happening::Focus(event) => {
                if !echoes(session, fewer, event) {
                    lemma_focus_follows(session, fewer, event);
                    assert(course =~= fewer.push(Happening::Focus(event)));
                }
            },
        }
    }
}

/// Panes and their workspaces, entered into a history in order.
pub open spec fn enter_panes(
    history: Seq<RecordView>,
    panes: Seq<PaneView>,
) -> Seq<RecordView> {
    enter_all(history, records_of(panes))
}

/// Panes one after the other.
proof fn lemma_enter_panes_add(
    history: Seq<RecordView>,
    first: Seq<PaneView>,
    second: Seq<PaneView>,
)
    ensures
        enter_panes(history, first + second) == enter_panes(enter_panes(history, first), second),
{
    assert(records_of(first + second) =~= records_of(first) + records_of(second));
    lemma_enter_add(history, records_of(first), records_of(second));
}

/// A pane that is entered again later need not have been entered before.
proof fn lemma_enter_again(history: Seq<RecordView>, pane: PaneView, panes: Seq<PaneView>)
    requires
        panes.contains(pane),
    ensures
        enter_panes(enter_panes(history, seq![pane]), panes) == enter_panes(history, panes),
{
    let records = records_of(panes);
    let i = choose|i: int| 0 <= i < panes.len() && panes[i] == pane;
    assert(records[2 * i] == pane_record(pane));
    assert(records[2 * i + 1] == workspace_record(pane));
    assert(mentions(records, pane_record(pane)));
    assert(mentions(records, workspace_record(pane)));
    let two = seq![pane_record(pane), workspace_record(pane)];
    assert(records_of(seq![pane]) =~= two);
    assert(two.drop_last() =~= seq![pane_record(pane)]);
    assert(two.drop_last().drop_last() =~= Seq::empty());
    let one = bump(history, pane_record(pane));
    assert(enter_all(history, two.drop_last().drop_last()) == history);
    assert(enter_all(history, two.drop_last()) == one);
    assert(enter_all(history, two) == bump(one, workspace_record(pane)));
    law_last_word_counts(one, workspace_record(pane), records);
    law_last_word_counts(history, pane_record(pane), records);
}

/// Runs of the same pane count once.
proof fn lemma_enter_squeezed(history: Seq<RecordView>, panes: Seq<PaneView>)
    ensures
        enter_panes(history, squeeze(panes)) == enter_panes(history, panes),
    decreases panes.len(),
{
    if panes.len() == 0 {
        assert(squeeze(panes) =~= panes);
    } else {
        let shorter = panes.drop_last();
        let last = panes.last();
        lemma_enter_squeezed(history, shorter);
        assert(panes =~= shorter + seq![last]);
        lemma_enter_panes_add(history, shorter, seq![last]);
        if panes.len() > 1 && last == panes[panes.len() - 2] {
            let first = shorter.drop_last();
            assert(shorter =~= first + seq![last]);
            lemma_enter_panes_add(history, first, seq![last]);
            assert(seq![last][0] == last);
            lemma_enter_again(enter_panes(history, first), last, seq![last]);
        } else {
            assert(squeeze(panes) =~= squeeze(shorter) + seq![last]);
            lemma_enter_panes_add(history, squeeze(shorter), seq![last]);
        }
    }
}

/// The end of a session leaves the history as if every focus had been entered
/// when it came: the panes that the user focused by other means and the last
/// landing, in the order of time, whatever the mix of landings and focuses.
pub proof fn law_history_follows_time(
    session: SessionView,
    course: Seq<Happening>,
    history: Seq<RecordView>,
)
    requires
        session.remembers_well(),
    ensures
        enter_all(history, closing_records(session_after(session, course))) == enter_panes(
            history,
            chronicle(session, course),
        ),
{
    let after = session_after(session, course);
    let focuses = user_focuses(session, course);
    let m = focused_before(session, course);
    lemma_session_follows(session, course);
    lemma_squeeze_parts(focuses, m);
    let k = after.before_landing;
    let landed = landed_seq(after.landed);
    let front = after.post_focus.take(k);
    let back = after.post_focus.skip(k);
    let start = focuses.take(m);
    let end = focuses.skip(m);
    lemma_enter_squeezed(history, after.focus_log());
    lemma_enter_panes_add(history, front + landed, back);
    lemma_enter_panes_add(history, front, landed);
    lemma_enter_panes_add(history, start + landed, end);
    lemma_enter_panes_add(history, start, landed);
    let tail = landed + end;
    lemma_enter_panes_add(enter_panes(history, front), landed, back);
    lemma_enter_panes_add(enter_panes(history, front), landed, end);
    lemma_enter_panes_add(enter_panes(history, start), landed, end);
    lemma_enter_squeezed(enter_panes(enter_panes(history, front), landed), end);
    lemma_enter_squeezed(history, start);
    if front != squeeze(start) {
        let pane = focuses[m];
        assert(squeeze(start) =~= front + seq![pane]);
        lemma_enter_panes_add(history, front, seq![pane]);
        assert(tail[landed.len() as int] == pane);
        lemma_enter_again(enter_panes(history, front), pane, tail);
    }
}

/// Of two panes that a session leaves behind, the one whose last focus came
/// later stands above the other in the history, and so do their workspaces.
pub proof fn law_later_focus_stands_above(
    session: SessionView,
    course: Seq<Happening>,
    history: Seq<RecordView>,
    i: int,
    j: int,
)
    requires
        session.remembers_well(),
        0 <= i < j < chronicle(session, course).len(),
    ensures
        ({
            let came = chronicle(session, course);
            let left = enter_all(history, closing_records(session_after(session, course)));
            &&& last_focus(came, i) && last_focus(came, j) ==> above(
                left,
                pane_record(came[j]),
                pane_record(came[i]),
            )
            &&& last_visit(came, i) && last_visit(came, j) ==> above(
                left,
                workspace_record(came[j]),
                workspace_record(came[i]),
            )
        }),
{
    let came = chronicle(session, course);
    let records = records_of(came);
    law_history_follows_time(session, course, history);
    if last_focus(came, i) && last_focus(came, j) {
        assert forall|k: int| 2 * i < k < records.len() implies !same_subject(
            records[2 * i],
            #[trigger] records[k],
        ) by {
            assert(came[k / 2].pane_id != came[i].pane_id || k % 2 == 1);
        }
        assert forall|k: int| 2 * j < k < records.len() implies !same_subject(
            records[2 * j],
            #[trigger] records[k],
        ) by {
            assert(came[k / 2].pane_id != came[j].pane_id || k % 2 == 1);
        }
        law_later_is_more_recent(history, records, 2 * i, 2 * j);
    }
    if last_visit(came, i) && last_visit(came, j) {
        assert forall|k: int| 2 * i + 1 < k < records.len() implies !same_subject(
            records[2 * i + 1],
            #[trigger] records[k],
        ) by {
            assert(came[k / 2].workspace_id != came[i].workspace_id || k % 2 == 0);
        }
        assert forall|k: int| 2 * j + 1 < k < records.len() implies !same_subject(
            records[2 * j + 1],
            #[trigger] records[k],
        ) by {
            assert(came[k / 2].workspace_id != came[j].workspace_id || k % 2 == 0);
        }
        law_later_is_more_recent(history, records, 2 * i + 1, 2 * j + 1);
    }
}

/// Whether the focus at `i` is the last one of its pane.
pub open spec fn last_focus(came: Seq<PaneView>, i: int) -> bool {
    forall|k: int| i < k < came.len() ==> (#[trigger] came[k]).pane_id != came[i].pane_id
}

/// Whether the focus at `i` is the last one in its workspace.
pub open spec fn last_visit(came: Seq<PaneView>, i: int) -> bool {
    forall|k: int| i < k < came.len() ==> (#[trigger] came[k]).workspace_id != came[i].workspace_id
}

/// The panes that a session leaves behind are those where the user was: the
/// ones focused by other means and the last landing, and no other.
pub proof fn law_leaves_where_user_was(
    session: SessionView,
    course: Seq<Happening>,
    pane: PaneView,
)
    requires
        session.remembers_well(),
    ensures
        reconciled_panes(session_after(session, course)).contains(pane) <==> user_focuses(
            session,
            course,
        ).contains(pane) || last_landing(session, course) == Some(pane),
{
    let after = session_after(session, course);
    lemma_session_follows(session, course);
    lemma_squeeze_contains(after.focus_log(), pane);
    lemma_log_contains(after, pane);
    lemma_squeeze_contains(user_focuses(session, course), pane);
    let landed = landed_seq(after.landed);
    let all = landed + after.post_focus;
    if after.landed == Some(pane) {
        assert(all[0] == pane);
    }
    if after.post_focus.contains(pane) {
        let i = choose|i: int| 0 <= i < after.post_focus.len() && after.post_focus[i] == pane;
        assert(all[landed.len() + i] == pane);
    }
    if all.contains(pane) {
        let i = choose|i: int| 0 <= i < all.len() && all[i] == pane;
        if i >= landed.len() {
            assert(after.post_focus[i - landed.len()] == pane);
        }
    }
}

/// Whether every focus event of a course is about the pane of the landing
/// before it.
pub open spec fn only_echoes(session: SessionView, course: Seq<Happening>) -> bool {
    forall|i: int|
        0 <= i < course.len() && (#[trigger] course[i]) is Focus ==> (last_landing(
            session,
            course.take(i),
        ) matches Some(p) && p.pane_id == course[i]->Focus_0.pane_id)
}

/// Echoes leave nothing that the user focused.
proof fn lemma_only_echoes(session: SessionView, course: Seq<Happening>)
    requires
        session.remembers_well(),
        session.post_focus.len() == 0,
        only_echoes(session, course),
    ensures
        user_focuses(session, course).len() == 0,
        at_rest(session, course) == (last_landing(session, course) is Some),
    decreases course.len(),
{
    if course.len() > 0 {
        let fewer = course.drop_last();
        assert forall|i: int| 0 <= i < fewer.len() && (#[trigger] fewer[i]) is Focus implies (
        last_landing(session, fewer.take(i)) matches Some(p) && p.pane_id
            == fewer[i]->Focus_0.pane_id) by {
            assert(course[i] == fewer[i]);
            assert(course.take(i) =~= fewer.take(i));
        }
        lemma_only_echoes(session, fewer);
        assert(course.take(course.len() - 1) =~= fewer);
        assert(course[course.len() - 1] == course.last());
    }
}

/// However many panes the presses hop through, and however many echoes of the
/// landings come in between, the end of the session commits only the last pane
/// landed on, with its workspace: they go to the top of the history, and all
/// other entries keep their order.
pub proof fn law_cycle_commits_only_landing(
    session: SessionView,
    course: Seq<Happening>,
    pane: PaneView,
    history: Seq<RecordView>,
)
    requires
        session.remembers_well(),
        session.post_focus.len() == 0,
        only_echoes(session, course),
        last_landing(session, course) == Some(pane),
    ensures
        ({
            let ended = session_after(session, course);
            let records = seq![pane_record(pane), workspace_record(pane)];
            &&& closing_records(ended) == records
            &&& enter_all(history, closing_records(ended)) == seq![
                workspace_record(pane),
                pane_record(pane),
            ] + untouched(history, records)
        }),
{
    lemma_only_echoes(session, course);
    lemma_session_follows(session, course);
    let ended = session_after(session, course);
    let all = ended.focus_log();
    assert(squeeze(user_focuses(session, course)) =~= Seq::empty());
    assert(all =~= seq![pane]);
    assert(all.drop_last() =~= Seq::empty());
    assert(reconciled_panes(ended) =~= seq![pane]) by {
        lemma_squeeze_last(all.drop_last());
    }
    let records = seq![pane_record(pane), workspace_record(pane)];
    assert(closing_records(ended) =~= records);
    law_history_rest_untouched(history, records);
    let none = Seq::<RecordView>::empty();
    let one = seq![pane_record(pane)];
    assert(records.drop_last() =~= one);
    assert(one.drop_last() =~= none);
    reveal(Seq::filter);
    assert(others(none, pane_record(pane)) =~= none);
    assert(enter_all(none, one.drop_last()) == none);
    assert(enter_all(none, one) =~= one);
    assert(others(none, workspace_record(pane)) =~= none);
    assert(others(one, workspace_record(pane)) =~= one);
    assert(enter_all(none, records) =~= seq![workspace_record(pane), pane_record(pane)]);
}

/// How many landings a course has.
pub open spec fn landings(course: Seq<Happening>) -> nat
    decreases course.len(),
{
    if course.len() == 0 {
        0
    } else {
        landings(course.drop_last()) + (if course.last() is Landing {
            1nat
        } else {
            0nat
        })
    }
}

/// Whether every landing of a course is one step on from where the session was.
pub open spec fn steps_on(session: SessionView, course: Seq<Happening>, reverse: bool) -> bool {
    forall|i: int|
        0 <= i < course.len() && (#[trigger] course[i]) is Landing ==> course[i]->pos
            == next_position(
            session_after(session, course.take(i)).position,
            session.order.len() as int,
            reverse,
        )
}

/// Focus events between the presses do not disturb the walk: with each landing
/// the session is one step deeper in the order that it was given.
pub proof fn law_walk_undisturbed(session: SessionView, course: Seq<Happening>, reverse: bool)
    requires
        session.remembers_well(),
        steps_on(session, course, reverse),
    ensures
        session_after(session, course).order == session.order,
        session_after(session, course).started_at == session.started_at,
        session_after(session, course).position == steps(
            session.position,
            session.order.len() as int,
            reverse,
            landings(course),
        ),
    decreases course.len(),
{
    lemma_session_follows(session, course);
    if course.len() > 0 {
        let fewer = course.drop_last();
        assert forall|i: int| 0 <= i < fewer.len() && (
        #[trigger] fewer[i]) is Landing implies fewer[i]->pos == next_position(
            session_after(session, fewer.take(i)).position,
            session.order.len() as int,
            reverse,
        ) by {
            assert(course[i] == fewer[i]);
            assert(course.take(i) =~= fewer.take(i));
        }
        law_walk_undisturbed(session, fewer, reverse);
        assert(course.take(course.len() - 1) =~= fewer);
        assert(course[course.len() - 1] == course.last());
    }
}

} // verus!
