//! Steps round the order, walks through it, and presses in a row.

use vstd::prelude::*;

use crate::session::{lemma_next_position, next_position, SessionView};
use crate::walk::{walk_answer, walk_start, WalkStepView, WalkView};

verus! {

/// The place that `n` steps lead to.
pub open spec fn steps(pos: int, len: int, reverse: bool, n: nat) -> int
    decreases n,
{
    if n == 0 {
        pos
    } else {
        next_position(steps(pos, len, reverse, (n - 1) as nat), len, reverse)
    }
}

/// A step back undoes a step forward, and the other way round.
pub proof fn law_step_undone(pos: int, len: int, reverse: bool)
    requires
        0 <= pos < len,
    ensures
        next_position(next_position(pos, len, reverse), len, !reverse) == pos,
{
    lemma_next_position(pos, len, reverse);
    lemma_next_position(next_position(pos, len, reverse), len, !reverse);
}

/// `n` steps from a place in the ring add `n` to it, or take `n` away, round
/// the ring.
pub proof fn law_steps_add_up(pos: int, len: int, reverse: bool, n: nat)
    requires
        0 <= pos < len,
    ensures
        0 <= steps(pos, len, reverse, n) < len,
        steps(pos, len, reverse, n) == if reverse {
            (pos - n) % len
        } else {
            (pos + n) % len
        },
    decreases n,
{
    if n == 0 {
        vstd::arithmetic::div_mod::lemma_small_mod(pos as nat, len as nat);
    } else {
        let m = (n - 1) as nat;
        law_steps_add_up(pos, len, reverse, m);
        let p = steps(pos, len, reverse, m);
        lemma_next_position(p, len, reverse);
        if reverse {
            vstd::arithmetic::div_mod::lemma_add_mod_noop(pos - m, len - 1, len);
            vstd::arithmetic::div_mod::lemma_add_mod_noop(p, len - 1, len);
            vstd::arithmetic::div_mod::lemma_small_mod(p as nat, len as nat);
            vstd::arithmetic::div_mod::lemma_mod_add_multiples_vanish(pos - n, len);
            assert((pos - m) + (len - 1) == len + (pos - n));
        } else {
            vstd::arithmetic::div_mod::lemma_add_mod_noop(pos + m, 1, len);
            vstd::arithmetic::div_mod::lemma_add_mod_noop(p, 1, len);
            vstd::arithmetic::div_mod::lemma_small_mod(p as nat, len as nat);
            assert((pos + m) + 1 == pos + n);
        }
    }
}

/// A full turn comes back to its start, and on the way it stops at every place.
pub proof fn law_full_turn(pos: int, len: int, reverse: bool, target: int)
    requires
        0 <= pos < len,
        0 <= target < len,
    ensures
        steps(pos, len, reverse, len as nat) == pos,
        exists|n: nat| 1 <= n <= len && #[trigger] steps(pos, len, reverse, n) == target,
{
    law_steps_add_up(pos, len, reverse, len as nat);
    if reverse {
        vstd::arithmetic::div_mod::lemma_mod_add_multiples_vanish(pos - len, len);
    } else {
        vstd::arithmetic::div_mod::lemma_mod_add_multiples_vanish(pos, len);
    }
    vstd::arithmetic::div_mod::lemma_small_mod(pos as nat, len as nat);
    let distance = if reverse {
        pos - target
    } else {
        target - pos
    };
    let n: nat = (if distance > 0 {
        distance
    } else {
        distance + len
    }) as nat;
    law_steps_add_up(pos, len, reverse, n);
    vstd::arithmetic::div_mod::lemma_small_mod(target as nat, len as nat);
    if distance <= 0 {
        if reverse {
            vstd::arithmetic::div_mod::lemma_mod_add_multiples_vanish(pos - n, len);
        } else {
            vstd::arithmetic::div_mod::lemma_mod_add_multiples_vanish(target, len);
        }
    }
    assert(steps(pos, len, reverse, n) == target);
}

/// Within one turn no place is stopped at twice.
pub proof fn law_turn_repeats_no_place(pos: int, len: int, reverse: bool, a: nat, b: nat)
    requires
        0 <= pos < len,
        a < b,
        b - a < len,
    ensures
        steps(pos, len, reverse, a) != steps(pos, len, reverse, b),
{
    law_steps_add_up(pos, len, reverse, a);
    law_steps_add_up(pos, len, reverse, b);
    let (x, y) = if reverse {
        (pos - b, pos - a)
    } else {
        (pos + a, pos + b)
    };
    vstd::arithmetic::div_mod::lemma_fundamental_div_mod(x, len);
    vstd::arithmetic::div_mod::lemma_fundamental_div_mod(y, len);
    if x % len == y % len {
        let turns = y / len - x / len;
        assert(y - x == len * turns) by (nonlinear_arith)
            requires
                x == len * (x / len) + x % len,
                y == len * (y / len) + y % len,
                x % len == y % len,
                turns == y / len - x / len,
        ;
        assert(false) by (nonlinear_arith)
            requires
                y - x == len * turns,
                0 < y - x < len,
        ;
    }
}

/// Where a walk stands after a number of answers.
pub open spec fn walk_fed(
    start: WalkStepView,
    answers: Seq<bool>,
    reverse: bool,
    now: u64,
) -> WalkStepView
    decreases answers.len(),
{
    if answers.len() == 0 {
        start
    } else {
        match walk_fed(start, answers.drop_last(), reverse, now) {
            WalkStepView::Next(walk) => walk_answer(walk, answers.last(), reverse, now),
            ended => ended,
        }
    }
}

/// The place of the pane that a walk offers after `misses` panes that could not
/// be focused.
pub open spec fn offered(session: SessionView, reverse: bool, misses: nat) -> int {
    let len = session.order.len() as int;
    steps(next_position(session.position, len, reverse), len, reverse, misses)
}

/// Answers that say, `n` times, that the pane could not be focused.
pub open spec fn all_missed(n: nat) -> Seq<bool> {
    Seq::new(n, |i: int| false)
}

/// The panes are offered in turn, as long as there are some left.
pub proof fn law_walk_offers_in_turn(session: SessionView, reverse: bool, now: u64, misses: nat)
    requires
        misses < session.order.len(),
    ensures
        0 <= offered(session, reverse, misses) < session.order.len(),
        walk_fed(walk_start(session, reverse), all_missed(misses), reverse, now)
            == WalkStepView::Next(
            WalkView {
                session,
                pos: offered(session, reverse, misses),
                tried: (misses + 1) as int,
            },
        ),
    decreases misses,
{
    let len = session.order.len() as int;
    law_steps_add_up(next_position(session.position, len, reverse), len, reverse, misses);
    if misses > 0 {
        law_walk_offers_in_turn(session, reverse, now, (misses - 1) as nat);
        assert(all_missed(misses).drop_last() =~= all_missed((misses - 1) as nat));
    }
}

/// A walk lands on the first pane that can be focused, however many before it
/// cannot.
pub proof fn law_walk_lands_on_first(session: SessionView, reverse: bool, now: u64, misses: nat)
    requires
        misses < session.order.len(),
    ensures
        walk_fed(walk_start(session, reverse), all_missed(misses).push(true), reverse, now)
            == WalkStepView::Landed(session.landing(offered(session, reverse, misses), now)),
{
    law_walk_offers_in_turn(session, reverse, now, misses);
    assert(all_missed(misses).push(true).drop_last() =~= all_missed(misses));
}

/// A walk gives up only when every pane of the order has been offered, and
/// leaves the session as it was.
pub proof fn law_walk_gives_up_last(session: SessionView, reverse: bool, now: u64, place: int)
    requires
        0 <= place < session.order.len(),
    ensures
        walk_fed(walk_start(session, reverse), all_missed(session.order.len()), reverse, now)
            == WalkStepView::Exhausted(session),
        exists|misses: nat|
            misses < session.order.len() && #[trigger] offered(session, reverse, misses) == place,
{
    let len = session.order.len();
    law_walk_offers_in_turn(session, reverse, now, (len - 1) as nat);
    assert(all_missed(len).drop_last() =~= all_missed((len - 1) as nat));
    let first = next_position(session.position, len as int, reverse);
    law_full_turn(first, len as int, reverse, place);
    let n = choose|n: nat|
        1 <= n <= len && #[trigger] steps(first, len as int, reverse, n) == place;
    if n == len {
        assert(offered(session, reverse, 0) == place);
    } else {
        assert(offered(session, reverse, n) == place);
    }
}

/// The session after presses at the given times, each of which focuses the
/// first pane on offer.
pub open spec fn after_presses(
    session: SessionView,
    reverse: bool,
    times: Seq<u64>,
) -> SessionView
    decreases times.len(),
{
    if times.len() == 0 {
        session
    } else {
        let before = after_presses(session, reverse, times.drop_last());
        before.landing(offered(before, reverse, 0), times.last())
    }
}

/// Presses in a row walk deeper into the frozen order, one pane each: neither
/// the order nor what was remembered changes.
pub proof fn law_presses_walk_deeper(session: SessionView, reverse: bool, times: Seq<u64>)
    requires
        0 <= session.position < session.order.len(),
        times.len() > 0,
    ensures
        ({
            let after = after_presses(session, reverse, times);
            let len = session.order.len() as int;
            &&& after.order == session.order
            &&& after.started_at == session.started_at
            &&& after.post_focus == session.post_focus
            &&& after.before_landing == session.post_focus.len()
            &&& after.position == steps(session.position, len, reverse, times.len())
            &&& 0 <= after.position < len
            &&& after.landed == Some(session.order[after.position])
            &&& after.last_press_at == times.last()
        }),
    decreases times.len(),
{
    let len = session.order.len() as int;
    law_steps_add_up(session.position, len, reverse, times.len());
    if times.len() > 1 {
        law_presses_walk_deeper(session, reverse, times.drop_last());
    } else {
        assert(times.drop_last() =~= Seq::empty());
        assert(after_presses(session, reverse, times.drop_last()) == session);
        assert(steps(session.position, len, reverse, 0) == session.position);
    }
    let before = after_presses(session, reverse, times.drop_last());
    assert(offered(before, reverse, 0) == next_position(before.position, len, reverse));
}

/// A press the other way goes back to the pane that the last press left.
pub proof fn law_press_back(session: SessionView, reverse: bool, first: u64, second: u64)
    requires
        session.well_formed(),
    ensures
        ({
            let there = session.landing(offered(session, reverse, 0), first);
            let back = there.landing(offered(there, !reverse, 0), second);
            back == SessionView {
                last_press_at: second,
                before_landing: session.post_focus.len() as int,
                ..session
            }
        }),
{
    let len = session.order.len() as int;
    law_step_undone(session.position, len, reverse);
    lemma_next_position(session.position, len, reverse);
    let there = session.landing(offered(session, reverse, 0), first);
    assert(offered(session, reverse, 0) == next_position(session.position, len, reverse));
    assert(offered(there, !reverse, 0) == session.position);
}

/// The session that a press leaves is active for the timeout after it, and no
/// longer.
pub proof fn law_press_opens_window(
    session: SessionView,
    pos: int,
    now: u64,
    timeout: u64,
    later: u64,
)
    ensures
        session.landing(pos, now).is_fresh(later, timeout) <==> later <= now + timeout,
{
}

} // verus!
