//! One press: walking the frozen order until a pane takes the focus.
//!
//! Focusing a pane is left to the caller. A walk offers one pane at a time and
//! is told whether that pane could be focused.

use vstd::prelude::*;

use crate::pane::PaneView;
use crate::session::{can_step, next_position, step, CycleSession, SessionView};

verus! {

/// What a walk is, apart from how its session is stored.
#[verifier::ext_equal]
pub struct WalkView {
    pub session: SessionView,
    pub pos: int,
    pub tried: int,
}

/// A walk that waits to hear whether the pane at `pos` could be focused.
#[derive(Debug, Clone)]
pub struct Walk {
    /// The session as it stood before the press.
    pub session: CycleSession,
    /// Index in the order of the pane on offer.
    pub pos: usize,
    /// How many panes have been offered, the one at `pos` included.
    pub tried: usize,
}

impl View for Walk {
    type V = WalkView;

    open spec fn view(&self) -> WalkView {
        WalkView { session: self.session@, pos: self.pos as int, tried: self.tried as int }
    }
}

impl WalkView {
    /// Whether the pane on offer is one of the order, and no more panes have
    /// been offered than the order holds.
    pub open spec fn valid(self) -> bool {
        &&& 0 <= self.pos < self.session.order.len()
        &&& 1 <= self.tried <= self.session.order.len()
    }

    /// The pane on offer.
    pub open spec fn candidate(self) -> PaneView {
        self.session.order[self.pos]
    }
}

/// Where a walk stands after a step.
pub enum WalkStepView {
    Landed(SessionView),
    Next(WalkView),
    Exhausted(SessionView),
}

/// Where a walk stands after a step.
#[derive(Debug, Clone)]
pub enum WalkStep {
    /// A pane took the focus; the session as the press leaves it.
    Landed(CycleSession),
    /// The walk goes on with the next pane.
    Next(Walk),
    /// No pane in the order could be focused; the session as it was.
    Exhausted(CycleSession),
}

impl View for WalkStep {
    type V = WalkStepView;

    open spec fn view(&self) -> WalkStepView {
        match self {
            WalkStep::Landed(s) => WalkStepView::Landed(s@),
            WalkStep::Next(w) => WalkStepView::Next(w@),
            WalkStep::Exhausted(s) => WalkStepView::Exhausted(s@),
        }
    }
}

/// A walk begins with the neighbour of the pane the session sits on; an empty
/// order has nothing to offer.
pub open spec fn walk_start(session: SessionView, reverse: bool) -> WalkStepView {
    if session.order.len() == 0 {
        WalkStepView::Exhausted(session)
    } else {
        WalkStepView::Next(
            WalkView {
                session,
                pos: next_position(session.position, session.order.len() as int, reverse),
                tried: 1,
            },
        )
    }
}

/// A walk ends where a pane took the focus, or when every place in the order
/// has been tried; otherwise it goes on with the next place.
pub open spec fn walk_answer(
    walk: WalkView,
    focused: bool,
    reverse: bool,
    now: u64,
) -> WalkStepView {
    if focused {
        WalkStepView::Landed(walk.session.landing(walk.pos, now))
    } else if walk.tried == walk.session.order.len() {
        WalkStepView::Exhausted(walk.session)
    } else {
        WalkStepView::Next(
            WalkView {
                session: walk.session,
                pos: next_position(walk.pos, walk.session.order.len() as int, reverse),
                tried: walk.tried + 1,
            },
        )
    }
}

/// Whether a walk through the session's order can take its first step.
pub open spec fn can_walk(session: SessionView, reverse: bool) -> bool {
    session.order.len() > 0 ==> can_step(
        session.position,
        session.order.len() as int,
        reverse,
    )
}

/// Starts a walk through the session's order.
pub fn begin_walk(session: CycleSession, reverse: bool) -> (r: WalkStep)
    requires
        can_walk(session@, reverse),
    ensures
        r@ == walk_start(session@, reverse),
        r@ matches WalkStepView::Next(w) ==> w.valid(),
{
    let len: usize = session.order.len();
    if len == 0 {
        return WalkStep::Exhausted(session);
    }
    let pos: usize = step(session.position, len, reverse);
    WalkStep::Next(Walk { session, pos, tried: 1 })
}

/// Advances a walk that has heard whether the pane on offer could be focused:
/// panes that fail to focus, say because they were closed since the order was
/// frozen, are skipped.
pub fn advance_and_focus(walk: Walk, focused: bool, reverse: bool, now: u64) -> (r: WalkStep)
    requires
        walk@.valid(),
    ensures
        r@ == walk_answer(walk@, focused, reverse, now),
        r@ matches WalkStepView::Next(w) ==> w.valid(),
{
    let len: usize = walk.session.order.len();
    if focused {
        let mut session = walk.session;
        let landed = session.order[walk.pos].clone();
        session.position = walk.pos;
        session.landed = Some(landed);
        session.last_press_at = now;
        session.before_landing = session.post_focus.len();
        assert(session@ =~= walk@.session.landing(walk@.pos, now));
        return WalkStep::Landed(session);
    }
    if walk.tried == len {
        return WalkStep::Exhausted(walk.session);
    }
    let pos: usize = step(walk.pos, len, reverse);
    WalkStep::Next(Walk { session: walk.session, pos, tried: walk.tried + 1 })
}

} // verus!
