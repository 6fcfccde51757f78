//! A cycle session: a frozen order of panes and the place reached in it.

use vstd::prelude::*;

use crate::pane::{pane_view_opt, pane_views, CyclePane, PaneView};

verus! {

/// What a session is, apart from how its panes are stored.
#[verifier::ext_equal]
pub struct SessionView {
    pub started_at: u64,
    pub last_press_at: u64,
    pub order: Seq<PaneView>,
    pub position: int,
    pub landed: Option<PaneView>,
    pub post_focus: Seq<PaneView>,
    pub before_landing: int,
}

/// A run of presses that walk one frozen order. Times are in milliseconds.
#[derive(Debug, Clone)]
pub struct CycleSession {
    pub started_at: u64,
    pub last_press_at: u64,
    /// Frozen cycle order; index 0 is the pane focused at session start.
    pub order: Vec<CyclePane>,
    /// Index in `order` of the pane the session currently sits on.
    pub position: usize,
    /// Pane the cycle last landed on (echo suppression and reconcile record).
    pub landed: Option<CyclePane>,
    /// Panes the user focused by other means during the session window.
    pub post_focus: Vec<CyclePane>,
    /// How many of these came before the last landing; more than there are
    /// counts as all.
    pub before_landing: usize,
}

impl View for CycleSession {
    type V = SessionView;

    open spec fn view(&self) -> SessionView {
        SessionView {
            started_at: self.started_at,
            last_press_at: self.last_press_at,
            order: pane_views(self.order@),
            position: self.position as int,
            landed: pane_view_opt(self.landed),
            post_focus: pane_views(self.post_focus@),
            before_landing: self.before_landing as int,
        }
    }
}

/// The view of a session that may be absent.
pub open spec fn session_view_opt(session: Option<CycleSession>) -> Option<SessionView> {
    match session {
        Some(s) => Some(s@),
        None => None,
    }
}

/// Whether no two neighbours in `panes` are the same pane.
pub open spec fn no_repeats(panes: Seq<PaneView>) -> bool {
    forall|i: int| 0 < i < panes.len() ==> #[trigger] panes[i] != panes[i - 1]
}

/// The pane that was landed on, if any, as a sequence.
pub open spec fn landed_seq(landed: Option<PaneView>) -> Seq<PaneView> {
    match landed {
        Some(p) => seq![p],
        None => Seq::empty(),
    }
}

/// Whether no pane is in `order` twice.
pub open spec fn distinct_panes(order: Seq<PaneView>) -> bool {
    forall|i: int, j: int|
        0 <= i < j < order.len() ==> (#[trigger] order[i]).pane_id != (
        #[trigger] order[j]).pane_id
}

impl SessionView {
    /// How many of the remembered panes came before the last landing.
    pub open spec fn split(self) -> int {
        if self.before_landing <= self.post_focus.len() {
            self.before_landing
        } else {
            self.post_focus.len() as int
        }
    }

    /// The focuses of the session in the order in which they came: the panes
    /// remembered before the landing, the landing, and those since.
    pub open spec fn focus_log(self) -> Seq<PaneView> {
        self.post_focus.take(self.split()) + landed_seq(self.landed) + self.post_focus.skip(
            self.split(),
        )
    }

    /// Whether nothing was focused by other means since the landing.
    pub open spec fn landing_is_last(self) -> bool {
        self.landed is Some && self.split() == self.post_focus.len()
    }

    /// Whether the session is active at time `now`: its last press lies no
    /// more than `timeout` back (or ahead of `now`, where the clock was set back).
    pub open spec fn is_fresh(self, now: u64, timeout: u64) -> bool {
        now - self.last_press_at <= timeout
    }

    /// Whether the session remembers no pane twice in a row, and the place of
    /// its landing is one among the panes it remembers.
    pub open spec fn remembers_well(self) -> bool {
        &&& no_repeats(self.post_focus)
        &&& 0 <= self.before_landing <= self.post_focus.len()
        &&& self.landed is None ==> self.before_landing == 0
    }

    /// Whether the session has an order to cycle through, with at least two
    /// panes and none of them twice.
    pub open spec fn can_cycle(self) -> bool {
        &&& self.order.len() >= 2
        &&& distinct_panes(self.order)
        &&& self.remembers_well()
    }

    /// The invariant of every session that is kept: it has an order to cycle
    /// through, and sits on the pane that it last landed on.
    pub open spec fn well_formed(self) -> bool {
        &&& self.can_cycle()
        &&& 0 <= self.position < self.order.len()
        &&& self.landed == Some(self.order[self.position])
    }

    /// The session after a press at time `now` has landed on the pane at `pos`.
    pub open spec fn landing(self, pos: int, now: u64) -> SessionView {
        SessionView {
            position: pos,
            landed: Some(self.order[pos]),
            last_press_at: now,
            before_landing: self.post_focus.len() as int,
            ..self
        }
    }
}

/// Whether the session is still active at time `now`.
pub fn fresh(s: &CycleSession, now: u64, timeout: u64) -> (r: bool)
    ensures
        r == s@.is_fresh(now, timeout),
{
    now.saturating_sub(s.last_press_at) <= timeout
}

/// The place after `pos` in a ring of `len` places, or before it.
pub open spec fn next_position(pos: int, len: int, reverse: bool) -> int {
    if reverse {
        (pos + len - 1) % len
    } else {
        (pos + 1) % len
    }
}

/// Whether the place after (or before) `pos` can be computed: `pos` lies in the
/// ring, or the sum that is reduced to the ring fits in a `usize`.
pub open spec fn can_step(pos: int, len: int, reverse: bool) -> bool {
    pos < len || (if reverse {
        pos + len <= usize::MAX
    } else {
        pos < usize::MAX
    })
}

/// Inside the ring a step goes to the neighbour, or round the end.
pub proof fn lemma_next_position(pos: int, len: int, reverse: bool)
    requires
        0 <= pos < len,
    ensures
        next_position(pos, len, reverse) == if reverse {
            if pos == 0 {
                len - 1
            } else {
                pos - 1
            }
        } else {
            if pos == len - 1 {
                0
            } else {
                pos + 1
            }
        },
{
    if reverse {
        if pos == 0 {
            vstd::arithmetic::div_mod::lemma_small_mod((len - 1) as nat, len as nat);
        } else {
            vstd::arithmetic::div_mod::lemma_mod_add_multiples_vanish(pos - 1, len);
            vstd::arithmetic::div_mod::lemma_small_mod((pos - 1) as nat, len as nat);
        }
    } else {
        if pos == len - 1 {
            vstd::arithmetic::div_mod::lemma_mod_self_0(len);
        } else {
            vstd::arithmetic::div_mod::lemma_small_mod((pos + 1) as nat, len as nat);
        }
    }
}

/// One step through a ring of `len` places, forward or back.
pub fn step(pos: usize, len: usize, reverse: bool) -> (r: usize)
    requires
        len > 0,
        can_step(pos as int, len as int, reverse),
    ensures
        r == next_position(pos as int, len as int, reverse),
        r < len,
{
    if pos < len {
        proof {
            lemma_next_position(pos as int, len as int, reverse);
        }
        if reverse {
            if pos == 0 {
                len - 1
            } else {
                pos - 1
            }
        } else if pos == len - 1 {
            0
        } else {
            pos + 1
        }
    } else if reverse {
        (pos + len - 1) % len
    } else {
        (pos + 1) % len
    }
}

} // verus!
