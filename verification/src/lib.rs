//! Alt-tab style cycling through terminal panes in most-recently-used order.
//!
//! Terminals cannot observe modifier release, so "keep walking deeper or start a
//! new cycle" is decided by a timeout: presses within the timeout of the previous
//! one continue the same session over a frozen snapshot of the recency order;
//! after it, the next press starts fresh from the live panes.
//!
//! While a session is active, focus events are absorbed into it, so that panes
//! that are merely hopped through never pollute the recency order. When it ends,
//! only the pane the cycle landed on, plus any panes the user focused by other
//! means, are entered into the recency history, in chronological order.
//!
//! The library decides; the caller reads and writes the kept session, focuses
//! panes, lists them, and enters records. `laws` states what follows from the
//! contracts taken together.

pub mod clock;
pub mod laws;
pub mod mru;
pub mod order;
pub mod pane;
pub mod reconcile;
pub mod run;
pub mod session;
pub mod track;
pub mod walk;

pub use crate::clock::{
    now_ms, timeout_from_setting, timeout_ms, timestamp_to_ms, DEFAULT_TIMEOUT_MS,
};
pub use crate::mru::{enter_record, MruKind, MruRecord};
pub use crate::order::build_order;
pub use crate::pane::{CyclePane, FocusedPaneInfo, NavigationNode};
pub use crate::reconcile::reconcile_records;
pub use crate::run::{run_cycle, start_cycle, CycleAction, CycleEvent, CycleRun, Phase, Survey};
pub use crate::session::{fresh, step, CycleSession};
pub use crate::track::{
    end_session_now, on_track_event, SessionUpdate, TrackDisposition, TrackOutcome,
};
pub use crate::walk::{advance_and_focus, begin_walk, Walk, WalkStep};
pub use vstd::hash_map::StringHashMap;
