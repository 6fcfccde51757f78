# pane_cycle

Alt-tab style cycling through terminal panes in most-recently-used order,
written in Verus. Each press focuses the next pane in the order. Presses within
a timeout of one another continue the same session over a frozen snapshot of the
order; when the session ends, only the pane it landed on, and panes focused by
other means meanwhile, are entered into the recency history, in chronological
order.

## Layout

- `src/` is the verified library. It decides; it does no I/O.
  - `order`: the cycle order of the live panes
  - `session`, `walk`: the frozen order, and walking it until a pane takes the focus
  - `run`: one press as a state machine of actions and events
  - `track`, `reconcile`, `mru`: focus events, the end of a session, the recency history
  - `clock`: the time, and the timeout that the plugin manifest sets
  - `laws`: what holds of the library as a whole
- `tests/` runs the library.
- `app/` is ordinary Rust around it: the session file, its lock, and the loop
  that carries out the actions of a run. The host and the recency store are
  traits there.

The library relies, without proof, on `chrono` for the time and on `toml` for
reading the manifest; `src/clock.rs` says what is claimed of them.
