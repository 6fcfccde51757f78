use pane_cycle::{
    build_order, end_session_now, enter_record, fresh, now_ms, on_track_event, reconcile_records,
    step, timeout_ms, CyclePane, CycleSession, FocusedPaneInfo, MruKind, MruRecord, NavigationNode,
    SessionUpdate, StringHashMap, TrackDisposition, DEFAULT_TIMEOUT_MS,
};

fn node(pane_id: &str, ws_id: &str) -> NavigationNode {
    NavigationNode { pane_id: pane_id.into(), workspace_id: ws_id.into() }
}

fn focused(pane_id: &str, ws_id: &str) -> FocusedPaneInfo {
    FocusedPaneInfo { pane_id: pane_id.into(), workspace_id: ws_id.into() }
}

fn pane(pane_id: &str, ws_id: &str) -> CyclePane {
    CyclePane { pane_id: pane_id.into(), workspace_id: ws_id.into() }
}

fn session(order: &[(&str, &str)], position: usize, last_press_at: u64) -> CycleSession {
    CycleSession {
        started_at: last_press_at,
        last_press_at,
        order: order.iter().map(|(p, w)| pane(p, w)).collect(),
        position,
        landed: None,
        post_focus: Vec::new(),
        before_landing: 0,
    }
}

/// The kept session and the recency history, as updates leave them.
struct Store {
    session: Option<CycleSession>,
    history: Vec<MruRecord>,
}

impl Store {
    fn with(session: Option<CycleSession>) -> Store {
        Store { session, history: Vec::new() }
    }

    fn apply(&mut self, update: SessionUpdate) {
        match update {
            SessionUpdate::Keep => {}
            SessionUpdate::Save(s) => self.session = Some(s),
            SessionUpdate::Close(records) => {
                self.session = None;
                for r in records {
                    enter_record(&mut self.history, r);
                }
            }
        }
    }

    fn track(&mut self, event: Option<(&str, &str)>) -> TrackDisposition {
        let outcome = on_track_event(self.session.clone(), event, now_ms(), timeout_ms(None));
        self.apply(outcome.update);
        outcome.disposition
    }

    fn ids(&self, kind: MruKind) -> Vec<&str> {
        self.history.iter().filter(|e| e.kind == kind).map(|e| e.id.as_str()).collect()
    }
}

fn enter_all(records: Vec<MruRecord>) -> Store {
    let mut store = Store::with(None);
    store.apply(SessionUpdate::Close(records));
    store
}

// ── step ──

#[test]
fn test_step_forward_wraps() {
    assert_eq!(step(0, 3, false), 1);
    assert_eq!(step(2, 3, false), 0);
}

#[test]
fn test_step_reverse_wraps() {
    assert_eq!(step(0, 3, true), 2);
    assert_eq!(step(1, 3, true), 0);
}

// ── build_order ──

#[test]
fn test_build_order_current_first_then_mru_then_rest() {
    let nodes = vec![node("a", "w1"), node("b", "w1"), node("c", "w2"), node("d", "w2")];
    let f = focused("c", "w2");
    let mut ts = StringHashMap::new();
    ts.insert("a".to_string(), 100u64);
    ts.insert("b".to_string(), 300u64);
    ts.insert("c".to_string(), 500u64); // current: excluded from the timed section
    let order = build_order(&nodes, Some(&f), &ts);
    let ids: Vec<&str> = order.iter().map(|p| p.pane_id.as_str()).collect();
    // current, then by time desc (b > a), then never-focused (d)
    assert_eq!(ids, vec!["c", "b", "a", "d"]);
}

#[test]
fn test_build_order_no_focused_pane() {
    let nodes = vec![node("a", "w1"), node("b", "w1")];
    let mut ts = StringHashMap::new();
    ts.insert("b".to_string(), 300u64);
    let order = build_order(&nodes, None, &ts);
    let ids: Vec<&str> = order.iter().map(|p| p.pane_id.as_str()).collect();
    assert_eq!(ids, vec!["b", "a"]);
}

#[test]
fn test_build_order_dead_mru_panes_excluded() {
    // The history knows "gone", but it's not in the live node list.
    let nodes = vec![node("a", "w1")];
    let mut ts = StringHashMap::new();
    ts.insert("gone".to_string(), 900u64);
    ts.insert("a".to_string(), 100u64);
    let order = build_order(&nodes, None, &ts);
    let ids: Vec<&str> = order.iter().map(|p| p.pane_id.as_str()).collect();
    assert_eq!(ids, vec!["a"]);
}

// ── freshness ──

#[test]
fn test_fresh_within_and_past_timeout() {
    let s = session(&[("a", "w1")], 0, 1000);
    assert!(fresh(&s, 1000 + DEFAULT_TIMEOUT_MS, DEFAULT_TIMEOUT_MS));
    assert!(!fresh(&s, 1001 + DEFAULT_TIMEOUT_MS, DEFAULT_TIMEOUT_MS));
}

// ── reconcile ──

#[test]
fn test_reconcile_records_landed_then_post_focus() {
    let mut s = session(&[("a", "w1"), ("b", "w1")], 1, 42);
    s.landed = Some(pane("b", "w1"));
    s.post_focus.push(pane("d", "w2"));
    let store = enter_all(reconcile_records(&s));
    // "d" recorded last → most recent → first in recency order.
    assert_eq!(store.ids(MruKind::Pane), vec!["d", "b"]);
    assert_eq!(store.ids(MruKind::Workspace), vec!["w2", "w1"]);
}

#[test]
fn test_reconcile_skips_hopped_through_panes() {
    // Session walked a → b → c but only landed on c.
    let mut s = session(&[("a", "w1"), ("b", "w1"), ("c", "w1")], 2, 42);
    s.landed = Some(pane("c", "w1"));
    let store = enter_all(reconcile_records(&s));
    assert_eq!(
        store.ids(MruKind::Pane),
        vec!["c"],
        "hopped-through panes must not be recorded"
    );
}

// ── on_track_event ──

#[test]
fn test_track_event_absorbed_during_fresh_session_echo_ignored() {
    let mut s = session(&[("a", "w1"), ("b", "w1")], 1, now_ms());
    s.landed = Some(pane("b", "w1"));
    let mut store = Store::with(Some(s));

    // Echo of our own focus: absorbed, not remembered.
    let d = store.track(Some(("b", "w1")));
    assert_eq!(d, TrackDisposition::Absorbed);
    assert!(store.session.as_ref().unwrap().post_focus.is_empty());

    // A different pane: absorbed but remembered for reconcile.
    let d = store.track(Some(("x", "w2")));
    assert_eq!(d, TrackDisposition::Absorbed);
    assert_eq!(store.session.as_ref().unwrap().post_focus.len(), 1);

    // The history stayed clean the whole time.
    assert!(store.history.is_empty());
}

#[test]
fn test_track_event_stale_session_reconciles_then_proceeds() {
    let mut s = session(&[("a", "w1"), ("b", "w1")], 1, 1); // ancient
    s.landed = Some(pane("b", "w1"));
    let mut store = Store::with(Some(s));

    let d = store.track(Some(("z", "w3")));
    assert_eq!(d, TrackDisposition::Proceed);
    assert!(store.session.is_none(), "stale session must be deleted");
    assert_eq!(
        store.ids(MruKind::Pane),
        vec!["b"],
        "landing reconciled; caller records z itself"
    );
}

#[test]
fn test_track_event_no_session_proceeds() {
    let mut store = Store::with(None);
    let d = store.track(Some(("a", "w1")));
    assert_eq!(d, TrackDisposition::Proceed);
}

// ── end_session_now ──

#[test]
fn test_end_session_now_reconciles_fresh_session() {
    let mut s = session(&[("a", "w1"), ("b", "w1")], 1, now_ms());
    s.landed = Some(pane("b", "w1"));
    let mut store = Store::with(Some(s));
    let update = end_session_now(store.session.clone());
    store.apply(update);
    assert!(store.session.is_none());
    assert!(!store.history.is_empty());
}
