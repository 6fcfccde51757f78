use pane_cycle::{
    advance_and_focus, begin_walk, build_order, end_session_now, enter_record, fresh, now_ms,
    on_track_event, reconcile_records, run_cycle, start_cycle, step, timeout_from_setting,
    timeout_ms, timestamp_to_ms, CycleAction, CycleEvent, CyclePane, CycleRun, CycleSession,
    FocusedPaneInfo, MruKind, MruRecord, NavigationNode, Phase, SessionUpdate, StringHashMap,
    Survey, TrackDisposition, WalkStep, DEFAULT_TIMEOUT_MS,
};

fn pane(id: &str, ws: &str) -> CyclePane {
    CyclePane { pane_id: id.into(), workspace_id: ws.into() }
}

fn node(id: &str, ws: &str) -> NavigationNode {
    NavigationNode { pane_id: id.into(), workspace_id: ws.into() }
}

fn times(entries: &[(&str, u64)]) -> StringHashMap<u64> {
    let mut map = StringHashMap::new();
    for (id, ts) in entries {
        map.insert(id.to_string(), *ts);
    }
    map
}

fn ids(panes: &[CyclePane]) -> Vec<&str> {
    panes.iter().map(|p| p.pane_id.as_str()).collect()
}

/// A session over panes a, b, c in workspace w, sitting on `position`.
fn abc(position: usize, last_press_at: u64) -> CycleSession {
    let order = vec![pane("a", "w"), pane("b", "w"), pane("c", "w")];
    CycleSession {
        started_at: 10,
        last_press_at,
        landed: Some(order[position].clone()),
        order,
        position,
        post_focus: Vec::new(),
        before_landing: 0,
    }
}

fn keys(records: &[MruRecord]) -> Vec<(MruKind, &str, &str)> {
    records.iter().map(|r| (r.kind, r.id.as_str(), r.workspace_id.as_str())).collect()
}

/// Feeds a walk with answers until it ends.
fn walk(session: CycleSession, reverse: bool, now: u64, answers: &[bool]) -> (Vec<String>, WalkStep) {
    let mut offered = Vec::new();
    let mut at = begin_walk(session, reverse);
    for ok in answers {
        at = match at {
            WalkStep::Next(w) => {
                offered.push(w.session.order[w.pos].pane_id.clone());
                advance_and_focus(w, *ok, reverse, now)
            }
            ended => ended,
        };
    }
    (offered, at)
}

// Steps.

#[test]
fn step_back_undoes_step_forward() {
    for pos in 0..5 {
        assert_eq!(step(step(pos, 5, false), 5, true), pos);
        assert_eq!(step(step(pos, 5, true), 5, false), pos);
    }
}

#[test]
fn full_turn_stops_everywhere_once_and_comes_back() {
    let mut seen = vec![];
    let mut pos = 2;
    for _ in 0..4 {
        pos = step(pos, 4, false);
        seen.push(pos);
    }
    assert_eq!(seen, vec![3, 0, 1, 2]);
}

#[test]
fn step_reduces_positions_past_the_end() {
    assert_eq!(step(7, 3, false), 2);
    assert_eq!(step(7, 3, true), 0);
    assert_eq!(step(usize::MAX - 1, 1, false), 0);
    assert_eq!(step(0, 1, true), 0);
}

// Walks.

#[test]
fn walk_lands_on_first_pane_that_can_be_focused() {
    let (offered, end) = walk(abc(0, 5), false, 77, &[false, true]);
    assert_eq!(offered, vec!["b", "c"]);
    match end {
        WalkStep::Landed(s) => {
            assert_eq!(s.position, 2);
            assert_eq!(s.landed, Some(pane("c", "w")));
            assert_eq!(s.last_press_at, 77);
            assert_eq!(s.started_at, 10);
            assert_eq!(ids(&s.order), vec!["a", "b", "c"]);
        }
        _ => panic!("the walk should have landed"),
    }
}

#[test]
fn walk_gives_up_after_every_pane() {
    let (offered, end) = walk(abc(1, 5), true, 77, &[false, false, false]);
    assert_eq!(offered, vec!["a", "c", "b"]);
    match end {
        WalkStep::Exhausted(s) => {
            assert_eq!(s.position, 1);
            assert_eq!(s.last_press_at, 5);
            assert_eq!(s.landed, Some(pane("b", "w")));
        }
        _ => panic!("the walk should have given up"),
    }
}

#[test]
fn walk_through_empty_order_offers_nothing() {
    let mut s = abc(0, 5);
    s.order.clear();
    assert!(matches!(begin_walk(s, false), WalkStep::Exhausted(_)));
}

#[test]
fn press_back_returns_to_the_pane_before() {
    let (_, end) = walk(abc(1, 5), false, 20, &[true]);
    let there = match end {
        WalkStep::Landed(s) => s,
        _ => panic!("the walk should have landed"),
    };
    assert_eq!(there.position, 2);
    match walk(there, true, 30, &[true]).1 {
        WalkStep::Landed(s) => {
            assert_eq!(s.position, 1);
            assert_eq!(s.landed, Some(pane("b", "w")));
            assert_eq!(s.last_press_at, 30);
        }
        _ => panic!("the walk should have landed"),
    }
}

// Freshness.

#[test]
fn clock_set_back_keeps_a_session_active() {
    let s = abc(0, 5000);
    assert!(fresh(&s, 10, 0));
    assert!(fresh(&s, 5000, 0));
    assert!(!fresh(&s, 5001, 0));
    assert!(fresh(&abc(0, 0), u64::MAX, u64::MAX));
}

// Orders.

#[test]
fn equal_times_keep_layout_order() {
    let nodes = vec![node("a", "w"), node("b", "w"), node("c", "w"), node("d", "w")];
    let order = build_order(&nodes, None, &times(&[("b", 7), ("a", 7), ("d", 9)]));
    assert_eq!(ids(&order), vec!["d", "a", "b", "c"]);
}

#[test]
fn panes_listed_twice_are_visited_once() {
    let nodes = vec![node("a", "w1"), node("b", "w1"), node("a", "w2"), node("c", "w1"), node("c", "w2")];
    let order = build_order(&nodes, None, &times(&[("a", 1)]));
    assert_eq!(order, vec![pane("a", "w1"), pane("b", "w1"), pane("c", "w1")]);
}

#[test]
fn focused_pane_leads_even_where_it_is_not_live() {
    let f = FocusedPaneInfo { pane_id: "z".into(), workspace_id: "w9".into() };
    let order = build_order(&[node("a", "w")], Some(&f), &times(&[]));
    assert_eq!(order, vec![pane("z", "w9"), pane("a", "w")]);
    assert!(build_order(&[], None, &times(&[("a", 1)])).is_empty());
}

#[test]
fn times_of_dead_panes_do_not_matter() {
    let nodes = vec![node("a", "w"), node("b", "w")];
    let with = build_order(&nodes, None, &times(&[("b", 3), ("x", 99), ("y", 1)]));
    let without = build_order(&nodes, None, &times(&[("b", 3)]));
    assert_eq!(with, without);
}

#[test]
fn time_of_the_focused_pane_does_not_matter() {
    let nodes = vec![node("a", "w"), node("b", "w"), node("c", "w")];
    let f = FocusedPaneInfo { pane_id: "b".into(), workspace_id: "w".into() };
    let late = build_order(&nodes, Some(&f), &times(&[("b", 99), ("c", 3)]));
    let never = build_order(&nodes, Some(&f), &times(&[("c", 3)]));
    assert_eq!(late, never);
    assert_eq!(ids(&late), vec!["b", "c", "a"]);
}

#[test]
fn focusing_a_pane_only_moves_it_to_the_front() {
    let nodes = vec![node("a", "w"), node("b", "w"), node("c", "w"), node("d", "w")];
    let stamps = times(&[("b", 3), ("d", 8)]);
    assert_eq!(ids(&build_order(&nodes, None, &stamps)), vec!["d", "b", "a", "c"]);
    let f = FocusedPaneInfo { pane_id: "a".into(), workspace_id: "w".into() };
    assert_eq!(ids(&build_order(&nodes, Some(&f), &stamps)), vec!["a", "d", "b", "c"]);
}

// Records.

#[test]
fn records_skip_runs_of_the_same_pane() {
    let mut s = abc(1, 5);
    s.post_focus = vec![pane("b", "w"), pane("x", "w2"), pane("x", "w2"), pane("b", "w")];
    assert_eq!(
        keys(&reconcile_records(&s)),
        vec![
            (MruKind::Pane, "b", "w"),
            (MruKind::Workspace, "w", "w"),
            (MruKind::Pane, "x", "w2"),
            (MruKind::Workspace, "w2", "w2"),
            (MruKind::Pane, "b", "w"),
            (MruKind::Workspace, "w", "w"),
        ]
    );
}

#[test]
fn session_that_never_landed_records_nothing_of_its_own() {
    let mut s = abc(0, 5);
    s.landed = None;
    assert!(reconcile_records(&s).is_empty());
    s.post_focus.push(pane("q", "w3"));
    assert_eq!(
        keys(&reconcile_records(&s)),
        vec![(MruKind::Pane, "q", "w3"), (MruKind::Workspace, "w3", "w3")]
    );
}

#[test]
fn entering_a_record_moves_it_to_the_top() {
    let rec = |kind, id: &str| MruRecord { kind, id: id.into(), workspace_id: "w".into() };
    let mut history = vec![];
    for (kind, id) in [
        (MruKind::Pane, "a"),
        (MruKind::Pane, "b"),
        (MruKind::Tab, "a"),
        (MruKind::Pane, "c"),
        (MruKind::Pane, "a"),
    ] {
        enter_record(&mut history, rec(kind, id));
    }
    assert_eq!(
        keys(&history),
        vec![
            (MruKind::Pane, "a", "w"),
            (MruKind::Pane, "c", "w"),
            (MruKind::Tab, "a", "w"),
            (MruKind::Pane, "b", "w"),
        ]
    );
}

#[test]
fn landing_becomes_most_recent_and_the_rest_keeps_its_order() {
    let rec = |id: &str| MruRecord { kind: MruKind::Pane, id: id.into(), workspace_id: "w".into() };
    let mut history = vec![rec("a"), rec("b"), rec("c"), rec("d")];
    for r in reconcile_records(&abc(2, 5)) {
        enter_record(&mut history, r);
    }
    assert_eq!(
        keys(&history),
        vec![
            (MruKind::Workspace, "w", "w"),
            (MruKind::Pane, "c", "w"),
            (MruKind::Pane, "a", "w"),
            (MruKind::Pane, "b", "w"),
            (MruKind::Pane, "d", "w"),
        ]
    );
}

// Events.

#[test]
fn active_session_remembers_news_in_order() {
    let mut s = abc(1, 1000);
    for (id, ws) in [("x", "w2"), ("x", "w2"), ("b", "w"), ("y", "w2"), ("x", "w2")] {
        let outcome = on_track_event(Some(s.clone()), Some((id, ws)), 1500, 2000);
        assert_eq!(outcome.disposition, TrackDisposition::Absorbed);
        match outcome.update {
            SessionUpdate::Keep => {}
            SessionUpdate::Save(next) => s = next,
            SessionUpdate::Close(_) => panic!("an active session does not end"),
        }
    }
    assert_eq!(
        s.post_focus,
        vec![pane("x", "w2"), pane("b", "w"), pane("y", "w2"), pane("x", "w2")]
    );
    assert_eq!(s.before_landing, 0);
    assert_eq!(s.last_press_at, 1000);
    assert_eq!(s.position, 1);
}

/// A session after focus events while it is active.
fn absorb(session: CycleSession, events: &[(&str, &str)], now: u64) -> CycleSession {
    let mut s = session;
    for event in events {
        let outcome = on_track_event(Some(s.clone()), Some(*event), now, 2000);
        assert_eq!(outcome.disposition, TrackDisposition::Absorbed);
        match outcome.update {
            SessionUpdate::Keep => {}
            SessionUpdate::Save(next) => s = next,
            SessionUpdate::Close(_) => panic!("an active session does not end"),
        }
    }
    s
}

/// A session after a press that focuses the first pane on offer.
fn press_on(session: CycleSession, reverse: bool, now: u64) -> CycleSession {
    match walk(session, reverse, now, &[true]).1 {
        WalkStep::Landed(s) => s,
        _ => panic!("the walk should have landed"),
    }
}

/// The panes of a history that a session leaves, most recent first.
fn panes_left(session: &CycleSession) -> Vec<String> {
    let mut history = vec![];
    for r in reconcile_records(session) {
        enter_record(&mut history, r);
    }
    history.into_iter().filter(|r| r.kind == MruKind::Pane).map(|r| r.id).collect()
}

#[test]
fn going_back_to_the_landed_pane_is_remembered() {
    let s = absorb(abc(1, 1000), &[("b", "w"), ("x", "w2"), ("b", "w")], 1500);
    assert_eq!(s.post_focus, vec![pane("x", "w2"), pane("b", "w")]);
    assert_eq!(panes_left(&s), vec!["b", "x"]);
}

#[test]
fn landing_after_a_focus_is_more_recent() {
    let s = press_on(absorb(abc(1, 1000), &[("b", "w"), ("x", "w2")], 1500), false, 1600);
    assert_eq!(s.landed, Some(pane("c", "w")));
    assert_eq!((s.post_focus.len(), s.before_landing), (1, 1));
    assert_eq!(panes_left(&s), vec!["c", "x"]);
    assert_eq!(
        keys(&reconcile_records(&s)),
        vec![
            (MruKind::Pane, "x", "w2"),
            (MruKind::Workspace, "w2", "w2"),
            (MruKind::Pane, "c", "w"),
            (MruKind::Workspace, "w", "w"),
        ]
    );
}

#[test]
fn pane_focused_before_and_after_a_landing_counts_as_after() {
    let s = press_on(absorb(abc(1, 1000), &[("y", "w2"), ("x", "w2")], 1500), false, 1600);
    let s = absorb(s, &[("c", "w"), ("x", "w2")], 1700);
    assert_eq!(s.post_focus, vec![pane("y", "w2"), pane("x", "w2")]);
    assert_eq!(s.before_landing, 1);
    assert_eq!(panes_left(&s), vec!["x", "c", "y"]);
}

#[test]
fn echo_after_each_landing_is_ignored() {
    let mut s = abc(0, 1000);
    for (now, echo) in [(1100, "b"), (1200, "c"), (1300, "a"), (1400, "b")] {
        s = absorb(press_on(s, false, now), &[(echo, "w"), (echo, "w")], now);
        assert!(s.post_focus.is_empty());
    }
    assert_eq!(s.position, 1);
    assert_eq!(panes_left(&s), vec!["b"]);
}

#[test]
fn history_follows_a_mix_of_landings_and_focuses() {
    let s = absorb(abc(1, 1000), &[("b", "w"), ("x", "w2"), ("b", "w"), ("y", "w2")], 1100);
    let s = absorb(press_on(s, true, 1200), &[("a", "w"), ("y", "w2"), ("x", "w2")], 1300);
    let s = absorb(press_on(s, false, 1400), &[("b", "w"), ("a", "w")], 1500);
    assert_eq!(s.landed, Some(pane("b", "w")));
    assert_eq!(panes_left(&s), vec!["a", "b", "x", "y"]);
}

#[test]
fn landing_place_past_the_end_counts_as_the_end() {
    let mut s = abc(1, 1000);
    s.post_focus = vec![pane("x", "w2")];
    s.before_landing = 7;
    assert_eq!(panes_left(&s), vec!["b", "x"]);
    let s = absorb(s, &[("b", "w"), ("y", "w2")], 1100);
    assert_eq!(s.before_landing, 1);
    assert_eq!(panes_left(&s), vec!["y", "b", "x"]);
}

#[test]
fn event_without_a_pane_is_absorbed_and_not_remembered() {
    let outcome = on_track_event(Some(abc(1, 1000)), None, 3000, 2000);
    assert_eq!(outcome.disposition, TrackDisposition::Absorbed);
    assert!(matches!(outcome.update, SessionUpdate::Keep));
    let outcome = on_track_event(Some(abc(1, 1000)), None, 3001, 2000);
    assert_eq!(outcome.disposition, TrackDisposition::Proceed);
    assert!(matches!(outcome.update, SessionUpdate::Close(_)));
}

#[test]
fn session_ends_once() {
    assert!(matches!(end_session_now(None), SessionUpdate::Keep));
    match end_session_now(Some(abc(1, 1000))) {
        SessionUpdate::Close(records) => assert_eq!(
            keys(&records),
            vec![(MruKind::Pane, "b", "w"), (MruKind::Workspace, "w", "w")]
        ),
        _ => panic!("a kept session ends"),
    }
}

// Whole presses.

/// Carries out a run against a fixed world.
struct World {
    session: Option<CycleSession>,
    live: Vec<NavigationNode>,
    focused: Option<FocusedPaneInfo>,
    stamps: Vec<(&'static str, u64)>,
    dead: Vec<&'static str>,
    fails_to_list: bool,
    fails_to_record: bool,
    fails_to_save: bool,
    tried: Vec<String>,
    records: Vec<MruRecord>,
}

impl World {
    fn new(session: Option<CycleSession>) -> World {
        World {
            session,
            live: vec![node("a", "w"), node("b", "w"), node("c", "w")],
            focused: Some(FocusedPaneInfo { pane_id: "a".into(), workspace_id: "w".into() }),
            stamps: vec![("c", 9), ("b", 4)],
            dead: vec![],
            fails_to_list: false,
            fails_to_record: false,
            fails_to_save: false,
            tried: vec![],
            records: vec![],
        }
    }

    fn press(&mut self, reverse: bool, now: u64) -> bool {
        let (mut run, mut action): (CycleRun, CycleAction) = start_cycle(reverse, now, 2000);
        loop {
            let event = match action {
                CycleAction::LoadSession => CycleEvent::Loaded(self.session.clone()),
                CycleAction::FocusPane(id) => {
                    let ok = !self.dead.contains(&id.as_str());
                    self.tried.push(id);
                    CycleEvent::Focused(ok)
                }
                CycleAction::CloseSession(records) => {
                    self.session = None;
                    self.records.extend(records);
                    CycleEvent::Recorded(!self.fails_to_record)
                }
                CycleAction::SurveyPanes => CycleEvent::Surveyed(if self.fails_to_list {
                    None
                } else {
                    Some(Survey {
                        nodes: self.live.clone(),
                        focused: self.focused.clone(),
                        pane_ts: times(&self.stamps),
                    })
                }),
                CycleAction::SaveSession(s) => {
                    if !self.fails_to_save {
                        self.session = Some(s);
                    }
                    CycleEvent::Saved(!self.fails_to_save)
                }
                CycleAction::Finish(ok) => {
                    assert!(matches!(run.phase, Phase::Finished));
                    return ok;
                }
            };
            (run, action) = run_cycle(run, event);
        }
    }
}

#[test]
fn presses_walk_deeper_into_one_frozen_order() {
    let mut world = World::new(None);
    assert!(world.press(false, 100));
    world.live.clear(); // the order is frozen
    assert!(world.press(false, 1100));
    assert!(world.press(false, 3100));
    assert_eq!(world.tried, vec!["c", "b", "a"]);
    let s = world.session.unwrap();
    assert_eq!(ids(&s.order), vec!["a", "c", "b"]);
    assert_eq!((s.started_at, s.last_press_at, s.position), (100, 3100, 0));
    assert!(world.records.is_empty());
}

#[test]
fn presses_in_a_row_cycle_round_the_order() {
    let mut world = World::new(None);
    for now in [100, 2100, 2200, 2300, 2400, 4400, 4500] {
        assert!(world.press(false, now));
        let s = world.session.as_ref().unwrap();
        assert_eq!((s.started_at, s.last_press_at, ids(&s.order)), (100, now, vec!["a", "c", "b"]));
    }
    assert_eq!(world.tried, vec!["c", "b", "a", "c", "b", "a", "c"]);
}

#[test]
fn kept_session_stays_well_formed() {
    let mut world = World::new(None);
    let mut now = 100;
    for round in 0..40u64 {
        now += 137 * (round % 5) + if round % 11 == 10 { 2500 } else { 0 };
        if round % 3 == 2 {
            let id = ["a", "x", "x", "b", "c"][(round % 5) as usize];
            match on_track_event(world.session.clone(), Some((id, "w")), now, 2000).update {
                SessionUpdate::Keep => {}
                SessionUpdate::Save(s) => world.session = Some(s),
                SessionUpdate::Close(_) => world.session = None,
            }
        } else {
            assert!(world.press(round % 4 == 3, now));
        }
        if let Some(s) = &world.session {
            assert_eq!(s.order.len(), 3);
            assert_eq!(s.landed, Some(s.order[s.position].clone()));
            assert!(s.before_landing <= s.post_focus.len());
            assert!(s.post_focus.windows(2).all(|w| w[0] != w[1]));
        }
    }
}

#[test]
fn press_after_timeout_ends_the_session_and_starts_over() {
    let mut world = World::new(Some(abc(1, 1000)));
    assert!(world.press(false, 3001));
    assert_eq!(
        keys(&world.records),
        vec![(MruKind::Pane, "b", "w"), (MruKind::Workspace, "w", "w")]
    );
    assert_eq!(world.tried, vec!["c"]);
    let s = world.session.unwrap();
    assert_eq!((s.started_at, s.last_press_at, s.position), (3001, 3001, 1));
    assert_eq!(s.landed, Some(pane("c", "w")));
    assert!(s.post_focus.is_empty());
}

#[test]
fn reverse_press_starts_from_the_far_end() {
    let mut world = World::new(None);
    assert!(world.press(true, 50));
    assert_eq!(world.tried, vec!["b"]);
    assert_eq!(world.session.unwrap().position, 2);
}

#[test]
fn dead_session_is_replaced_by_a_new_one() {
    let mut s = abc(1, 1000);
    for p in &mut s.order {
        p.pane_id.push_str("-gone");
    }
    s.landed = Some(s.order[1].clone());
    let mut world = World::new(Some(s));
    world.dead = vec!["a-gone", "b-gone", "c-gone"];
    assert!(world.press(false, 1500));
    assert_eq!(world.tried, vec!["c-gone", "a-gone", "b-gone", "c"]);
    assert_eq!(
        keys(&world.records),
        vec![(MruKind::Pane, "b-gone", "w"), (MruKind::Workspace, "w", "w")]
    );
    assert_eq!(world.session.unwrap().landed, Some(pane("c", "w")));
}

#[test]
fn press_skips_closed_panes() {
    let mut world = World::new(Some(abc(0, 1000)));
    world.dead = vec!["b"];
    assert!(world.press(false, 1500));
    assert_eq!(world.tried, vec!["b", "c"]);
    assert_eq!(world.session.unwrap().position, 2);
}

#[test]
fn press_with_one_pane_does_nothing() {
    let mut world = World::new(None);
    world.live = vec![node("a", "w")];
    assert!(world.press(false, 50));
    assert!(world.tried.is_empty());
    assert!(world.session.is_none());
}

#[test]
fn press_that_can_focus_nothing_keeps_nothing() {
    let mut world = World::new(None);
    world.dead = vec!["a", "b", "c"];
    assert!(world.press(false, 50));
    assert_eq!(world.tried, vec!["c", "b", "a"]);
    assert!(world.session.is_none());
}

#[test]
fn failures_are_reported() {
    let mut world = World::new(None);
    world.fails_to_list = true;
    assert!(!world.press(false, 50));
    assert!(world.tried.is_empty());

    let mut world = World::new(Some(abc(0, 0)));
    world.fails_to_record = true;
    assert!(!world.press(false, 5000));
    assert!(world.tried.is_empty());

    let mut world = World::new(Some(abc(0, 0)));
    world.dead = vec!["a", "b", "c"];
    world.fails_to_record = true;
    assert!(!world.press(false, 5));
    assert_eq!(world.tried, vec!["b", "c", "a"]);

    let mut world = World::new(None);
    world.fails_to_save = true;
    assert!(!world.press(false, 50));
    assert_eq!(world.tried, vec!["c"]);
}

// The clock and the manifest.

#[test]
fn time_is_past_the_start_of_2024() {
    let first = now_ms();
    assert!(first > 1_704_067_200_000);
    assert!(first <= i64::MAX as u64);
}

#[test]
fn timestamp_keeps_its_count() {
    assert_eq!(timestamp_to_ms(0), 0);
    assert_eq!(timestamp_to_ms(1_704_067_200_123), 1_704_067_200_123);
    assert_eq!(timestamp_to_ms(i64::MAX), i64::MAX as u64);
    assert_eq!(timestamp_to_ms(-1), u64::MAX);
    assert_eq!(timestamp_to_ms(i64::MIN), 1 << 63);
}

#[test]
fn timeout_comes_from_the_manifest() {
    assert_eq!(timeout_ms(Some("cycle_timeout_ms = 750\n")), 750);
    assert_eq!(timeout_ms(Some("theme = \"light\"\ncycle_timeout_ms = 0\n")), 0);
    assert_eq!(timeout_ms(Some("cycle_timeout_ms = -5\n")), 0);
}

#[test]
fn timeout_falls_back_to_the_default() {
    assert_eq!(DEFAULT_TIMEOUT_MS, 2000);
    for manifest in [
        None,
        Some(""),
        Some("theme = \"dark\"\n"),
        Some("cycle_timeout_ms = \"750\"\n"),
        Some("cycle_timeout_ms = 7.5\n"),
        Some("[keys]\ncycle_timeout_ms = 750\n"),
        Some("cycle_timeout_ms = \n"),
        Some("cycle_timeout_ms = 750\ncycle_timeout_ms = 750\n"),
    ] {
        assert_eq!(timeout_ms(manifest), 2000);
    }
}

#[test]
fn timeout_of_a_setting() {
    assert_eq!(timeout_from_setting(None), 2000);
    assert_eq!(timeout_from_setting(Some(1)), 1);
    assert_eq!(timeout_from_setting(Some(i64::MIN)), 0);
    assert_eq!(timeout_from_setting(Some(i64::MAX)), i64::MAX as u64);
}
