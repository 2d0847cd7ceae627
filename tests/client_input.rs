use rhythm_pi_charter::game::{AccuracyCounter, ChartNote, GameState, HitAccuracy};
use rhythm_pi_charter::input::{BindingError, InputHandler, KeyBindings};

#[test]
fn test_default_bindings() {
    let bindings = KeyBindings::default();
    assert_eq!(bindings.key_to_lane('d'), Some(0));
    assert_eq!(bindings.key_to_lane('f'), Some(1));
    assert_eq!(bindings.key_to_lane('j'), Some(2));
    assert_eq!(bindings.key_to_lane('k'), Some(3));
}

#[test]
fn test_case_insensitive_mapping() {
    let bindings = KeyBindings::default();
    assert_eq!(bindings.key_to_lane('D'), Some(0));
    assert_eq!(bindings.key_to_lane('d'), Some(0));
}

#[test]
fn test_set_binding_uniqueness() {
    let mut b = KeyBindings::default();
    assert!(b.set_binding(1, 'd').is_err());
    assert!(b.set_binding(1, 's').is_ok());
    assert_eq!(b.key_to_lane('s'), Some(1));
}

#[test]
fn unbound_key_has_no_lane() {
    let bindings = KeyBindings::default();
    assert_eq!(bindings.key_to_lane('x'), None);
    assert_eq!(bindings.key_to_lane('1'), None);
}

#[test]
fn lane_to_key_covers_four_lanes() {
    let b = KeyBindings::new('a', 'b', 'c', 'd');
    assert_eq!(b.lane_to_key(0), Some('a'));
    assert_eq!(b.lane_to_key(3), Some('d'));
    assert_eq!(b.lane_to_key(4), None);
}

#[test]
fn set_binding_errors_leave_bindings_unchanged() {
    let mut b = KeyBindings::default();
    assert_eq!(b.set_binding(2, 'F'), Err(BindingError::KeyInUse { lane: 1 }));
    assert_eq!(b.set_binding(7, 'z'), Err(BindingError::InvalidLane { lane: 7 }));
    assert_eq!(b, KeyBindings::default());
    assert_eq!(b.set_binding(0, 'd'), Ok(()));
    assert_eq!(b.lane_to_key(0), Some('d'));
}

#[test]
fn hit_points() {
    assert_eq!(HitAccuracy::Perfect.points(), 300);
    assert_eq!(HitAccuracy::Great.points(), 200);
    assert_eq!(HitAccuracy::Good.points(), 100);
    assert_eq!(HitAccuracy::Okay.points(), 50);
    assert_eq!(HitAccuracy::Miss.points(), 0);
    let c = AccuracyCounter::default();
    assert_eq!(c.perfect + c.great + c.good + c.ok + c.miss, 0);
}

#[test]
fn test_input_handler_press_release() {
    let mut handler = InputHandler::with_default_bindings();
    let event = handler.handle_key_press('d', 1_500_000);
    assert!(event.is_some());
    let e = event.unwrap();
    assert_eq!(e.lane, 0);
    assert_eq!(e.timestamp, 1_500_000);
    assert!(handler.is_key_pressed('d'));
    assert!(handler.is_lane_pressed(0));

    assert!(handler.handle_key_press('d', 1_600_000).is_none());

    handler.handle_key_release('d', None);
    assert!(!handler.is_key_pressed('d'));
}

#[test]
fn test_release_generates_event_when_time_provided() {
    let mut handler = InputHandler::with_default_bindings();
    let _ = handler.handle_key_press('d', 1_000_000);
    let maybe_event = handler.handle_key_release('d', Some(1_120_000));
    assert!(maybe_event.is_some());
    let ev = maybe_event.unwrap();
    assert_eq!(ev.lane, 0);
    assert_eq!(ev.timestamp, 1_120_000);
}

#[test]
fn input_handler_edges() {
    let mut handler = InputHandler::with_default_bindings();
    assert!(handler.handle_key_press('x', 5).is_none());
    assert!(handler.handle_key_release('x', Some(6)).is_none());
    assert_eq!(handler.handle_key_press('k', 10).map(|e| (e.lane, e.key)), Some((3, 'K')));
    assert_eq!(handler.handle_key_press('F', 20).map(|e| e.lane), Some(1));
    assert!(handler.handle_key_press('K', 30).is_none());
    assert_eq!(handler.pressed_lanes(), vec![3, 1]);
    assert!(!handler.is_lane_pressed(9));
    handler.set_bindings(KeyBindings::new('a', 's', 'k', 'l'));
    assert!(handler.pressed_lanes().is_empty());
    assert_eq!(handler.get_bindings().key_to_lane('K'), Some(2));
}

#[test]
fn record_hit_scores_combo_and_health() {
    let mut g = GameState::new();
    let note = ChartNote { time: 1_000_000, col: 2, duration: 0 };
    assert_eq!(g.record_hit(&note, 1_040_000), HitAccuracy::Perfect);
    assert_eq!((g.score, g.combo, g.health), (300, 1, 100));
    assert_eq!(g.record_hit(&note, 900_000), HitAccuracy::Great);
    assert_eq!(g.record_hit(&note, 1_150_000), HitAccuracy::Good);
    assert_eq!(g.record_hit(&note, 820_000), HitAccuracy::Okay);
    assert_eq!(g.record_hit(&note, 1_200_001), HitAccuracy::Miss);
    assert_eq!((g.combo, g.max_combo, g.health), (0, 4, 95));
    assert_eq!(g.score, 300 + 200 + 100 + 50);
    assert_eq!(g.accuracy_count.miss, 1);
    assert_eq!(g.notes_hit.len(), 5);
    assert_eq!(g.notes_hit[4].note_lane, 2);
}

#[test]
fn combo_bonus_grows_by_tenths() {
    let mut g = GameState::new();
    let note = ChartNote { time: 0, col: 0, duration: 0 };
    for _ in 0..10 {
        g.record_hit(&note, 0);
    }
    assert_eq!(g.score, 3000);
    g.record_hit(&note, 0);
    assert_eq!(g.score, 3000 + 300 + 1);
    g.update(16_000);
    g.pause();
    assert!(g.is_paused);
    g.resume();
    assert!(!g.is_paused);
    assert_eq!(g.current_time, 16_000);
}
