use convergence::error::ConfigError;
use convergence::fixed::Fixed;
use convergence::navigation::{
    InputEvent, Key, NavigationFlags, NavigationState, INITIAL_MOVE_SPEED, ROUND_TRIP_TOLERANCE,
};
use convergence::viewport::{ComplexPoint, Viewport};

fn press(key: Key) -> InputEvent {
    InputEvent::KeyChange { key, pressed: true }
}

fn release(key: Key) -> InputEvent {
    InputEvent::KeyChange { key, pressed: false }
}

fn state_at(cx: i64, cy: i64, hx: i64, hy: i64, speed: i64) -> NavigationState {
    let center = ComplexPoint { x: Fixed::from_raw(cx), y: Fixed::from_raw(cy) };
    let viewport = Viewport::new(center, Fixed::from_raw(hx), Fixed::from_raw(hy))
        .ok()
        .expect("positive extents");
    NavigationState::new(viewport, Fixed::from_raw(speed)).ok().expect("positive speed")
}

fn center_of(s: &NavigationState) -> (i64, i64) {
    let c = s.viewport().center();
    (c.x.raw, c.y.raw)
}

fn extents_of(s: &NavigationState) -> (i64, i64) {
    let v = s.viewport();
    (v.half_width().raw, v.half_height().raw)
}

fn nothing_held() -> NavigationFlags {
    NavigationFlags {
        move_up: false,
        move_down: false,
        move_left: false,
        move_right: false,
        zoom_in: false,
        zoom_out: false,
    }
}

#[test]
fn initial_state_has_the_start_up_values() {
    let s = NavigationState::initial();
    assert_eq!(center_of(&s), (-750_000_000, 0));
    assert_eq!(extents_of(&s), (1_750_000_000, 1_000_000_000));
    assert_eq!(s.move_speed().raw, 40_000_000);
    assert_eq!(INITIAL_MOVE_SPEED, 40_000_000);
    assert_eq!(s.flags(), nothing_held());
}

#[test]
fn new_refuses_a_speed_that_is_not_positive() {
    let v = Viewport::initial();
    assert!(matches!(NavigationState::new(v, Fixed::from_raw(0)), Err(ConfigError::NonPositiveSpeed)));
    assert!(matches!(NavigationState::new(v, Fixed::from_raw(-1)), Err(ConfigError::NonPositiveSpeed)));
}

#[test]
fn new_starts_with_nothing_held() {
    let s = state_at(1, 2, 3, 4, 5);
    assert_eq!(center_of(&s), (1, 2));
    assert_eq!(extents_of(&s), (3, 4));
    assert_eq!(s.move_speed().raw, 5);
    assert_eq!(s.flags(), nothing_held());
}

#[test]
fn a_press_sets_the_flag_of_its_key_only() {
    let keys = [Key::Up, Key::Down, Key::Left, Key::Right, Key::ZoomIn, Key::ZoomOut];
    for key in keys {
        let mut s = NavigationState::initial();
        s.handle_event(press(key));
        let f = s.flags();
        assert_eq!(f.move_up, key == Key::Up);
        assert_eq!(f.move_down, key == Key::Down);
        assert_eq!(f.move_left, key == Key::Left);
        assert_eq!(f.move_right, key == Key::Right);
        assert_eq!(f.zoom_in, key == Key::ZoomIn);
        assert_eq!(f.zoom_out, key == Key::ZoomOut);
        s.handle_event(release(key));
        assert_eq!(s.flags(), nothing_held());
    }
}

#[test]
fn events_do_not_move_the_view() {
    let mut s = NavigationState::initial();
    s.handle_event(press(Key::Right));
    s.handle_event(press(Key::ZoomIn));
    assert_eq!(center_of(&s), (-750_000_000, 0));
    assert_eq!(extents_of(&s), (1_750_000_000, 1_000_000_000));
    assert_eq!(s.move_speed().raw, 40_000_000);
}

#[test]
fn other_events_are_ignored() {
    let mut s = NavigationState::initial();
    s.handle_event(press(Key::Up));
    s.handle_event(InputEvent::Unrecognized);
    s.handle_event(InputEvent::WindowClose);
    let f = s.flags();
    assert!(f.move_up);
    assert_eq!(NavigationFlags { move_up: false, ..f }, nothing_held());
}

#[test]
fn the_latest_event_of_a_key_wins() {
    let mut s = NavigationState::initial();
    for e in [press(Key::Left), release(Key::Left), press(Key::Down), press(Key::Left), release(Key::Down)] {
        s.handle_event(e);
    }
    let f = s.flags();
    assert!(f.move_left);
    assert!(!f.move_down);
}

#[test]
fn a_tick_with_nothing_held_changes_nothing() {
    let mut s = NavigationState::initial();
    s.tick();
    assert_eq!(center_of(&s), (-750_000_000, 0));
    assert_eq!(extents_of(&s), (1_750_000_000, 1_000_000_000));
    assert_eq!(s.move_speed().raw, 40_000_000);
}

#[test]
fn one_tick_zooming_in_from_the_initial_state() {
    let mut s = NavigationState::initial();
    s.handle_event(press(Key::ZoomIn));
    s.tick();
    assert_eq!(center_of(&s), (-750_000_000, 0));
    assert_eq!(extents_of(&s), (1_662_500_000, 950_000_000));
    assert_eq!(s.move_speed().raw, 38_000_000);
}

#[test]
fn one_tick_zooming_out_from_the_initial_state() {
    let mut s = NavigationState::initial();
    s.handle_event(press(Key::ZoomOut));
    s.tick();
    assert_eq!(extents_of(&s), (1_842_105_264, 1_052_631_579));
    assert_eq!(s.move_speed().raw, 42_105_264);
}

#[test]
fn each_direction_moves_the_center_by_the_move_speed() {
    let cases = [
        (Key::Right, (-710_000_000, 0)),
        (Key::Left, (-790_000_000, 0)),
        (Key::Up, (-750_000_000, 40_000_000)),
        (Key::Down, (-750_000_000, -40_000_000)),
    ];
    for (key, expected) in cases {
        let mut s = NavigationState::initial();
        s.handle_event(press(key));
        s.tick();
        assert_eq!(center_of(&s), expected);
        assert_eq!(extents_of(&s), (1_750_000_000, 1_000_000_000));
        assert_eq!(s.move_speed().raw, 40_000_000);
    }
}

#[test]
fn opposite_directions_cancel() {
    let mut s = NavigationState::initial();
    for key in [Key::Left, Key::Right, Key::Up, Key::Down] {
        s.handle_event(press(key));
    }
    s.tick();
    assert_eq!(center_of(&s), (-750_000_000, 0));
    let mut edge = state_at(i64::MAX, i64::MIN, 1, 1, i64::MAX);
    for key in [Key::Left, Key::Right, Key::Up, Key::Down] {
        edge.handle_event(press(key));
    }
    edge.tick();
    assert_eq!(center_of(&edge), (i64::MAX, i64::MIN));
}

#[test]
fn holding_right_moves_by_the_speed_every_tick() {
    let mut s = NavigationState::initial();
    s.handle_event(press(Key::Right));
    for n in 1..=25i64 {
        s.tick();
        assert_eq!(center_of(&s), (-750_000_000 + n * 40_000_000, 0));
    }
    assert_eq!(center_of(&s), (250_000_000, 0));
    assert_eq!(s.move_speed().raw, 40_000_000);
}

#[test]
fn vertical_keys_do_not_disturb_horizontal_motion() {
    let mut plain = NavigationState::initial();
    plain.handle_event(press(Key::Right));
    let mut busy = NavigationState::initial();
    busy.handle_event(press(Key::Right));
    busy.handle_event(press(Key::Up));
    for _ in 0..10 {
        plain.tick();
        busy.tick();
    }
    assert_eq!(center_of(&plain), (-350_000_000, 0));
    assert_eq!(center_of(&busy), (-350_000_000, 400_000_000));
}

#[test]
fn motion_saturates_at_the_end_of_the_range() {
    let mut s = state_at(i64::MAX - 50_000_000, 0, 1, 1, 40_000_000);
    s.handle_event(press(Key::Right));
    s.tick();
    assert_eq!(center_of(&s), (i64::MAX - 10_000_000, 0));
    s.tick();
    assert_eq!(center_of(&s), (i64::MAX, 0));
    s.tick();
    assert_eq!(center_of(&s), (i64::MAX, 0));
}

#[test]
fn motion_uses_the_speed_from_before_the_zoom() {
    let mut s = NavigationState::initial();
    s.handle_event(press(Key::Right));
    s.handle_event(press(Key::ZoomIn));
    s.tick();
    assert_eq!(center_of(&s), (-710_000_000, 0));
    assert_eq!(s.move_speed().raw, 38_000_000);
    s.tick();
    assert_eq!(center_of(&s), (-672_000_000, 0));
    assert_eq!(s.move_speed().raw, 36_100_000);
}

#[test]
fn zooming_in_and_then_out_returns_the_extents() {
    let mut s = NavigationState::initial();
    s.handle_event(press(Key::ZoomIn));
    s.tick();
    s.handle_event(release(Key::ZoomIn));
    s.handle_event(press(Key::ZoomOut));
    s.tick();
    assert_eq!(extents_of(&s), (1_750_000_000, 1_000_000_000));
    assert_eq!(s.move_speed().raw, 40_000_000);
}

#[test]
fn zoom_round_trip_is_within_the_tolerance() {
    assert_eq!(ROUND_TRIP_TOLERANCE, 1);
    for (hx, hy, speed) in [(101i64, 21i64, 3i64), (1, 2, 1), (999_999_999, 123_456_789, 7), (i64::MAX, i64::MAX - 1, i64::MAX)] {
        let mut s = state_at(0, 0, hx, hy, speed);
        s.handle_event(press(Key::ZoomIn));
        s.tick();
        s.handle_event(release(Key::ZoomIn));
        s.handle_event(press(Key::ZoomOut));
        s.tick();
        let (bx, by) = extents_of(&s);
        let bs = s.move_speed().raw;
        assert!((bx as i128 - hx as i128).abs() <= ROUND_TRIP_TOLERANCE as i128);
        assert!((by as i128 - hy as i128).abs() <= ROUND_TRIP_TOLERANCE as i128);
        assert!((bs as i128 - speed as i128).abs() <= ROUND_TRIP_TOLERANCE as i128);
    }
    let mut s = state_at(0, 0, 101, 21, 3);
    s.handle_event(press(Key::ZoomIn));
    s.tick();
    assert_eq!(extents_of(&s), (95, 19));
    assert_eq!(s.move_speed().raw, 2);
    s.handle_event(release(Key::ZoomIn));
    s.handle_event(press(Key::ZoomOut));
    s.tick();
    assert_eq!(extents_of(&s), (100, 20));
    assert_eq!(s.move_speed().raw, 3);
}

#[test]
fn both_zoom_keys_in_one_tick_compose() {
    let mut s = NavigationState::initial();
    s.handle_event(press(Key::ZoomIn));
    s.handle_event(press(Key::ZoomOut));
    s.tick();
    assert_eq!(extents_of(&s), (1_750_000_000, 1_000_000_000));
    assert_eq!(s.move_speed().raw, 40_000_000);
    let mut odd = state_at(0, 0, 101, 21, 3);
    odd.handle_event(press(Key::ZoomIn));
    odd.handle_event(press(Key::ZoomOut));
    odd.tick();
    assert_eq!(extents_of(&odd), (100, 20));
    assert_eq!(odd.move_speed().raw, 3);
}

#[test]
fn extents_and_speed_stay_positive_under_long_zooms() {
    let mut s = NavigationState::initial();
    s.handle_event(press(Key::ZoomIn));
    for _ in 0..1000 {
        s.tick();
        let (hx, hy) = extents_of(&s);
        assert!(hx > 0 && hy > 0 && s.move_speed().raw > 0);
    }
    assert_eq!(extents_of(&s), (1, 1));
    s.handle_event(release(Key::ZoomIn));
    s.handle_event(press(Key::ZoomOut));
    for _ in 0..2000 {
        s.tick();
        let (hx, hy) = extents_of(&s);
        assert!(hx > 0 && hy > 0 && s.move_speed().raw > 0);
    }
    assert_eq!(extents_of(&s), (i64::MAX, i64::MAX));
    assert_eq!(s.move_speed().raw, i64::MAX);
}

#[test]
fn holding_left_and_down_moves_by_the_speed_every_tick() {
    let mut s = NavigationState::initial();
    s.handle_event(press(Key::Left));
    s.handle_event(press(Key::Down));
    for n in 1..=12i64 {
        s.tick();
        assert_eq!(center_of(&s), (-750_000_000 - n * 40_000_000, -n * 40_000_000));
    }
    assert_eq!(extents_of(&s), (1_750_000_000, 1_000_000_000));
    assert_eq!(s.move_speed().raw, 40_000_000);
}

#[test]
fn motion_saturates_at_the_low_end_of_the_range() {
    let mut s = state_at(0, i64::MIN + 50_000_000, 1, 1, 40_000_000);
    s.handle_event(press(Key::Down));
    s.tick();
    assert_eq!(center_of(&s), (0, i64::MIN + 10_000_000));
    s.tick();
    assert_eq!(center_of(&s), (0, i64::MIN));
    s.tick();
    assert_eq!(center_of(&s), (0, i64::MIN));
}
