use convergence::error::ConfigError;
use convergence::fixed::Fixed;
use convergence::viewport::{
    map_to_complex_plane, scale_down, scale_up, ComplexPoint, Viewport, ZOOM_FACTOR,
};

fn point(x: i64, y: i64) -> ComplexPoint {
    ComplexPoint { x: Fixed::from_raw(x), y: Fixed::from_raw(y) }
}

fn viewport(cx: i64, cy: i64, hx: i64, hy: i64) -> Viewport {
    match Viewport::new(point(cx, cy), Fixed::from_raw(hx), Fixed::from_raw(hy)) {
        Ok(v) => v,
        Err(e) => panic!("{}", e.message()),
    }
}

#[test]
fn initial_viewport_has_the_start_up_values() {
    let v = Viewport::initial();
    assert_eq!(v.center(), point(-750_000_000, 0));
    assert_eq!(v.half_width().raw, 1_750_000_000);
    assert_eq!(v.half_height().raw, 1_000_000_000);
}

#[test]
fn new_keeps_what_it_is_given() {
    let v = viewport(5, -6, 7, 8);
    assert_eq!(v.center(), point(5, -6));
    assert_eq!(v.half_width().raw, 7);
    assert_eq!(v.half_height().raw, 8);
}

#[test]
fn new_refuses_a_zero_half_width() {
    let r = Viewport::new(point(0, 0), Fixed::from_raw(0), Fixed::from_raw(1));
    assert!(matches!(r, Err(ConfigError::NonPositiveExtent)));
}

#[test]
fn new_refuses_a_negative_half_height() {
    let r = Viewport::new(point(0, 0), Fixed::from_raw(1), Fixed::from_raw(-1));
    assert!(matches!(r, Err(ConfigError::NonPositiveExtent)));
}

#[test]
fn new_accepts_the_smallest_extents() {
    let r = Viewport::new(point(0, 0), Fixed::from_raw(1), Fixed::from_raw(1));
    assert!(r.is_ok());
}

#[test]
fn map_sends_screen_corners_to_rectangle_corners() {
    let v = Viewport::initial();
    let one = Fixed::from_int(1);
    let minus_one = Fixed::from_int(-1);
    assert_eq!(map_to_complex_plane(&v, minus_one, minus_one), point(-2_500_000_000, -1_000_000_000));
    assert_eq!(map_to_complex_plane(&v, one, one), point(1_000_000_000, 1_000_000_000));
    assert_eq!(map_to_complex_plane(&v, minus_one, one), point(-2_500_000_000, 1_000_000_000));
    assert_eq!(map_to_complex_plane(&v, one, minus_one), point(1_000_000_000, -1_000_000_000));
}

#[test]
fn map_sends_the_middle_of_the_screen_to_the_center() {
    let v = Viewport::initial();
    let zero = Fixed::from_int(0);
    assert_eq!(map_to_complex_plane(&v, zero, zero), point(-750_000_000, 0));
    let w = viewport(123, -456, 789, 1011);
    assert_eq!(map_to_complex_plane(&w, zero, zero), point(123, -456));
}

#[test]
fn map_is_linear_between_the_edges() {
    let v = Viewport::initial();
    let p = map_to_complex_plane(&v, Fixed::from_raw(500_000_000), Fixed::from_raw(-250_000_000));
    assert_eq!(p, point(125_000_000, -250_000_000));
    let q = map_to_complex_plane(&v, Fixed::from_raw(333_333_333), Fixed::from_raw(-666_666_667));
    assert_eq!(q, point(-166_666_668, -666_666_667));
}

#[test]
fn map_rounds_towards_minus_infinity() {
    let v = Viewport::initial();
    assert_eq!(map_to_complex_plane(&v, Fixed::from_raw(1), Fixed::from_raw(1)), point(-749_999_999, 1));
    assert_eq!(
        map_to_complex_plane(&v, Fixed::from_raw(-1), Fixed::from_raw(-1)),
        point(-750_000_002, -1)
    );
}

#[test]
fn map_carries_positions_beyond_the_edges() {
    let v = Viewport::initial();
    let p = map_to_complex_plane(&v, Fixed::from_int(2), Fixed::from_int(-3));
    assert_eq!(p, point(2_750_000_000, -3_000_000_000));
}

#[test]
fn map_saturates_at_the_end_of_the_range() {
    let v = viewport(i64::MAX, i64::MIN, 10, 10);
    let p = map_to_complex_plane(&v, Fixed::from_int(1), Fixed::from_int(-1));
    assert_eq!(p, point(i64::MAX, i64::MIN));
}

#[test]
fn panned_moves_the_center_only() {
    let v = Viewport::initial().panned(Fixed::from_raw(40_000_000), Fixed::from_raw(-40_000_000));
    assert_eq!(v.center(), point(-710_000_000, -40_000_000));
    assert_eq!(v.half_width().raw, 1_750_000_000);
    assert_eq!(v.half_height().raw, 1_000_000_000);
}

#[test]
fn panned_saturates() {
    let v = viewport(i64::MAX - 1, i64::MIN + 1, 1, 1);
    let moved = v.panned(Fixed::from_raw(5), Fixed::from_raw(-5));
    assert_eq!(moved.center(), point(i64::MAX, i64::MIN));
}

#[test]
fn zoom_factor_is_ninety_five_hundredths() {
    assert_eq!(ZOOM_FACTOR, 950_000_000);
}

#[test]
fn zoomed_in_scales_both_extents() {
    let v = Viewport::initial().zoomed_in();
    assert_eq!(v.center(), point(-750_000_000, 0));
    assert_eq!(v.half_width().raw, 1_662_500_000);
    assert_eq!(v.half_height().raw, 950_000_000);
}

#[test]
fn zoomed_out_scales_both_extents() {
    let v = Viewport::initial().zoomed_out();
    assert_eq!(v.center(), point(-750_000_000, 0));
    assert_eq!(v.half_width().raw, 1_842_105_264);
    assert_eq!(v.half_height().raw, 1_052_631_579);
}

#[test]
fn zooming_in_never_reaches_zero() {
    let mut v = viewport(0, 0, 3, 1);
    for _ in 0..10 {
        v = v.zoomed_in();
        assert!(v.half_width().raw >= 1);
        assert!(v.half_height().raw >= 1);
    }
    assert_eq!(v.half_width().raw, 1);
    assert_eq!(v.half_height().raw, 1);
}

#[test]
fn zooming_out_saturates() {
    let v = viewport(0, 0, i64::MAX, i64::MAX - 1).zoomed_out();
    assert_eq!(v.half_width().raw, i64::MAX);
    assert_eq!(v.half_height().raw, i64::MAX);
}

#[test]
fn scale_down_values() {
    assert_eq!(scale_down(Fixed::from_raw(1)).raw, 1);
    assert_eq!(scale_down(Fixed::from_raw(2)).raw, 1);
    assert_eq!(scale_down(Fixed::from_raw(20)).raw, 19);
    assert_eq!(scale_down(Fixed::from_raw(21)).raw, 19);
    assert_eq!(scale_down(Fixed::from_raw(40_000_000)).raw, 38_000_000);
    assert_eq!(scale_down(Fixed::from_raw(i64::MAX)).raw, 8_762_203_435_012_037_016);
    assert_eq!(scale_down(Fixed::from_raw(0)).raw, 1);
    assert_eq!(scale_down(Fixed::from_raw(-5)).raw, 1);
}

#[test]
fn scale_up_values() {
    assert_eq!(scale_up(Fixed::from_raw(1)).raw, 2);
    assert_eq!(scale_up(Fixed::from_raw(18)).raw, 19);
    assert_eq!(scale_up(Fixed::from_raw(19)).raw, 20);
    assert_eq!(scale_up(Fixed::from_raw(20)).raw, 22);
    assert_eq!(scale_up(Fixed::from_raw(950_000_000)).raw, 1_000_000_000);
    assert_eq!(scale_up(Fixed::from_raw(40_000_000)).raw, 42_105_264);
    assert_eq!(scale_up(Fixed::from_raw(i64::MAX - 1)).raw, i64::MAX);
    assert_eq!(scale_up(Fixed::from_raw(i64::MAX)).raw, i64::MAX);
}

#[test]
fn zooming_out_always_makes_progress() {
    for raw in [1i64, 2, 3, 18, 19, 20, 1_000_000_000, i64::MAX - 1] {
        assert!(scale_up(Fixed::from_raw(raw)).raw > raw);
    }
}

#[test]
fn zooming_in_makes_progress_above_one_unit() {
    for raw in [2i64, 3, 18, 19, 20, 1_000_000_000, i64::MAX] {
        let smaller = scale_down(Fixed::from_raw(raw)).raw;
        assert!(1 <= smaller && smaller < raw);
    }
}

#[test]
fn zoom_round_trip_stays_within_one_unit() {
    for raw in [1i64, 2, 3, 19, 20, 21, 100, 101, 1_000_000_000, 1_750_000_000, i64::MAX - 1, i64::MAX] {
        let back = scale_up(scale_down(Fixed::from_raw(raw))).raw;
        assert!((back as i128 - raw as i128).abs() <= 1, "{} came back as {}", raw, back);
    }
    assert_eq!(scale_up(scale_down(Fixed::from_raw(1))).raw, 2);
    assert_eq!(scale_up(scale_down(Fixed::from_raw(101))).raw, 100);
    assert_eq!(scale_up(scale_down(Fixed::from_raw(1_750_000_000))).raw, 1_750_000_000);
}
