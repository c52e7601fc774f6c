use convergence::error::ConfigError;
use convergence::fixed::Fixed;
use convergence::palette::{Color, Palette};

fn rgb(r: u8, g: u8, b: u8) -> Color {
    Color { r, g, b }
}

fn three() -> Palette {
    match Palette::new(vec![rgb(0, 0, 255), rgb(255, 0, 255), rgb(0, 0, 0)]) {
        Ok(p) => p,
        Err(e) => panic!("{}", e.message()),
    }
}

#[test]
fn an_empty_palette_is_refused() {
    assert!(matches!(Palette::new(Vec::new()), Err(ConfigError::EmptyPalette)));
}

#[test]
fn a_palette_keeps_its_control_points_in_order() {
    let p = three();
    assert_eq!(p.len(), 3);
    assert_eq!(p.control_point(0), Some(rgb(0, 0, 255)));
    assert_eq!(p.control_point(1), Some(rgb(255, 0, 255)));
    assert_eq!(p.control_point(2), Some(rgb(0, 0, 0)));
    assert_eq!(p.control_point(3), None);
}

#[test]
fn position_zero_is_the_first_control_point() {
    assert_eq!(three().sample(Fixed::from_raw(0)), rgb(0, 0, 255));
}

#[test]
fn position_one_is_the_last_control_point() {
    assert_eq!(three().sample(Fixed::from_int(1)), rgb(0, 0, 0));
}

#[test]
fn inner_control_points_are_hit_exactly() {
    assert_eq!(three().sample(Fixed::from_raw(500_000_000)), rgb(255, 0, 255));
}

#[test]
fn channels_are_interpolated_linearly() {
    let p = three();
    assert_eq!(p.sample(Fixed::from_raw(250_000_000)), rgb(127, 0, 255));
    assert_eq!(p.sample(Fixed::from_raw(750_000_000)), rgb(127, 0, 127));
    assert_eq!(p.sample(Fixed::from_raw(333_333_333)), rgb(169, 0, 255));
    assert_eq!(p.sample(Fixed::from_raw(1)), rgb(0, 0, 255));
    assert_eq!(p.sample(Fixed::from_raw(499_999_999)), rgb(254, 0, 255));
    assert_eq!(p.sample(Fixed::from_raw(500_000_001)), rgb(254, 0, 254));
    assert_eq!(p.sample(Fixed::from_raw(999_999_999)), rgb(0, 0, 0));
}

#[test]
fn positions_outside_the_unit_interval_take_the_nearer_end() {
    let p = three();
    assert_eq!(p.sample(Fixed::from_raw(-5)), rgb(0, 0, 255));
    assert_eq!(p.sample(Fixed::from_raw(i64::MIN)), rgb(0, 0, 255));
    assert_eq!(p.sample(Fixed::from_raw(1_000_000_005)), rgb(0, 0, 0));
    assert_eq!(p.sample(Fixed::from_raw(i64::MAX)), rgb(0, 0, 0));
}

#[test]
fn a_single_control_point_colours_every_position() {
    let p = Palette::new(vec![rgb(9, 8, 7)]).ok().expect("one control point is enough");
    for raw in [-1i64, 0, 1, 500_000_000, 1_000_000_000, 2_000_000_000] {
        assert_eq!(p.sample(Fixed::from_raw(raw)), rgb(9, 8, 7));
    }
}

#[test]
fn two_control_points_blend_over_the_whole_interval() {
    let p = Palette::new(vec![rgb(0, 100, 200), rgb(200, 100, 0)]).ok().expect("two control points");
    assert_eq!(p.sample(Fixed::from_raw(0)), rgb(0, 100, 200));
    assert_eq!(p.sample(Fixed::from_raw(250_000_000)), rgb(50, 100, 150));
    assert_eq!(p.sample(Fixed::from_raw(500_000_000)), rgb(100, 100, 100));
    assert_eq!(p.sample(Fixed::from_int(1)), rgb(200, 100, 0));
}

#[test]
fn small_steps_in_position_are_small_steps_in_colour() {
    let p = three();
    let step: i64 = 1_000_000;
    let mut at: i64 = 0;
    while at + step <= 1_000_000_000 {
        let a = p.sample(Fixed::from_raw(at));
        let b = p.sample(Fixed::from_raw(at + step));
        assert!((a.r as i32 - b.r as i32).abs() <= 1, "red jumps at {}", at);
        assert!((a.g as i32 - b.g as i32).abs() <= 1, "green jumps at {}", at);
        assert!((a.b as i32 - b.b as i32).abs() <= 1, "blue jumps at {}", at);
        at += step;
    }
}

#[test]
fn a_clone_samples_like_its_source() {
    let p = three();
    let q = p.clone();
    assert_eq!(q.len(), 3);
    for raw in [0i64, 123_456_789, 500_000_000, 987_654_321, 1_000_000_000] {
        assert_eq!(p.sample(Fixed::from_raw(raw)), q.sample(Fixed::from_raw(raw)));
    }
}
