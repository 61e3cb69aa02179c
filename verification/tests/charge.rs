use dots::charge::{Charge, Charges, Color, EmissionEvent, CHARGE_MAX, OUTER_MIN};
use dots::geometry::Vec2;

fn channel(inner: u32, outer: u32) -> Charge {
    Charge { inner, outer, color: Color::red() }
}

#[test]
fn levels_are_millionths() {
    assert_eq!(CHARGE_MAX, 1_000_000);
    assert_eq!(OUTER_MIN, 10_000);
}

#[test]
fn base_colors_are_pure() {
    assert_eq!(Color::red(), Color { r: 1_000_000, g: 0, b: 0 });
    assert_eq!(Color::green(), Color { r: 0, g: 1_000_000, b: 0 });
    assert_eq!(Color::blue(), Color { r: 0, g: 0, b: 1_000_000 });
}

#[test]
fn channel_just_below_full_emits() {
    // inner 0.9999, outer 0.5, build-up 0.0001
    let mut c = channel(999_900, 500_000);
    let emitted = c.step(100, 50_000);
    assert!(emitted);
    assert_eq!(c.inner, 0);
    assert_eq!(c.outer, 1_000_000);
    assert_eq!(c.color, Color::red());
}

#[test]
fn full_channel_emits_whatever_its_outer_level() {
    for outer in [0, 1, 9_999, 10_000, 500_000, 1_000_000, 7_000_000, u32::MAX] {
        for buildup in [0, 100, u32::MAX] {
            let mut c = channel(1_000_000, outer);
            assert!(c.step(buildup, 50_000));
            assert_eq!((c.inner, c.outer), (0, 1_000_000));
        }
    }
}

#[test]
fn idle_channel_builds_up_and_dissipates() {
    let mut c = channel(5_000, 600_000);
    assert!(!c.step(100, 50_000));
    assert_eq!((c.inner, c.outer), (5_100, 550_000));
    assert!(!c.step(100, 50_000));
    assert_eq!((c.inner, c.outer), (5_200, 500_000));
}

#[test]
fn outer_level_stops_at_its_floor() {
    let mut c = channel(0, 30_000);
    assert!(!c.step(100, 50_000));
    assert_eq!(c.outer, 10_000);
    assert!(!c.step(100, 50_000));
    assert_eq!(c.outer, 10_000);
    let mut fresh = channel(0, 0);
    assert!(!fresh.step(100, 50_000));
    assert_eq!(fresh.outer, 10_000);
}

#[test]
fn levels_out_of_range_come_back_into_range() {
    let mut c = channel(0, 3_000_000);
    assert!(!c.step(100, 50_000));
    assert_eq!((c.inner, c.outer), (100, 1_000_000));
    let mut d = channel(u32::MAX, u32::MAX);
    assert!(d.step(u32::MAX, 0));
    assert_eq!((d.inner, d.outer), (0, 1_000_000));
    let mut e = channel(0, u32::MAX);
    assert!(!e.step(0, u32::MAX));
    assert_eq!((e.inner, e.outer), (0, 10_000));
}

#[test]
fn emission_needs_a_full_level() {
    let mut c = channel(999_899, 500_000);
    assert!(!c.step(100, 50_000));
    assert_eq!((c.inner, c.outer), (999_999, 450_000));
    assert!(c.step(100, 50_000));
    assert_eq!((c.inner, c.outer), (0, 1_000_000));
}

#[test]
fn receiving_adds_the_gain_up_to_a_full_charge() {
    let mut c = channel(100, 500_000);
    c.receive(10_000);
    assert_eq!((c.inner, c.outer), (10_100, 500_000));
    let mut d = channel(995_000, 500_000);
    d.receive(10_000);
    assert_eq!(d.inner, 1_000_000);
    d.receive(10_000);
    assert_eq!(d.inner, 1_000_000);
    let mut e = channel(u32::MAX, 500_000);
    e.receive(u32::MAX);
    assert_eq!(e.inner, 1_000_000);
}

#[test]
fn rgb_makes_three_channels() {
    let charges = Charges::rgb((250_000, 500_000, 750_000));
    assert_eq!(
        charges.0,
        vec![
            Charge { inner: 250_000, outer: 0, color: Color::red() },
            Charge { inner: 500_000, outer: 0, color: Color::green() },
            Charge { inner: 750_000, outer: 0, color: Color::blue() },
        ]
    );
}

#[test]
fn shown_color_is_the_sum_over_the_channels() {
    let charges = Charges(vec![
        Charge { inner: 0, outer: 500_000, color: Color::red() },
        Charge { inner: 0, outer: 250_000, color: Color::green() },
        Charge { inner: 0, outer: 1_000_000, color: Color { r: 500_000, g: 500_000, b: 0 } },
    ]);
    assert_eq!(charges.to_rgb(), (1_000_000, 750_000, 0));
}

#[test]
fn shown_color_is_not_capped() {
    let charges = Charges(vec![channel(0, 1_000_000), channel(0, 1_000_000), channel(0, 400_000)]);
    assert_eq!(charges.to_rgb(), (2_400_000, 0, 0));
}

#[test]
fn shown_color_rounds_each_channel_down() {
    let third = Color { r: 333_333, g: 1, b: 999_999 };
    let charges = Charges(vec![Charge { inner: 0, outer: 333_333, color: third }]);
    assert_eq!(charges.to_rgb(), (111_110, 0, 333_332));
}

#[test]
fn shown_color_of_no_channels_is_black() {
    assert_eq!(Charges(Vec::new()).to_rgb(), (0, 0, 0));
    assert_eq!(Charges::rgb((1_000_000, 1_000_000, 1_000_000)).to_rgb(), (0, 0, 0));
}

#[test]
fn shown_color_holds_the_largest_levels() {
    let white = Color { r: u32::MAX, g: u32::MAX, b: u32::MAX };
    let charges = Charges(vec![Charge { inner: 0, outer: u32::MAX, color: white }; 4]);
    let each: u128 = (u32::MAX as u128 * u32::MAX as u128) / 1_000_000;
    assert_eq!(charges.to_rgb(), (4 * each, 4 * each, 4 * each));
}

#[test]
fn emission_event_holds_position_and_color() {
    let e = EmissionEvent { position: Vec2::new(1, 2), color: Color::blue() };
    assert_eq!(e.position, Vec2 { x: 1, y: 2 });
    assert_eq!(e.color, Color::blue());
}
