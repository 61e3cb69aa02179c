use dots::charge::{Charge, Color};
use dots::geometry::{Rect, Vec2};
use dots::motion::DotBundle;
use dots::population::{spawn_allowance, spawn_particles};
use rand::rngs::StdRng;
use rand::SeedableRng;

const U: i64 = 1_000_000;

fn check_spawned(area: Rect, d: &DotBundle) {
    assert!(area.min.x <= d.position.x && d.position.x < area.max.x);
    assert!(area.min.y <= d.position.y && d.position.y < area.max.y);
    let v = d.velocity.velocity;
    assert!(-U <= v.x && v.x < U);
    assert!(-U <= v.y && v.y < U);
    assert_eq!(d.charges.0.len(), 3);
    let colors: Vec<Color> = d.charges.0.iter().map(|c| c.color).collect();
    assert_eq!(colors, vec![Color::red(), Color::green(), Color::blue()]);
    for c in &d.charges.0 {
        assert!(c.inner < 1_000_000);
        assert_eq!(c.outer, 0);
    }
}

#[test]
fn spawned_dots_lie_in_the_area() {
    let area = Rect::from_corners(Vec2::new(-20 * U, 5 * U), Vec2::new(30 * U, 6 * U));
    let mut rng = StdRng::seed_from_u64(1);
    let dots = spawn_particles(area, 500, &mut rng);
    assert_eq!(dots.len(), 500);
    for d in &dots {
        check_spawned(area, d);
    }
}

#[test]
fn spawned_dots_differ() {
    let area = Rect::from_corners(Vec2::new(0, 0), Vec2::new(1000 * U, 1000 * U));
    let mut rng = StdRng::seed_from_u64(2);
    let dots = spawn_particles(area, 64, &mut rng);
    let first = &dots[0];
    assert!(dots.iter().any(|d| d.position.x != first.position.x));
    assert!(dots.iter().any(|d| d.position.y != first.position.y));
    assert!(dots.iter().any(|d| d.velocity.velocity.x != first.velocity.velocity.x));
    assert!(dots.iter().any(|d| d.velocity.velocity.y != first.velocity.velocity.y));
    assert!(dots.iter().any(|d| d.charges.0[0].inner != first.charges.0[0].inner));
    assert!(dots.iter().any(|d| d.position.x != area.min.x));
    assert!(dots.iter().any(|d| d.velocity.velocity.x > 0));
    assert!(dots.iter().any(|d| d.velocity.velocity.x < 0));
}

#[test]
fn area_without_extent_spawns_at_one_point() {
    let point = Rect::from_corners(Vec2::new(7, -9), Vec2::new(7, -9));
    let mut rng = StdRng::seed_from_u64(3);
    let dots = spawn_particles(point, 20, &mut rng);
    assert_eq!(dots.len(), 20);
    for d in &dots {
        assert_eq!(d.position, Vec2::new(7, -9));
    }
    let line = Rect::from_corners(Vec2::new(0, 4), Vec2::new(100, 4));
    for d in &spawn_particles(line, 20, &mut rng) {
        assert_eq!(d.position.y, 4);
        assert!(0 <= d.position.x && d.position.x < 100);
    }
}

#[test]
fn area_with_corners_out_of_order_spawns_at_its_lower_corner() {
    let odd = Rect { min: Vec2::new(10, 10), max: Vec2::new(0, 0) };
    let mut rng = StdRng::seed_from_u64(4);
    for d in &spawn_particles(odd, 5, &mut rng) {
        assert_eq!(d.position, Vec2::new(10, 10));
    }
}

#[test]
fn spawning_nothing() {
    let area = Rect::from_corners(Vec2::new(0, 0), Vec2::new(10, 10));
    let mut rng = StdRng::seed_from_u64(5);
    assert!(spawn_particles(area, 0, &mut rng).is_empty());
}

#[test]
fn same_seed_same_dots() {
    let area = Rect::from_corners(Vec2::new(-U, -U), Vec2::new(U, U));
    let a = spawn_particles(area, 30, &mut StdRng::seed_from_u64(99));
    let b = spawn_particles(area, 30, &mut StdRng::seed_from_u64(99));
    for (x, y) in a.iter().zip(b.iter()) {
        assert_eq!(x.position, y.position);
        assert_eq!(x.velocity, y.velocity);
        assert_eq!(x.charges.0, y.charges.0);
    }
}

#[test]
fn rgb_dot_has_the_given_parts() {
    let d = DotBundle::rgb(Vec2::new(1, 2), Vec2::new(3, 4), (5, 6, 7));
    assert_eq!(d.position, Vec2::new(1, 2));
    assert_eq!(d.velocity.velocity, Vec2::new(3, 4));
    assert_eq!(
        d.charges.0,
        vec![
            Charge { inner: 5, outer: 0, color: Color::red() },
            Charge { inner: 6, outer: 0, color: Color::green() },
            Charge { inner: 7, outer: 0, color: Color::blue() },
        ]
    );
}

#[test]
fn allowance_at_the_limit_is_nothing() {
    assert_eq!(spawn_allowance(10_000, 10_050, 10_000), 0);
    assert_eq!(spawn_allowance(10_001, 1, 10_000), 0);
    assert_eq!(spawn_allowance(0, 5, 0), 0);
}

#[test]
fn allowance_below_the_limit_is_cut_to_the_room_left() {
    assert_eq!(spawn_allowance(9_990, 50, 10_000), 10);
    assert_eq!(spawn_allowance(9_990, 10, 10_000), 10);
    assert_eq!(spawn_allowance(9_990, 9, 10_000), 9);
    assert_eq!(spawn_allowance(0, 1024, 10_000), 1024);
    assert_eq!(spawn_allowance(0, 0, 10_000), 0);
    assert_eq!(spawn_allowance(usize::MAX - 1, usize::MAX, usize::MAX), 1);
}
