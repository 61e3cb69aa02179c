use dots::charge::{Charge, Charges, Color};
use dots::config::Config;
use dots::controls::{update_input, SpawnParticles};
use dots::geometry::{Rect, Vec2, COORD_MAX};
use dots::motion::{DotBundle, Velocity};
use dots::render::DotFrame;
use dots::simulation::Simulation;

const U: i64 = 1_000_000;

fn config(half: i64) -> Config {
    let mut config = Config::default();
    config.boundary_rect = Rect::from_corners(Vec2::new(-half * U, -half * U), Vec2::new(half * U, half * U));
    config
}

fn dot(x: i64, y: i64, vx: i64, vy: i64, channels: Vec<Charge>) -> DotBundle {
    DotBundle {
        position: Vec2::new(x, y),
        velocity: Velocity { velocity: Vec2::new(vx, vy) },
        charges: Charges(channels),
    }
}

fn red(inner: u32, outer: u32) -> Charge {
    Charge { inner, outer, color: Color::red() }
}

#[test]
fn one_tick_moves_and_reflects() {
    let dots = vec![dot(99 * U, 0, 5 * U, 0, Vec::new())];
    let mut sim = Simulation::with_dots(config(100), dots, 0).unwrap();
    let frame = sim.tick();
    assert_eq!(sim.particles()[0].position, Vec2::new(100 * U, 0));
    assert_eq!(sim.particles()[0].velocity.velocity, Vec2::new(-5 * U, 0));
    assert_eq!(frame.particles, vec![DotFrame { position: Vec2::new(100 * U, 0), display_color: (0, 0, 0) }]);
    sim.tick();
    assert_eq!(sim.particles()[0].position, Vec2::new(95 * U, 0));
    assert_eq!(sim.particles()[0].velocity.velocity, Vec2::new(-5 * U, 0));
}

#[test]
fn one_tick_emits_and_shows() {
    let dots = vec![dot(0, 0, 0, 0, vec![red(999_900, 500_000)])];
    let mut sim = Simulation::with_dots(config(100), dots, 0).unwrap();
    let frame = sim.tick();
    // emitted, then took in its own emission
    assert_eq!(sim.particles()[0].charges.0, vec![red(10_000, 1_000_000)]);
    assert_eq!(frame.particles[0].display_color, (1_000_000, 0, 0));
    let frame = sim.tick();
    assert_eq!(sim.particles()[0].charges.0, vec![red(10_100, 950_000)]);
    assert_eq!(frame.particles[0].display_color, (950_000, 0, 0));
}

#[test]
fn distances_are_taken_after_the_dots_have_moved() {
    // before the move the second dot is out of reach of the first, after it in reach
    let dots = vec![
        dot(0, 0, 0, 0, vec![red(999_900, 500_000)]),
        dot(130 * U, 0, -5 * U, 0, vec![red(0, 500_000)]),
        dot(127 * U, 0, 5 * U, 0, vec![red(0, 500_000)]),
    ];
    let mut sim = Simulation::with_dots(config(1000), dots, 0).unwrap();
    sim.tick();
    assert_eq!(sim.particles()[1].position, Vec2::new(125 * U, 0));
    assert_eq!(sim.particles()[1].charges.0[0].inner, 10_100);
    assert_eq!(sim.particles()[2].position, Vec2::new(132 * U, 0));
    assert_eq!(sim.particles()[2].charges.0[0].inner, 100);
}

#[test]
fn dots_at_the_edge_of_the_range_still_move() {
    let mut wide = Config::default();
    wide.boundary_rect = Rect { min: Vec2::new(-COORD_MAX, -COORD_MAX), max: Vec2::new(COORD_MAX, COORD_MAX) };
    let dots = vec![
        dot(COORD_MAX, -COORD_MAX, COORD_MAX, -COORD_MAX, vec![red(1_000_000, 0)]),
        dot(-COORD_MAX, COORD_MAX, COORD_MAX, -COORD_MAX, vec![red(0, 0)]),
        dot(COORD_MAX, -COORD_MAX + 1, 0, 0, vec![red(0, 0)]),
    ];
    let mut sim = Simulation::with_dots(wide, dots, 0).unwrap();
    sim.tick();
    assert_eq!(sim.particles()[0].position, Vec2::new(COORD_MAX, -COORD_MAX));
    assert_eq!(sim.particles()[0].velocity.velocity, Vec2::new(-COORD_MAX, COORD_MAX));
    assert_eq!(sim.particles()[1].position, Vec2::new(0, 0));
    assert_eq!(sim.particles()[0].charges.0[0].inner, 10_000);
    assert_eq!(sim.particles()[1].charges.0[0].inner, 100);
    assert_eq!(sim.particles()[2].charges.0[0].inner, 10_100);
}

#[test]
fn with_dots_takes_what_the_simulation_can_hold() {
    assert!(Simulation::with_dots(config(100), Vec::new(), 0).is_some());
    let outside = vec![dot(5000 * U, 0, 0, 0, Vec::new())];
    let sim = Simulation::with_dots(config(100), outside, 0).unwrap();
    assert_eq!(sim.entity_count(), 1);
    assert_eq!(sim.config(), config(100));
}

#[test]
fn with_dots_refuses_what_it_cannot_hold() {
    let far = vec![dot(COORD_MAX + 1, 0, 0, 0, Vec::new())];
    assert!(Simulation::with_dots(config(100), far, 0).is_none());
    let fast = vec![dot(0, 0, 0, i64::MIN, Vec::new())];
    assert!(Simulation::with_dots(config(100), fast, 0).is_none());
    let mut tight = config(100);
    tight.max_population = 1;
    let two = vec![dot(0, 0, 0, 0, Vec::new()), dot(0, 0, 0, 0, Vec::new())];
    assert!(Simulation::with_dots(tight, two, 0).is_none());
    let mut odd = config(100);
    odd.boundary_rect = Rect { min: Vec2::new(1, 1), max: Vec2::new(0, 0) };
    assert!(Simulation::with_dots(odd, Vec::new(), 0).is_none());
}

#[test]
fn spawn_into_a_given_population_respects_the_limit() {
    let mut limited = config(100);
    limited.max_population = 60;
    let mut dots = Vec::new();
    for i in 0..50 {
        dots.push(dot(i, i, 1, 1, Vec::new()));
    }
    let mut sim = Simulation::with_dots(limited, dots, 0).unwrap();
    sim.request_spawn(Rect::from_corners(Vec2::new(0, 0), Vec2::new(U, U)), 50);
    sim.tick();
    assert_eq!(sim.entity_count(), 60);
    sim.request_spawn(Rect::from_corners(Vec2::new(0, 0), Vec2::new(U, U)), 110);
    sim.tick();
    assert_eq!(sim.entity_count(), 60);
}

#[test]
fn mouse_asks_for_dots_at_the_cursor() {
    let at = Vec2::new(3 * U, -4 * U);
    assert_eq!(update_input(true, Some(at)), Some(SpawnParticles { position: at }));
    assert_eq!(update_input(false, Some(at)), None);
    assert_eq!(update_input(true, None), None);
    assert_eq!(update_input(false, None), None);
}
