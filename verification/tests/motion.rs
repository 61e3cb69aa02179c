use dots::charge::Charges;
use dots::geometry::{Rect, Vec2};
use dots::motion::{advance, reflect, update_border, update_velocity, Border, DotBundle, Velocity};

const U: i64 = 1_000_000;

fn square(half: i64) -> Rect {
    Rect::from_corners(Vec2::new(-half * U, -half * U), Vec2::new(half * U, half * U))
}

fn dot(x: i64, y: i64, vx: i64, vy: i64) -> DotBundle {
    DotBundle {
        position: Vec2::new(x, y),
        velocity: Velocity { velocity: Vec2::new(vx, vy) },
        charges: Charges(Vec::new()),
    }
}

#[test]
fn advance_adds_the_velocity() {
    assert_eq!(advance(Vec2::new(99 * U, 0), Vec2::new(5 * U, 0)), Vec2::new(104 * U, 0));
    assert_eq!(advance(Vec2::new(-7, 3), Vec2::new(-1, -4)), Vec2::new(-8, -1));
    assert_eq!(advance(Vec2::new(12, 34), Vec2::new(0, 0)), Vec2::new(12, 34));
}

#[test]
fn dot_near_the_edge_is_put_on_it_and_turned_round() {
    let boundary = square(100);
    let moved = advance(Vec2::new(99 * U, 0), Vec2::new(5 * U, 0));
    let (position, velocity) = reflect(moved, Vec2::new(5 * U, 0), &boundary);
    assert_eq!(position, Vec2::new(100 * U, 0));
    assert_eq!(velocity, Vec2::new(-5 * U, 0));
}

#[test]
fn reflection_beyond_max_x_flips_only_that_component() {
    let boundary = square(100);
    for (v, w) in [(3, 4), (-3, 4), (0, 0), (i64::MAX, i64::MAX), (-i64::MAX, 1)] {
        let (position, velocity) = reflect(Vec2::new(100 * U + 1, 17), Vec2::new(v, w), &boundary);
        assert_eq!(position, Vec2::new(100 * U, 17));
        assert_eq!(velocity, Vec2::new(-v, w));
    }
}

#[test]
fn reflection_at_each_edge() {
    let boundary = square(100);
    let v = Vec2::new(3, -4);
    assert_eq!(reflect(Vec2::new(-100 * U - 1, 0), v, &boundary), (Vec2::new(-100 * U, 0), Vec2::new(-3, -4)));
    assert_eq!(reflect(Vec2::new(0, -100 * U - 9), v, &boundary), (Vec2::new(0, -100 * U), Vec2::new(3, 4)));
    assert_eq!(reflect(Vec2::new(0, 100 * U + 9), v, &boundary), (Vec2::new(0, 100 * U), Vec2::new(3, 4)));
}

#[test]
fn reflection_in_a_corner_flips_both_components() {
    let boundary = square(100);
    let (position, velocity) = reflect(Vec2::new(101 * U, -102 * U), Vec2::new(2, -3), &boundary);
    assert_eq!(position, Vec2::new(100 * U, -100 * U));
    assert_eq!(velocity, Vec2::new(-2, 3));
}

#[test]
fn reflection_leaves_a_dot_inside_alone() {
    let boundary = square(100);
    for p in [Vec2::new(0, 0), Vec2::new(100 * U, 100 * U), Vec2::new(-100 * U, 5), Vec2::new(7, -100 * U)] {
        assert_eq!(reflect(p, Vec2::new(9, -9), &boundary), (p, Vec2::new(9, -9)));
    }
}

#[test]
fn reflection_at_a_boundary_without_extent() {
    let point = Rect::from_corners(Vec2::new(5, 5), Vec2::new(5, 5));
    assert_eq!(reflect(Vec2::new(0, 9), Vec2::new(1, 1), &point), (Vec2::new(5, 5), Vec2::new(-1, -1)));
}

#[test]
fn update_velocity_moves_every_dot() {
    let mut dots = vec![dot(0, 0, 1, 2), dot(10, 10, -3, 0), dot(-5, 5, 0, 0)];
    update_velocity(&mut dots);
    let positions: Vec<Vec2> = dots.iter().map(|d| d.position).collect();
    assert_eq!(positions, vec![Vec2::new(1, 2), Vec2::new(7, 10), Vec2::new(-5, 5)]);
    let velocities: Vec<Vec2> = dots.iter().map(|d| d.velocity.velocity).collect();
    assert_eq!(velocities, vec![Vec2::new(1, 2), Vec2::new(-3, 0), Vec2::new(0, 0)]);
}

#[test]
fn update_border_turns_back_every_dot_outside() {
    let border = Border { area: square(100) };
    let mut dots = vec![dot(104 * U, 0, 5 * U, 0), dot(0, 0, 1, 1), dot(-200 * U, 300 * U, -1, 1)];
    update_border(&border, &mut dots);
    assert_eq!(dots[0].position, Vec2::new(100 * U, 0));
    assert_eq!(dots[0].velocity.velocity, Vec2::new(-5 * U, 0));
    assert_eq!(dots[1].position, Vec2::new(0, 0));
    assert_eq!(dots[1].velocity.velocity, Vec2::new(1, 1));
    assert_eq!(dots[2].position, Vec2::new(-100 * U, 100 * U));
    assert_eq!(dots[2].velocity.velocity, Vec2::new(1, -1));
    for d in &dots {
        assert!(border.area.has(d.position));
    }
}

#[test]
fn phases_on_no_dots_do_nothing() {
    let mut dots: Vec<DotBundle> = Vec::new();
    update_velocity(&mut dots);
    update_border(&Border { area: square(1) }, &mut dots);
    assert!(dots.is_empty());
}
