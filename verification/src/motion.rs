//! Dots, how they move, and how the border of the playfield turns them back.

use vstd::prelude::*;
use crate::charge::{Charge, Charges};
use crate::geometry::{Rect, Vec2};

verus! {

/// The displacement of a dot per tick.
#[derive(Clone, Copy, Debug, PartialEq, Eq, Structural)]
pub struct Velocity {
    pub velocity: Vec2,
}

/// The rectangle that dots may not leave.
#[derive(Clone, Copy, Debug, PartialEq, Eq, Structural)]
pub struct Border {
    pub area: Rect,
}

/// Everything that makes up one dot.
#[derive(Debug)]
pub struct DotBundle {
    pub position: Vec2,
    pub velocity: Velocity,
    pub charges: Charges,
}

/// A dot as contracts see it: where it is, how it moves, and its channels
/// as a sequence.
pub ghost struct DotState {
    pub position: Vec2,
    pub velocity: Vec2,
    pub charges: Seq<Charge>,
}

impl View for DotBundle {
    type V = DotState;

    open spec fn view(&self) -> DotState {
        DotState { position: self.position, velocity: self.velocity.velocity, charges: self.charges@ }
    }
}

impl DeepView for DotBundle {
    type V = DotState;

    open spec fn deep_view(&self) -> DotState {
        self@
    }
}

/// Whether a position can take one step of a velocity without a coordinate
/// leaving the 64-bit integers.
pub open spec fn can_advance(position: Vec2, velocity: Vec2) -> bool {
    &&& i64::MIN <= position.x + velocity.x <= i64::MAX
    &&& i64::MIN <= position.y + velocity.y <= i64::MAX
}

/// A position one step of a velocity further.
pub open spec fn advanced(position: Vec2, velocity: Vec2) -> Vec2 {
    Vec2 { x: (position.x + velocity.x) as i64, y: (position.y + velocity.y) as i64 }
}

/// Whether a velocity can be turned round on both axes.
pub open spec fn can_reflect(velocity: Vec2) -> bool {
    velocity.x > i64::MIN && velocity.y > i64::MIN
}

/// One axis of a reflection: a coordinate below `low` is put at `low` and the
/// velocity along the axis changes sign; then the same for a coordinate
/// above `high`. Returns the coordinate and the velocity.
pub open spec fn reflected_axis(p: int, v: int, low: int, high: int) -> (int, int) {
    let (q, w) = if p < low {
        (low, -v)
    } else {
        (p, v)
    };
    if q > high {
        (high, -w)
    } else {
        (q, w)
    }
}

/// A position and a velocity after reflection at the edges of a rectangle,
/// each axis on its own.
pub open spec fn reflected(position: Vec2, velocity: Vec2, boundary: Rect) -> (Vec2, Vec2) {
    let x = reflected_axis(
        position.x as int,
        velocity.x as int,
        boundary.min.x as int,
        boundary.max.x as int,
    );
    let y = reflected_axis(
        position.y as int,
        velocity.y as int,
        boundary.min.y as int,
        boundary.max.y as int,
    );
    (Vec2 { x: x.0 as i64, y: y.0 as i64 }, Vec2 { x: x.1 as i64, y: y.1 as i64 })
}

impl DotState {
    /// Position and velocity lie within `COORD_MAX` of the origin.
    pub open spec fn in_range(self) -> bool {
        self.position.in_range() && self.velocity.in_range()
    }

    /// The dot one step further along its velocity.
    pub open spec fn moved(self) -> DotState {
        DotState { position: advanced(self.position, self.velocity), ..self }
    }

    /// The dot after reflection at the edges of `area`.
    pub open spec fn bounced(self, area: Rect) -> DotState {
        let (position, velocity) = reflected(self.position, self.velocity, area);
        DotState { position, velocity, ..self }
    }
}

/// Moves a position by one tick of a velocity. The step is the velocity
/// itself, whatever time has passed.
pub fn advance(position: Vec2, velocity: Vec2) -> (moved: Vec2)
    requires
        can_advance(position, velocity),
    ensures
        moved == advanced(position, velocity),
        moved.x == position.x + velocity.x,
        moved.y == position.y + velocity.y,
{
    Vec2 { x: position.x + velocity.x, y: position.y + velocity.y }
}

/// One axis of `reflect`.
fn reflect_axis(p: i64, v: i64, low: i64, high: i64) -> (r: (i64, i64))
    requires
        v > i64::MIN,
    ensures
        (r.0 as int, r.1 as int) == reflected_axis(p as int, v as int, low as int, high as int),
{
    let mut p: i64 = p;
    let mut v: i64 = v;
    if p < low {
        p = low;
        v = -v;
    }
    if p > high {
        p = high;
        v = -v;
    }
    (p, v)
}

/// Puts a position that has left `boundary` back on its edge and turns the
/// velocity round on each axis on which it had left. Returns the position
/// and the velocity.
pub fn reflect(position: Vec2, velocity: Vec2, boundary: &Rect) -> (r: (Vec2, Vec2))
    requires
        can_reflect(velocity),
    ensures
        r == reflected(position, velocity, *boundary),
        boundary.ordered() ==> boundary.contains(r.0),
        boundary.contains(position) ==> r == (position, velocity),
        r.1.x == velocity.x || r.1.x == -velocity.x,
        r.1.y == velocity.y || r.1.y == -velocity.y,
{
    let x = reflect_axis(position.x, velocity.x, boundary.min.x, boundary.max.x);
    let y = reflect_axis(position.y, velocity.y, boundary.min.y, boundary.max.y);
    (Vec2 { x: x.0, y: y.0 }, Vec2 { x: x.1, y: y.1 })
}

/// Reflection leaves a position inside a rectangle whose corners are in
/// order, wherever the position was.
pub proof fn lemma_reflected_is_inside(position: Vec2, velocity: Vec2, boundary: Rect)
    requires
        boundary.ordered(),
    ensures
        boundary.contains(reflected(position, velocity, boundary).0),
{
}

/// Reflection changes the sign of a velocity component and keeps its
/// magnitude: a position beyond the upper edge in x comes to lie on that edge
/// with the x component of its velocity negated, and where it is not beyond
/// an edge in y, its y coordinate and the y component of its velocity stay.
pub proof fn lemma_reflected_beyond_max_x(position: Vec2, velocity: Vec2, boundary: Rect)
    requires
        boundary.ordered(),
        can_reflect(velocity),
        position.x > boundary.max.x,
    ensures
        reflected(position, velocity, boundary).0.x == boundary.max.x,
        reflected(position, velocity, boundary).1.x == -velocity.x,
        boundary.min.y <= position.y <= boundary.max.y ==> reflected(
            position,
            velocity,
            boundary,
        ).0.y == position.y && reflected(position, velocity, boundary).1.y == velocity.y,
{
}

/// Reflection never changes the magnitude of a velocity component, and it
/// changes nothing of a dot that is inside the rectangle.
pub proof fn lemma_reflected_keeps_speed(position: Vec2, velocity: Vec2, boundary: Rect)
    requires
        can_reflect(velocity),
    ensures
        ({
            let v = reflected(position, velocity, boundary).1;
            (v.x == velocity.x || v.x == -velocity.x) && (v.y == velocity.y || v.y == -velocity.y)
        }),
        boundary.contains(position) ==> reflected(position, velocity, boundary) == (position, velocity),
{
}

/// All dots one step further along their velocities.
pub open spec fn moved_all(dots: Seq<DotState>) -> Seq<DotState> {
    dots.map_values(|d: DotState| d.moved())
}

/// All dots after reflection at the edges of `area`.
pub open spec fn bounced_all(dots: Seq<DotState>, area: Rect) -> Seq<DotState> {
    dots.map_values(|d: DotState| d.bounced(area))
}

/// Every dot can take one step of its velocity.
pub open spec fn all_can_advance(dots: Seq<DotState>) -> bool {
    forall|i: int| 0 <= i < dots.len() ==> can_advance((#[trigger] dots[i]).position, dots[i].velocity)
}

/// The velocity of every dot can be turned round.
pub open spec fn all_can_reflect(dots: Seq<DotState>) -> bool {
    forall|i: int| 0 <= i < dots.len() ==> can_reflect((#[trigger] dots[i]).velocity)
}

/// Every dot lies inside the rectangle or on its edge.
pub open spec fn all_inside(dots: Seq<DotState>, area: Rect) -> bool {
    forall|i: int| 0 <= i < dots.len() ==> area.contains((#[trigger] dots[i]).position)
}

/// Moves every dot by one tick of its velocity.
pub fn update_velocity(dots: &mut Vec<DotBundle>)
    requires
        all_can_advance(old(dots).deep_view()),
    ensures
        final(dots).deep_view() == moved_all(old(dots).deep_view()),
{
    let ghost before = dots.deep_view();
    let mut i: usize = 0;
    while i < dots.len()
        invariant
            i <= dots.len(),
            dots.len() == before.len(),
            all_can_advance(before),
            forall|j: int| 0 <= j < i ==> (#[trigger] dots[j])@ == before[j].moved(),
            forall|j: int| i <= j < dots.len() ==> (#[trigger] dots[j])@ == before[j],
        decreases dots.len() - i,
    {
        let moved = advance(dots[i].position, dots[i].velocity.velocity);
        dots[i].position = moved;
        i = i + 1;
    }
    assert(dots.deep_view() =~= moved_all(before));
}

/// Turns back every dot that has left the border: it is put on the edge it
/// crossed, and its velocity changes sign on that axis.
pub fn update_border(border: &Border, dots: &mut Vec<DotBundle>)
    requires
        all_can_reflect(old(dots).deep_view()),
    ensures
        final(dots).deep_view() == bounced_all(old(dots).deep_view(), border.area),
        border.area.ordered() ==> all_inside(final(dots).deep_view(), border.area),
{
    let ghost before = dots.deep_view();
    let mut i: usize = 0;
    while i < dots.len()
        invariant
            i <= dots.len(),
            dots.len() == before.len(),
            all_can_reflect(before),
            forall|j: int| 0 <= j < i ==> (#[trigger] dots[j])@ == before[j].bounced(border.area),
            forall|j: int| i <= j < dots.len() ==> (#[trigger] dots[j])@ == before[j],
        decreases dots.len() - i,
    {
        let (position, velocity) = reflect(dots[i].position, dots[i].velocity.velocity, &border.area);
        dots[i].position = position;
        dots[i].velocity.velocity = velocity;
        i = i + 1;
    }
    assert(dots.deep_view() =~= bounced_all(before, border.area));
}

} // verus!
