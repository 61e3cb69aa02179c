//! Where new dots come from: random positions inside an area, random
//! velocities and random charges, and never more dots than the configured
//! limit.

use vstd::prelude::*;
use rand::rngs::StdRng;
use crate::charge::{rgb_channels, Charges, CHARGE_MAX};
use crate::geometry::{Rect, Vec2, ONE};
use crate::motion::{DotBundle, DotState, Velocity};

verus! {

/// The generator of the `rand` crate that the random draws come from.
#[verifier::external_type_specification]
#[verifier::external_body]
pub struct ExStdRng(StdRng);

/// Calls `StdRng::seed_from_u64`, which makes a generator whose draws follow
/// from the seed. Nothing is stated of the generator.
#[verifier::external_body]
pub(crate) fn seeded(seed: u64) -> StdRng {
    rand::SeedableRng::seed_from_u64(seed)
}

/// Calls `Rng::gen_range`, which draws an integer that is at least `low` and
/// less than `high`.
#[verifier::external_body]
fn uniform(rng: &mut StdRng, low: i64, high: i64) -> (drawn: i64)
    requires
        low < high,
    ensures
        low <= drawn < high,
{
    rand::Rng::gen_range(rng, low, high)
}

/// Whether `value` may have been drawn between `low` and `high`: at least
/// `low` and less than `high`, or, where there is nothing between them,
/// `low` itself.
pub open spec fn sampled(value: int, low: int, high: int) -> bool {
    if low < high {
        low <= value < high
    } else {
        value == low
    }
}

/// Whether a dot may have been spawned in `area`: its position drawn inside
/// the area on each axis, each component of its velocity at least -1 and
/// less than 1, and a red, a green and a blue channel with a build-up level
/// below a full charge and nothing emitted.
pub open spec fn spawned_in(area: Rect, dot: DotState) -> bool {
    &&& sampled(dot.position.x as int, area.min.x as int, area.max.x as int)
    &&& sampled(dot.position.y as int, area.min.y as int, area.max.y as int)
    &&& -ONE <= dot.velocity.x < ONE
    &&& -ONE <= dot.velocity.y < ONE
    &&& dot.charges.len() == 3
    &&& dot.charges == rgb_channels((dot.charges[0].inner, dot.charges[1].inner, dot.charges[2].inner))
    &&& dot.charges[0].inner < CHARGE_MAX
    &&& dot.charges[1].inner < CHARGE_MAX
    &&& dot.charges[2].inner < CHARGE_MAX
}

/// How many of `count` requested dots are spawned when `live` dots exist
/// and at most `limit` may: none at or above the limit, else as many as fit
/// under it.
pub open spec fn allowance(live: int, count: int, limit: int) -> int {
    if live >= limit {
        0
    } else if count <= limit - live {
        count
    } else {
        limit - live
    }
}

/// Spawning never takes the number of dots over the limit: at or above the
/// limit nothing is spawned, and below it what is spawned is what was asked
/// for, cut down to the room that is left.
pub proof fn lemma_allowance_keeps_limit(live: int, count: int, limit: int)
    requires
        0 <= live,
        0 <= count,
    ensures
        0 <= allowance(live, count, limit) <= count,
        live >= limit ==> allowance(live, count, limit) == 0,
        live <= limit ==> live + allowance(live, count, limit) <= limit,
        live <= limit && count >= limit - live ==> live + allowance(live, count, limit) == limit,
        live + count <= limit ==> allowance(live, count, limit) == count,
{
}

impl DotBundle {
    /// A dot at the given position with the given velocity and a red, a
    /// green and a blue channel with the given build-up levels.
    pub fn rgb(position: Vec2, velocity: Vec2, levels: (u32, u32, u32)) -> (dot: DotBundle)
        ensures
            dot@ == (DotState { position, velocity, charges: rgb_channels(levels) }),
    {
        DotBundle { position, velocity: Velocity { velocity }, charges: Charges::rgb(levels) }
    }
}

/// One coordinate between two bounds: drawn where there is room between
/// them, the lower bound where there is none.
fn sample(rng: &mut StdRng, low: i64, high: i64) -> (drawn: i64)
    ensures
        sampled(drawn as int, low as int, high as int),
{
    if low < high {
        uniform(rng, low, high)
    } else {
        low
    }
}

/// The number of dots to spawn for a request of `count` when `live` dots
/// exist and at most `limit` may.
pub fn spawn_allowance(live: usize, count: usize, limit: usize) -> (n: usize)
    ensures
        n == allowance(live as int, count as int, limit as int),
        live + n <= usize::MAX,
        live <= limit ==> live + n <= limit,
{
    if live >= limit {
        0
    } else if count <= limit - live {
        count
    } else {
        limit - live
    }
}

/// Makes `count` new dots with random positions inside `area`, random
/// velocities and random charges. An area without extent on an axis puts
/// every dot at its lower bound on that axis.
pub fn spawn_particles(area: Rect, count: usize, rng: &mut StdRng) -> (dots: Vec<DotBundle>)
    ensures
        dots.len() == count,
        forall|i: int| 0 <= i < dots.len() ==> spawned_in(area, (#[trigger] dots[i])@),
{
    let mut dots: Vec<DotBundle> = Vec::new();
    let mut i: usize = 0;
    while i < count
        invariant
            i <= count,
            dots.len() == i,
            forall|j: int| 0 <= j < dots.len() ==> spawned_in(area, (#[trigger] dots[j])@),
        decreases count - i,
    {
        let x: i64 = sample(rng, area.min.x, area.max.x);
        let y: i64 = sample(rng, area.min.y, area.max.y);
        let vx: i64 = uniform(rng, -ONE, ONE);
        let vy: i64 = uniform(rng, -ONE, ONE);
        let r: i64 = uniform(rng, 0, CHARGE_MAX as i64);
        let g: i64 = uniform(rng, 0, CHARGE_MAX as i64);
        let b: i64 = uniform(rng, 0, CHARGE_MAX as i64);
        let dot = DotBundle::rgb(
            Vec2 { x, y },
            Vec2 { x: vx, y: vy },
            (r as u32, g as u32, b as u32),
        );
        dots.push(dot);
        i = i + 1;
    }
    dots
}

} // verus!
