//! The numbers that a simulation is set up with.

use vstd::prelude::*;
use crate::geometry::{Rect, Vec2};

verus! {

/// The rates, the reach and the limits of one simulation. Levels and rates
/// count millionths of a full charge, lengths millionths of a world unit.
#[derive(Clone, Copy, Debug, PartialEq, Eq, Structural)]
pub struct Config {
    /// What every channel's build-up level gains per tick.
    pub buildup_rate: u32,
    /// What every channel's emitted level loses per tick.
    pub dissipation_rate: u32,
    /// How far an emission reaches. A dot at exactly this distance is out of
    /// reach.
    pub propagation_radius: i64,
    /// What a channel's build-up level gains from each emission of its colour
    /// that reaches it.
    pub propagation_gain: u32,
    /// The number of dots beyond which none is spawned.
    pub max_population: usize,
    /// The rectangle that dots may not leave.
    pub boundary_rect: Rect,
}

impl Config {
    /// The rates 0.0001 and 0.05, the radius 128, the gain 0.01, room for ten
    /// thousand dots, and a playfield of 3840 by 2160 around the origin.
    pub open spec fn standard() -> Config {
        Config {
            buildup_rate: 100,
            dissipation_rate: 50_000,
            propagation_radius: 128_000_000,
            propagation_gain: 10_000,
            max_population: 10_000,
            boundary_rect: Rect {
                min: Vec2 { x: -1_920_000_000i64, y: -1_080_000_000i64 },
                max: Vec2 { x: 1_920_000_000, y: 1_080_000_000 },
            },
        }
    }

    /// The boundary has its corners in order and within `COORD_MAX` of the
    /// origin.
    pub open spec fn wf(self) -> bool {
        self.boundary_rect.ordered() && self.boundary_rect.in_range()
    }

    /// Whether the configuration is well-formed.
    pub fn is_wf(&self) -> (b: bool)
        ensures
            b == self.wf(),
    {
        self.boundary_rect.min.x <= self.boundary_rect.max.x && self.boundary_rect.min.y
            <= self.boundary_rect.max.y && self.boundary_rect.is_in_range()
    }
}

impl Default for Config {
    /// The standard configuration.
    fn default() -> (config: Config)
        ensures
            config == Config::standard(),
            config.wf(),
    {
        Config {
            buildup_rate: 100,
            dissipation_rate: 50_000,
            propagation_radius: 128_000_000,
            propagation_gain: 10_000,
            max_population: 10_000,
            boundary_rect: Rect {
                min: Vec2 { x: -1_920_000_000, y: -1_080_000_000 },
                max: Vec2 { x: 1_920_000_000, y: 1_080_000_000 },
            },
        }
    }
}

} // verus!
