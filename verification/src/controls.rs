//! What the keys and the mouse ask of a simulation.

use vstd::prelude::*;
use crate::geometry::{Rect, Vec2};
use crate::simulation::{Request, Simulation};

verus! {

/// How many dots one press of the spawn key asks for.
pub const SPAWN_BATCH: usize = 1024;

/// A wish for new dots at one place.
#[derive(Clone, Copy, Debug, PartialEq, Eq, Structural)]
pub struct SpawnParticles {
    pub position: Vec2,
}

/// What the mouse asks for: new dots where the cursor is, while the left
/// button is held and the cursor is over the playfield.
pub fn update_input(left_pressed: bool, cursor: Option<Vec2>) -> (wish: Option<SpawnParticles>)
    ensures
        left_pressed && cursor is Some ==> wish == Some(SpawnParticles { position: cursor->Some_0 }),
        !left_pressed || cursor is None ==> wish is None,
{
    if left_pressed {
        match cursor {
            Some(position) => Some(SpawnParticles { position }),
            None => None,
        }
    } else {
        None
    }
}

/// What the keys do to the dots. The clear key asks for every dot to be
/// removed; the spawn key asks for `SPAWN_BATCH` dots inside the part of
/// the playfield that is in view. With both pressed the clear comes first, so
/// that it removes the dots that were there and not the new ones.
pub fn control_dots(sim: &mut Simulation, spawn_pressed: bool, clear_pressed: bool, visible: Rect)
    requires
        old(sim).wf(),
        visible.in_range(),
    ensures
        final(sim).wf(),
        final(sim).spec_config() == old(sim).spec_config(),
        final(sim).dots() == old(sim).dots(),
        final(sim).pending() == old(sim).pending() + key_requests(
            spawn_pressed,
            clear_pressed,
            old(sim).spec_config().boundary_rect.overlap(visible),
        ),
{
    if clear_pressed {
        sim.request_clear();
    }
    if spawn_pressed {
        let area = sim.config().boundary_rect.intersect(visible);
        sim.request_spawn(area, SPAWN_BATCH);
    }
    assert(sim.pending() =~= old(sim).pending() + key_requests(
        spawn_pressed,
        clear_pressed,
        old(sim).spec_config().boundary_rect.overlap(visible),
    ));
}

/// The requests that the keys stand for, in the order in which they are
/// made.
pub open spec fn key_requests(spawn_pressed: bool, clear_pressed: bool, area: Rect) -> Seq<Request> {
    let clear = if clear_pressed {
        seq![Request::Clear]
    } else {
        Seq::empty()
    };
    let spawn = if spawn_pressed {
        seq![Request::Spawn { area, count: SPAWN_BATCH }]
    } else {
        Seq::empty()
    };
    clear + spawn
}

} // verus!
