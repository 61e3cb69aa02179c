//! What a tick hands to whoever draws the dots.

use vstd::prelude::*;
use crate::charge::blend;
use crate::geometry::Vec2;
use crate::motion::{DotBundle, DotState};

verus! {

/// Where one dot is and the colour in which it is shown. The colour has a
/// red, a green and a blue component in millionths; nothing caps them.
#[derive(Clone, Copy, Debug, PartialEq, Eq)]
pub struct DotFrame {
    pub position: Vec2,
    pub display_color: (u128, u128, u128),
}

/// The dots of one frame, in the order of the simulation's dots.
#[derive(Debug, PartialEq, Eq)]
pub struct FrameOutput {
    pub particles: Vec<DotFrame>,
}

/// Whether a colour is the blend of a dot's channels.
pub open spec fn colors(shown: (u128, u128, u128), dot: DotState) -> bool {
    (shown.0 as int, shown.1 as int, shown.2 as int) == blend(dot.charges)
}

/// Whether the frames show the dots: as many, each at its dot's position and
/// in the blend of its dot's channels.
pub open spec fn renders(frames: Seq<DotFrame>, dots: Seq<DotState>) -> bool {
    &&& frames.len() == dots.len()
    &&& forall|i: int|
        0 <= i < frames.len() ==> (#[trigger] frames[i]).position == dots[i].position && colors(
            frames[i].display_color,
            dots[i],
        )
}

/// The colour in which each dot is shown: the sum, over its channels, of the
/// emitted level times the channel's colour.
pub fn update_colorize(dots: &Vec<DotBundle>) -> (shown: Vec<(u128, u128, u128)>)
    ensures
        shown.len() == dots.len(),
        forall|i: int| 0 <= i < shown.len() ==> colors(#[trigger] shown[i], dots[i]@),
{
    let mut shown: Vec<(u128, u128, u128)> = Vec::new();
    let mut i: usize = 0;
    while i < dots.len()
        invariant
            i <= dots.len(),
            shown.len() == i,
            forall|j: int| 0 <= j < i ==> colors(#[trigger] shown[j], dots[j]@),
        decreases dots.len() - i,
    {
        shown.push(dots[i].charges.to_rgb());
        i = i + 1;
    }
    shown
}

/// The frame that shows the given dots.
pub fn render(dots: &Vec<DotBundle>) -> (frame: FrameOutput)
    ensures
        renders(frame.particles@, dots.deep_view()),
{
    let shown = update_colorize(dots);
    let mut particles: Vec<DotFrame> = Vec::new();
    let mut i: usize = 0;
    while i < dots.len()
        invariant
            i <= dots.len(),
            particles.len() == i,
            shown.len() == dots.len(),
            forall|j: int| 0 <= j < shown.len() ==> colors(#[trigger] shown[j], dots[j]@),
            forall|j: int|
                0 <= j < i ==> (#[trigger] particles[j]).position == dots[j].position && colors(
                    particles[j].display_color,
                    dots[j]@,
                ),
        decreases dots.len() - i,
    {
        particles.push(DotFrame { position: dots[i].position, display_color: shown[i] });
        i = i + 1;
    }
    FrameOutput { particles }
}

} // verus!
