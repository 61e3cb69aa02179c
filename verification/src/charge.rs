//! The charge carried by one dot: a build-up level and an emitted level per
//! colour channel, and the rule that advances a channel by one tick.

use vstd::prelude::*;

verus! {

/// A full charge: the fixed-point representation of the level 1.
pub const CHARGE_MAX: u32 = 1_000_000;

/// The level below which an emitted charge never dissipates.
pub const OUTER_MIN: u32 = 10_000;

/// `x` bounded below by `lo` and above by `hi`.
pub open spec fn clamp_int(x: int, lo: int, hi: int) -> int {
    if x < lo {
        lo
    } else if x > hi {
        hi
    } else {
        x
    }
}

/// The product of two fixed-point levels, rounded down.
pub open spec fn level_product(a: int, b: int) -> int {
    a * b / (CHARGE_MAX as int)
}

/// Calls `num::clamp` on 64-bit integers. For bounds in order it returns the
/// lower bound for an input below it, the upper bound for an input above it,
/// and the input itself otherwise.
#[verifier::external_body]
fn clamp(input: i64, min: i64, max: i64) -> (bounded: i64)
    requires
        min <= max,
    ensures
        bounded == clamp_int(input as int, min as int, max as int),
{
    num::clamp(input, min, max)
}

/// The colour of a channel: how much it adds to each of red, green and blue
/// when shown, and the tag by which an emission finds its receivers.
#[derive(Clone, Copy, Debug, PartialEq, Eq, Structural)]
pub struct Color {
    pub r: u32,
    pub g: u32,
    pub b: u32,
}

impl Color {
    /// Pure red.
    pub open spec fn spec_red() -> Color {
        Color { r: CHARGE_MAX, g: 0, b: 0 }
    }

    /// Pure green.
    pub open spec fn spec_green() -> Color {
        Color { r: 0, g: CHARGE_MAX, b: 0 }
    }

    /// Pure blue.
    pub open spec fn spec_blue() -> Color {
        Color { r: 0, g: 0, b: CHARGE_MAX }
    }

    /// Pure red.
    #[verifier::when_used_as_spec(spec_red)]
    pub fn red() -> (c: Color)
        ensures
            c == Color::spec_red(),
    {
        Color { r: CHARGE_MAX, g: 0, b: 0 }
    }

    /// Pure green.
    #[verifier::when_used_as_spec(spec_green)]
    pub fn green() -> (c: Color)
        ensures
            c == Color::spec_green(),
    {
        Color { r: 0, g: CHARGE_MAX, b: 0 }
    }

    /// Pure blue.
    #[verifier::when_used_as_spec(spec_blue)]
    pub fn blue() -> (c: Color)
        ensures
            c == Color::spec_blue(),
    {
        Color { r: 0, g: 0, b: CHARGE_MAX }
    }
}

/// One colour channel of a dot. `inner` builds up tick by tick; when it is
/// full the channel emits: `outer` jumps to the full level and from then on
/// dissipates, and `inner` starts again from nothing.
#[derive(Clone, Copy, Debug, PartialEq, Eq, Structural)]
pub struct Charge {
    pub inner: u32,
    pub outer: u32,
    pub color: Color,
}

impl Charge {
    /// Both levels lie in the ranges that every update leaves them in.
    pub open spec fn settled(self) -> bool {
        self.inner <= CHARGE_MAX && OUTER_MIN <= self.outer <= CHARGE_MAX
    }

    /// The build-up level after one tick of accumulation.
    pub open spec fn built_up(self, buildup_rate: u32) -> u32 {
        clamp_int(self.inner + buildup_rate, 0, CHARGE_MAX as int) as u32
    }

    /// The emitted level after one tick of dissipation.
    pub open spec fn dissipated(self, dissipation_rate: u32) -> u32 {
        clamp_int(self.outer - dissipation_rate, OUTER_MIN as int, CHARGE_MAX as int) as u32
    }

    /// Whether the channel emits in the tick that starts from this state.
    pub open spec fn emits(self, buildup_rate: u32) -> bool {
        self.built_up(buildup_rate) >= CHARGE_MAX
    }

    /// The channel one tick later, before anything reaches it from outside.
    pub open spec fn stepped(self, buildup_rate: u32, dissipation_rate: u32) -> Charge {
        if self.emits(buildup_rate) {
            Charge { inner: 0, outer: self.built_up(buildup_rate), color: self.color }
        } else {
            Charge {
                inner: self.built_up(buildup_rate),
                outer: self.dissipated(dissipation_rate),
                color: self.color,
            }
        }
    }

    /// The channel after `times` emissions of its colour have reached it, each
    /// adding `gain` to the build-up level without taking it over the top.
    pub open spec fn received(self, gain: u32, times: nat) -> Charge {
        if times == 0 {
            self
        } else {
            Charge {
                inner: clamp_int(self.inner + gain * times, 0, CHARGE_MAX as int) as u32,
                outer: self.outer,
                color: self.color,
            }
        }
    }

    /// Taking in one more emission after `times` of them comes to the same as
    /// taking in `times + 1` at once: the order in which emissions arrive
    /// does not matter.
    pub proof fn lemma_received_once_more(self, gain: u32, times: nat)
        ensures
            self.received(gain, times).received(gain, 1) == self.received(gain, times + 1),
    {
        assert(gain * (times + 1) == gain * times + gain) by (nonlinear_arith);
        assert(gain * times >= 0) by (nonlinear_arith);
        assert(gain * 1 == gain) by (nonlinear_arith);
    }

    /// A channel whose build-up level is exactly full emits in the next step,
    /// whatever its emitted level and whatever the rates: the step leaves it
    /// with nothing built up and a full emitted level.
    pub proof fn lemma_full_channel_emits(self, buildup_rate: u32, dissipation_rate: u32)
        requires
            self.inner == CHARGE_MAX,
        ensures
            self.emits(buildup_rate),
            self.stepped(buildup_rate, dissipation_rate) == (Charge {
                inner: 0,
                outer: CHARGE_MAX,
                color: self.color,
            }),
    {
    }

    /// One step puts both levels into their ranges, whatever they were, and
    /// taking in emissions keeps them there.
    pub proof fn lemma_step_settles(self, buildup_rate: u32, dissipation_rate: u32, gain: u32, times: nat)
        ensures
            self.stepped(buildup_rate, dissipation_rate).settled(),
            self.stepped(buildup_rate, dissipation_rate).received(gain, times).settled(),
            self.settled() ==> self.received(gain, times).settled(),
    {
    }

    /// Advances the channel by one tick: build-up, then dissipation, then,
    /// if the build-up level is full, emission. Returns whether it emitted.
    pub fn step(&mut self, buildup_rate: u32, dissipation_rate: u32) -> (emitted: bool)
        ensures
            *final(self) == old(self).stepped(buildup_rate, dissipation_rate),
            emitted == old(self).emits(buildup_rate),
            final(self).settled(),
            emitted ==> final(self).inner == 0 && final(self).outer == CHARGE_MAX,
    {
        let inner: i64 = clamp(self.inner as i64 + buildup_rate as i64, 0, CHARGE_MAX as i64);
        let outer: i64 = clamp(
            self.outer as i64 - dissipation_rate as i64,
            OUTER_MIN as i64,
            CHARGE_MAX as i64,
        );
        self.inner = inner as u32;
        self.outer = outer as u32;
        if self.inner < CHARGE_MAX {
            return false;
        }
        self.outer = self.inner;
        self.inner = 0;
        true
    }

    /// Takes in one emission of this channel's colour.
    pub fn receive(&mut self, gain: u32)
        ensures
            *final(self) == old(self).received(gain, 1),
            final(self).inner <= CHARGE_MAX,
            old(self).settled() ==> final(self).settled(),
    {
        let inner: i64 = clamp(self.inner as i64 + gain as i64, 0, CHARGE_MAX as i64);
        self.inner = inner as u32;
    }
}

/// What one channel adds to the red, green and blue of its dot when shown:
/// its emitted level times each component of its colour.
pub open spec fn shade(channel: Charge) -> (int, int, int) {
    (
        level_product(channel.outer as int, channel.color.r as int),
        level_product(channel.outer as int, channel.color.g as int),
        level_product(channel.outer as int, channel.color.b as int),
    )
}

/// The colour in which a dot with these channels is shown: the sum of what
/// its channels add, component by component. Nothing caps the sum.
pub open spec fn blend(channels: Seq<Charge>) -> (int, int, int)
    decreases channels.len(),
{
    if channels.len() == 0 {
        (0, 0, 0)
    } else {
        let rest = blend(channels.drop_last());
        let top = shade(channels.last());
        (rest.0 + top.0, rest.1 + top.1, rest.2 + top.2)
    }
}

/// The three channels that `Charges::rgb` makes from three build-up levels.
pub open spec fn rgb_channels(levels: (u32, u32, u32)) -> Seq<Charge> {
    seq![
        Charge { inner: levels.0, outer: 0, color: Color::spec_red() },
        Charge { inner: levels.1, outer: 0, color: Color::spec_green() },
        Charge { inner: levels.2, outer: 0, color: Color::spec_blue() },
    ]
}

/// The channels of one dot, in a fixed order.
#[derive(Debug)]
pub struct Charges(pub Vec<Charge>);

impl View for Charges {
    type V = Seq<Charge>;

    open spec fn view(&self) -> Seq<Charge> {
        self.0@
    }
}

impl Charges {
    /// A red, a green and a blue channel with the given build-up levels and
    /// nothing emitted yet.
    pub fn rgb(levels: (u32, u32, u32)) -> (charges: Charges)
        ensures
            charges@ == rgb_channels(levels),
    {
        let (r, g, b) = levels;
        let charges = Charges(
            vec![
                Charge { inner: r, outer: 0, color: Color::red() },
                Charge { inner: g, outer: 0, color: Color::green() },
                Charge { inner: b, outer: 0, color: Color::blue() },
            ],
        );
        assert(charges@ =~= rgb_channels(levels));
        charges
    }

    /// The colour in which the dot is shown.
    pub fn to_rgb(&self) -> (shown: (u128, u128, u128))
        ensures
            (shown.0 as int, shown.1 as int, shown.2 as int) == blend(self@),
    {
        let mut r: u128 = 0;
        let mut g: u128 = 0;
        let mut b: u128 = 0;
        let mut i: usize = 0;
        while i < self.0.len()
            invariant
                i <= self.0.len(),
                (r as int, g as int, b as int) == blend(self@.take(i as int)),
                r <= i * 0xFFFF_FFFF_FFFF_FFFF,
                g <= i * 0xFFFF_FFFF_FFFF_FFFF,
                b <= i * 0xFFFF_FFFF_FFFF_FFFF,
            decreases self.0.len() - i,
        {
            let channel = self.0[i];
            let outer: u64 = channel.outer as u64;
            proof {
                lemma_level_product_bound(channel.outer, channel.color.r);
                lemma_level_product_bound(channel.outer, channel.color.g);
                lemma_level_product_bound(channel.outer, channel.color.b);
                assert((i + 1) * 0xFFFF_FFFF_FFFF_FFFF <= 0xFFFF_FFFF_FFFF_FFFF
                    * 0xFFFF_FFFF_FFFF_FFFF) by (nonlinear_arith)
                    requires
                        i + 1 <= 0xFFFF_FFFF_FFFF_FFFF,
                ;
                assert((i + 1) * 0xFFFF_FFFF_FFFF_FFFF == i * 0xFFFF_FFFF_FFFF_FFFF
                    + 0xFFFF_FFFF_FFFF_FFFF) by (nonlinear_arith);
                assert(self@.take(i + 1).drop_last() =~= self@.take(i as int));
            }
            r = r + (outer * (channel.color.r as u64) / (CHARGE_MAX as u64)) as u128;
            g = g + (outer * (channel.color.g as u64) / (CHARGE_MAX as u64)) as u128;
            b = b + (outer * (channel.color.b as u64) / (CHARGE_MAX as u64)) as u128;
            i = i + 1;
        }
        assert(self@.take(i as int) =~= self@);
        (r, g, b)
    }
}

/// The product of two levels fits in 64 bits, and so does what it comes to
/// in fixed point.
proof fn lemma_level_product_bound(a: u32, b: u32)
    ensures
        0 <= a * b <= 0xFFFF_FFFF_FFFF_FFFF,
        0 <= level_product(a as int, b as int) <= 0xFFFF_FFFF_FFFF_FFFF,
        level_product(a as int, b as int) == (a * b) as u64 / (CHARGE_MAX as u64),
{
    assert(0 <= a * b <= 0xFFFF_FFFF * 0xFFFF_FFFF) by (nonlinear_arith)
        requires
            0 <= a <= 0xFFFF_FFFF,
            0 <= b <= 0xFFFF_FFFF,
    ;
    let p: int = a * b;
    assert(0 <= p / 1_000_000 <= p) by (nonlinear_arith)
        requires
            0 <= p,
    ;
}

/// What a channel sends out when it emits: where it was and which colour.
#[derive(Clone, Copy, Debug, PartialEq, Eq, Structural)]
pub struct EmissionEvent {
    pub position: crate::geometry::Vec2,
    pub color: Color,
}

} // verus!
