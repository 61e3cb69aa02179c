//! The charge phase of a tick: every channel advances by one step, and what
//! the channels emit in that step reaches the dots around them.

use vstd::prelude::*;
use vstd::seq_lib::lemma_flatten_concat;
use crate::charge::{Charge, Color, EmissionEvent};
use crate::config::Config;
use crate::geometry::{points_in_range, within, Vec2};
use crate::index::NNTree;
use crate::motion::{DotBundle, DotState};

verus! {

/// The events that the channels of one dot emit in a tick, in the order of
/// the channels: one for each channel that emits, with the position of the
/// dot and the colour of the channel.
pub open spec fn channel_emissions(position: Vec2, channels: Seq<Charge>, buildup_rate: u32) -> Seq<
    EmissionEvent,
> {
    channels.filter(|c: Charge| c.emits(buildup_rate)).map_values(
        |c: Charge| EmissionEvent { position, color: c.color },
    )
}

/// The events that all dots emit in a tick, in the order of the dots.
pub open spec fn emissions(dots: Seq<DotState>, buildup_rate: u32) -> Seq<EmissionEvent> {
    dots.flat_map(|d: DotState| channel_emissions(d.position, d.charges, buildup_rate))
}

/// Whether an event reaches a channel of the given colour on a dot at the
/// given position: the colours are the same and the dot lies strictly
/// closer to the event than `radius`.
pub open spec fn reaches(event: EmissionEvent, position: Vec2, color: Color, radius: int) -> bool {
    event.color == color && within(position, event.position, radius)
}

/// How many of the events reach a channel of the given colour on a dot at the
/// given position.
pub open spec fn arrivals(events: Seq<EmissionEvent>, position: Vec2, color: Color, radius: int) -> nat {
    events.filter(|e: EmissionEvent| reaches(e, position, color, radius)).len()
}

/// One more channel adds its event to those of the dot if it emits.
proof fn lemma_channel_emissions_push(position: Vec2, channels: Seq<Charge>, channel: Charge, buildup_rate: u32)
    ensures
        channel_emissions(position, channels.push(channel), buildup_rate) == if channel.emits(
            buildup_rate,
        ) {
            channel_emissions(position, channels, buildup_rate).push(
                EmissionEvent { position, color: channel.color },
            )
        } else {
            channel_emissions(position, channels, buildup_rate)
        },
{
    channels.lemma_filter_push(channel, |c: Charge| c.emits(buildup_rate));
    assert(channel_emissions(position, channels.push(channel), buildup_rate) =~= if channel.emits(
        buildup_rate,
    ) {
        channel_emissions(position, channels, buildup_rate).push(
            EmissionEvent { position, color: channel.color },
        )
    } else {
        channel_emissions(position, channels, buildup_rate)
    });
}

/// One more dot puts its events behind those of the others.
proof fn lemma_emissions_push(dots: Seq<DotState>, dot: DotState, buildup_rate: u32)
    ensures
        emissions(dots.push(dot), buildup_rate) == emissions(dots, buildup_rate) + channel_emissions(
            dot.position,
            dot.charges,
            buildup_rate,
        ),
{
    let each = |d: DotState| channel_emissions(d.position, d.charges, buildup_rate);
    let own = seq![each(dot)];
    assert(dots.push(dot).map_values(each) =~= dots.map_values(each) + own);
    lemma_flatten_concat(dots.map_values(each), own);
    own.lemma_flatten_one_element();
}

/// One more event adds one to the arrivals at a channel if it reaches it.
proof fn lemma_arrivals_push(
    events: Seq<EmissionEvent>,
    event: EmissionEvent,
    position: Vec2,
    color: Color,
    radius: int,
)
    ensures
        arrivals(events.push(event), position, color, radius) == arrivals(
            events,
            position,
            color,
            radius,
        ) + if reaches(event, position, color, radius) {
            1nat
        } else {
            0nat
        },
{
    events.lemma_filter_len_push(|e: EmissionEvent| reaches(e, position, color, radius), event);
}

impl DotState {
    /// The dot with every channel one step further.
    pub open spec fn stepped(self, buildup_rate: u32, dissipation_rate: u32) -> DotState {
        DotState {
            charges: self.charges.map_values(
                |c: Charge| c.stepped(buildup_rate, dissipation_rate),
            ),
            ..self
        }
    }

    /// The dot after one emission of the given colour has reached it: each
    /// channel of that colour has taken it in.
    pub open spec fn taking(self, color: Color, gain: u32) -> DotState {
        DotState {
            charges: self.charges.map_values(
                |c: Charge|
                    if c.color == color {
                        c.received(gain, 1)
                    } else {
                        c
                    },
            ),
            ..self
        }
    }

    /// The dot after the given events have been delivered: each channel has
    /// taken in those that reach it.
    pub open spec fn receiving(self, events: Seq<EmissionEvent>, gain: u32, radius: int) -> DotState {
        DotState {
            charges: self.charges.map_values(
                |c: Charge| c.received(gain, arrivals(events, self.position, c.color, radius)),
            ),
            ..self
        }
    }
}

/// All dots with every channel one step further.
pub open spec fn stepped_all(dots: Seq<DotState>, config: Config) -> Seq<DotState> {
    dots.map_values(|d: DotState| d.stepped(config.buildup_rate, config.dissipation_rate))
}

/// All dots after the given events have been delivered.
pub open spec fn propagated(dots: Seq<DotState>, events: Seq<EmissionEvent>, config: Config) -> Seq<
    DotState,
> {
    dots.map_values(
        |d: DotState| d.receiving(events, config.propagation_gain, config.propagation_radius as int),
    )
}

/// All dots after the charge phase of one tick: every channel steps, then
/// the events of that step are delivered. Events do not move dots, so they
/// reach the same dots whether distances are taken before or after the step.
pub open spec fn charged(dots: Seq<DotState>, config: Config) -> Seq<DotState> {
    propagated(stepped_all(dots, config), emissions(dots, config.buildup_rate), config)
}

/// The positions of the dots, in their order.
pub open spec fn positions(dots: Seq<DotState>) -> Seq<Vec2> {
    dots.map_values(|d: DotState| d.position)
}

/// Advances every channel of one dot by one step and records what it emits.
fn step_dot(dot: &mut DotBundle, config: &Config, emitted: &mut Vec<EmissionEvent>)
    ensures
        final(dot)@ == old(dot)@.stepped(config.buildup_rate, config.dissipation_rate),
        final(emitted)@ == old(emitted)@ + channel_emissions(
            old(dot).position,
            old(dot)@.charges,
            config.buildup_rate,
        ),
{
    let ghost before = dot@;
    let ghost log = emitted@;
    let mut k: usize = 0;
    proof {
        reveal(Seq::filter);
        assert(channel_emissions(before.position, before.charges.take(0), config.buildup_rate)
            =~= Seq::empty());
    }
    while k < dot.charges.0.len()
        invariant
            k <= dot.charges.0.len(),
            dot.position == before.position,
            dot.velocity.velocity == before.velocity,
            dot.charges@.len() == before.charges.len(),
            forall|c: int|
                0 <= c < k ==> #[trigger] dot.charges@[c] == before.charges[c].stepped(
                    config.buildup_rate,
                    config.dissipation_rate,
                ),
            forall|c: int| k <= c < before.charges.len() ==> #[trigger] dot.charges@[c] == before.charges[c],
            emitted@ == log + channel_emissions(
                before.position,
                before.charges.take(k as int),
                config.buildup_rate,
            ),
        decreases dot.charges.0.len() - k,
    {
        proof {
            assert(before.charges.take(k + 1) =~= before.charges.take(k as int).push(
                before.charges[k as int],
            ));
            lemma_channel_emissions_push(
                before.position,
                before.charges.take(k as int),
                before.charges[k as int],
                config.buildup_rate,
            );
        }
        let color = dot.charges.0[k].color;
        let fired = dot.charges.0[k].step(config.buildup_rate, config.dissipation_rate);
        if fired {
            emitted.push(EmissionEvent { position: dot.position, color });
        }
        k = k + 1;
        assert(emitted@ =~= log + channel_emissions(
            before.position,
            before.charges.take(k as int),
            config.buildup_rate,
        ));
    }
    assert(before.charges.take(k as int) =~= before.charges);
    assert(dot@.charges =~= before.stepped(config.buildup_rate, config.dissipation_rate).charges);
}

/// Advances every channel of every dot by one step: build-up, dissipation
/// and, where the build-up level is full, emission. Returns what was
/// emitted, dot by dot and channel by channel.
pub fn step_charges(dots: &mut Vec<DotBundle>, config: &Config) -> (emitted: Vec<EmissionEvent>)
    ensures
        final(dots).deep_view() == stepped_all(old(dots).deep_view(), *config),
        emitted@ == emissions(old(dots).deep_view(), config.buildup_rate),
{
    let ghost before = dots.deep_view();
    let mut emitted: Vec<EmissionEvent> = Vec::new();
    let mut i: usize = 0;
    assert(emissions(before.take(0), config.buildup_rate) =~= Seq::empty());
    while i < dots.len()
        invariant
            i <= dots.len(),
            dots.len() == before.len(),
            forall|j: int|
                0 <= j < i ==> (#[trigger] dots[j])@ == before[j].stepped(
                    config.buildup_rate,
                    config.dissipation_rate,
                ),
            forall|j: int| i <= j < dots.len() ==> (#[trigger] dots[j])@ == before[j],
            emitted@ == emissions(before.take(i as int), config.buildup_rate),
        decreases dots.len() - i,
    {
        proof {
            assert(before.take(i + 1) =~= before.take(i as int).push(before[i as int]));
            lemma_emissions_push(before.take(i as int), before[i as int], config.buildup_rate);
        }
        step_dot(&mut dots[i], config, &mut emitted);
        i = i + 1;
    }
    assert(before.take(i as int) =~= before);
    assert(dots.deep_view() =~= stepped_all(before, *config));
    emitted
}

/// Lets every channel of the given colour on one dot take in one emission.
fn receive_dot(dot: &mut DotBundle, color: Color, gain: u32)
    ensures
        final(dot)@ == old(dot)@.taking(color, gain),
{
    let ghost before = dot@;
    let mut k: usize = 0;
    while k < dot.charges.0.len()
        invariant
            k <= dot.charges.0.len(),
            dot.position == before.position,
            dot.velocity.velocity == before.velocity,
            dot.charges@.len() == before.charges.len(),
            forall|c: int|
                0 <= c < k ==> #[trigger] dot.charges@[c] == before.taking(color, gain).charges[c],
            forall|c: int| k <= c < before.charges.len() ==> #[trigger] dot.charges@[c] == before.charges[c],
        decreases dot.charges.0.len() - k,
    {
        if dot.charges.0[k].color == color {
            dot.charges.0[k].receive(gain);
        }
        k = k + 1;
    }
    assert(dot@.charges =~= before.taking(color, gain).charges);
}

/// Delivers one event: every dot that the index finds within reach of it
/// takes it in on the channels of its colour.
fn deliver(tree: &NNTree, dots: &mut Vec<DotBundle>, event: EmissionEvent, config: &Config)
    requires
        tree@ == positions(old(dots).deep_view()),
        event.position.in_range(),
    ensures
        final(dots).len() == old(dots).len(),
        forall|j: int|
            0 <= j < old(dots).len() ==> (#[trigger] final(dots)[j])@ == if within(
                old(dots)[j].position,
                event.position,
                config.propagation_radius as int,
            ) {
                old(dots)[j]@.taking(event.color, config.propagation_gain)
            } else {
                old(dots)[j]@
            },
{
    let ghost before = dots.deep_view();
    let receivers = tree.query_radius(event.position, config.propagation_radius);
    let mut r: usize = 0;
    while r < receivers.len()
        invariant
            r <= receivers.len(),
            dots.len() == before.len(),
            tree@ == positions(before),
            receivers@.no_duplicates(),
            forall|h: usize| #[trigger] receivers@.contains(h) ==> h < before.len(),
            forall|j: int|
                0 <= j < before.len() ==> (#[trigger] dots[j])@ == if receivers@.take(r as int).contains(
                    j as usize,
                ) {
                    before[j].taking(event.color, config.propagation_gain)
                } else {
                    before[j]
                },
        decreases receivers.len() - r,
    {
        let h = receivers[r];
        assert(receivers@.contains(h));
        assert(!receivers@.take(r as int).contains(h)) by {
            if receivers@.take(r as int).contains(h) {
                let a = choose|a: int| 0 <= a < r && receivers@.take(r as int)[a] == h;
                assert(receivers@[a] == receivers@[r as int]);
            }
        }
        receive_dot(&mut dots[h], event.color, config.propagation_gain);
        assert forall|j: int| 0 <= j < before.len() implies (#[trigger] dots[j])@ == if receivers@.take(
            r + 1,
        ).contains(j as usize) {
            before[j].taking(event.color, config.propagation_gain)
        } else {
            before[j]
        } by {
            let shorter = receivers@.take(r as int);
            let longer = receivers@.take(r + 1);
            assert(longer =~= shorter.push(h));
            if shorter.contains(j as usize) {
                let a = choose|a: int| 0 <= a < shorter.len() && shorter[a] == j as usize;
                assert(longer[a] == j as usize);
            }
            if j == h {
                assert(longer[r as int] == h);
            }
            if longer.contains(j as usize) && j != h {
                let a = choose|a: int| 0 <= a < longer.len() && longer[a] == j as usize;
                assert(shorter[a] == j as usize);
            }
        }
        r = r + 1;
    }
    assert(receivers@.take(r as int) =~= receivers@);
    assert forall|j: int| 0 <= j < before.len() implies (receivers@.contains(j as usize) <==> within(
        old(dots)[j].position,
        event.position,
        config.propagation_radius as int,
    )) by {
        assert(tree@[j] == before[j].position);
    }
}

/// One more event changes what a channel has taken in exactly where it
/// reaches the channel.
proof fn lemma_one_more_event(
    dot: DotState,
    events: Seq<EmissionEvent>,
    event: EmissionEvent,
    gain: u32,
    radius: int,
)
    ensures
        within(dot.position, event.position, radius) ==> dot.receiving(events, gain, radius).taking(
            event.color,
            gain,
        ) == dot.receiving(events.push(event), gain, radius),
        !within(dot.position, event.position, radius) ==> dot.receiving(events, gain, radius)
            == dot.receiving(events.push(event), gain, radius),
{
    let longer = events.push(event);
    let now = dot.receiving(events, gain, radius);
    let then = dot.receiving(longer, gain, radius);
    if within(dot.position, event.position, radius) {
        assert forall|c: int| 0 <= c < dot.charges.len() implies now.taking(event.color, gain).charges[c]
            == then.charges[c] by {
            let channel = dot.charges[c];
            lemma_arrivals_push(events, event, dot.position, channel.color, radius);
            channel.lemma_received_once_more(
                gain,
                arrivals(events, dot.position, channel.color, radius),
            );
        }
        assert(now.taking(event.color, gain).charges =~= then.charges);
    } else {
        assert forall|c: int| 0 <= c < dot.charges.len() implies now.charges[c] == then.charges[c] by {
            lemma_arrivals_push(events, event, dot.position, dot.charges[c].color, radius);
        }
        assert(now.charges =~= then.charges);
    }
}

/// Delivers the given events, one after the other: for each, every dot
/// strictly closer to it than the propagation radius takes it in on each
/// channel of the event's colour, the emitting dot among them. The index
/// must hold the positions of these dots.
pub fn propagate(tree: &NNTree, dots: &mut Vec<DotBundle>, events: &Vec<EmissionEvent>, config: &Config)
    requires
        tree@ == positions(old(dots).deep_view()),
        forall|e: int| 0 <= e < events.len() ==> (#[trigger] events[e]).position.in_range(),
    ensures
        final(dots).deep_view() == propagated(old(dots).deep_view(), events@, *config),
{
    let ghost before = dots.deep_view();
    let ghost gain = config.propagation_gain;
    let ghost radius = config.propagation_radius as int;
    let mut e: usize = 0;
    assert forall|j: int| 0 <= j < before.len() implies before[j] == before[j].receiving(
        events@.take(0),
        gain,
        radius,
    ) by {
        reveal(Seq::filter);
        assert(before[j].charges =~= before[j].receiving(events@.take(0), gain, radius).charges);
    }
    while e < events.len()
        invariant
            e <= events.len(),
            dots.len() == before.len(),
            gain == config.propagation_gain,
            radius == config.propagation_radius as int,
            tree@ == positions(before),
            forall|e: int| 0 <= e < events.len() ==> (#[trigger] events[e]).position.in_range(),
            forall|j: int|
                0 <= j < before.len() ==> (#[trigger] dots[j])@ == before[j].receiving(
                    events@.take(e as int),
                    gain,
                    radius,
                ),
        decreases events.len() - e,
    {
        assert(positions(dots.deep_view()) =~= positions(before));
        let ghost earlier = dots.deep_view();
        deliver(tree, dots, events[e], config);
        proof {
            assert(events@.take(e + 1) =~= events@.take(e as int).push(events[e as int]));
            assert forall|j: int| 0 <= j < before.len() implies (#[trigger] dots[j])@ == before[j].receiving(
                events@.take(e + 1),
                gain,
                radius,
            ) by {
                lemma_one_more_event(before[j], events@.take(e as int), events[e as int], gain, radius);
                assert(earlier[j] == before[j].receiving(events@.take(e as int), gain, radius));
            }
        }
        e = e + 1;
    }
    assert(events@.take(e as int) =~= events@);
    assert(dots.deep_view() =~= propagated(before, events@, *config));
}

/// The charge phase of a tick. Every channel of every dot builds up and
/// dissipates by the configured rates and emits where its build-up level is
/// full. Then every emission reaches the dots that the index finds strictly
/// closer to the emitting dot than the propagation radius, and each channel
/// of the emitted colour on them gains the propagation gain, up to a full
/// charge. The index must hold the positions of these dots.
pub fn update_charge(tree: &NNTree, dots: &mut Vec<DotBundle>, config: &Config)
    requires
        tree@ == positions(old(dots).deep_view()),
        points_in_range(tree@),
    ensures
        final(dots).deep_view() == charged(old(dots).deep_view(), *config),
{
    let ghost before = dots.deep_view();
    let emitted = step_charges(dots, config);
    proof {
        assert(positions(dots.deep_view()) =~= positions(before));
        lemma_emissions(before, config.buildup_rate);
        assert forall|e: int| 0 <= e < emitted.len() implies (#[trigger] emitted[e]).position.in_range() by {
            assert(emitted@.contains(emitted[e]));
            let i = choose|i: int|
                0 <= i < before.len() && dot_emits(
                    (#[trigger] before[i]).position,
                    before[i].charges,
                    config.buildup_rate,
                    emitted[e],
                );
            assert(tree@[i] == before[i].position);
        }
    }
    propagate(tree, dots, &emitted, config);
}

/// The positions of the dots, in their order.
pub fn positions_of(dots: &Vec<DotBundle>) -> (found: Vec<Vec2>)
    ensures
        found@ == positions(dots.deep_view()),
{
    let mut found: Vec<Vec2> = Vec::new();
    let mut i: usize = 0;
    while i < dots.len()
        invariant
            i <= dots.len(),
            found.len() == i,
            forall|j: int| 0 <= j < i ==> #[trigger] found[j] == dots[j].position,
        decreases dots.len() - i,
    {
        found.push(dots[i].position);
        i = i + 1;
    }
    assert(found@ =~= positions(dots.deep_view()));
    found
}

/// The charge phase moves no dot and leaves no channel out: the dots keep
/// their number, their positions and velocities, and each its number of
/// channels and their colours.
pub proof fn lemma_charged_keeps_shape(dots: Seq<DotState>, config: Config)
    ensures
        charged(dots, config).len() == dots.len(),
        forall|i: int|
            0 <= i < dots.len() ==> {
                let after = #[trigger] charged(dots, config)[i];
                &&& after.position == dots[i].position
                &&& after.velocity == dots[i].velocity
                &&& after.charges.len() == dots[i].charges.len()
                &&& forall|c: int|
                    0 <= c < dots[i].charges.len() ==> (#[trigger] after.charges[c]).color
                        == dots[i].charges[c].color
            },
{
}

/// After the charge phase every channel has its build-up level between
/// nothing and a full charge and its emitted level between the floor and a
/// full charge, whatever the levels were before.
pub proof fn lemma_charged_is_settled(dots: Seq<DotState>, config: Config)
    ensures
        forall|i: int, c: int|
            0 <= i < dots.len() && 0 <= c < dots[i].charges.len() ==> (#[trigger] charged(
                dots,
                config,
            )[i].charges[c]).settled(),
{
}

/// Events reach a channel exactly when one of them does: the count is
/// above zero if and only if some event has the channel's colour and lies
/// within the radius of the dot.
pub proof fn lemma_arrivals(events: Seq<EmissionEvent>, position: Vec2, color: Color, radius: int)
    ensures
        arrivals(events, position, color, radius) <= events.len(),
        arrivals(events, position, color, radius) > 0 <==> exists|e: int|
            0 <= e < events.len() && reaches(#[trigger] events[e], position, color, radius),
{
    let reaching = |e: EmissionEvent| reaches(e, position, color, radius);
    let reached = events.filter(reaching);
    events.lemma_filter_len(reaching);
    if reached.len() > 0 {
        events.lemma_filter_pred(reaching, 0);
        assert(reached.contains(reached[0]));
        events.lemma_filter_contains_rev(reaching, reached[0]);
        let e = choose|e: int| 0 <= e < events.len() && events[e] == reached[0];
        assert(reaches(events[e], position, color, radius));
    }
    if exists|e: int| 0 <= e < events.len() && reaches(#[trigger] events[e], position, color, radius) {
        let e = choose|e: int|
            0 <= e < events.len() && reaches(#[trigger] events[e], position, color, radius);
        events.lemma_filter_contains(reaching, e);
    }
}

/// Whether a dot at `position` with these channels emits the event: the
/// event has the dot's position and the colour of a channel that emits.
pub open spec fn dot_emits(position: Vec2, channels: Seq<Charge>, buildup_rate: u32, event: EmissionEvent) -> bool {
    event.position == position && exists|c: int|
        0 <= c < channels.len() && (#[trigger] channels[c]).emits(buildup_rate) && channels[c].color
            == event.color
}

/// Whether one of the dots emits the event.
pub open spec fn emitted_by(dots: Seq<DotState>, buildup_rate: u32, event: EmissionEvent) -> bool {
    exists|j: int|
        0 <= j < dots.len() && dot_emits((#[trigger] dots[j]).position, dots[j].charges, buildup_rate, event)
}

/// The events of one dot are those of its channels that emit, and no
/// others.
pub proof fn lemma_channel_emissions(position: Vec2, channels: Seq<Charge>, buildup_rate: u32)
    ensures
        forall|event: EmissionEvent| #[trigger]
            channel_emissions(position, channels, buildup_rate).contains(event) <==> dot_emits(
                position,
                channels,
                buildup_rate,
                event,
            ),
{
    let emitting = |c: Charge| c.emits(buildup_rate);
    let sending = channels.filter(emitting);
    let all = channel_emissions(position, channels, buildup_rate);
    assert forall|event: EmissionEvent| #[trigger] all.contains(event) implies dot_emits(
        position,
        channels,
        buildup_rate,
        event,
    ) by {
        let e = choose|e: int| 0 <= e < all.len() && all[e] == event;
        channels.lemma_filter_pred(emitting, e);
        assert(sending.contains(sending[e]));
        channels.lemma_filter_contains_rev(emitting, sending[e]);
        let c = choose|c: int| 0 <= c < channels.len() && channels[c] == sending[e];
        assert(channels[c].emits(buildup_rate) && channels[c].color == event.color);
    }
    assert forall|event: EmissionEvent|
        dot_emits(position, channels, buildup_rate, event) implies #[trigger] all.contains(event) by {
        let c = choose|c: int|
            0 <= c < channels.len() && (#[trigger] channels[c]).emits(buildup_rate) && channels[c].color
                == event.color;
        channels.lemma_filter_contains(emitting, c);
        let e = choose|e: int| 0 <= e < sending.len() && sending[e] == channels[c];
        assert(all[e] == event);
    }
}

/// The events of a tick are those of the channels that emit, and no others.
pub proof fn lemma_emissions(dots: Seq<DotState>, buildup_rate: u32)
    ensures
        forall|event: EmissionEvent| #[trigger]
            emissions(dots, buildup_rate).contains(event) <==> emitted_by(dots, buildup_rate, event),
    decreases dots.len(),
{
    let all = emissions(dots, buildup_rate);
    if dots.len() == 0 {
        assert(all =~= Seq::empty());
    } else {
        let earlier = dots.drop_last();
        let last = dots.last();
        let top = dots.len() - 1;
        let sooner = emissions(earlier, buildup_rate);
        let own = channel_emissions(last.position, last.charges, buildup_rate);
        assert(dots =~= earlier.push(last));
        lemma_emissions_push(earlier, last, buildup_rate);
        lemma_emissions(earlier, buildup_rate);
        lemma_channel_emissions(last.position, last.charges, buildup_rate);
        assert forall|event: EmissionEvent| #[trigger] all.contains(event) implies emitted_by(
            dots,
            buildup_rate,
            event,
        ) by {
            let e = choose|e: int| 0 <= e < all.len() && all[e] == event;
            if e < sooner.len() {
                assert(sooner[e] == event);
                assert(sooner.contains(event));
                let j = choose|j: int|
                    0 <= j < earlier.len() && dot_emits(
                        (#[trigger] earlier[j]).position,
                        earlier[j].charges,
                        buildup_rate,
                        event,
                    );
                assert(dot_emits(dots[j].position, dots[j].charges, buildup_rate, event));
            } else {
                assert(own[e - sooner.len()] == event);
                assert(own.contains(event));
                assert(dot_emits(dots[top].position, dots[top].charges, buildup_rate, event));
            }
        }
        assert forall|event: EmissionEvent|
            emitted_by(dots, buildup_rate, event) implies #[trigger] all.contains(event) by {
            let j = choose|j: int|
                0 <= j < dots.len() && dot_emits(
                    (#[trigger] dots[j]).position,
                    dots[j].charges,
                    buildup_rate,
                    event,
                );
            if j < top {
                assert(dot_emits(earlier[j].position, earlier[j].charges, buildup_rate, event));
                assert(sooner.contains(event));
                let e = choose|e: int| 0 <= e < sooner.len() && sooner[e] == event;
                assert(all[e] == event);
            } else {
                assert(own.contains(event));
                let e = choose|e: int| 0 <= e < own.len() && own[e] == event;
                assert(all[sooner.len() + e] == event);
            }
        }
    }
}

/// Whether some channel among the dots emits in this tick with the given
/// colour, from a dot strictly closer to `position` than the propagation
/// radius.
pub open spec fn emission_in_reach(dots: Seq<DotState>, config: Config, position: Vec2, color: Color) -> bool {
    exists|event: EmissionEvent|
        emitted_by(dots, config.buildup_rate, event) && #[trigger] reaches(
            event,
            position,
            color,
            config.propagation_radius as int,
        )
}

/// Propagation reaches all and only the channels in reach of an emission of
/// their colour. A channel with no such emission in reach comes out of the
/// charge phase as its own step leaves it. A channel with one in reach
/// comes out with the propagation gain added to its build-up level once for
/// every such emission, up to a full charge; its emitted level is that of
/// its own step.
pub proof fn lemma_propagation_reach(dots: Seq<DotState>, config: Config, i: int, c: int)
    requires
        0 <= i < dots.len(),
        0 <= c < dots[i].charges.len(),
    ensures
        ({
            let channel = dots[i].charges[c];
            let stepped = channel.stepped(config.buildup_rate, config.dissipation_rate);
            let after = charged(dots, config)[i].charges[c];
            let count = arrivals(
                emissions(dots, config.buildup_rate),
                dots[i].position,
                channel.color,
                config.propagation_radius as int,
            );
            &&& after == stepped.received(config.propagation_gain, count)
            &&& count > 0 <==> emission_in_reach(dots, config, dots[i].position, channel.color)
            &&& count == 0 ==> after == stepped
            &&& after.outer == stepped.outer
            &&& after.inner >= stepped.inner
        }),
{
    let channel = dots[i].charges[c];
    let events = emissions(dots, config.buildup_rate);
    let radius = config.propagation_radius as int;
    let count = arrivals(events, dots[i].position, channel.color, radius);
    lemma_arrivals(events, dots[i].position, channel.color, radius);
    lemma_emissions(dots, config.buildup_rate);
    if count > 0 {
        let e = choose|e: int|
            0 <= e < events.len() && reaches(#[trigger] events[e], dots[i].position, channel.color, radius);
        assert(events.contains(events[e]));
    }
    if emission_in_reach(dots, config, dots[i].position, channel.color) {
        let event = choose|event: EmissionEvent|
            emitted_by(dots, config.buildup_rate, event) && #[trigger] reaches(
                event,
                dots[i].position,
                channel.color,
                radius,
            );
        assert(events.contains(event));
        let e = choose|e: int| 0 <= e < events.len() && events[e] == event;
        assert(reaches(events[e], dots[i].position, channel.color, radius));
    }
    assert(config.propagation_gain * count >= 0) by (nonlinear_arith)
        requires
            config.propagation_gain >= 0,
            count >= 0,
    ;
}

/// The number of arrivals does not depend on the order of the events: two
/// sequences that hold the same events equally often give the same count.
pub proof fn lemma_arrivals_order_free(
    first: Seq<EmissionEvent>,
    second: Seq<EmissionEvent>,
    position: Vec2,
    color: Color,
    radius: int,
)
    requires
        first.to_multiset() == second.to_multiset(),
    ensures
        arrivals(first, position, color, radius) == arrivals(second, position, color, radius),
    decreases first.len(),
{
    let reaching = |e: EmissionEvent| reaches(e, position, color, radius);
    first.to_multiset_ensures();
    second.to_multiset_ensures();
    if first.len() == 0 {
        assert(second.len() == 0);
        assert(first =~= second);
    } else {
        let last = first.last();
        let rest = first.drop_last();
        assert(first.contains(last));
        assert(first.to_multiset().count(last) > 0);
        assert(second.to_multiset().count(last) > 0);
        assert(second.contains(last));
        let j = choose|j: int| 0 <= j < second.len() && second[j] == last;
        let others = second.remove(j);
        assert(rest =~= first.remove(first.len() - 1));
        assert(rest.to_multiset() =~= others.to_multiset());
        lemma_arrivals_order_free(rest, others, position, color, radius);
        assert(first =~= rest.push(last));
        lemma_arrivals_push(rest, last, position, color, radius);
        let front = second.take(j);
        let back = second.skip(j + 1);
        assert(second =~= front.push(last) + back);
        assert(others =~= front + back);
        Seq::filter_distributes_over_add(front.push(last), back, reaching);
        Seq::filter_distributes_over_add(front, back, reaching);
        front.lemma_filter_len_push(reaching, last);
    }
}

/// Propagation does not depend on the order in which the events are
/// delivered.
pub proof fn lemma_propagation_order_free(
    dots: Seq<DotState>,
    first: Seq<EmissionEvent>,
    second: Seq<EmissionEvent>,
    config: Config,
)
    requires
        first.to_multiset() == second.to_multiset(),
    ensures
        propagated(dots, first, config) == propagated(dots, second, config),
{
    let radius = config.propagation_radius as int;
    assert forall|i: int| 0 <= i < dots.len() implies propagated(dots, first, config)[i] == propagated(
        dots,
        second,
        config,
    )[i] by {
        let dot = dots[i];
        assert forall|c: int| 0 <= c < dot.charges.len() implies dot.receiving(
            first,
            config.propagation_gain,
            radius,
        ).charges[c] == dot.receiving(second, config.propagation_gain, radius).charges[c] by {
            lemma_arrivals_order_free(first, second, dot.position, dot.charges[c].color, radius);
        }
        assert(dot.receiving(first, config.propagation_gain, radius).charges =~= dot.receiving(
            second,
            config.propagation_gain,
            radius,
        ).charges);
    }
    assert(propagated(dots, first, config) =~= propagated(dots, second, config));
}

} // verus!
