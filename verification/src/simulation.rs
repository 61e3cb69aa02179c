//! The simulation as a whole: the dots, the requests that wait for the next
//! tick, and the tick itself.

use vstd::prelude::*;
use rand::rngs::StdRng;
use crate::config::Config;
use crate::geometry::Rect;
use crate::index::NNTree;
use crate::motion::{
    all_inside, bounced_all, moved_all, update_border, update_velocity, Border, DotBundle, DotState,
};
use crate::population::{allowance, seeded, spawn_allowance, spawn_particles, spawned_in};
use crate::render::{render, renders, FrameOutput};
use crate::update::{
    charged, lemma_charged_is_settled, lemma_charged_keeps_shape, positions_of, update_charge,
};

verus! {

/// A change to the set of dots that waits for the next tick.
#[derive(Clone, Copy, Debug, PartialEq, Eq, Structural)]
pub enum Request {
    /// Spawn `count` dots inside `area`, as far as the limit allows.
    Spawn { area: Rect, count: usize },
    /// Remove every dot.
    Clear,
}

/// Whether a request can be carried out: the area of a spawn lies within
/// `COORD_MAX` of the origin.
pub open spec fn request_in_range(request: Request) -> bool {
    match request {
        Request::Spawn { area, count } => area.in_range(),
        Request::Clear => true,
    }
}

/// Whether `after` may be what one request makes of the dots `before`. A
/// clear leaves none. A spawn keeps all, in place, and puts behind them as
/// many new ones as the limit allows, each spawned in the area.
pub open spec fn applied(before: Seq<DotState>, request: Request, limit: int, after: Seq<DotState>) -> bool {
    match request {
        Request::Clear => after.len() == 0,
        Request::Spawn { area, count } => {
            &&& after.len() == before.len() + allowance(before.len() as int, count as int, limit)
            &&& after.take(before.len() as int) == before
            &&& forall|i: int| before.len() <= i < after.len() ==> spawned_in(area, #[trigger] after[i])
        },
    }
}

/// Whether `after` may be what the requests, carried out in order, make of
/// the dots `before`.
pub open spec fn populated(
    before: Seq<DotState>,
    requests: Seq<Request>,
    limit: int,
    after: Seq<DotState>,
) -> bool
    decreases requests.len(),
{
    if requests.len() == 0 {
        after == before
    } else {
        exists|mid: Seq<DotState>|
            populated(before, requests.drop_last(), limit, mid) && applied(
                mid,
                requests.last(),
                limit,
                after,
            )
    }
}

/// The number of dots after the requests have been carried out in order on
/// `live` dots.
pub open spec fn population_after(live: int, requests: Seq<Request>, limit: int) -> int
    decreases requests.len(),
{
    if requests.len() == 0 {
        live
    } else {
        let mid = population_after(live, requests.drop_last(), limit);
        match requests.last() {
            Request::Clear => 0,
            Request::Spawn { area, count } => mid + allowance(mid, count as int, limit),
        }
    }
}

/// The dots one tick later, the set of dots being settled: they move, the
/// boundary turns them back, and then they charge and emit, with distances
/// taken between the positions they have come to.
pub open spec fn frame_step(dots: Seq<DotState>, config: Config) -> Seq<DotState> {
    charged(bounced_all(moved_all(dots), config.boundary_rect), config)
}

/// Every dot lies within `COORD_MAX` of the origin and moves by no more than
/// that per tick.
pub open spec fn all_in_range(dots: Seq<DotState>) -> bool {
    forall|i: int| 0 <= i < dots.len() ==> (#[trigger] dots[i]).in_range()
}

/// Every channel of every dot has its levels in the ranges that an update
/// leaves them in.
pub open spec fn all_settled(dots: Seq<DotState>) -> bool {
    forall|i: int, c: int|
        0 <= i < dots.len() && 0 <= c < dots[i].charges.len() ==> (#[trigger] dots[i].charges[c]).settled()
}

/// The dots after the given number of ticks in which no request waits.
pub open spec fn after_ticks(dots: Seq<DotState>, config: Config, ticks: nat) -> Seq<DotState>
    decreases ticks,
{
    if ticks == 0 {
        dots
    } else {
        frame_step(after_ticks(dots, config, (ticks - 1) as nat), config)
    }
}

/// After a tick every channel of every dot has its levels in their ranges,
/// and every dot lies inside the boundary, whatever the dots were before.
pub proof fn lemma_frame_step_invariants(dots: Seq<DotState>, config: Config)
    ensures
        frame_step(dots, config).len() == dots.len(),
        all_settled(frame_step(dots, config)),
        config.boundary_rect.ordered() ==> all_inside(frame_step(dots, config), config.boundary_rect),
{
    let bounced = bounced_all(moved_all(dots), config.boundary_rect);
    lemma_charged_keeps_shape(bounced, config);
    lemma_charged_is_settled(bounced, config);
}

/// After any number of ticks, one at least, every channel of every dot has
/// its levels in their ranges, and every dot lies inside the boundary.
pub proof fn lemma_ticks_keep_invariants(dots: Seq<DotState>, config: Config, ticks: nat)
    requires
        ticks >= 1,
    ensures
        after_ticks(dots, config, ticks).len() == dots.len(),
        all_settled(after_ticks(dots, config, ticks)),
        config.boundary_rect.ordered() ==> all_inside(
            after_ticks(dots, config, ticks),
            config.boundary_rect,
        ),
    decreases ticks,
{
    let earlier = after_ticks(dots, config, (ticks - 1) as nat);
    lemma_frame_step_invariants(earlier, config);
    if ticks > 1 {
        lemma_ticks_keep_invariants(dots, config, (ticks - 1) as nat);
    }
}

/// A playfield with its dots, the requests that wait for the next tick, and
/// the source of the random draws for spawning.
pub struct Simulation {
    config: Config,
    dots: Vec<DotBundle>,
    pending: Vec<Request>,
    rng: StdRng,
}

impl Simulation {
    /// What the simulation was set up with.
    pub closed spec fn spec_config(&self) -> Config {
        self.config
    }

    /// The dots, in the order in which frames show them.
    pub closed spec fn dots(&self) -> Seq<DotState> {
        self.dots.deep_view()
    }

    /// The requests that wait for the next tick, oldest first.
    pub closed spec fn pending(&self) -> Seq<Request> {
        self.pending@
    }

    /// The configuration is well-formed, there are no more dots than it
    /// allows, and every dot and every waiting request is in range.
    pub open spec fn wf(&self) -> bool {
        &&& self.spec_config().wf()
        &&& self.dots().len() <= self.spec_config().max_population
        &&& all_in_range(self.dots())
        &&& forall|r: int| 0 <= r < self.pending().len() ==> request_in_range(#[trigger] self.pending()[r])
    }

    /// Requests in range stay in range when at most one in range is put
    /// behind them.
    proof fn lemma_requests_in_range(&self, before: Simulation)
        requires
            before.wf(),
            self.pending() == before.pending() || (self.pending().len() > 0 && self.pending().drop_last()
                == before.pending() && request_in_range(self.pending().last())),
        ensures
            forall|r: int| 0 <= r < self.pending().len() ==> request_in_range(#[trigger] self.pending()[r]),
    {
        assert forall|r: int| 0 <= r < self.pending().len() implies request_in_range(
            #[trigger] self.pending()[r],
        ) by {
            if r < before.pending().len() {
                assert(self.pending()[r] == before.pending()[r]);
            }
        }
    }

    /// An empty playfield. The seed fixes the random draws of all spawning to
    /// come.
    pub fn new(config: Config, seed: u64) -> (sim: Simulation)
        requires
            config.wf(),
        ensures
            sim.wf(),
            sim.spec_config() == config,
            sim.dots().len() == 0,
            sim.pending().len() == 0,
    {
        Simulation { config, dots: Vec::new(), pending: Vec::new(), rng: seeded(seed) }
    }

    /// Such a playfield with the given dots on it, if it can hold them: the
    /// configuration is well-formed, the dots are no more than it allows, and
    /// each lies within `COORD_MAX` of the origin and moves by no more than
    /// that per tick.
    pub fn with_dots(config: Config, dots: Vec<DotBundle>, seed: u64) -> (sim: Option<Simulation>)
        ensures
            sim is Some <==> config.wf() && dots.len() <= config.max_population && all_in_range(
                dots.deep_view(),
            ),
            sim matches Some(s) ==> s.wf() && s.spec_config() == config && s.dots() == dots.deep_view()
                && s.pending().len() == 0,
    {
        if !config.is_wf() || dots.len() > config.max_population {
            return None;
        }
        let mut i: usize = 0;
        while i < dots.len()
            invariant
                i <= dots.len(),
                forall|j: int| 0 <= j < i ==> (#[trigger] dots.deep_view()[j]).in_range(),
            decreases dots.len() - i,
        {
            if !dots[i].position.is_in_range() || !dots[i].velocity.velocity.is_in_range() {
                assert(!dots.deep_view()[i as int].in_range());
                return None;
            }
            i = i + 1;
        }
        Some(Simulation { config, dots, pending: Vec::new(), rng: seeded(seed) })
    }

    /// What the simulation was set up with.
    #[verifier::when_used_as_spec(spec_config)]
    pub fn config(&self) -> (config: Config)
        ensures
            config == self.spec_config(),
    {
        self.config
    }

    /// The number of dots.
    pub fn entity_count(&self) -> (count: usize)
        ensures
            count == self.dots().len(),
    {
        self.dots.len()
    }

    /// The dots.
    pub fn particles(&self) -> (dots: &Vec<DotBundle>)
        ensures
            dots.deep_view() == self.dots(),
    {
        &self.dots
    }

    /// Asks for `count` dots to be spawned inside `area` at the start of the
    /// next tick.
    pub fn request_spawn(&mut self, area: Rect, count: usize)
        requires
            old(self).wf(),
            area.in_range(),
        ensures
            final(self).wf(),
            final(self).spec_config() == old(self).spec_config(),
            final(self).dots() == old(self).dots(),
            final(self).pending() == old(self).pending().push(Request::Spawn { area, count }),
    {
        self.pending.push(Request::Spawn { area, count });
        proof {
            assert(self.pending().drop_last() =~= old(self).pending());
            self.lemma_requests_in_range(*old(self));
        }
    }

    /// Asks for every dot to be removed at the start of the next tick.
    pub fn request_clear(&mut self)
        requires
            old(self).wf(),
        ensures
            final(self).wf(),
            final(self).spec_config() == old(self).spec_config(),
            final(self).dots() == old(self).dots(),
            final(self).pending() == old(self).pending().push(Request::Clear),
    {
        self.pending.push(Request::Clear);
        proof {
            assert(self.pending().drop_last() =~= old(self).pending());
            self.lemma_requests_in_range(*old(self));
        }
    }

    /// Spawns dots inside `area` at once: `count` of them, or as many as
    /// still fit under the configured limit, or none if the limit is reached.
    /// Returns how many were spawned.
    pub fn spawn(&mut self, area: Rect, count: usize) -> (added: usize)
        requires
            old(self).wf(),
            area.in_range(),
        ensures
            final(self).wf(),
            final(self).spec_config() == old(self).spec_config(),
            final(self).pending() == old(self).pending(),
            added == allowance(
                old(self).dots().len() as int,
                count as int,
                old(self).spec_config().max_population as int,
            ),
            applied(
                old(self).dots(),
                Request::Spawn { area, count },
                old(self).spec_config().max_population as int,
                final(self).dots(),
            ),
            final(self).dots().len() == old(self).dots().len() + added,
            final(self).dots().len() <= old(self).spec_config().max_population,
    {
        let ghost before = self.dots.deep_view();
        let added = spawn_allowance(self.dots.len(), count, self.config.max_population);
        let mut fresh = spawn_particles(area, added, &mut self.rng);
        let ghost arrived = fresh.deep_view();
        self.dots.append(&mut fresh);
        proof {
            let after = self.dots.deep_view();
            assert(after.take(before.len() as int) =~= before);
            assert forall|i: int| before.len() <= i < after.len() implies spawned_in(
                area,
                #[trigger] after[i],
            ) by {
                assert(after[i] == arrived[i - before.len()]);
            }
            assert forall|i: int| 0 <= i < after.len() implies (#[trigger] after[i]).in_range() by {
                if i < before.len() {
                    assert(after[i] == before[i]);
                }
            }
            self.lemma_requests_in_range(*old(self));
        }
        added
    }

    /// Removes every dot. Returns how many there were.
    pub fn despawn_all(&mut self) -> (removed: usize)
        requires
            old(self).wf(),
        ensures
            final(self).wf(),
            final(self).spec_config() == old(self).spec_config(),
            final(self).pending() == old(self).pending(),
            removed == old(self).dots().len(),
            final(self).dots().len() == 0,
    {
        let removed = self.dots.len();
        self.dots.clear();
        proof {
            self.lemma_requests_in_range(*old(self));
        }
        removed
    }

    /// The first phase of a tick: carries out the waiting requests, oldest
    /// first, and forgets them.
    pub fn apply_requests(&mut self)
        requires
            old(self).wf(),
        ensures
            final(self).wf(),
            final(self).spec_config() == old(self).spec_config(),
            final(self).pending().len() == 0,
            populated(
                old(self).dots(),
                old(self).pending(),
                old(self).spec_config().max_population as int,
                final(self).dots(),
            ),
            final(self).dots().len() == population_after(
                old(self).dots().len() as int,
                old(self).pending(),
                old(self).spec_config().max_population as int,
            ),
    {
        let ghost limit = self.config.max_population as int;
        let mut i: usize = 0;
        while i < self.pending.len()
            invariant
                i <= self.pending.len(),
                self.wf(),
                self.spec_config() == old(self).spec_config(),
                self.pending() == old(self).pending(),
                limit == old(self).spec_config().max_population as int,
                populated(old(self).dots(), old(self).pending().take(i as int), limit, self.dots()),
                self.dots().len() == population_after(
                    old(self).dots().len() as int,
                    old(self).pending().take(i as int),
                    limit,
                ),
            decreases self.pending.len() - i,
        {
            let ghost mid = self.dots();
            let request = self.pending[i];
            assert(request_in_range(self.pending()[i as int]));
            match request {
                Request::Spawn { area, count } => {
                    self.spawn(area, count);
                },
                Request::Clear => {
                    self.despawn_all();
                },
            }
            proof {
                let sooner = old(self).pending().take(i as int);
                let later = old(self).pending().take(i + 1);
                assert(later.drop_last() =~= sooner);
                assert(later.last() == request);
                assert(applied(mid, request, limit, self.dots()));
            }
            i = i + 1;
        }
        assert(old(self).pending().take(i as int) =~= old(self).pending());
        self.pending.clear();
    }

    /// The rest of a tick, with the set of dots settled: every dot moves by
    /// its velocity, the boundary turns back those that have left it, an
    /// index of the positions they have come to is built, and every channel
    /// charges, emits and takes in what reaches it. Returns the frame that
    /// shows the dots as they then are.
    pub fn advance_frame(&mut self) -> (frame: FrameOutput)
        requires
            old(self).wf(),
        ensures
            final(self).wf(),
            final(self).spec_config() == old(self).spec_config(),
            final(self).pending() == old(self).pending(),
            final(self).dots() == frame_step(old(self).dots(), old(self).spec_config()),
            final(self).dots().len() == old(self).dots().len(),
            all_inside(final(self).dots(), old(self).spec_config().boundary_rect),
            all_settled(final(self).dots()),
            renders(frame.particles@, final(self).dots()),
    {
        let ghost before = self.dots();
        let config = self.config;
        let border = Border { area: config.boundary_rect };
        update_velocity(&mut self.dots);
        update_border(&border, &mut self.dots);
        let ghost bounced = self.dots.deep_view();
        let found = positions_of(&self.dots);
        let tree = NNTree::rebuild(&found);
        update_charge(&tree, &mut self.dots, &config);
        proof {
            lemma_charged_keeps_shape(bounced, config);
            lemma_charged_is_settled(bounced, config);
            self.lemma_requests_in_range(*old(self));
        }
        render(&self.dots)
    }

    /// One tick: the waiting requests are carried out, then the dots move,
    /// are turned back at the boundary, and charge. Returns the frame that
    /// shows the dots as they then are. `populated` says what the requests
    /// may have made of the dots, `frame_step` what the rest of the tick makes
    /// of that.
    pub fn tick(&mut self) -> (frame: FrameOutput)
        requires
            old(self).wf(),
        ensures
            final(self).wf(),
            final(self).spec_config() == old(self).spec_config(),
            final(self).pending().len() == 0,
            exists|mid: Seq<DotState>|
                populated(
                    old(self).dots(),
                    old(self).pending(),
                    old(self).spec_config().max_population as int,
                    mid,
                ) && final(self).dots() == frame_step(mid, old(self).spec_config()),
            old(self).pending().len() == 0 ==> final(self).dots() == frame_step(
                old(self).dots(),
                old(self).spec_config(),
            ),
            final(self).dots().len() == population_after(
                old(self).dots().len() as int,
                old(self).pending(),
                old(self).spec_config().max_population as int,
            ),
            final(self).dots().len() <= old(self).spec_config().max_population,
            all_inside(final(self).dots(), old(self).spec_config().boundary_rect),
            all_settled(final(self).dots()),
            renders(frame.particles@, final(self).dots()),
    {
        self.apply_requests();
        let ghost mid = self.dots();
        let frame = self.advance_frame();
        assert(populated(
            old(self).dots(),
            old(self).pending(),
            old(self).spec_config().max_population as int,
            mid,
        ) && self.dots() == frame_step(mid, old(self).spec_config()));
        frame
    }
}

} // verus!
