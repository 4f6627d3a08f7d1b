use vstd::prelude::*;

use super::farmer_behaviour::{
    any_grown, same_grid, same_world, worked, FarmerBehaviour, FarmerModel, FarmerState, WorkResult,
};
use super::move_and_build_behaviour::{
    construction_started, lemma_ticked_keeps_live, ticked, MoveAndBuildBehaviour, MoveAndBuildModel,
    MoveAndBuildState,
};
use super::move_behaviour::{Result, Waypoint};
use crate::building::BuildingId;
use crate::geometry::Point;
use crate::world::World;

verus! {

/// Most steps an agent takes within one tick.
pub const MAX_TRANSITIONS: u32 = 16;

/// What an agent is doing.
#[derive(Clone, Copy, Debug, PartialEq, Eq, Structural)]
pub enum AgentState {
    Idle,
    HomeBuilding,
    Working,
}

/// Outcome of an agent's tick: where the agent goes next, if anywhere.
pub struct AgentBehaviourResult {
    pub next_position: Option<Waypoint>,
}

/// What an agent holds.
pub ghost struct AgentModel {
    pub state: AgentState,
    pub home: Option<BuildingId>,
    pub home_coordinator: MoveAndBuildModel,
    pub work: FarmerModel,
}

/// One step of an agent's tick with `delta`, the agent being at `position`:
/// the agent goes from `a` to `a2` and the world from `w` to `w2`. `out` is
/// `Some(next)` where the tick ends here reporting `next`, and `None` where
/// it goes on to another step.
/// - Idle without a home: it starts building one (`construction_started`)
///   and goes on; where no cell is free, it ends.
/// - Idle with a home and work available: it hands the home to the work
///   behaviour, which starts idle, and goes on to work.
/// - Idle with a home and no work: it ends, changing nothing.
/// - Building its home: the home coordinator ticks; while it runs the tick
///   ends with its position; on success the agent is idle and goes on.
/// - Working: the work behaviour works (`worked`); while it runs the tick
///   ends with its position; on success the agent is idle and goes on.
pub open spec fn agent_step(
    a: AgentModel,
    a2: AgentModel,
    w: World,
    w2: World,
    delta: int,
    position: Point,
    out: Option<Option<Waypoint>>,
) -> bool {
    match a.state {
        AgentState::Idle => if a.home is None {
            ||| {
                &&& out == Some(Option::<Waypoint>::None)
                &&& a2 == a
                &&& same_world(w, w2)
                &&& forall|q: (int, int)| #[trigger] w.grid.cell_in_world(q) ==> w.grid@.contains(q)
            }
            ||| exists|id: BuildingId|
                #[trigger] construction_started(a.home_coordinator, a2.home_coordinator, w, w2, position, id)
                    && a2 == (AgentModel {
                    state: AgentState::HomeBuilding,
                    home: Some(id),
                    home_coordinator: a2.home_coordinator,
                    ..a
                }) && out is None
        } else if a.work.fields.len() < a.work.max_field_count || any_grown(&w, a.work.fields) {
            &&& a2 == (AgentModel {
                state: AgentState::Working,
                work: FarmerModel { home: a.home, state: FarmerState::Idle, ..a.work },
                ..a
            })
            &&& same_world(w, w2)
            &&& out is None
        } else {
            &&& out == Some(Option::<Waypoint>::None)
            &&& a2 == a
            &&& same_world(w, w2)
        },
        AgentState::HomeBuilding => exists|rc: (Result, Option<Waypoint>)|
            #[trigger] ticked(a.home_coordinator, a2.home_coordinator, w.buildings, w2.buildings, delta, rc)
                && same_grid(w, w2) && if rc.0 == Result::Running {
                out == Some(rc.1) && a2 == (AgentModel { home_coordinator: a2.home_coordinator, ..a })
            } else {
                out is None && a2 == (AgentModel {
                    home_coordinator: a2.home_coordinator,
                    state: AgentState::Idle,
                    ..a
                })
            },
        AgentState::Working => exists|wr: WorkResult|
            #[trigger] worked(a.work, a2.work, w, w2, delta, position, wr) && if wr.result == Result::Running {
                out == Some(wr.next_position) && a2 == (AgentModel { work: a2.work, ..a })
            } else {
                out is None && a2 == (AgentModel { work: a2.work, state: AgentState::Idle, ..a })
            },
    }
}

/// `states` and `worlds` are the agent and the world through the steps of
/// one tick that reports `next`: every step but the last goes on, and the
/// last ends the tick with `next`, or is the last step allowed
/// (`MAX_TRANSITIONS`) and `next` is `None`.
pub open spec fn agent_run(
    states: Seq<AgentModel>,
    worlds: Seq<World>,
    delta: int,
    position: Point,
    next: Option<Waypoint>,
) -> bool {
    let n = states.len();
    &&& worlds.len() == n
    &&& 2 <= n <= MAX_TRANSITIONS + 1
    &&& forall|i: int|
        0 <= i < n - 2 ==> agent_step(
            #[trigger] states[i],
            states[i + 1],
            worlds[i],
            worlds[i + 1],
            delta,
            position,
            None,
        )
    &&& agent_step(states[n - 2], states[n - 1], worlds[n - 2], worlds[n - 1], delta, position, Some(next))
        || (n == MAX_TRANSITIONS + 1 && next is None && agent_step(
        states[n - 2],
        states[n - 1],
        worlds[n - 2],
        worlds[n - 1],
        delta,
        position,
        None,
    ))
}

/// Drives one agent: first builds it a home, then works while there is
/// work.
pub struct AgentBehaviour {
    state: AgentState,
    home_build_behaviour: MoveAndBuildBehaviour,
    home: Option<BuildingId>,
    work_behaviour: FarmerBehaviour,
    agent_name: String,
}

impl AgentBehaviour {
    pub closed spec fn view(&self) -> AgentModel {
        AgentModel {
            state: self.state,
            home: self.home,
            home_coordinator: self.home_build_behaviour@,
            work: self.work_behaviour@,
        }
    }

    pub closed spec fn wf(&self) -> bool {
        &&& self.home_build_behaviour.wf()
        &&& self.work_behaviour.wf()
        &&& self.state == AgentState::HomeBuilding ==> self.home is Some
        &&& self.state == AgentState::Working ==> self.home is Some
            && self.work_behaviour@.home == self.home
        &&& self.home_build_behaviour@.building is None || self.home_build_behaviour@.building
            == self.home
    }

    /// Every structure the agent refers to is one of `world`'s.
    pub closed spec fn fits(&self, world: &World) -> bool {
        &&& self.home_build_behaviour.fits(world)
        &&& self.work_behaviour.fits(world)
        &&& match self.home {
            Some(h) => world.buildings.is_live(h) && (self.work_behaviour@.home == Some(h)
                || self.work_behaviour.can_take_home(h)),
            None => true,
        }
    }

    pub fn new(home_build_behaviour: MoveAndBuildBehaviour, work_behaviour: FarmerBehaviour) -> (r:
        AgentBehaviour)
        requires
            home_build_behaviour.wf(),
            home_build_behaviour@.state == MoveAndBuildState::Idle,
            home_build_behaviour@.building is None,
            work_behaviour.wf(),
        ensures
            r.wf(),
            r@ == (AgentModel {
                state: AgentState::Idle,
                home: None,
                home_coordinator: home_build_behaviour@,
                work: work_behaviour@,
            }),
            forall|w: &World| work_behaviour.fits(w) ==> #[trigger] r.fits(w),
    {
        AgentBehaviour {
            state: AgentState::Idle,
            home_build_behaviour,
            home: None,
            work_behaviour,
            agent_name: String::new(),
        }
    }

    pub fn state(&self) -> (r: AgentState)
        ensures
            r == self@.state,
    {
        self.state
    }

    pub fn home(&self) -> (r: Option<BuildingId>)
        ensures
            r == self@.home,
    {
        self.home
    }

    pub fn work_behaviour(&self) -> (r: &FarmerBehaviour)
        ensures
            r@ == self@.work,
    {
        &self.work_behaviour
    }

    /// Names the agent and makes it idle.
    pub fn start(&mut self, agent_name: String)
        requires
            old(self).wf(),
        ensures
            final(self).wf(),
            final(self)@ == (AgentModel { state: AgentState::Idle, ..old(self)@ }),
            forall|w: &World| old(self).fits(w) ==> #[trigger] final(self).fits(w),
    {
        self.agent_name = agent_name;
        self.state = AgentState::Idle;
    }

    fn start_home_building<W: Fn(i64, i64, u64) -> u64>(
        &mut self,
        world: &mut World,
        agent_position: Point,
        weight: &W,
    ) -> (r: bool)
        requires
            old(self).wf(),
            old(world).wf(),
            old(self).fits(old(world)),
            old(self)@.state == AgentState::Idle,
            old(self)@.home is None,
            agent_position.in_world(),
            forall|dx: i64, dy: i64, d: u64| weight.requires((dx, dy, d)),
        ensures
            final(self).wf(),
            final(world).wf(),
            final(self).fits(final(world)),
            r ==> exists|id: BuildingId|
                #[trigger] construction_started(
                    old(self)@.home_coordinator,
                    final(self)@.home_coordinator,
                    *old(world),
                    *final(world),
                    agent_position,
                    id,
                ) && final(self)@ == (AgentModel {
                    state: AgentState::HomeBuilding,
                    home: Some(id),
                    home_coordinator: final(self)@.home_coordinator,
                    ..old(self)@
                }),
            !r ==> final(self)@ == old(self)@ && same_world(*old(world), *final(world)) && forall|
                q: (int, int),
            | #[trigger] old(world).grid.cell_in_world(q) ==> old(world).grid@.contains(q),
    {
        let name = self.agent_name.clone();
        self.home_build_behaviour.set_agent_name(name);
        let ghost w0 = *world;
        match self.home_build_behaviour.start_construction(world, agent_position, weight) {
            Some(home) => {
                proof {
                    self.work_behaviour.lemma_new_home(&w0, home);
                    assert forall|id: BuildingId| w0.buildings.is_live(id) implies #[trigger]
                        world.buildings.is_live(id) by {
                        assert(world.buildings@[id as int] == w0.buildings@[id as int]);
                    }
                    self.work_behaviour.lemma_fits_grow(&w0, world);
                }
                self.home = Some(home);
                self.state = AgentState::HomeBuilding;
                true
            },
            None => {
                proof {
                    self.work_behaviour.lemma_fits_grow(&w0, world);
                }
                false
            },
        }
    }

    fn start_working(&mut self, world: &World)
        requires
            old(self).wf(),
            world.wf(),
            old(self).fits(world),
            old(self)@.state == AgentState::Idle,
            old(self)@.home is Some,
        ensures
            final(self).wf(),
            final(self).fits(world),
            final(self)@ == (AgentModel {
                state: AgentState::Working,
                work: FarmerModel { home: old(self)@.home, state: FarmerState::Idle, ..old(self)@.work },
                ..old(self)@
            }),
    {
        let home = self.home.unwrap();
        proof {
            if self.work_behaviour@.home == Some(home) {
                self.work_behaviour.lemma_own_home(world);
            }
        }
        let name = self.agent_name.clone();
        self.work_behaviour.start_work(world, home, name);
        self.state = AgentState::Working;
    }

    /// One step of a tick; see `agent_step`.
    fn step<W: Fn(i64, i64, u64) -> u64>(
        &mut self,
        world: &mut World,
        delta: u64,
        agent_position: Point,
        weight: &W,
    ) -> (out: Option<Option<Waypoint>>)
        requires
            old(self).wf(),
            old(world).wf(),
            old(self).fits(old(world)),
            agent_position.in_world(),
            forall|dx: i64, dy: i64, d: u64| weight.requires((dx, dy, d)),
        ensures
            final(self).wf(),
            final(world).wf(),
            final(self).fits(final(world)),
            final(world).grid.cell_x() == old(world).grid.cell_x(),
            final(world).grid.cell_y() == old(world).grid.cell_y(),
            agent_step(old(self)@, final(self)@, *old(world), *final(world), delta as int, agent_position, out),
    {
        match self.state {
            AgentState::Idle => {
                if self.home.is_none() {
                    if !self.start_home_building(world, agent_position, weight) {
                        return Some(None);
                    }
                    None
                } else if self.work_behaviour.is_work_available(world) {
                    self.start_working(world);
                    None
                } else {
                    Some(None)
                }
            },
            AgentState::HomeBuilding => {
                let ghost w0 = *world;
                proof {
                    self.home_build_behaviour.lemma_busy();
                }
                let (result, next_position) = self.home_build_behaviour.build(world, delta);
                proof {
                    lemma_ticked_keeps_live(
                        old(self)@.home_coordinator,
                        self@.home_coordinator,
                        w0.buildings,
                        world.buildings,
                        delta as int,
                        (result, next_position),
                    );
                    self.work_behaviour.lemma_fits_grow(&w0, world);
                }
                if result == Result::Running {
                    return Some(next_position);
                }
                self.state = AgentState::Idle;
                None
            },
            AgentState::Working => {
                let work_result = self.work_behaviour.work(world, delta, agent_position, weight);
                proof {
                    self.work_behaviour.lemma_own_home(world);
                }
                if work_result.result == Result::Running {
                    return Some(work_result.next_position);
                }
                self.state = AgentState::Idle;
                None
            },
        }
    }

    /// Advances the agent by `delta`, the agent being at `agent_position`:
    /// it takes steps (`agent_step`) until one ends the tick, at most
    /// `MAX_TRANSITIONS` of them, and reports where the agent goes next.
    pub fn tick<W: Fn(i64, i64, u64) -> u64>(
        &mut self,
        world: &mut World,
        delta: u64,
        agent_position: Point,
        weight: &W,
    ) -> (r: AgentBehaviourResult)
        requires
            old(self).wf(),
            old(world).wf(),
            old(self).fits(old(world)),
            agent_position.in_world(),
            forall|dx: i64, dy: i64, d: u64| weight.requires((dx, dy, d)),
        ensures
            final(self).wf(),
            final(world).wf(),
            final(self).fits(final(world)),
            final(world).grid.cell_x() == old(world).grid.cell_x(),
            final(world).grid.cell_y() == old(world).grid.cell_y(),
            exists|states: Seq<AgentModel>, worlds: Seq<World>|
                #[trigger] agent_run(states, worlds, delta as int, agent_position, r.next_position)
                    && states[0] == old(self)@ && worlds[0] == *old(world) && states.last()
                    == final(self)@ && worlds.last() == *final(world),
    {
        let ghost mut states: Seq<AgentModel> = seq![self@];
        let ghost mut worlds: Seq<World> = seq![*world];
        let mut budget: u32 = MAX_TRANSITIONS;
        while budget > 0
            invariant
                self.wf(),
                world.wf(),
                self.fits(world),
                agent_position.in_world(),
                forall|dx: i64, dy: i64, d: u64| weight.requires((dx, dy, d)),
                world.grid.cell_x() == old(world).grid.cell_x(),
                world.grid.cell_y() == old(world).grid.cell_y(),
                budget <= MAX_TRANSITIONS,
                states.len() == MAX_TRANSITIONS - budget + 1,
                worlds.len() == states.len(),
                states[0] == old(self)@,
                worlds[0] == *old(world),
                states.last() == self@,
                worlds.last() == *world,
                forall|i: int|
                    0 <= i < states.len() - 1 ==> agent_step(
                        #[trigger] states[i],
                        states[i + 1],
                        worlds[i],
                        worlds[i + 1],
                        delta as int,
                        agent_position,
                        None,
                    ),
            decreases budget,
        {
            budget = budget - 1;
            let ghost a0 = self@;
            let ghost w0 = *world;
            let out = self.step(world, delta, agent_position, weight);
            proof {
                let old_states = states;
                let old_worlds = worlds;
                states = states.push(self@);
                worlds = worlds.push(*world);
                assert forall|i: int| 0 <= i < old_states.len() - 1 implies agent_step(
                    #[trigger] states[i],
                    states[i + 1],
                    worlds[i],
                    worlds[i + 1],
                    delta as int,
                    agent_position,
                    None,
                ) by {
                    assert(states[i] == old_states[i]);
                    assert(states[i + 1] == old_states[i + 1]);
                    assert(worlds[i] == old_worlds[i]);
                    assert(worlds[i + 1] == old_worlds[i + 1]);
                }
                assert(states[states.len() - 2] == a0);
                assert(worlds[worlds.len() - 2] == w0);
            }
            match out {
                Some(next_position) => {
                    let r = AgentBehaviourResult { next_position };
                    assert(agent_run(states, worlds, delta as int, agent_position, r.next_position));
                    return r;
                },
                None => {},
            }
        }
        let r = AgentBehaviourResult { next_position: None };
        assert(agent_run(states, worlds, delta as int, agent_position, r.next_position));
        r
    }
}

} // verus!
