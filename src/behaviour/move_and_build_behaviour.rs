use vstd::prelude::*;

use super::build_behaviour::{advanced, fraction_of, BuildBehaviour, BuildProgress};
use super::move_behaviour::{arrives, walked, MotionState, MoveBehaviour, Result, Waypoint};
use crate::building::{Building, BuildingId, BuildingKind, BuildingState, Buildings, FieldState};
use crate::geometry::{add_clamped, clamp_to_extent, dist_sq, Point};
use crate::resources::inventory::InventoryResource;
use crate::world::World;
use super::free_space_manager::{band_of, chebyshev, reference_distance};

verus! {

/// Phase of a move-and-build workflow.
#[derive(Clone, Copy, Debug, PartialEq, Eq, Structural)]
pub enum MoveAndBuildState {
    Idle,
    Moving,
    Building,
}

/// How a coordinator builds: how far from the agent it looks for a site,
/// where beside the structure the agent stands, how long a structure
/// takes, and what it builds.
#[derive(Clone, Copy, Debug, PartialEq, Eq, Structural)]
pub struct MoveAndBuildBehaviourConfig {
    pub building_radius: i64,
    pub build_offset: Point,
    pub building_duration: u64,
    pub kind: BuildingKind,
}

/// What a coordinator holds.
pub ghost struct MoveAndBuildModel {
    pub state: MoveAndBuildState,
    pub building: Option<BuildingId>,
    pub motion: MotionState,
    pub progress: BuildProgress,
    pub config: MoveAndBuildBehaviourConfig,
}

/// The point beside a structure at `p` where the agent stands to work on it.
pub open spec fn stand_point(p: Point, offset: Point) -> Point {
    Point {
        x: clamp_to_extent(p.x + offset.x) as i64,
        y: clamp_to_extent(p.y + offset.y) as i64,
    }
}

/// The building part of a tick with `delta`: the tracker advances, the
/// structure shows the fraction now built, and once the work is done the
/// structure is marked finished (when constructing) and the coordinator
/// lets it go and becomes idle.
pub open spec fn build_phase(
    c: MoveAndBuildModel,
    c2: MoveAndBuildModel,
    w: Buildings,
    w2: Buildings,
    delta: int,
    r: (Result, Option<Waypoint>),
) -> bool {
    let id = c.building.unwrap();
    let p = c.progress;
    let done = if p.construction {
        p.progress + delta >= p.duration
    } else {
        p.progress - delta <= 0
    };
    let fraction = fraction_of(c2.progress.progress, c2.progress.duration);
    &&& advanced(
        p,
        c2.progress,
        delta,
        (
            fraction as u64,
            if done {
                Result::Success
            } else {
                Result::Running
            },
        ),
    )
    &&& c2.motion == c.motion
    &&& c2.config == c.config
    &&& w2.same_except(&w, id)
    &&& w2.is_live(id)
    &&& w2.get(id) == (Building {
        progress: fraction as u64,
        state: if done && p.construction {
            BuildingState::Completed
        } else {
            w.get(id).state
        },
        ..w.get(id)
    })
    &&& if done {
        &&& c2.state == MoveAndBuildState::Idle
        &&& c2.building is None
        &&& r == (Result::Success, Option::<Waypoint>::None)
    } else {
        &&& c2.state == MoveAndBuildState::Building
        &&& c2.building == c.building
        &&& r == (Result::Running, Option::<Waypoint>::None)
    }
}

/// One tick of `build` with `delta` takes the coordinator from `c` to `c2`
/// and the structures from `w` to `w2`, and reports `r`.
pub open spec fn ticked(
    c: MoveAndBuildModel,
    c2: MoveAndBuildModel,
    w: Buildings,
    w2: Buildings,
    delta: int,
    r: (Result, Option<Waypoint>),
) -> bool {
    match c.state {
        MoveAndBuildState::Idle => {
            &&& r == (Result::Success, Option::<Waypoint>::None)
            &&& c2 == c
            &&& w2@ == w@
        },
        MoveAndBuildState::Moving => {
            let (a, b) = c.motion.route.unwrap();
            if arrives(a, b, c.motion.traveled, c.motion.config.speed * delta) {
                build_phase(c, c2, w, w2, delta, r)
            } else {
                &&& r.0 == Result::Running
                &&& r.1 is Some
                &&& walked(c.motion, c2.motion, delta, (Result::Running, r.1.unwrap()))
                &&& c2 == (MoveAndBuildModel { motion: c2.motion, ..c })
                &&& w2@ == w@
            }
        },
        MoveAndBuildState::Building => build_phase(c, c2, w, w2, delta, r),
    }
}

/// `start_construction` from `current_position` took the coordinator from
/// `c` to `c2` and the world from `w` to `w2`, creating structure `id`: the
/// site is a free cell's centre in the innermost search band that has a free
/// cell, it is reserved, the structure stands there unbuilt, and the agent
/// starts walking beside it to build it.
pub open spec fn construction_started(
    c: MoveAndBuildModel,
    c2: MoveAndBuildModel,
    w: World,
    w2: World,
    current_position: Point,
    id: BuildingId,
) -> bool {
    let b = w2.buildings.get(id);
    let k = w.grid.cell_id_of(b.position);
    let t = w.grid.cell_id_of(current_position);
    let reference = reference_distance(c.config.building_radius as int, w.grid.cell_x());
    &&& id == w.buildings@.len()
    &&& w2.buildings@.len() == id + 1
    &&& forall|i: int| 0 <= i < id ==> #[trigger] w2.buildings@[i] == w.buildings@[i]
    &&& w2.buildings.is_live(id)
    &&& w2.buildings.grow_duration() == w.buildings.grow_duration()
    &&& b.kind == c.config.kind
    &&& b.state == BuildingState::Building
    &&& b.progress == 0
    &&& b.field_state == FieldState::Growing
    &&& b.grow_progress == 0
    &&& b.inventory@ == Map::<InventoryResource, int>::empty()
    &&& w.grid.is_free(k)
    &&& (b.position.x as int, b.position.y as int) == w.grid.position_of(k)
    &&& forall|q: (int, int)| #[trigger]
        w.grid.is_free(q) ==> band_of(chebyshev(q, t), reference) >= band_of(chebyshev(k, t), reference)
    &&& w2.grid@ == w.grid@.insert(k)
    &&& w2.grid.cell_x() == w.grid.cell_x()
    &&& w2.grid.cell_y() == w.grid.cell_y()
    &&& c2.state == MoveAndBuildState::Moving
    &&& c2.building == Some(id)
    &&& c2.config == c.config
    &&& c2.progress == (BuildProgress { progress: 0, construction: true, ..c.progress })
    &&& c2.motion == (MotionState {
        route: Some((current_position, stand_point(b.position, c.config.build_offset))),
        traveled: 0,
        moving_time: 0,
        ..c.motion
    })
}

/// `start_deconstruction` of structure `id` from `current_position` took
/// the coordinator from `c` to `c2`: the whole structure still stands, and
/// the agent starts walking beside it to take it down.
pub open spec fn deconstruction_started(
    c: MoveAndBuildModel,
    c2: MoveAndBuildModel,
    w: Buildings,
    id: BuildingId,
    current_position: Point,
) -> bool {
    &&& c2.state == MoveAndBuildState::Moving
    &&& c2.building == Some(id)
    &&& c2.config == c.config
    &&& c2.progress == (BuildProgress { progress: c.progress.duration, construction: false, ..c.progress })
    &&& c2.motion == (MotionState {
        route: Some((current_position, stand_point(w.get(id).position, c.config.build_offset))),
        traveled: 0,
        moving_time: 0,
        ..c.motion
    })
}

/// Picks a site, walks to it, and builds or takes down the structure there.
pub struct MoveAndBuildBehaviour {
    state: MoveAndBuildState,
    move_behaviour: MoveBehaviour,
    building: Option<BuildingId>,
    agent_name: String,
    tracker: BuildBehaviour,
    config: MoveAndBuildBehaviourConfig,
}

impl MoveAndBuildBehaviour {
    pub closed spec fn view(&self) -> MoveAndBuildModel {
        MoveAndBuildModel {
            state: self.state,
            building: self.building,
            motion: self.move_behaviour@,
            progress: self.tracker@,
            config: self.config,
        }
    }

    pub closed spec fn wf(&self) -> bool {
        &&& self.move_behaviour.wf()
        &&& self.tracker.wf()
        &&& self.tracker@.duration == self.config.building_duration
        &&& self.config.build_offset.in_world()
        &&& (self.state == MoveAndBuildState::Idle) == (self.building is None)
        &&& self.state != MoveAndBuildState::Idle ==> self.move_behaviour.is_started()
    }

    /// A coordinator holds a structure exactly while it is busy.
    pub proof fn lemma_busy(&self)
        requires
            self.wf(),
        ensures
            (self@.state == MoveAndBuildState::Idle) == (self@.building is None),
    {
    }

    /// The coordinator's structure, if any, is one of `world`'s.
    pub open spec fn fits(&self, world: &World) -> bool {
        match self@.building {
            Some(id) => world.buildings.is_live(id),
            None => true,
        }
    }

    pub fn new(move_behaviour: MoveBehaviour, config: MoveAndBuildBehaviourConfig) -> (r:
        MoveAndBuildBehaviour)
        requires
            move_behaviour.wf(),
            config.building_duration > 0,
            config.build_offset.in_world(),
        ensures
            r.wf(),
            r@.state == MoveAndBuildState::Idle,
            r@.building is None,
            r@.motion == move_behaviour@,
            r@.progress == (BuildProgress {
                progress: 0,
                duration: config.building_duration as int,
                construction: true,
            }),
            r@.config == config,
    {
        MoveAndBuildBehaviour {
            state: MoveAndBuildState::Idle,
            move_behaviour,
            building: None,
            agent_name: String::new(),
            tracker: BuildBehaviour::new(config.building_duration),
            config,
        }
    }

    pub fn set_agent_name(&mut self, agent_name: String)
        requires
            old(self).wf(),
        ensures
            final(self).wf(),
            final(self)@ == old(self)@,
    {
        self.agent_name = agent_name;
    }

    pub fn state(&self) -> (r: MoveAndBuildState)
        ensures
            r == self@.state,
    {
        self.state
    }

    pub fn building(&self) -> (r: Option<BuildingId>)
        ensures
            r == self@.building,
    {
        self.building
    }

    pub fn config(&self) -> (r: MoveAndBuildBehaviourConfig)
        ensures
            r == self@.config,
    {
        self.config
    }

    /// Picks a free site near `current_position`, reserves it, creates a
    /// structure there and starts walking beside it to build it. Returns the
    /// new structure, or `None`, changing nothing, where no cell of the
    /// world is free.
    pub fn start_construction<W: Fn(i64, i64, u64) -> u64>(
        &mut self,
        world: &mut World,
        current_position: Point,
        weight: &W,
    ) -> (r: Option<BuildingId>)
        requires
            old(self).wf(),
            old(world).wf(),
            old(self).fits(old(world)),
            current_position.in_world(),
            forall|dx: i64, dy: i64, d: u64| weight.requires((dx, dy, d)),
        ensures
            final(self).wf(),
            final(world).wf(),
            final(self).fits(final(world)),
            final(world).grid.cell_x() == old(world).grid.cell_x(),
            final(world).grid.cell_y() == old(world).grid.cell_y(),
            match r {
                None => {
                    &&& final(self)@ == old(self)@
                    &&& final(world).grid@ == old(world).grid@
                    &&& final(world).buildings@ == old(world).buildings@
                    &&& forall|q: (int, int)| #[trigger]
                        old(world).grid.cell_in_world(q) ==> old(world).grid@.contains(q)
                },
                Some(id) => construction_started(
                    old(self)@,
                    final(self)@,
                    *old(world),
                    *final(world),
                    current_position,
                    id,
                ),
            },
    {
        let found = world.grid.find_random_free_position_near(
            current_position,
            self.config.building_radius,
            weight,
        );
        match found {
            None => None,
            Some(position) => {
                world.grid.add_occupied_position(position);
                let id = world.buildings.create_at(self.config.kind, position);
                self.tracker.start_building();
                self.start_move_to_build(world, id, current_position);
                Some(id)
            },
        }
    }

    /// Starts walking beside the existing structure `building` to take it down.
    pub fn start_deconstruction(
        &mut self,
        world: &World,
        building: BuildingId,
        current_position: Point,
    )
        requires
            old(self).wf(),
            world.wf(),
            world.buildings.is_live(building),
            current_position.in_world(),
        ensures
            final(self).wf(),
            final(self).fits(world),
            deconstruction_started(old(self)@, final(self)@, world.buildings, building, current_position),
    {
        self.tracker.start_unbuilding();
        self.start_move_to_build(world, building, current_position);
    }

    /// Advances the workflow by `delta`. Idle: reports success at once.
    /// Moving: walks; on arrival, builds in the same tick. Building: see
    /// `build_phase`. Reports the agent's next point while walking.
    pub fn build(&mut self, world: &mut World, delta: u64) -> (r: (Result, Option<Waypoint>))
        requires
            old(self).wf(),
            old(world).wf(),
            old(self).fits(old(world)),
        ensures
            final(self).wf(),
            final(world).wf(),
            final(self).fits(final(world)),
            final(world).grid == old(world).grid,
            r.0 == Result::Success ==> final(self)@.state == MoveAndBuildState::Idle
                && final(self)@.building is None,
            ticked(old(self)@, final(self)@, old(world).buildings, final(world).buildings, delta as int, r),
    {
        if self.state == MoveAndBuildState::Idle {
            return (Result::Success, None);
        }
        if self.state == MoveAndBuildState::Moving {
            let (result, next_position) = self.move_behaviour.move_agent(delta);
            if result == Result::Running {
                return (Result::Running, Some(next_position));
            }
            self.state = MoveAndBuildState::Building;
        }
        let result = self.process_building(world, delta);
        if result == Result::Running {
            return (Result::Running, None);
        }
        self.building = None;
        self.state = MoveAndBuildState::Idle;
        (Result::Success, None)
    }

    fn process_building(&mut self, world: &mut World, delta: u64) -> (r: Result)
        requires
            old(self).wf(),
            old(world).wf(),
            old(self).fits(old(world)),
            old(self)@.state == MoveAndBuildState::Building,
        ensures
            final(self).wf(),
            final(world).wf(),
            final(world).grid == old(world).grid,
            final(self)@.state == old(self)@.state,
            final(self)@.building == old(self)@.building,
            build_phase(
                old(self)@,
                (MoveAndBuildModel {
                    state: if r == Result::Success {
                        MoveAndBuildState::Idle
                    } else {
                        MoveAndBuildState::Building
                    },
                    building: if r == Result::Success {
                        None
                    } else {
                        old(self)@.building
                    },
                    ..final(self)@
                }),
                old(world).buildings,
                final(world).buildings,
                delta as int,
                (r, Option::<Waypoint>::None),
            ),
    {
        let id = self.building.unwrap();
        let (fraction, result) = self.tracker.build(delta);
        world.buildings.build(id, fraction);
        if self.tracker.is_construction() && result == Result::Success {
            world.buildings.set_completed(id);
        }
        result
    }

    fn start_move_to_build(&mut self, world: &World, building: BuildingId, current_position: Point)
        requires
            old(self).move_behaviour.wf(),
            old(self).tracker.wf(),
            old(self).tracker@.duration == old(self).config.building_duration,
            old(self).config.build_offset.in_world(),
            world.wf(),
            world.buildings.is_live(building),
            current_position.in_world(),
        ensures
            final(self).wf(),
            final(self)@.state == MoveAndBuildState::Moving,
            final(self)@.building == Some(building),
            final(self)@.config == old(self)@.config,
            final(self)@.progress == old(self)@.progress,
            final(self)@.motion == (MotionState {
                route: Some(
                    (
                        current_position,
                        stand_point(world.buildings.get(building).position, old(self)@.config.build_offset),
                    ),
                ),
                traveled: 0,
                moving_time: 0,
                ..old(self)@.motion
            }),
    {
        let build_position = world.buildings.position_of(building);
        self.building = Some(building);
        let offset = self.config.build_offset;
        let target = Point {
            x: add_clamped(build_position.x, offset.x),
            y: add_clamped(build_position.y, offset.y),
        };
        self.move_behaviour.start_moving(current_position, target);
        self.state = MoveAndBuildState::Moving;
    }
}

/// Time taken by the first `j` ticks of `deltas`.
pub open spec fn elapsed(deltas: Seq<u64>, j: int) -> int
    decreases j,
{
    if j <= 0 || j > deltas.len() {
        0
    } else {
        elapsed(deltas, j - 1) + deltas[j - 1]
    }
}

/// `cs`, `ws` and `rs` are what `deltas.len()` successive ticks of a
/// coordinator give: its states, the structures, and the reports.
pub open spec fn is_run(
    cs: Seq<MoveAndBuildModel>,
    ws: Seq<Buildings>,
    deltas: Seq<u64>,
    rs: Seq<(Result, Option<Waypoint>)>,
) -> bool {
    &&& cs.len() == deltas.len() + 1
    &&& ws.len() == deltas.len() + 1
    &&& rs.len() == deltas.len()
    &&& forall|i: int|
        0 <= i < deltas.len() ==> ticked(cs[i], cs[i + 1], ws[i], ws[i + 1], deltas[i] as int, #[trigger] rs[i])
}

/// The coordinator starts walking to construct structure `id`, as
/// `start_construction` leaves it.
pub open spec fn starts_construction(c: MoveAndBuildModel, w: Buildings, id: BuildingId) -> bool {
    &&& c.state == MoveAndBuildState::Moving
    &&& c.building == Some(id)
    &&& c.progress.progress == 0
    &&& c.progress.duration > 0
    &&& c.progress.construction
    &&& c.motion.route is Some
    &&& c.motion.traveled == 0
    &&& w.is_live(id)
    &&& w.get(id).state == BuildingState::Building
}

/// The structure is untouched by completion up to state `j`, and every
/// report before `j` says the work is still running.
pub open spec fn unfinished_until(
    ws: Seq<Buildings>,
    rs: Seq<(Result, Option<Waypoint>)>,
    id: BuildingId,
    j: int,
) -> bool {
    &&& forall|i: int| 0 <= i <= j ==> (#[trigger] ws[i]).is_live(id) && ws[i].get(id).state
        == BuildingState::Building
    &&& forall|i: int| 0 <= i < j ==> (#[trigger] rs[i]).0 == Result::Running
}

spec fn walking_at(
    cs: Seq<MoveAndBuildModel>,
    ws: Seq<Buildings>,
    deltas: Seq<u64>,
    rs: Seq<(Result, Option<Waypoint>)>,
    id: BuildingId,
    j: int,
) -> bool {
    let c = cs[j];
    let (a, b) = cs[0].motion.route.unwrap();
    &&& c.state == MoveAndBuildState::Moving
    &&& c.building == Some(id)
    &&& c.motion.route == cs[0].motion.route
    &&& c.motion.config == cs[0].motion.config
    &&& c.motion.traveled == cs[0].motion.config.speed * elapsed(deltas, j)
    &&& c.motion.traveled * c.motion.traveled <= dist_sq(a, b)
    &&& c.progress == cs[0].progress
    &&& unfinished_until(ws, rs, id, j)
}

spec fn building_at(
    cs: Seq<MoveAndBuildModel>,
    ws: Seq<Buildings>,
    deltas: Seq<u64>,
    rs: Seq<(Result, Option<Waypoint>)>,
    id: BuildingId,
    j: int,
    m: int,
) -> bool {
    let c = cs[j];
    let (a, b) = cs[0].motion.route.unwrap();
    let s = cs[0].motion.config.speed;
    &&& 0 <= m < j
    &&& c.state == MoveAndBuildState::Building
    &&& c.building == Some(id)
    &&& c.progress.construction
    &&& c.progress.duration == cs[0].progress.duration
    &&& c.progress.progress == elapsed(deltas, j) - elapsed(deltas, m)
    &&& c.progress.progress < c.progress.duration
    &&& (s * elapsed(deltas, m)) * (s * elapsed(deltas, m)) <= dist_sq(a, b)
    &&& unfinished_until(ws, rs, id, j)
}

spec fn done_at(
    cs: Seq<MoveAndBuildModel>,
    ws: Seq<Buildings>,
    rs: Seq<(Result, Option<Waypoint>)>,
    id: BuildingId,
    j: int,
    k: int,
) -> bool {
    &&& 0 <= k < j
    &&& rs[k].0 == Result::Success
    &&& cs[k].state != MoveAndBuildState::Idle
    &&& unfinished_until(ws, rs, id, k)
    &&& forall|i: int|
        k < i <= j ==> (#[trigger] ws[i]).is_live(id) && ws[i].get(id).state
            == BuildingState::Completed && cs[i].state == MoveAndBuildState::Idle
}

proof fn lemma_elapsed_step(deltas: Seq<u64>, j: int)
    requires
        0 <= j < deltas.len(),
    ensures
        elapsed(deltas, j + 1) == elapsed(deltas, j) + deltas[j],
        elapsed(deltas, j) >= 0,
    decreases j,
{
    if j > 0 {
        lemma_elapsed_step(deltas, j - 1);
    }
}

proof fn lemma_square_monotone(s: int, x: int, y: int)
    requires
        0 <= s,
        0 <= x <= y,
    ensures
        (s * x) * (s * x) <= (s * y) * (s * y),
{
    assert(0 <= s * x <= s * y) by (nonlinear_arith)
        requires
            0 <= s,
            0 <= x <= y,
    ;
    assert((s * x) * (s * x) <= (s * y) * (s * y)) by (nonlinear_arith)
        requires
            0 <= s * x <= s * y,
    ;
}

proof fn lemma_run_phase(
    cs: Seq<MoveAndBuildModel>,
    ws: Seq<Buildings>,
    deltas: Seq<u64>,
    rs: Seq<(Result, Option<Waypoint>)>,
    id: BuildingId,
    j: int,
) -> (res: (int, int))
    requires
        is_run(cs, ws, deltas, rs),
        starts_construction(cs[0], ws[0], id),
        0 <= j <= deltas.len(),
    ensures
        res.0 == 0 ==> walking_at(cs, ws, deltas, rs, id, j),
        res.0 == 1 ==> building_at(cs, ws, deltas, rs, id, j, res.1),
        res.0 == 2 ==> done_at(cs, ws, rs, id, j, res.1),
        0 <= res.0 <= 2,
    decreases j,
{
    let (a, b) = cs[0].motion.route.unwrap();
    let s = cs[0].motion.config.speed;
    if j == 0 {
        assert(dist_sq(a, b) >= 0) by (nonlinear_arith);
        return (0, 0);
    }
    let i = j - 1;
    let prev = lemma_run_phase(cs, ws, deltas, rs, id, i);
    lemma_elapsed_step(deltas, i);
    let d = deltas[i] as int;
    assert(ticked(cs[i], cs[i + 1], ws[i], ws[i + 1], d, rs[i]));
    if prev.0 == 0 {
        let t = cs[i].motion.traveled;
        assert(s * elapsed(deltas, j) == t + s * d) by (nonlinear_arith)
            requires
                t == s * elapsed(deltas, i),
                elapsed(deltas, j) == elapsed(deltas, i) + d,
        ;
        if arrives(a, b, t, s * d) {
            if d >= cs[0].progress.duration {
                assert forall|x: int| i < x <= j implies (#[trigger] ws[x]).is_live(id) && ws[x].get(id).state
                    == BuildingState::Completed && cs[x].state == MoveAndBuildState::Idle by {
                    assert(x == j);
                }
                (2, i)
            } else {
                assert(unfinished_until(ws, rs, id, j)) by {
                    assert forall|x: int| 0 <= x <= j implies (#[trigger] ws[x]).is_live(id)
                        && ws[x].get(id).state == BuildingState::Building by {
                        if x < j {
                            assert(unfinished_until(ws, rs, id, i));
                        }
                    }
                }
                (1, i)
            }
        } else {
            assert(unfinished_until(ws, rs, id, j)) by {
                assert forall|x: int| 0 <= x <= j implies (#[trigger] ws[x]).is_live(id) && ws[x].get(id).state
                    == BuildingState::Building by {
                    if x < j {
                        assert(unfinished_until(ws, rs, id, i));
                    } else {
                        assert(ws[j]@ == ws[i]@);
                    }
                }
            }
            (0, 0)
        }
    } else if prev.0 == 1 {
        let m = prev.1;
        if cs[i].progress.progress + d >= cs[i].progress.duration {
            assert forall|x: int| i < x <= j implies (#[trigger] ws[x]).is_live(id) && ws[x].get(id).state
                == BuildingState::Completed && cs[x].state == MoveAndBuildState::Idle by {
                assert(x == j);
            }
            (2, i)
        } else {
            assert(unfinished_until(ws, rs, id, j)) by {
                assert forall|x: int| 0 <= x <= j implies (#[trigger] ws[x]).is_live(id) && ws[x].get(id).state
                    == BuildingState::Building by {
                    if x < j {
                        assert(unfinished_until(ws, rs, id, i));
                    }
                }
            }
            (1, m)
        }
    } else {
        let k = prev.1;
        assert(cs[i].state == MoveAndBuildState::Idle);
        assert forall|x: int| k < x <= j implies (#[trigger] ws[x]).is_live(id) && ws[x].get(id).state
            == BuildingState::Completed && cs[x].state == MoveAndBuildState::Idle by {
            if x == j {
                assert(ws[j]@ == ws[i]@);
            }
        }
        (2, k)
    }
}

/// Construction finishes once enough time has passed: after
/// `start_construction`, ticks whose durations add up to at least the
/// walking time plus the building duration (`speed * (total - duration)`
/// beyond the distance to walk) give exactly one report of success while
/// the coordinator is busy (tick `k`); the structure is marked finished at
/// that tick and at no earlier one, in particular not while walking; every
/// earlier tick reports that the work is still running; and the coordinator
/// stays idle, with the structure finished, after it.
pub proof fn lemma_construction_completes(
    cs: Seq<MoveAndBuildModel>,
    ws: Seq<Buildings>,
    deltas: Seq<u64>,
    rs: Seq<(Result, Option<Waypoint>)>,
    id: BuildingId,
) -> (k: int)
    requires
        is_run(cs, ws, deltas, rs),
        starts_construction(cs[0], ws[0], id),
        ({
            let (a, b) = cs[0].motion.route.unwrap();
            let s = cs[0].motion.config.speed;
            let total = elapsed(deltas, deltas.len() as int);
            let dur = cs[0].progress.duration;
            total >= dur && dist_sq(a, b) < (s * (total - dur)) * (s * (total - dur))
        }),
    ensures
        0 <= k < deltas.len(),
        rs[k].0 == Result::Success,
        cs[k].state != MoveAndBuildState::Idle,
        unfinished_until(ws, rs, id, k),
        forall|i: int|
            k < i <= deltas.len() ==> (#[trigger] ws[i]).is_live(id) && ws[i].get(id).state
                == BuildingState::Completed && cs[i].state == MoveAndBuildState::Idle,
{
    let n = deltas.len() as int;
    let (a, b) = cs[0].motion.route.unwrap();
    let s = cs[0].motion.config.speed;
    let total = elapsed(deltas, n);
    let dur = cs[0].progress.duration;
    let res = lemma_run_phase(cs, ws, deltas, rs, id, n);
    if res.0 == 0 {
        lemma_square_monotone(s as int, total - dur, total);
        assert(false);
    } else if res.0 == 1 {
        let m = res.1;
        if m > 0 {
            lemma_elapsed_step(deltas, m - 1);
        }
        lemma_square_monotone(s as int, total - dur, elapsed(deltas, m));
        assert(false);
    }
    res.1
}

/// After a tick, every structure that was live is still live, and only the
/// coordinator's own structure may have changed.
pub proof fn lemma_ticked_keeps_live(
    c: MoveAndBuildModel,
    c2: MoveAndBuildModel,
    w: Buildings,
    w2: Buildings,
    delta: int,
    r: (Result, Option<Waypoint>),
)
    requires
        ticked(c, c2, w, w2, delta, r),
        (c.state == MoveAndBuildState::Idle) == (c.building is None),
    ensures
        w2@.len() == w@.len(),
        forall|id: BuildingId| w.is_live(id) ==> #[trigger] w2.is_live(id),
        forall|id: BuildingId| id < w@.len() && c.building != Some(id) ==> #[trigger] w2@[id as int] == w@[id as int],
{
    assert forall|id: BuildingId| w.is_live(id) implies #[trigger] w2.is_live(id) by {
        if c.building != Some(id) && c.state != MoveAndBuildState::Idle {
            assert(w2@[id as int] == w@[id as int]);
        }
    }
}

} // verus!
