use vstd::prelude::*;

use super::move_and_build_behaviour::{
    construction_started, deconstruction_started, lemma_ticked_keeps_live, ticked, MoveAndBuildBehaviour, MoveAndBuildModel,
    MoveAndBuildState,
};
use super::move_behaviour::{walked, MotionState, MoveBehaviour, Result, Waypoint};
use crate::building::{BuildingId, FieldState};
use crate::geometry::Point;
use crate::resources::inventory::{Inventory, InventoryResource};
use crate::world::World;

verus! {

/// What a farmer is doing.
#[derive(Clone, Copy, Debug, PartialEq, Eq, Structural)]
pub enum FarmerState {
    Idle,
    FieldBuilding,
    FieldRemoving,
    ReturningToHome,
}

pub struct FarmerBehaviourConfig {
    pub max_field_count: usize,
    pub field_building_radius: i64,
}

/// Outcome of a tick of work: the status, and where the agent goes next.
pub struct WorkResult {
    pub result: Result,
    pub next_position: Option<Waypoint>,
}

/// What a farmer holds: its phase, its fields (and the one under
/// construction), the field it is taking down, its home, its harvest, and
/// its coordinator and walk home.
pub ghost struct FarmerModel {
    pub state: FarmerState,
    pub fields: Seq<BuildingId>,
    pub pending_field: Option<BuildingId>,
    pub removing_field: Option<BuildingId>,
    pub home: Option<BuildingId>,
    pub max_field_count: int,
    pub harvest: Map<InventoryResource, int>,
    pub coordinator: MoveAndBuildModel,
    pub motion: MotionState,
}

/// Whether one of `fields` is grown in `world`.
pub open spec fn any_grown(world: &World, fields: Seq<BuildingId>) -> bool {
    exists|i: int|
        0 <= i < fields.len() && world.buildings.get(#[trigger] fields[i]).field_state
            == FieldState::Grown
}

/// `fields[i]` is the first of `fields` that is grown in `world`.
pub open spec fn is_first_grown(world: &World, fields: Seq<BuildingId>, i: int) -> bool {
    &&& 0 <= i < fields.len()
    &&& world.buildings.get(fields[i]).field_state == FieldState::Grown
    &&& forall|j: int| 0 <= j < i ==> world.buildings.get(#[trigger] fields[j]).field_state != FieldState::Grown
}

/// The task an idle farmer takes up: harvest where a field is grown, else
/// plant while it has fewer fields than its maximum, else none.
pub open spec fn idle_choice(world: &World, fields: Seq<BuildingId>, max_field_count: int) -> FarmerState {
    if any_grown(world, fields) {
        FarmerState::FieldRemoving
    } else if fields.len() < max_field_count {
        FarmerState::FieldBuilding
    } else {
        FarmerState::Idle
    }
}

/// `s` without the entries equal to `x`, in order.
pub open spec fn without(s: Seq<BuildingId>, x: BuildingId) -> Seq<BuildingId>
    decreases s.len(),
{
    if s.len() == 0 {
        s
    } else if s.last() == x {
        without(s.drop_last(), x)
    } else {
        without(s.drop_last(), x).push(s.last())
    }
}

/// The amount of `r` in `m`, zero where it has no entry.
pub open spec fn held_in(m: Map<InventoryResource, int>, r: InventoryResource) -> int {
    if m.contains_key(r) {
        m[r]
    } else {
        0
    }
}

/// The occupancy grid of `w2` is that of `w`.
pub open spec fn same_grid(w: World, w2: World) -> bool {
    &&& w2.grid@ == w.grid@
    &&& w2.grid.cell_x() == w.grid.cell_x()
    &&& w2.grid.cell_y() == w.grid.cell_y()
}

/// `w2` is `w`, grid and structures.
pub open spec fn same_world(w: World, w2: World) -> bool {
    same_grid(w, w2) && w2.buildings@ == w.buildings@
}

/// A tick with `delta` while planting: the coordinator ticks; on its
/// success the new field joins the farmer's fields and the farmer is idle.
pub open spec fn field_built(f: FarmerModel, f2: FarmerModel, w: World, w2: World, delta: int, r: WorkResult) -> bool {
    &&& ticked(f.coordinator, f2.coordinator, w.buildings, w2.buildings, delta, (r.result, r.next_position))
    &&& same_grid(w, w2)
    &&& if r.result == Result::Running {
        f2 == (FarmerModel { coordinator: f2.coordinator, ..f })
    } else {
        f2 == (FarmerModel {
            coordinator: f2.coordinator,
            state: FarmerState::Idle,
            fields: f.fields.push(f.pending_field.unwrap()),
            pending_field: None,
            ..f
        })
    }
}

/// A tick with `delta` while walking home: the walk goes on; on arrival the
/// home's store takes the whole harvest (where every sum fits; otherwise
/// both stay as they were) and the farmer is idle.
pub open spec fn walked_home(f: FarmerModel, f2: FarmerModel, w: World, w2: World, delta: int, r: WorkResult) -> bool {
    let h = f.home.unwrap();
    let store = w.buildings.get(h).inventory;
    let fit = forall|res: InventoryResource|
        i32::MIN <= #[trigger] store.held(res) + held_in(f.harvest, res) <= i32::MAX;
    &&& r.next_position is Some
    &&& walked(f.motion, f2.motion, delta, (r.result, r.next_position.unwrap()))
    &&& same_grid(w, w2)
    &&& if r.result == Result::Running {
        &&& f2 == (FarmerModel { motion: f2.motion, ..f })
        &&& w2.buildings@ == w.buildings@
    } else {
        &&& f2 == (FarmerModel { motion: f2.motion, harvest: f2.harvest, state: FarmerState::Idle, ..f })
        &&& w2.buildings.same_except(&w.buildings, h)
        &&& w2.buildings.is_live(h)
        &&& fit ==> f2.harvest == Map::<InventoryResource, int>::empty()
            && w2.buildings.get(h).inventory@ == Map::new(
                |res: InventoryResource| store@.contains_key(res) || f.harvest.contains_key(res),
                |res: InventoryResource| store.held(res) + held_in(f.harvest, res),
            )
            && w2.buildings.get(h) == (crate::building::Building {
                inventory: w2.buildings.get(h).inventory,
                ..w.buildings.get(h)
            })
        &&& !fit ==> f2.harvest == f.harvest && w2.buildings@ == w.buildings@
    }
}

/// After the coordinator has taken field `f.removing_field` down (its
/// structures then being `wb`): the field's cell is released, its slot
/// emptied, it leaves the farmer's fields, and one wheat is credited (while
/// the count can grow).
pub open spec fn field_removed(f: FarmerModel, f2: FarmerModel, w: World, wb: crate::building::Buildings, w2: World) -> bool {
    let fid = f.removing_field.unwrap();
    let wheat = InventoryResource::Wheat;
    &&& w2.grid@ == w.grid@.remove(w.grid.cell_id_of(wb.get(fid).position))
    &&& w2.grid.cell_x() == w.grid.cell_x()
    &&& w2.grid.cell_y() == w.grid.cell_y()
    &&& w2.buildings@ == wb@.update(fid as int, None)
    &&& f2 == (FarmerModel {
        fields: without(f.fields, fid),
        removing_field: None,
        harvest: if held_in(f.harvest, wheat) < i32::MAX {
            f.harvest.insert(wheat, held_in(f.harvest, wheat) + 1)
        } else {
            f.harvest
        },
        ..f
    })
}

/// The walk home from `position` to the home, as `start_moving` sets it.
pub open spec fn homeward(f: FarmerModel, w: World, position: Point) -> FarmerModel {
    FarmerModel {
        state: FarmerState::ReturningToHome,
        motion: MotionState {
            route: Some((position, w.buildings.get(f.home.unwrap()).position)),
            traveled: 0,
            moving_time: 0,
            ..f.motion
        },
        ..f
    }
}

/// A tick with `delta` while taking a field down, the agent being at
/// `position`: the coordinator ticks; on its success the field is removed
/// (`field_removed`) and the farmer walks home from `position`, taking the
/// first step of the walk in the same tick; without a home it is idle.
pub open spec fn field_removal_ticked(
    f: FarmerModel,
    f2: FarmerModel,
    w: World,
    w2: World,
    delta: int,
    position: Point,
    r: WorkResult,
) -> bool {
    ||| {
        &&& r.result == Result::Running
        &&& ticked(f.coordinator, f2.coordinator, w.buildings, w2.buildings, delta, (r.result, r.next_position))
        &&& f2 == (FarmerModel { coordinator: f2.coordinator, ..f })
        &&& same_grid(w, w2)
    }
    ||| exists|c2: MoveAndBuildModel, wb: crate::building::Buildings, fm: FarmerModel, wm: World|
        #[trigger] ticked(f.coordinator, c2, w.buildings, wb, delta, (Result::Success, Option::<Waypoint>::None))
        && #[trigger] field_removed(FarmerModel { coordinator: c2, ..f }, fm, w, wb, wm)
        && match f.home {
            Some(h) => walked_home(homeward(fm, wm, position), f2, wm, w2, delta, r),
            None => f2 == (FarmerModel { state: FarmerState::Idle, ..fm }) && same_world(wm, w2)
                && r.result == Result::Success && r.next_position is None,
        }
}

/// One call of `work` with `delta`, the agent being at `position`, takes
/// the farmer from `f` to `f2` and the world from `w` to `w2`, reporting
/// `r`. Idle, it takes up the task of `idle_choice`: harvesting the first
/// grown field, or planting a new field (unless no cell is free), or
/// nothing; the task's first tick follows in the same call.
pub open spec fn worked(f: FarmerModel, f2: FarmerModel, w: World, w2: World, delta: int, position: Point, r: WorkResult) -> bool {
    match f.state {
        FarmerState::Idle => match idle_choice(&w, f.fields, f.max_field_count) {
            FarmerState::FieldRemoving => exists|i: int, c1: MoveAndBuildModel|
                #[trigger] is_first_grown(&w, f.fields, i) && #[trigger] deconstruction_started(
                    f.coordinator,
                    c1,
                    w.buildings,
                    f.fields[i],
                    position,
                ) && field_removal_ticked(
                    FarmerModel {
                        state: FarmerState::FieldRemoving,
                        removing_field: Some(f.fields[i]),
                        coordinator: c1,
                        ..f
                    },
                    f2,
                    w,
                    w2,
                    delta,
                    position,
                    r,
                ),
            FarmerState::FieldBuilding => {
                ||| {
                    &&& r.result == Result::Success
                    &&& r.next_position is None
                    &&& f2 == f
                    &&& same_world(w, w2)
                    &&& forall|q: (int, int)| #[trigger] w.grid.cell_in_world(q) ==> w.grid@.contains(q)
                }
                ||| exists|c1: MoveAndBuildModel, w1: World, id: BuildingId|
                    #[trigger] construction_started(f.coordinator, c1, w, w1, position, id) && field_built(
                        FarmerModel {
                            state: FarmerState::FieldBuilding,
                            pending_field: Some(id),
                            coordinator: c1,
                            ..f
                        },
                        f2,
                        w1,
                        w2,
                        delta,
                        r,
                    )
            },
            _ => {
                &&& r.result == Result::Success
                &&& r.next_position is None
                &&& f2 == f
                &&& same_world(w, w2)
            },
        },
        FarmerState::FieldBuilding => field_built(f, f2, w, w2, delta, r),
        FarmerState::FieldRemoving => field_removal_ticked(f, f2, w, w2, delta, position, r),
        FarmerState::ReturningToHome => walked_home(f, f2, w, w2, delta, r),
    }
}

/// Plants fields, harvests them when grown and brings the harvest home.
pub struct FarmerBehaviour {
    state: FarmerState,
    field_build_behaviour: MoveAndBuildBehaviour,
    move_behaviour: MoveBehaviour,
    fields: Vec<BuildingId>,
    pending_field: Option<BuildingId>,
    config: FarmerBehaviourConfig,
    removing_field: Option<BuildingId>,
    inventory: Inventory,
    agent_name: String,
    home: Option<BuildingId>,
}

impl FarmerBehaviour {
    pub closed spec fn view(&self) -> FarmerModel {
        FarmerModel {
            state: self.state,
            fields: self.fields@,
            pending_field: self.pending_field,
            removing_field: self.removing_field,
            home: self.home,
            max_field_count: self.config.max_field_count as int,
            harvest: self.inventory@,
            coordinator: self.field_build_behaviour@,
            motion: self.move_behaviour@,
        }
    }

    pub closed spec fn wf(&self) -> bool {
        &&& self.field_build_behaviour.wf()
        &&& self.move_behaviour.wf()
        &&& self.inventory.wf()
        &&& self.fields@.len() <= self.config.max_field_count
        &&& self.state == FarmerState::ReturningToHome ==> self.move_behaviour.is_started()
            && self.home is Some
        &&& self.state == FarmerState::FieldRemoving ==> self.removing_field is Some
            && self.field_build_behaviour@.state != MoveAndBuildState::Idle
            && self.field_build_behaviour@.building == self.removing_field
        &&& self.state == FarmerState::FieldBuilding ==> self.pending_field is Some
            && self.field_build_behaviour@.state != MoveAndBuildState::Idle
            && self.field_build_behaviour@.building == self.pending_field
            && self.fields@.len() < self.config.max_field_count
    }

    /// Every structure the farmer refers to is one of `world`'s, and its
    /// home is none of its fields.
    pub closed spec fn fits(&self, world: &World) -> bool {
        &&& self.field_build_behaviour.fits(world)
        &&& forall|i: int|
            0 <= i < self.fields@.len() ==> world.buildings.is_live(#[trigger] self.fields@[i])
        &&& match self.home {
            Some(h) => world.buildings.is_live(h) && !self.fields@.contains(h)
                && self.field_build_behaviour@.building != Some(h) && self.pending_field != Some(h),
            None => true,
        }
        &&& match self.removing_field {
            Some(f) => world.buildings.is_live(f) && self.home != Some(f),
            None => true,
        }
        &&& match self.pending_field {
            Some(p) => world.buildings.is_live(p) && !self.fields@.contains(p) && self.removing_field
                != Some(p),
            None => true,
        }
    }

    pub fn new(
        field_build_behaviour: MoveAndBuildBehaviour,
        move_behaviour: MoveBehaviour,
        farmer_config: FarmerBehaviourConfig,
    ) -> (r: FarmerBehaviour)
        requires
            field_build_behaviour.wf(),
            field_build_behaviour@.state == MoveAndBuildState::Idle,
            field_build_behaviour@.building is None,
            move_behaviour.wf(),
        ensures
            r.wf(),
            r@.state == FarmerState::Idle,
            r@.fields == Seq::<BuildingId>::empty(),
            r@.pending_field is None,
            r@.home is None,
            r@.removing_field is None,
            r@.max_field_count == farmer_config.max_field_count,
            r@.harvest == Map::<InventoryResource, int>::empty(),
            forall|w: &World| #[trigger] r.fits(w),
    {
        FarmerBehaviour {
            state: FarmerState::Idle,
            field_build_behaviour,
            move_behaviour,
            fields: Vec::new(),
            pending_field: None,
            config: farmer_config,
            removing_field: None,
            inventory: Inventory::new(),
            agent_name: String::new(),
            home: None,
        }
    }

    pub fn state(&self) -> (r: FarmerState)
        ensures
            r == self@.state,
    {
        self.state
    }

    pub fn fields(&self) -> (r: &Vec<BuildingId>)
        ensures
            r@ == self@.fields,
    {
        &self.fields
    }

    pub fn harvest(&self, resource: InventoryResource) -> (r: i32)
        requires
            self.wf(),
        ensures
            r == (if self@.harvest.contains_key(resource) {
                self@.harvest[resource]
            } else {
                0
            }),
    {
        self.inventory.amount(resource)
    }

    /// Whether one of the farmer's fields is grown.
    pub fn is_any_field_completed(&self, world: &World) -> (r: bool)
        requires
            world.wf(),
            self.fits(world),
        ensures
            r == any_grown(world, self@.fields),
    {
        self.first_grown_field(world).is_some()
    }

    /// The first of the farmer's fields that is grown, if any.
    fn first_grown_field(&self, world: &World) -> (r: Option<usize>)
        requires
            world.wf(),
            self.fits(world),
        ensures
            match r {
                Some(i) => i < self.fields@.len() && world.buildings.get(self.fields@[i as int]).field_state
                    == FieldState::Grown && forall|j: int|
                    0 <= j < i ==> world.buildings.get(#[trigger] self.fields@[j]).field_state
                        != FieldState::Grown,
                None => !any_grown(world, self@.fields),
            },
    {
        let mut i: usize = 0;
        while i < self.fields.len()
            invariant
                i <= self.fields@.len(),
                self.fits(world),
                forall|j: int|
                    0 <= j < i ==> world.buildings.get(#[trigger] self.fields@[j]).field_state
                        != FieldState::Grown,
            decreases self.fields@.len() - i,
        {
            if world.buildings.is_grown(self.fields[i]) {
                return Some(i);
            }
            i = i + 1;
        }
        None
    }

    /// Whether the farmer has something to do: a grown field, or room for
    /// another field.
    pub fn is_work_available(&self, world: &World) -> (r: bool)
        requires
            world.wf(),
            self.fits(world),
        ensures
            r == (self@.fields.len() < self@.max_field_count || any_grown(world, self@.fields)),
    {
        self.fields.len() < self.config.max_field_count || self.is_any_field_completed(world)
    }

    /// The task the farmer takes up when idle: a grown field comes first,
    /// whatever the number of fields; then planting, while there is room.
    pub fn idle_decision(&self, world: &World) -> (r: FarmerState)
        requires
            world.wf(),
            self.fits(world),
        ensures
            r == idle_choice(world, self@.fields, self@.max_field_count),
    {
        if self.is_any_field_completed(world) {
            FarmerState::FieldRemoving
        } else if self.fields.len() < self.config.max_field_count {
            FarmerState::FieldBuilding
        } else {
            FarmerState::Idle
        }
    }

    /// Takes up work for the home `home`; the farmer starts idle.
    pub fn start_work(&mut self, world: &World, home: BuildingId, agent_name: String)
        requires
            old(self).wf(),
            world.wf(),
            old(self).fits(world),
            world.buildings.is_live(home),
            old(self).can_take_home(home),
        ensures
            final(self).wf(),
            final(self).fits(world),
            final(self)@ == (FarmerModel {
                home: Some(home),
                state: FarmerState::Idle,
                ..old(self)@
            }),
    {
        self.home = Some(home);
        self.state = FarmerState::Idle;
        self.agent_name = agent_name;
    }

    /// Whether `home` may be handed to `start_work`: it is none of the
    /// structures the farmer works on.
    pub open spec fn can_take_home(&self, home: BuildingId) -> bool {
        &&& !self@.fields.contains(home)
        &&& self@.removing_field != Some(home)
        &&& self@.pending_field != Some(home)
        &&& self@.coordinator.building != Some(home)
    }

    /// A farmer keeps its home apart from its fields.
    pub proof fn lemma_own_home(&self, world: &World)
        requires
            self.fits(world),
            self@.home is Some,
        ensures
            self.can_take_home(self@.home.unwrap()),
            world.buildings.is_live(self@.home.unwrap()),
    {
    }

    /// A structure that is newer than all the farmer's may be its home.
    pub proof fn lemma_new_home(&self, world: &World, home: BuildingId)
        requires
            self.wf(),
            self.fits(world),
            home >= world.buildings@.len(),
        ensures
            self.can_take_home(home),
    {
        if self@.fields.contains(home) {
            let i = choose|i: int| 0 <= i < self@.fields.len() && self@.fields[i] == home;
            assert(world.buildings.is_live(self.fields@[i]));
        }
    }

    /// The farmer still refers to the same live structures after `world`
    /// changes into `world2` without losing any structure.
    pub proof fn lemma_fits_grow(&self, world: &World, world2: &World)
        requires
            self.fits(world),
            forall|id: BuildingId| world.buildings.is_live(id) ==> #[trigger] world2.buildings.is_live(id),
        ensures
            self.fits(world2),
    {
    }

    fn start_field_building<W: Fn(i64, i64, u64) -> u64>(
        &mut self,
        world: &mut World,
        agent_position: Point,
        weight: &W,
    ) -> (r: bool)
        requires
            old(self).wf(),
            old(world).wf(),
            old(self).fits(old(world)),
            old(self)@.state == FarmerState::Idle,
            old(self)@.fields.len() < old(self)@.max_field_count,
            agent_position.in_world(),
            forall|dx: i64, dy: i64, d: u64| weight.requires((dx, dy, d)),
        ensures
            final(self).wf(),
            final(world).wf(),
            final(self).fits(final(world)),
            r ==> exists|id: BuildingId|
                #[trigger] construction_started(
                    old(self)@.coordinator,
                    final(self)@.coordinator,
                    *old(world),
                    *final(world),
                    agent_position,
                    id,
                ) && final(self)@ == (FarmerModel {
                    state: FarmerState::FieldBuilding,
                    pending_field: Some(id),
                    coordinator: final(self)@.coordinator,
                    ..old(self)@
                }),
            !r ==> final(self)@ == old(self)@ && same_world(*old(world), *final(world))
                && forall|q: (int, int)| #[trigger]
                old(world).grid.cell_in_world(q) ==> old(world).grid@.contains(q),
    {
        let agent_name = self.agent_name.clone();
        self.field_build_behaviour.set_agent_name(agent_name);
        match self.field_build_behaviour.start_construction(world, agent_position, weight) {
            Some(field) => {
                self.pending_field = Some(field);
                self.state = FarmerState::FieldBuilding;
                true
            },
            None => false,
        }
    }

    fn start_field_removing(&mut self, world: &World, agent_position: Point)
        requires
            old(self).wf(),
            world.wf(),
            old(self).fits(world),
            old(self)@.state == FarmerState::Idle,
            any_grown(world, old(self)@.fields),
            agent_position.in_world(),
        ensures
            final(self).wf(),
            final(self).fits(world),
            exists|i: int|
                #[trigger] is_first_grown(world, old(self)@.fields, i) && deconstruction_started(
                    old(self)@.coordinator,
                    final(self)@.coordinator,
                    world.buildings,
                    old(self)@.fields[i],
                    agent_position,
                ) && final(self)@ == (FarmerModel {
                    state: FarmerState::FieldRemoving,
                    removing_field: Some(old(self)@.fields[i]),
                    coordinator: final(self)@.coordinator,
                    ..old(self)@
                }),
    {
        match self.first_grown_field(world) {
            Some(i) => {
                let field = self.fields[i];
                self.removing_field = Some(field);
                self.field_build_behaviour.start_deconstruction(world, field, agent_position);
                self.state = FarmerState::FieldRemoving;
                assert(is_first_grown(world, old(self)@.fields, i as int));
            },
            None => {},
        }
    }

    /// The farmer's fields but `field`.
    fn without_field(fields: &Vec<BuildingId>, field: BuildingId) -> (r: Vec<BuildingId>)
        ensures
            r@ == without(fields@, field),
    {
        let mut out: Vec<BuildingId> = Vec::new();
        let mut i: usize = 0;
        while i < fields.len()
            invariant
                i <= fields@.len(),
                out@ == without(fields@.subrange(0, i as int), field),
            decreases fields@.len() - i,
        {
            let f = fields[i];
            assert(fields@.subrange(0, i + 1).drop_last() =~= fields@.subrange(0, i as int));
            if f != field {
                out.push(f);
            }
            i = i + 1;
        }
        assert(fields@.subrange(0, fields@.len() as int) =~= fields@);
        out
    }

    /// Removes the field taken down: releases its cell, destroys it, and
    /// credits one wheat to the farmer (while the count can grow).
    fn finish_field_removing(&mut self, world: &mut World)
        requires
            old(self).wf(),
            old(world).wf(),
            old(self).fits(old(world)),
            old(self)@.state == FarmerState::Idle,
            old(self)@.removing_field is Some,
            old(self)@.coordinator.building is None,
        ensures
            final(self).wf(),
            final(world).wf(),
            final(self).fits(final(world)),
            field_removed(old(self)@, final(self)@, *old(world), old(world).buildings, *final(world)),
    {
        let field = self.removing_field.unwrap();
        proof {
            lemma_without(self.fields@, field);
            assert forall|i: int| 0 <= i < without(self.fields@, field).len() implies world.buildings.is_live(
                #[trigger] without(self.fields@, field)[i],
            ) by {
                let j = choose|j: int| 0 <= j < self.fields@.len() && self.fields@[j] == without(self.fields@, field)[i];
                assert(world.buildings.is_live(self.fields@[j]));
            }
        }
        self.fields = Self::without_field(&self.fields, field);
        let position = world.buildings.position_of(field);
        world.grid.remove_occupied_position(position);
        world.buildings.destroy(field);
        self.removing_field = None;
        if self.inventory.amount(InventoryResource::Wheat) < i32::MAX {
            self.inventory.add(InventoryResource::Wheat, 1);
        }
    }

    fn start_returning_to_home(&mut self, world: &World, agent_position: Point)
        requires
            old(self).wf(),
            world.wf(),
            old(self).fits(world),
            agent_position.in_world(),
            old(self)@.home is Some,
            old(self)@.state == FarmerState::Idle,
        ensures
            final(self).wf(),
            final(self).fits(world),
            final(self)@ == homeward(old(self)@, *world, agent_position),
    {
        let home = self.home.unwrap();
        let home_position = world.buildings.position_of(home);
        self.move_behaviour.start_moving(agent_position, home_position);
        self.state = FarmerState::ReturningToHome;
    }

    fn tick_field_building(&mut self, world: &mut World, delta: u64) -> (r: WorkResult)
        requires
            old(self).wf(),
            old(world).wf(),
            old(self).fits(old(world)),
            old(self)@.state == FarmerState::FieldBuilding,
        ensures
            final(self).wf(),
            final(world).wf(),
            final(self).fits(final(world)),
            field_built(old(self)@, final(self)@, *old(world), *final(world), delta as int, r),
    {
        proof {
            self.field_build_behaviour.lemma_busy();
        }
        let (result, next_position) = self.field_build_behaviour.build(world, delta);
        proof {
            lemma_ticked_keeps_live(old(self)@.coordinator, self@.coordinator, old(world).buildings, world.buildings, delta as int, (result, next_position));
        }
        if result == Result::Running {
            return WorkResult { result, next_position };
        }
        let field = self.pending_field.unwrap();
        self.fields.push(field);
        self.pending_field = None;
        self.state = FarmerState::Idle;
        WorkResult { result: Result::Success, next_position }
    }

    fn tick_returning(&mut self, world: &mut World, delta: u64) -> (r: WorkResult)
        requires
            old(self).wf(),
            old(world).wf(),
            old(self).fits(old(world)),
            old(self)@.state == FarmerState::ReturningToHome,
        ensures
            final(self).wf(),
            final(world).wf(),
            final(self).fits(final(world)),
            walked_home(old(self)@, final(self)@, *old(world), *final(world), delta as int, r),
    {
        let (result, next_position) = self.move_behaviour.move_agent(delta);
        if result == Result::Running {
            return WorkResult { result, next_position: Some(next_position) };
        }
        let home = self.home.unwrap();
        let ghost store = world.buildings.get(home).inventory;
        let ghost harvest = self.inventory;
        let moved = world.buildings.store_all(home, &mut self.inventory);
        proof {
            assert forall|res: InventoryResource| #[trigger] harvest.held(res) == held_in(harvest@, res) by {}
            let fit = forall|res: InventoryResource|
                i32::MIN <= #[trigger] store.held(res) + held_in(harvest@, res) <= i32::MAX;
            assert(fit == moved);
            if moved {
                assert(world.buildings.get(home).inventory@ =~= Map::new(
                    |res: InventoryResource| store@.contains_key(res) || harvest@.contains_key(res),
                    |res: InventoryResource| store.held(res) + held_in(harvest@, res),
                ));
            }
        }
        self.state = FarmerState::Idle;
        WorkResult { result: Result::Success, next_position: Some(next_position) }
    }

    fn tick_field_removing(&mut self, world: &mut World, delta: u64, agent_position: Point) -> (r: WorkResult)
        requires
            old(self).wf(),
            old(world).wf(),
            old(self).fits(old(world)),
            old(self)@.state == FarmerState::FieldRemoving,
            agent_position.in_world(),
        ensures
            final(self).wf(),
            final(world).wf(),
            final(self).fits(final(world)),
            field_removal_ticked(old(self)@, final(self)@, *old(world), *final(world), delta as int, agent_position, r),
    {
        proof {
            self.field_build_behaviour.lemma_busy();
        }
        let (result, next_position) = self.field_build_behaviour.build(world, delta);
        proof {
            lemma_ticked_keeps_live(old(self)@.coordinator, self@.coordinator, old(world).buildings, world.buildings, delta as int, (result, next_position));
        }
        if result == Result::Running {
            return WorkResult { result, next_position };
        }
        let ghost c2 = self@.coordinator;
        let ghost wb = world.buildings;
        self.state = FarmerState::Idle;
        self.finish_field_removing(world);
        let ghost fm = FarmerModel { state: FarmerState::FieldRemoving, ..self@ };
        let ghost wm = *world;
        assert(field_removed(FarmerModel { coordinator: c2, ..old(self)@ }, fm, *old(world), wb, wm));
        match self.home {
            Some(_) => {
                self.start_returning_to_home(world, agent_position);
                assert(self@ == homeward(fm, wm, agent_position));
                let r = self.tick_returning(world, delta);
                assert(ticked(old(self)@.coordinator, c2, old(world).buildings, wb, delta as int, (Result::Success, Option::<Waypoint>::None)));
                r
            },
            None => {
                let r = WorkResult { result: Result::Success, next_position: None };
                assert(ticked(old(self)@.coordinator, c2, old(world).buildings, wb, delta as int, (Result::Success, Option::<Waypoint>::None)));
                r
            },
        }
    }

    /// Works for `delta`, the agent being at `agent_position`; see `worked`.
    /// Reports success once the farmer is idle again, and where the agent
    /// goes next.
    pub fn work<W: Fn(i64, i64, u64) -> u64>(
        &mut self,
        world: &mut World,
        delta: u64,
        agent_position: Point,
        weight: &W,
    ) -> (r: WorkResult)
        requires
            old(self).wf(),
            old(world).wf(),
            old(self).fits(old(world)),
            agent_position.in_world(),
            forall|dx: i64, dy: i64, d: u64| weight.requires((dx, dy, d)),
        ensures
            final(self).wf(),
            final(world).wf(),
            final(self).fits(final(world)),
            worked(old(self)@, final(self)@, *old(world), *final(world), delta as int, agent_position, r),
            final(self)@.home == old(self)@.home,
            final(self)@.max_field_count == old(self)@.max_field_count,
            final(self)@.fields.len() <= final(self)@.max_field_count,
            r.result == Result::Success <==> final(self)@.state == FarmerState::Idle,
    {
        if self.state == FarmerState::Idle {
            let choice = self.idle_decision(world);
            if choice == FarmerState::FieldRemoving {
                self.start_field_removing(world, agent_position);
                let ghost f1 = self@;
                let ghost i = choose|i: int|
                    #[trigger] is_first_grown(&*old(world), old(self)@.fields, i) && deconstruction_started(
                        old(self)@.coordinator,
                        f1.coordinator,
                        old(world).buildings,
                        old(self)@.fields[i],
                        agent_position,
                    ) && f1 == (FarmerModel {
                        state: FarmerState::FieldRemoving,
                        removing_field: Some(old(self)@.fields[i]),
                        coordinator: f1.coordinator,
                        ..old(self)@
                    });
                let r = self.tick_field_removing(world, delta, agent_position);
                assert(is_first_grown(&*old(world), old(self)@.fields, i) && deconstruction_started(
                    old(self)@.coordinator,
                    f1.coordinator,
                    old(world).buildings,
                    old(self)@.fields[i],
                    agent_position,
                ));
                proof {
                    self.lemma_wf_facts();
                }
                return r;
            } else if choice == FarmerState::FieldBuilding {
                if !self.start_field_building(world, agent_position, weight) {
                    return WorkResult { result: Result::Success, next_position: None };
                }
                let ghost f1 = self@;
                let ghost w1 = *world;
                let ghost id = choose|id: BuildingId|
                    #[trigger] construction_started(old(self)@.coordinator, f1.coordinator, *old(world), w1, agent_position, id)
                        && f1 == (FarmerModel {
                        state: FarmerState::FieldBuilding,
                        pending_field: Some(id),
                        coordinator: f1.coordinator,
                        ..old(self)@
                    });
                let r = self.tick_field_building(world, delta);
                assert(construction_started(old(self)@.coordinator, f1.coordinator, *old(world), w1, agent_position, id));
                proof {
                    self.lemma_wf_facts();
                }
                return r;
            } else {
                proof {
                    self.lemma_wf_facts();
                }
                return WorkResult { result: Result::Success, next_position: None };
            }
        }
        let r = if self.state == FarmerState::FieldBuilding {
            self.tick_field_building(world, delta)
        } else if self.state == FarmerState::FieldRemoving {
            self.tick_field_removing(world, delta, agent_position)
        } else {
            self.tick_returning(world, delta)
        };
        proof {
            self.lemma_wf_facts();
        }
        r
    }

    proof fn lemma_wf_facts(&self)
        requires
            self.wf(),
        ensures
            self@.fields.len() <= self@.max_field_count,
    {
    }
}

proof fn lemma_without(s: Seq<BuildingId>, x: BuildingId)
    ensures
        without(s, x).len() <= s.len(),
        forall|i: int|
            0 <= i < without(s, x).len() ==> #[trigger] without(s, x)[i] != x && s.contains(without(s, x)[i]),
    decreases s.len(),
{
    if s.len() > 0 {
        lemma_without(s.drop_last(), x);
        let r = without(s.drop_last(), x);
        assert forall|i: int| 0 <= i < without(s, x).len() implies #[trigger] without(s, x)[i] != x
            && s.contains(without(s, x)[i]) by {
            if i < r.len() {
                assert(without(s, x)[i] == r[i]);
                let j = choose|j: int| 0 <= j < s.drop_last().len() && s.drop_last()[j] == r[i];
                assert(s[j] == r[i]);
            } else {
                assert(s[s.len() - 1] == s.last());
            }
        }
    }
}

/// Constructing a structure and then taking it down and removing it
/// returns the cell it took to the free cells and leaves its handle dead:
/// the site was free before construction reserved it (`start_construction`),
/// and removal releases that cell and destroys the structure (`work`, through
/// `field_removed`).
pub proof fn lemma_construct_then_remove(
    before: &World,
    built: &World,
    removed: &World,
    id: BuildingId,
    cell: (int, int),
)
    requires
        !before.grid@.contains(cell),
        built.grid@ == before.grid@.insert(cell),
        built.buildings.is_live(id),
        removed.grid@ == built.grid@.remove(cell),
        removed.buildings@ == built.buildings@.update(id as int, None),
    ensures
        removed.grid@ == before.grid@,
        !removed.buildings.is_live(id),
        removed.buildings@.len() == built.buildings@.len(),
{
    assert(removed.grid@ =~= before.grid@);
}

} // verus!
