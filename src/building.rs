use vstd::prelude::*;

use crate::geometry::Point;
use crate::resources::inventory::{Inventory, InventoryResource};

verus! {

/// Whether a structure is still under construction.
#[derive(Clone, Copy, Debug, PartialEq, Eq, Structural)]
pub enum BuildingState {
    Building,
    Completed,
}

/// Growth of a field's crop.
#[derive(Clone, Copy, Debug, PartialEq, Eq, Structural)]
pub enum FieldState {
    Growing,
    Grown,
}

/// What a structure is.
#[derive(Clone, Copy, Debug, PartialEq, Eq, Structural)]
pub enum BuildingKind {
    Home,
    Field,
}

/// Stable handle of a structure in a `Buildings` arena.
pub type BuildingId = usize;

/// A structure of the world: a home or a field.
pub struct Building {
    pub kind: BuildingKind,
    pub position: Point,
    /// Fraction built, in parts per million.
    pub progress: u64,
    pub state: BuildingState,
    pub field_state: FieldState,
    pub grow_progress: u64,
    pub grow_duration: u64,
    pub inventory: Inventory,
}

impl Building {
    pub open spec fn wf(&self) -> bool {
        self.inventory.wf() && self.position.in_world() && self.grow_duration > 0
    }
}

/// The structures of the world, each under a stable id; a destroyed
/// structure leaves its slot empty, so no id is ever reused.
pub struct Buildings {
    slots: Vec<Option<Building>>,
    field_grow_duration: u64,
}

impl Buildings {
    pub closed spec fn view(&self) -> Seq<Option<Building>> {
        self.slots@
    }

    /// Time a new field takes to grow.
    pub closed spec fn grow_duration(&self) -> int {
        self.field_grow_duration as int
    }

    pub open spec fn wf(&self) -> bool {
        &&& self.grow_duration() > 0
        &&& forall|i: int| 0 <= i < self@.len() && (#[trigger] self@[i]) is Some ==> self@[i]->Some_0.wf()
    }

    pub open spec fn is_live(&self, id: BuildingId) -> bool {
        id < self@.len() && self@[id as int] is Some
    }

    /// The structure under `id`.
    pub open spec fn get(&self, id: BuildingId) -> Building {
        self@[id as int]->Some_0
    }

    /// Every slot but `id` is as in `other`.
    pub open spec fn same_except(&self, other: &Buildings, id: BuildingId) -> bool {
        &&& self@.len() == other@.len()
        &&& self.grow_duration() == other.grow_duration()
        &&& forall|i: int| 0 <= i < self@.len() && i != id ==> #[trigger] self@[i] == other@[i]
    }

    /// An empty arena whose fields take `field_grow_duration` to grow.
    pub fn new(field_grow_duration: u64) -> (r: Buildings)
        requires
            field_grow_duration > 0,
        ensures
            r.wf(),
            r@ == Seq::<Option<Building>>::empty(),
            r.grow_duration() == field_grow_duration,
    {
        Buildings { slots: Vec::new(), field_grow_duration }
    }

    pub fn len(&self) -> (r: usize)
        ensures
            r == self@.len(),
    {
        self.slots.len()
    }

    pub fn is_alive(&self, id: BuildingId) -> (r: bool)
        ensures
            r == self.is_live(id),
    {
        id < self.slots.len() && self.slots[id].is_some()
    }

    /// Creates a structure of `kind` at `position`, under construction,
    /// and returns its id.
    pub fn create_at(&mut self, kind: BuildingKind, position: Point) -> (r: BuildingId)
        requires
            old(self).wf(),
            position.in_world(),
        ensures
            final(self).wf(),
            r == old(self)@.len(),
            final(self).grow_duration() == old(self).grow_duration(),
            final(self)@.len() == old(self)@.len() + 1,
            forall|i: int| 0 <= i < old(self)@.len() ==> #[trigger] final(self)@[i] == old(self)@[i],
            final(self).is_live(r),
            final(self).get(r).kind == kind,
            final(self).get(r).position == position,
            final(self).get(r).progress == 0,
            final(self).get(r).state == BuildingState::Building,
            final(self).get(r).field_state == FieldState::Growing,
            final(self).get(r).grow_progress == 0,
            final(self).get(r).grow_duration == old(self).grow_duration(),
            final(self).get(r).inventory@ == Map::<InventoryResource, int>::empty(),
    {
        let b = Building {
            kind,
            position,
            progress: 0,
            state: BuildingState::Building,
            field_state: FieldState::Growing,
            grow_progress: 0,
            grow_duration: self.field_grow_duration,
            inventory: Inventory::new(),
        };
        let id = self.slots.len();
        self.slots.push(Some(b));
        id
    }

    /// Where the structure `id` stands.
    pub fn position_of(&self, id: BuildingId) -> (r: Point)
        requires
            self.wf(),
            self.is_live(id),
        ensures
            r == self.get(id).position,
            r.in_world(),
    {
        match &self.slots[id] {
            Some(b) => b.position,
            None => {
                assert(false);
                Point { x: 0, y: 0 }
            },
        }
    }

    pub fn kind_of(&self, id: BuildingId) -> (r: BuildingKind)
        requires
            self.is_live(id),
        ensures
            r == self.get(id).kind,
    {
        match &self.slots[id] {
            Some(b) => b.kind,
            None => {
                assert(false);
                BuildingKind::Home
            },
        }
    }

    pub fn state_of(&self, id: BuildingId) -> (r: BuildingState)
        requires
            self.is_live(id),
        ensures
            r == self.get(id).state,
    {
        match &self.slots[id] {
            Some(b) => b.state,
            None => {
                assert(false);
                BuildingState::Building
            },
        }
    }

    pub fn progress_of(&self, id: BuildingId) -> (r: u64)
        requires
            self.is_live(id),
        ensures
            r == self.get(id).progress,
    {
        match &self.slots[id] {
            Some(b) => b.progress,
            None => {
                assert(false);
                0
            },
        }
    }

    /// Whether the structure `id` is a field whose crop has grown.
    pub fn is_grown(&self, id: BuildingId) -> (r: bool)
        requires
            self.is_live(id),
        ensures
            r == (self.get(id).field_state == FieldState::Grown),
    {
        match &self.slots[id] {
            Some(b) => b.field_state == FieldState::Grown,
            None => {
                assert(false);
                false
            },
        }
    }

    /// The amount of `resource` stored in structure `id`.
    pub fn stored(&self, id: BuildingId, resource: InventoryResource) -> (r: i32)
        requires
            self.wf(),
            self.is_live(id),
        ensures
            r == self.get(id).inventory.held(resource),
    {
        match &self.slots[id] {
            Some(b) => b.inventory.amount(resource),
            None => {
                assert(false);
                0
            },
        }
    }

    /// Replaces the structure `id` by `b`.
    fn put(&mut self, id: BuildingId, b: Building)
        requires
            old(self).wf(),
            id < old(self)@.len(),
            b.wf(),
        ensures
            final(self).wf(),
            final(self)@ == old(self)@.update(id as int, Some(b)),
            final(self).grow_duration() == old(self).grow_duration(),
    {
        self.slots.set(id, Some(b));
    }

    /// Takes the structure `id` out, leaving the slot empty.
    fn take(&mut self, id: BuildingId) -> (r: Building)
        requires
            old(self).wf(),
            old(self).is_live(id),
        ensures
            final(self).wf(),
            r == old(self).get(id),
            r.wf(),
            final(self)@ == old(self)@.update(id as int, None),
            final(self).grow_duration() == old(self).grow_duration(),
    {
        let ghost before = self.slots@;
        self.slots.push(None);
        let slot = self.slots.swap_remove(id);
        assert(self.slots@ =~= before.update(id as int, None));
        match slot {
            Some(b) => b,
            None => {
                assert(false);
                Building {
                    kind: BuildingKind::Home,
                    position: Point { x: 0, y: 0 },
                    progress: 0,
                    state: BuildingState::Building,
                    field_state: FieldState::Growing,
                    grow_progress: 0,
                    grow_duration: 1,
                    inventory: Inventory::new(),
                }
            },
        }
    }

    /// Shows the built fraction `progress` (parts per million) on structure `id`.
    pub fn build(&mut self, id: BuildingId, progress: u64)
        requires
            old(self).wf(),
            old(self).is_live(id),
        ensures
            final(self).wf(),
            final(self).same_except(old(self), id),
            final(self).is_live(id),
            final(self).get(id) == (Building { progress, ..old(self).get(id) }),
    {
        let mut b = self.take(id);
        b.progress = progress;
        self.put(id, b);
    }

    /// Marks structure `id` as finished.
    pub fn set_completed(&mut self, id: BuildingId)
        requires
            old(self).wf(),
            old(self).is_live(id),
        ensures
            final(self).wf(),
            final(self).same_except(old(self), id),
            final(self).is_live(id),
            final(self).get(id) == (Building { state: BuildingState::Completed, ..old(self).get(id) }),
    {
        let mut b = self.take(id);
        b.state = BuildingState::Completed;
        self.put(id, b);
    }

    /// Ripens the crop of field `id`.
    pub fn grow(&mut self, id: BuildingId)
        requires
            old(self).wf(),
            old(self).is_live(id),
        ensures
            final(self).wf(),
            final(self).same_except(old(self), id),
            final(self).is_live(id),
            final(self).get(id) == (Building { field_state: FieldState::Grown, ..old(self).get(id) }),
    {
        let mut b = self.take(id);
        b.field_state = FieldState::Grown;
        self.put(id, b);
    }

    /// Lets the crop of field `id` grow for `delta`; it ripens once the time
    /// grown reaches the field's growing time. Other structures, and grown
    /// crops, are left as they are.
    pub fn advance_growth(&mut self, id: BuildingId, delta: u64)
        requires
            old(self).wf(),
            old(self).is_live(id),
        ensures
            final(self).wf(),
            final(self).same_except(old(self), id),
            final(self).is_live(id),
            ({
                let b = old(self).get(id);
                if b.kind == BuildingKind::Field && b.field_state == FieldState::Growing {
                    let g = if b.grow_progress + delta > u64::MAX {
                        u64::MAX as int
                    } else {
                        b.grow_progress + delta
                    };
                    final(self).get(id) == (Building {
                        grow_progress: g as u64,
                        field_state: if g >= b.grow_duration {
                            FieldState::Grown
                        } else {
                            FieldState::Growing
                        },
                        ..b
                    })
                } else {
                    final(self).get(id) == b
                }
            }),
    {
        let mut b = self.take(id);
        if b.kind == BuildingKind::Field && b.field_state == FieldState::Growing {
            b.grow_progress = if delta > u64::MAX - b.grow_progress {
                u64::MAX
            } else {
                b.grow_progress + delta
            };
            if b.grow_progress >= b.grow_duration {
                b.field_state = FieldState::Grown;
            }
        }
        self.put(id, b);
    }

    /// Moves everything in `inventory` into the store of structure `id`,
    /// where every sum fits; otherwise leaves both as they are. Returns
    /// whether it moved.
    pub fn store_all(&mut self, id: BuildingId, inventory: &mut Inventory) -> (r: bool)
        requires
            old(self).wf(),
            old(self).is_live(id),
            old(inventory).wf(),
        ensures
            final(self).wf(),
            final(inventory).wf(),
            final(self).same_except(old(self), id),
            final(self).is_live(id),
            r == (forall|res: InventoryResource|
                i32::MIN <= #[trigger] old(self).get(id).inventory.held(res) + old(inventory).held(res)
                    <= i32::MAX),
            r ==> final(inventory)@ == Map::<InventoryResource, int>::empty(),
            r ==> final(self).get(id).inventory@ == Map::new(
                |res: InventoryResource| old(self).get(id).inventory@.contains_key(res) || old(
                    inventory,
                )@.contains_key(res),
                |res: InventoryResource| old(self).get(id).inventory.held(res) + old(inventory).held(
                    res,
                ),
            ),
            r ==> final(self).get(id) == (Building {
                inventory: final(self).get(id).inventory,
                ..old(self).get(id)
            }),
            !r ==> final(self)@ == old(self)@ && *final(inventory) == *old(inventory),
    {
        let mut b = self.take(id);
        let wheat = InventoryResource::Wheat;
        let have = b.inventory.amount(wheat) as i64;
        let add = inventory.amount(wheat) as i64;
        proof {
            assert forall|res: InventoryResource| #[trigger] b.inventory.held(res) == b.inventory.held(
                InventoryResource::Wheat,
            ) && inventory.held(res) == inventory.held(InventoryResource::Wheat) by {
                assert(res == InventoryResource::Wheat);
            }
        }
        if have + add <= i32::MAX as i64 && have + add >= i32::MIN as i64 {
            b.inventory.move_full_inventory_from(inventory);
            self.put(id, b);
            true
        } else {
            self.put(id, b);
            assert(self@ =~= old(self)@);
            false
        }
    }

    /// Destroys structure `id`; its slot stays empty.
    pub fn destroy(&mut self, id: BuildingId)
        requires
            old(self).wf(),
            old(self).is_live(id),
        ensures
            final(self).wf(),
            final(self)@ == old(self)@.update(id as int, None),
            final(self).grow_duration() == old(self).grow_duration(),
    {
        let _ = self.take(id);
    }
}

} // verus!
