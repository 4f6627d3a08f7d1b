use vstd::prelude::*;

use crate::behaviour::free_space_manager::FreeSpaceManager;
use crate::building::Buildings;
use crate::geometry::WORLD_EXTENT;

verus! {

/// What the agents of a simulation share: the occupancy grid and the
/// structures. Each agent's tick borrows it mutably, so reservations are
/// made one at a time.
pub struct World {
    pub grid: FreeSpaceManager,
    pub buildings: Buildings,
}

impl World {
    pub open spec fn wf(&self) -> bool {
        self.grid.wf() && self.buildings.wf()
    }

    pub fn new(cell_x_size: u64, cell_y_size: u64, field_grow_duration: u64) -> (r: World)
        requires
            1 <= cell_x_size <= WORLD_EXTENT,
            1 <= cell_y_size <= WORLD_EXTENT,
            field_grow_duration > 0,
        ensures
            r.wf(),
            r.grid@ == Set::<(int, int)>::empty(),
            r.grid.cell_x() == cell_x_size,
            r.grid.cell_y() == cell_y_size,
            r.buildings@ == Seq::<Option<crate::building::Building>>::empty(),
            r.buildings.grow_duration() == field_grow_duration,
    {
        World {
            grid: FreeSpaceManager::new(cell_x_size, cell_y_size),
            buildings: Buildings::new(field_grow_duration),
        }
    }
}

} // verus!
