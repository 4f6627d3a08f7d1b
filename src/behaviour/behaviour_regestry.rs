use vstd::prelude::*;

use super::agent_behaviour::{AgentBehaviour, AgentState};
use super::farmer_behaviour::{FarmerBehaviour, FarmerBehaviourConfig};
use super::move_and_build_behaviour::{MoveAndBuildBehaviour, MoveAndBuildBehaviourConfig};
use super::move_behaviour::{MoveBehaviour, MoveBehaviourConfig};
use crate::building::BuildingKind;
use crate::geometry::Point;
use crate::world::World;

verus! {

/// Distance units in one pixel of the scene.
pub const UNITS_PER_PIXEL: i64 = 1000000;

/// Time units in one second.
pub const TICKS_PER_SECOND: u64 = 1000000;

/// Size of a cell of the occupancy grid: 200 pixels.
pub const CELL_SIZE: u64 = 200000000;

/// Time a field takes to grow: 10 seconds.
pub const FIELD_GROW_DURATION: u64 = 10000000;

/// Walking at 100 pixels per second, with a bob of 20 pixels every 0.1 s.
pub fn make_move_behaviour_config() -> (r: MoveBehaviourConfig)
    ensures
        r == (MoveBehaviourConfig { speed: 100, max_step_height: 20000000, step_period: 100000 }),
{
    MoveBehaviourConfig { speed: 100, max_step_height: 20000000, step_period: 100000 }
}

/// Three fields, planted within 100 pixels.
pub fn make_farmer_behaviour_config() -> (r: FarmerBehaviourConfig)
    ensures
        r.max_field_count == 3,
        r.field_building_radius == 100000000,
{
    FarmerBehaviourConfig { max_field_count: 3, field_building_radius: 100000000 }
}

/// Fields: within 100 pixels, worked from 100 pixels below, in 1 second.
pub fn make_field_build_behaviour_config() -> (r: MoveAndBuildBehaviourConfig)
    ensures
        r == (MoveAndBuildBehaviourConfig {
            building_radius: 100000000,
            build_offset: Point { x: 0, y: 100000000 },
            building_duration: 1000000,
            kind: BuildingKind::Field,
        }),
{
    MoveAndBuildBehaviourConfig {
        building_radius: 100000000,
        build_offset: Point { x: 0, y: 100000000 },
        building_duration: 1000000,
        kind: BuildingKind::Field,
    }
}

/// Homes: within 600 pixels, worked from 100 pixels below, in 2 seconds.
pub fn make_home_build_behaviour_config() -> (r: MoveAndBuildBehaviourConfig)
    ensures
        r == (MoveAndBuildBehaviourConfig {
            building_radius: 600000000,
            build_offset: Point { x: 0, y: 100000000 },
            building_duration: 2000000,
            kind: BuildingKind::Home,
        }),
{
    MoveAndBuildBehaviourConfig {
        building_radius: 600000000,
        build_offset: Point { x: 0, y: 100000000 },
        building_duration: 2000000,
        kind: BuildingKind::Home,
    }
}

pub fn make_move_behaviour() -> (r: MoveBehaviour)
    ensures
        r.wf(),
        !r.is_started(),
        r@.config == (MoveBehaviourConfig { speed: 100, max_step_height: 20000000, step_period: 100000 }),
{
    MoveBehaviour::new(make_move_behaviour_config())
}

fn make_field_build_behaviour() -> (r: MoveAndBuildBehaviour)
    ensures
        r.wf(),
        r@.building is None,
        r@.state == super::move_and_build_behaviour::MoveAndBuildState::Idle,
{
    MoveAndBuildBehaviour::new(make_move_behaviour(), make_field_build_behaviour_config())
}

fn make_home_build_behaviour() -> (r: MoveAndBuildBehaviour)
    ensures
        r.wf(),
        r@.building is None,
        r@.state == super::move_and_build_behaviour::MoveAndBuildState::Idle,
{
    MoveAndBuildBehaviour::new(make_move_behaviour(), make_home_build_behaviour_config())
}

pub fn make_farmer_behaviour() -> (r: FarmerBehaviour)
    ensures
        r.wf(),
        r@.max_field_count == 3,
        r@.fields.len() == 0,
        r@.home is None,
        forall|w: &World| #[trigger] r.fits(w),
{
    FarmerBehaviour::new(
        make_field_build_behaviour(),
        make_move_behaviour(),
        make_farmer_behaviour_config(),
    )
}

/// A farmer agent with the default configurations, idle and homeless.
pub fn make_farmer_agent_behaviour() -> (r: AgentBehaviour)
    ensures
        r.wf(),
        r@.state == AgentState::Idle,
        r@.home is None,
        forall|w: &World| #[trigger] r.fits(w),
{
    let farmer = make_farmer_behaviour();
    let r = AgentBehaviour::new(make_home_build_behaviour(), farmer);
    assert forall|w: &World| #[trigger] r.fits(w) by {
        assert(farmer.fits(w));
    }
    r
}

/// A world with the default cell size and growing time.
pub fn make_world() -> (r: World)
    ensures
        r.wf(),
        r.grid@ == Set::<(int, int)>::empty(),
{
    World::new(CELL_SIZE, CELL_SIZE, FIELD_GROW_DURATION)
}

} // verus!
