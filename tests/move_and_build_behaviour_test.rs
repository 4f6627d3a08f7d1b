use market_and_mastery::behaviour::move_and_build_behaviour::{
    MoveAndBuildBehaviour, MoveAndBuildBehaviourConfig, MoveAndBuildState,
};
use market_and_mastery::behaviour::move_behaviour::{MoveBehaviour, MoveBehaviourConfig, Result};
use market_and_mastery::building::{BuildingKind, BuildingState};
use market_and_mastery::geometry::Point;
use market_and_mastery::world::World;

fn uniform(_: i64, _: i64, _: u64) -> u64 {
    1
}

fn coordinator(duration: u64) -> MoveAndBuildBehaviour {
    let motion = MoveBehaviour::new(MoveBehaviourConfig { speed: 10, max_step_height: 0, step_period: 1 });
    MoveAndBuildBehaviour::new(
        motion,
        MoveAndBuildBehaviourConfig {
            building_radius: 100,
            build_offset: Point::new(0, 100),
            building_duration: duration,
            kind: BuildingKind::Field,
        },
    )
}

#[test]
fn idle_coordinator_succeeds_at_once() {
    let mut world = World::new(200, 200, 1000);
    let mut c = coordinator(10);
    assert_eq!(c.build(&mut world, 5), (Result::Success, None));
    assert_eq!(c.state(), MoveAndBuildState::Idle);
}

#[test]
fn construction_walks_builds_and_completes_once() {
    let mut world = World::new(200, 200, 1000);
    let mut c = coordinator(10);
    let id = c.start_construction(&mut world, Point::new(0, 0), &uniform).unwrap();
    let site = world.buildings.position_of(id);
    assert!(world.grid.is_occupied(site));
    assert_eq!(world.buildings.kind_of(id), BuildingKind::Field);
    assert_eq!(c.state(), MoveAndBuildState::Moving);

    let mut successes = 0;
    let mut arrived = false;
    let mut last = Point::new(0, 0);
    for _ in 0..200 {
        let (result, next) = c.build(&mut world, 1);
        if let Some(w) = next {
            assert!(!arrived);
            last = w.position;
            assert_eq!(world.buildings.state_of(id), BuildingState::Building);
        } else {
            arrived = true;
        }
        if result == Result::Success {
            successes += 1;
            break;
        }
    }
    assert_eq!(successes, 1);
    assert_eq!(world.buildings.state_of(id), BuildingState::Completed);
    assert_eq!(world.buildings.progress_of(id), 1_000_000);
    assert_eq!(c.state(), MoveAndBuildState::Idle);
    assert_eq!(c.building(), None);
    let stand = Point::new(site.x, site.y + 100);
    assert!((last.x - stand.x).abs() + (last.y - stand.y).abs() <= 40);
    assert_eq!(c.build(&mut world, 1), (Result::Success, None));
    assert_eq!(world.buildings.state_of(id), BuildingState::Completed);
}

#[test]
fn arrival_and_building_share_a_tick() {
    let mut world = World::new(200, 200, 1000);
    let mut c = coordinator(5);
    let id = c.start_construction(&mut world, Point::new(0, 0), &uniform).unwrap();
    // one huge tick walks the whole way and builds everything
    assert_eq!(c.build(&mut world, 1000), (Result::Success, None));
    assert_eq!(world.buildings.state_of(id), BuildingState::Completed);
}

#[test]
fn deconstruction_does_not_mark_completed() {
    let mut world = World::new(200, 200, 1000);
    let id = world.buildings.create_at(BuildingKind::Field, Point::new(100, 100));
    let mut c = coordinator(4);
    c.start_deconstruction(&world, id, Point::new(100, 200));
    assert_eq!(c.build(&mut world, 1), (Result::Running, None));
    assert_eq!(world.buildings.progress_of(id), 750_000);
    assert_eq!(c.build(&mut world, 3), (Result::Success, None));
    assert_eq!(world.buildings.progress_of(id), 0);
    assert_eq!(world.buildings.state_of(id), BuildingState::Building);
    assert_eq!(c.state(), MoveAndBuildState::Idle);
}
