use market_and_mastery::behaviour::behaviour_regestry::{
    make_farmer_agent_behaviour, make_farmer_behaviour, make_world, TICKS_PER_SECOND,
};
use market_and_mastery::behaviour::farmer_behaviour::FarmerState;
use market_and_mastery::behaviour::move_behaviour::Result;
use market_and_mastery::building::{BuildingKind, BuildingState};
use market_and_mastery::geometry::Point;
use market_and_mastery::resources::inventory::InventoryResource;

fn uniform(_: i64, _: i64, _: u64) -> u64 {
    1
}

const TICK: u64 = TICKS_PER_SECOND / 60;

#[test]
fn farmer_plants_up_to_three_fields_then_harvests_grown_first() {
    let mut world = make_world();
    let home = world.buildings.create_at(BuildingKind::Home, Point::new(0, 0));
    world.grid.add_occupied_position(Point::new(0, 0));
    let mut farmer = make_farmer_behaviour();
    farmer.start_work(&world, home, "farmer".to_string());
    let mut position = Point::new(0, 0);
    let mut ticks = 0;
    while farmer.fields().len() < 3 || farmer.state() != FarmerState::Idle {
        let r = farmer.work(&mut world, TICK, position, &uniform);
        if let Some(w) = r.next_position {
            position = w.position;
        }
        ticks += 1;
        assert!(ticks < 100_000);
    }
    assert_eq!(farmer.fields().len(), 3);
    for &f in farmer.fields().iter() {
        assert_eq!(world.buildings.state_of(f), BuildingState::Completed);
        assert!(world.grid.is_occupied(world.buildings.position_of(f)));
    }
    assert_eq!(farmer.idle_decision(&world), FarmerState::Idle);
    let r = farmer.work(&mut world, TICK, position, &uniform);
    assert_eq!(r.result, Result::Success);
    assert!(r.next_position.is_none());

    let grown = farmer.fields()[1];
    world.buildings.grow(grown);
    assert_eq!(farmer.idle_decision(&world), FarmerState::FieldRemoving);
    assert!(farmer.is_work_available(&world));

    let site = world.buildings.position_of(grown);
    let r = farmer.work(&mut world, TICK, position, &uniform);
    assert_eq!(r.result, Result::Running);
    assert_eq!(farmer.state(), FarmerState::FieldRemoving);
    let mut ticks = 0;
    loop {
        let r = farmer.work(&mut world, TICK, position, &uniform);
        if let Some(w) = r.next_position {
            position = w.position;
        }
        if r.result == Result::Success {
            break;
        }
        ticks += 1;
        assert!(ticks < 100_000);
    }
    assert!(!world.buildings.is_alive(grown));
    assert!(!world.grid.is_occupied(site));
    assert_eq!(farmer.fields().len(), 2);
    assert_eq!(world.buildings.stored(home, InventoryResource::Wheat), 1);
    assert_eq!(farmer.harvest(InventoryResource::Wheat), 0);
    assert_eq!(position, world.buildings.position_of(home));
}

#[test]
fn grown_field_takes_priority_below_the_maximum() {
    let mut world = make_world();
    let home = world.buildings.create_at(BuildingKind::Home, Point::new(0, 0));
    let mut farmer = make_farmer_behaviour();
    farmer.start_work(&world, home, "farmer".to_string());
    let mut position = Point::new(0, 0);
    loop {
        let r = farmer.work(&mut world, TICK, position, &uniform);
        if let Some(w) = r.next_position {
            position = w.position;
        }
        if r.result == Result::Success {
            break;
        }
    }
    assert_eq!(farmer.fields().len(), 1);
    assert_eq!(farmer.idle_decision(&world), FarmerState::FieldBuilding);
    // the next field joins the list only once it is built
    let r = farmer.work(&mut world, TICK, position, &uniform);
    assert_eq!(r.result, Result::Running);
    assert_eq!(farmer.state(), FarmerState::FieldBuilding);
    assert_eq!(farmer.fields().len(), 1);
    let f = farmer.fields()[0];
    world.buildings.grow(f);
    assert_eq!(farmer.idle_decision(&world), FarmerState::FieldRemoving);
}

#[test]
fn fields_grow_with_time() {
    let mut world = make_world();
    let f = world.buildings.create_at(BuildingKind::Field, Point::new(0, 0));
    world.buildings.advance_growth(f, 4 * TICKS_PER_SECOND);
    assert!(!world.buildings.is_grown(f));
    world.buildings.advance_growth(f, 6 * TICKS_PER_SECOND);
    assert!(world.buildings.is_grown(f));
    let h = world.buildings.create_at(BuildingKind::Home, Point::new(0, 0));
    world.buildings.advance_growth(h, 60 * TICKS_PER_SECOND);
    assert!(!world.buildings.is_grown(h));
}

#[test]
fn agent_builds_a_home_then_fields() {
    let mut world = make_world();
    let mut agent = make_farmer_agent_behaviour();
    agent.start("agent".to_string());
    let mut position = Point::new(0, 0);
    let r = agent.tick(&mut world, TICK, position, &uniform);
    let home = agent.home().unwrap();
    assert_eq!(world.buildings.kind_of(home), BuildingKind::Home);
    assert!(r.next_position.is_some());
    let mut ticks = 0;
    while agent.work_behaviour().fields().len() < 3 {
        let r = agent.tick(&mut world, TICK, position, &uniform);
        if let Some(w) = r.next_position {
            position = w.position;
        }
        ticks += 1;
        assert!(ticks < 100_000);
    }
    assert_eq!(world.buildings.state_of(home), BuildingState::Completed);
    assert_eq!(agent.home(), Some(home));
}
