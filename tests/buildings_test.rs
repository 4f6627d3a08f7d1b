use market_and_mastery::building::{BuildingKind, BuildingState, Buildings};
use market_and_mastery::geometry::Point;
use market_and_mastery::resources::inventory::{Inventory, InventoryResource};

#[test]
fn created_structures_get_fresh_ids() {
    let mut b = Buildings::new(10);
    let a = b.create_at(BuildingKind::Home, Point::new(1, 2));
    let f = b.create_at(BuildingKind::Field, Point::new(3, 4));
    assert_eq!((a, f), (0, 1));
    b.destroy(a);
    assert!(!b.is_alive(a));
    let g = b.create_at(BuildingKind::Field, Point::new(5, 6));
    assert_eq!(g, 2);
    assert_eq!(b.len(), 3);
    assert_eq!(b.position_of(f), Point::new(3, 4));
}

#[test]
fn progress_and_completion_are_recorded() {
    let mut b = Buildings::new(10);
    let h = b.create_at(BuildingKind::Home, Point::new(0, 0));
    assert_eq!(b.state_of(h), BuildingState::Building);
    b.build(h, 400_000);
    assert_eq!(b.progress_of(h), 400_000);
    b.set_completed(h);
    assert_eq!(b.state_of(h), BuildingState::Completed);
}

#[test]
fn storing_moves_the_whole_inventory() {
    let mut b = Buildings::new(10);
    let h = b.create_at(BuildingKind::Home, Point::new(0, 0));
    let mut bag = Inventory::new();
    bag.add(InventoryResource::Wheat, 4);
    assert!(b.store_all(h, &mut bag));
    assert_eq!(b.stored(h, InventoryResource::Wheat), 4);
    assert_eq!(bag.amount(InventoryResource::Wheat), 0);
}

#[test]
fn storing_that_would_overflow_moves_nothing() {
    let mut b = Buildings::new(10);
    let h = b.create_at(BuildingKind::Home, Point::new(0, 0));
    let mut bag = Inventory::new();
    bag.add(InventoryResource::Wheat, i32::MAX);
    assert!(b.store_all(h, &mut bag));
    let mut more = Inventory::new();
    more.add(InventoryResource::Wheat, 1);
    assert!(!b.store_all(h, &mut more));
    assert_eq!(b.stored(h, InventoryResource::Wheat), i32::MAX);
    assert_eq!(more.amount(InventoryResource::Wheat), 1);
}

#[test]
fn growth_saturates_and_stays_grown() {
    let mut b = Buildings::new(10);
    let f = b.create_at(BuildingKind::Field, Point::new(0, 0));
    b.advance_growth(f, u64::MAX);
    b.advance_growth(f, u64::MAX);
    assert!(b.is_grown(f));
}

#[test]
fn negative_removal_adds() {
    let mut inv = Inventory::new();
    assert_eq!(inv.remove(InventoryResource::Wheat, -5), -5);
    assert_eq!(inv.amount(InventoryResource::Wheat), 5);
}
