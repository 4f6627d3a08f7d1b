use market_and_mastery::resources::inventory::{Inventory, InventoryResource};

#[test]
fn new_inventory_is_empty() {
    let inv = Inventory::new();
    assert_eq!(inv.amount(InventoryResource::Wheat), 0);
}

#[test]
fn add_accumulates() {
    let mut inv = Inventory::new();
    inv.add(InventoryResource::Wheat, 3);
    inv.add(InventoryResource::Wheat, 4);
    assert_eq!(inv.amount(InventoryResource::Wheat), 7);
}

#[test]
fn remove_takes_what_is_there() {
    let mut inv = Inventory::new();
    inv.add(InventoryResource::Wheat, 5);
    assert_eq!(inv.remove(InventoryResource::Wheat, 2), 2);
    assert_eq!(inv.amount(InventoryResource::Wheat), 3);
    assert_eq!(inv.remove(InventoryResource::Wheat, 10), 3);
    assert_eq!(inv.amount(InventoryResource::Wheat), 0);
}

#[test]
fn remove_from_empty_returns_zero() {
    let mut inv = Inventory::new();
    assert_eq!(inv.remove(InventoryResource::Wheat, 1), 0);
    assert_eq!(inv.amount(InventoryResource::Wheat), 0);
}

#[test]
fn move_full_inventory_empties_source() {
    let mut home = Inventory::new();
    home.add(InventoryResource::Wheat, 2);
    let mut bag = Inventory::new();
    bag.add(InventoryResource::Wheat, 5);
    home.move_full_inventory_from(&mut bag);
    assert_eq!(home.amount(InventoryResource::Wheat), 7);
    assert_eq!(bag.amount(InventoryResource::Wheat), 0);
}

#[test]
fn resource_names() {
    assert_eq!(InventoryResource::Wheat.name(), "Wheat");
}
