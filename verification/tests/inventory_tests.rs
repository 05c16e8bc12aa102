use harmony_glitch::item::inventory::Inventory;
use harmony_glitch::item::types::{ItemDef, ItemDefs, ItemStack};
use harmony_glitch::strmap::StrMap;

fn def(id: &str, stack_limit: u32) -> ItemDef {
    ItemDef {
        id: id.to_string(),
        name: id.to_string(),
        description: String::new(),
        category: "misc".to_string(),
        stack_limit,
        icon: id.to_string(),
        base_cost: None,
        energy_value: None,
    }
}

fn defs() -> ItemDefs {
    let mut d = StrMap::new();
    d.insert("cherry".to_string(), def("cherry", 5));
    d.insert("bread".to_string(), def("bread", 3));
    d
}

#[test]
fn add_fills_stacks_then_empty_slots() {
    let mut inv = Inventory::new(3);
    assert_eq!(inv.add("cherry", 3, &defs()), 0);
    assert_eq!(inv.add("cherry", 4, &defs()), 0);
    assert_eq!(inv.count_item("cherry"), 7);
    assert!(matches!(&inv.slots[0], Some(ItemStack { item_id, count: 5 }) if item_id == "cherry"));
    assert!(matches!(&inv.slots[1], Some(ItemStack { item_id, count: 2 }) if item_id == "cherry"));
    assert!(inv.slots[2].is_none());
}

#[test]
fn add_reports_what_does_not_fit() {
    let mut inv = Inventory::new(2);
    assert_eq!(inv.add("bread", 1, &defs()), 0);
    let overflow = inv.add("cherry", 9, &defs());
    assert_eq!(overflow, 4);
    assert_eq!(inv.count_item("cherry") + overflow, 9);
    assert_eq!(inv.count_item("bread"), 1);
}

#[test]
fn add_of_undefined_item_adds_nothing() {
    let mut inv = Inventory::new(2);
    assert_eq!(inv.add("stone", 4, &defs()), 4);
    assert_eq!(inv.count_item("stone"), 0);
    assert!(inv.slots.iter().all(|s| s.is_none()));
}

#[test]
fn remove_takes_the_smaller_of_asked_and_held() {
    let mut inv = Inventory::new(3);
    inv.add("cherry", 7, &defs());
    inv.add("bread", 2, &defs());
    assert_eq!(inv.remove_item("cherry", 6), 6);
    assert_eq!(inv.count_item("cherry"), 1);
    assert_eq!(inv.remove_item("cherry", 6), 1);
    assert_eq!(inv.count_item("cherry"), 0);
    assert_eq!(inv.count_item("bread"), 2);
    assert_eq!(inv.remove_item("cherry", 1), 0);
}

#[test]
fn emptied_stack_frees_its_slot() {
    let mut inv = Inventory::new(2);
    inv.add("cherry", 5, &defs());
    assert_eq!(inv.remove_item("cherry", 5), 5);
    assert!(inv.slots[0].is_none());
    assert_eq!(inv.add("bread", 3, &defs()), 0);
    assert!(matches!(&inv.slots[0], Some(ItemStack { item_id, count: 3 }) if item_id == "bread"));
}
