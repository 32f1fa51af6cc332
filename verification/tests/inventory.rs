use aurora_forge::error::EditError;
use aurora_forge::inventory::{add_inventory_item, remove_inventory_item, InstanceInventory, InventoryItem};

fn item(resref: &str, infinite: Option<u8>) -> InventoryItem {
    InventoryItem { template_resref: resref.to_owned(), stack_size: 1, x: 0, y: 0, infinite }
}

#[test]
fn a_placeable_item_goes_to_its_list_and_marks_the_placeable() {
    let mut chest = InstanceInventory::Placeable { has_inventory: false, items: None };
    assert_eq!(add_inventory_item(&mut chest, None, "nw_it_gold001".to_owned(), 5, 1, 2, true), Ok(()));
    assert_eq!(
        chest,
        InstanceInventory::Placeable {
            has_inventory: true,
            items: Some(vec![InventoryItem {
                template_resref: "nw_it_gold001".to_owned(),
                stack_size: 5,
                x: 1,
                y: 2,
                infinite: None,
            }]),
        }
    );
}

#[test]
fn a_store_item_goes_only_to_the_named_category() {
    let mut store = InstanceInventory::Store { categories: vec![Some(vec![item("a", Some(0))]), None, Some(Vec::new())] };
    assert_eq!(add_inventory_item(&mut store, Some(1), "b".to_owned(), 1, 0, 0, true), Ok(()));
    assert_eq!(
        store,
        InstanceInventory::Store {
            categories: vec![Some(vec![item("a", Some(0))]), Some(vec![item("b", Some(1))]), Some(Vec::new())],
        }
    );
    let before = store.clone();
    assert_eq!(
        add_inventory_item(&mut store, None, "c".to_owned(), 1, 0, 0, false),
        Err(EditError::AreaInventoryCategoryRequired)
    );
    assert_eq!(
        add_inventory_item(&mut store, Some(3), "c".to_owned(), 1, 0, 0, false),
        Err(EditError::AreaInventoryCategoryNotFound)
    );
    assert_eq!(store, before);
}

#[test]
fn removal_takes_one_item_from_the_named_list() {
    let mut store = InstanceInventory::Store {
        categories: vec![Some(vec![item("a", Some(0)), item("b", Some(0))]), None],
    };
    assert_eq!(remove_inventory_item(&mut store, Some(0), 0), Ok(()));
    assert_eq!(store, InstanceInventory::Store { categories: vec![Some(vec![item("b", Some(0))]), None] });
    assert_eq!(remove_inventory_item(&mut store, Some(0), 1), Err(EditError::AreaInventoryItemNotFound));
    assert_eq!(remove_inventory_item(&mut store, Some(1), 0), Err(EditError::GffFieldNotFound));
    let mut empty = InstanceInventory::Placeable { has_inventory: false, items: None };
    assert_eq!(remove_inventory_item(&mut empty, None, 0), Err(EditError::GffFieldNotFound));
}

#[test]
fn removing_an_added_item_restores_the_lists() {
    let original = InstanceInventory::Store { categories: vec![Some(vec![item("a", Some(0))]), None] };
    let mut store = original.clone();
    assert_eq!(add_inventory_item(&mut store, Some(0), "z".to_owned(), 2, 3, 4, false), Ok(()));
    assert_eq!(remove_inventory_item(&mut store, Some(0), 1), Ok(()));
    assert_eq!(store, original);
    let mut chest = InstanceInventory::Placeable { has_inventory: false, items: None };
    assert_eq!(add_inventory_item(&mut chest, None, "z".to_owned(), 1, 0, 0, false), Ok(()));
    assert_eq!(remove_inventory_item(&mut chest, None, 0), Ok(()));
    assert_eq!(chest, InstanceInventory::Placeable { has_inventory: true, items: Some(Vec::new()) });
}
