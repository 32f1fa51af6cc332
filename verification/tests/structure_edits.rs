use aurora_forge::area_structure::{
    check_area_structure_request, check_destination, check_inventory_position, check_inventory_room,
    check_store_category, inventory_item_fields, InventoryItemFields, inventory_target, new_area_tile_count, AreaStructureRequest, InventoryTarget,
    PolygonPoints,
};
use aurora_forge::blueprint::{
    plan_blueprint_edit, BlueprintEdit, BlueprintEntry, BlueprintListKind, BlueprintListState,
    BlueprintStructureRequest,
};
use aurora_forge::error::EditError;

fn entries(values: Vec<Option<i64>>) -> BlueprintListState {
    BlueprintListState::Entries(values)
}

#[test]
fn feats_are_added_once() {
    let add = BlueprintStructureRequest::AddFeat { feat_id: 5 };
    assert_eq!(
        plan_blueprint_edit(&add, "UTC ", &entries(vec![Some(4), None])),
        Ok(BlueprintEdit::Append(BlueprintEntry::Feat { feat_id: 5 }))
    );
    assert_eq!(
        plan_blueprint_edit(&add, "UTC ", &entries(vec![Some(4), Some(5)])),
        Err(EditError::BlueprintEntryDuplicate)
    );
    assert_eq!(plan_blueprint_edit(&add, "UTI ", &entries(vec![])), Err(EditError::BlueprintListFormatInvalid));
    assert_eq!(plan_blueprint_edit(&add, "UTC ", &BlueprintListState::Missing), Err(EditError::GffFieldNotFound));
    assert_eq!(plan_blueprint_edit(&add, "UTC ", &BlueprintListState::NotAList), Err(EditError::GffPathInvalid));
    assert_eq!(
        plan_blueprint_edit(&add, "UTC ", &entries(vec![None; 100_000])),
        Err(EditError::BlueprintListLimitExceeded)
    );
}

#[test]
fn classes_are_checked_before_the_blueprint() {
    let level_zero = BlueprintStructureRequest::AddClass { class_id: 3, class_level: 0 };
    assert_eq!(plan_blueprint_edit(&level_zero, "UTI ", &BlueprintListState::Missing), Err(EditError::BlueprintClassLevelInvalid));
    let too_high = BlueprintStructureRequest::AddClass { class_id: 3, class_level: 61 };
    assert_eq!(plan_blueprint_edit(&too_high, "UTC ", &entries(vec![])), Err(EditError::BlueprintClassLevelInvalid));
    let wide = BlueprintStructureRequest::AddClass { class_id: 2_147_483_648, class_level: 1 };
    assert_eq!(plan_blueprint_edit(&wide, "UTC ", &entries(vec![])), Err(EditError::BlueprintClassIdInvalid));
    let fine = BlueprintStructureRequest::AddClass { class_id: 3, class_level: 60 };
    assert_eq!(
        plan_blueprint_edit(&fine, "UTC ", &entries(vec![Some(4)])),
        Ok(BlueprintEdit::Append(BlueprintEntry::Class { class_id: 3, class_level: 60 }))
    );
    assert_eq!(plan_blueprint_edit(&fine, "UTC ", &entries(vec![Some(3)])), Err(EditError::BlueprintEntryDuplicate));
}

#[test]
fn blueprint_values_are_checked() {
    let chance = BlueprintStructureRequest::AddItemProperty {
        property_name: 1,
        subtype: 2,
        cost_table: 3,
        cost_value: 4,
        param1: 5,
        param1_value: 6,
        chance_appear: 101,
    };
    assert_eq!(plan_blueprint_edit(&chance, "UTI ", &entries(vec![])), Err(EditError::BlueprintPropertyChanceInvalid));
    let sound = BlueprintStructureRequest::AddSound { resref: "as_an_owl1".to_owned() };
    assert_eq!(
        plan_blueprint_edit(&sound, "UTS ", &entries(vec![Some(1)])),
        Ok(BlueprintEdit::Append(BlueprintEntry::Sound { resref: "as_an_owl1".to_owned() }))
    );
    let bad_sound = BlueprintStructureRequest::AddSound { resref: "much_too_long_resref".to_owned() };
    assert_eq!(plan_blueprint_edit(&bad_sound, "UTS ", &entries(vec![])), Err(EditError::ResrefInvalid));
    let creature = |appearance: u32, valid: bool| BlueprintStructureRequest::AddEncounterCreature {
        resref: "nw_goblina".to_owned(),
        appearance,
        challenge_rating_valid: valid,
        single_spawn: true,
    };
    assert_eq!(plan_blueprint_edit(&creature(u32::MAX, true), "UTE ", &entries(vec![])), Err(EditError::BlueprintAppearanceInvalid));
    assert_eq!(
        plan_blueprint_edit(&creature(12, false), "UTE ", &entries(vec![])),
        Err(EditError::BlueprintChallengeRatingInvalid)
    );
    assert_eq!(
        plan_blueprint_edit(&creature(12, true), "UTE ", &entries(vec![])),
        Ok(BlueprintEdit::Append(BlueprintEntry::EncounterCreature {
            resref: "nw_goblina".to_owned(),
            appearance: 12,
            single_spawn: true,
        }))
    );
}

#[test]
fn entries_are_removed_where_they_exist() {
    let remove = |entry_index: usize| BlueprintStructureRequest::RemoveEntry {
        list_kind: BlueprintListKind::EquippedItem,
        entry_index,
    };
    assert_eq!(plan_blueprint_edit(&remove(1), "UTC ", &entries(vec![None, None])), Ok(BlueprintEdit::Remove(1)));
    assert_eq!(plan_blueprint_edit(&remove(2), "UTC ", &entries(vec![None, None])), Err(EditError::BlueprintEntryNotFound));
    assert_eq!(plan_blueprint_edit(&remove(0), "UTE ", &entries(vec![None])), Err(EditError::BlueprintListFormatInvalid));
}

#[test]
fn polygons_go_to_triggers_and_encounters() {
    let geometry = |id: &str| AreaStructureRequest::SetGeometry { instance_id: id.to_owned() };
    let target = check_area_structure_request("area001", &geometry("area001:TriggerList:3")).unwrap();
    assert_eq!(target.list_label, "TriggerList");
    assert_eq!(target.index, 3);
    assert_eq!(target.polygon, Some(PolygonPoints::Trigger));
    let target = check_area_structure_request("area001", &geometry("area001:Encounter List:0")).unwrap();
    assert_eq!(target.polygon, Some(PolygonPoints::Encounter));
    assert_eq!(
        check_area_structure_request("area001", &geometry("area001:Door List:0")),
        Err(EditError::AreaGeometryCategoryInvalid)
    );
    assert_eq!(
        check_area_structure_request("area001", &geometry("area002:TriggerList:0")),
        Err(EditError::AreaInstanceIdInvalid)
    );
}

#[test]
fn spawn_points_and_transitions_are_checked() {
    let spawn = |id: &str, point_count: usize, points_finite: bool| AreaStructureRequest::SetSpawnPoints {
        instance_id: id.to_owned(),
        point_count,
        points_finite,
    };
    let target = check_area_structure_request("a", &spawn("a:Encounter List:1", 256, true)).unwrap();
    assert_eq!((target.list_label.as_str(), target.index, target.polygon), ("Encounter List", 1, None));
    assert_eq!(check_area_structure_request("a", &spawn("a:Encounter List:1", 257, true)), Err(EditError::AreaSpawnPointsInvalid));
    assert_eq!(check_area_structure_request("a", &spawn("a:Encounter List:1", 2, false)), Err(EditError::AreaSpawnPointsInvalid));
    assert_eq!(check_area_structure_request("a", &spawn("a:TriggerList:1", 2, true)), Err(EditError::AreaSpawnCategoryInvalid));
    let transition = |id: &str, destination: &str| AreaStructureRequest::SetTransition {
        instance_id: id.to_owned(),
        destination: destination.to_owned(),
        flags: 1,
        load_screen_id: 0,
    };
    assert!(check_area_structure_request("a", &transition("a:Door List:0", "wp_dest")).is_ok());
    assert!(check_area_structure_request("a", &transition("a:TriggerList:0", "")).is_ok());
    assert_eq!(
        check_area_structure_request("a", &transition("a:Placeable List:0", "wp_dest")),
        Err(EditError::AreaTransitionCategoryInvalid)
    );
    assert_eq!(
        check_area_structure_request("a", &transition("a:Door List:0", "bell\u{7}")),
        Err(EditError::AreaTransitionDestinationInvalid)
    );
    assert!(check_destination(&"x".repeat(64)));
    assert!(!check_destination(&"x".repeat(65)));
    assert!(!check_destination("a\u{85}b"));
}

#[test]
fn inventory_items_need_a_resolved_item_blueprint() {
    let item = |resref: &str, stack_size: u16, template: Option<&str>| AreaStructureRequest::AddInventoryItem {
        instance_id: "a:Placeable List:2".to_owned(),
        resref: resref.to_owned(),
        stack_size,
        x: 0,
        y: 0,
        infinite: false,
        category_index: None,
        template_file_type: template.map(|value| value.to_owned()),
    };
    let target = check_area_structure_request("a", &item("nw_it_gold001", 5, Some("UTI "))).unwrap();
    assert_eq!((target.list_label.as_str(), target.index), ("Placeable List", 2));
    assert_eq!(check_area_structure_request("a", &item("", 5, Some("UTI "))), Err(EditError::ResrefInvalid));
    assert_eq!(check_area_structure_request("a", &item("gold", 0, Some("UTI "))), Err(EditError::AreaInventoryStackInvalid));
    assert_eq!(check_area_structure_request("a", &item("gold", 1, None)), Err(EditError::AreaInventoryTemplateRequired));
    assert_eq!(check_area_structure_request("a", &item("gold", 1, Some("UTC "))), Err(EditError::AreaInventoryTemplateInvalid));
    assert_eq!(inventory_target("Placeable List", None), Ok(InventoryTarget::Placeable));
    assert_eq!(inventory_target("StoreList", Some(4)), Ok(InventoryTarget::StoreCategory(4)));
    assert_eq!(inventory_target("StoreList", None), Err(EditError::AreaInventoryCategoryRequired));
    assert_eq!(inventory_target("Creature List", Some(0)), Err(EditError::AreaInventoryCategoryInvalid));
}

#[test]
fn new_areas_fit_the_compatible_size() {
    assert_eq!(new_area_tile_count("area001", 32, 2), Ok(64));
    assert_eq!(new_area_tile_count("area001", 1, 1), Ok(1));
    assert_eq!(new_area_tile_count("area001", 0, 4), Err(EditError::AreaDimensionsInvalid));
    assert_eq!(new_area_tile_count("area001", 4, 33), Err(EditError::AreaDimensionsInvalid));
    assert_eq!(new_area_tile_count("Area 001!", 4, 4), Err(EditError::ResrefInvalid));
}

#[test]
fn blueprint_structure_adds_and_removes_typed_utc_entries() {
    let empty = entries(vec![]);
    let additions = [
        (BlueprintStructureRequest::AddFeat { feat_id: 42 }, BlueprintEntry::Feat { feat_id: 42 }),
        (
            BlueprintStructureRequest::AddSpecialAbility { spell_id: 12, caster_level: 3, flags: 1 },
            BlueprintEntry::SpecialAbility { spell_id: 12, caster_level: 3, flags: 1 },
        ),
        (
            BlueprintStructureRequest::AddClass { class_id: 4, class_level: 5 },
            BlueprintEntry::Class { class_id: 4, class_level: 5 },
        ),
        (
            BlueprintStructureRequest::AddEquippedItem { resref: "test_armor".to_owned(), slot: 2 },
            BlueprintEntry::EquippedItem { resref: "test_armor".to_owned(), slot: 2 },
        ),
    ];
    for (request, entry) in additions {
        assert_eq!(plan_blueprint_edit(&request, "UTC ", &empty), Ok(BlueprintEdit::Append(entry)));
    }
    let remove = BlueprintStructureRequest::RemoveEntry { list_kind: BlueprintListKind::Feat, entry_index: 0 };
    assert_eq!(plan_blueprint_edit(&remove, "UTC ", &entries(vec![Some(42)])), Ok(BlueprintEdit::Remove(0)));
}

#[test]
fn blueprint_structure_covers_item_sound_and_encounter_lists() {
    let cases = [
        (
            "UTI ",
            BlueprintStructureRequest::AddItemProperty {
                property_name: 1,
                subtype: 2,
                cost_table: 3,
                cost_value: 4,
                param1: 5,
                param1_value: 6,
                chance_appear: 100,
            },
        ),
        ("UTS ", BlueprintStructureRequest::AddSound { resref: "as_test".to_owned() }),
        (
            "UTE ",
            BlueprintStructureRequest::AddEncounterCreature {
                resref: "test_creature".to_owned(),
                appearance: 55,
                challenge_rating_valid: true,
                single_spawn: true,
            },
        ),
    ];
    for (file_type, request) in cases {
        assert!(matches!(plan_blueprint_edit(&request, file_type, &entries(vec![])), Ok(BlueprintEdit::Append(_))));
    }
}

#[test]
fn area_structure_edits_typed_geometry_spawn_points_and_transitions() {
    let geometry = AreaStructureRequest::SetGeometry { instance_id: "town:TriggerList:0".to_owned() };
    let target = check_area_structure_request("town", &geometry).expect("set trigger polygon");
    assert_eq!((target.list_label.as_str(), target.index), ("TriggerList", 0));
    assert_eq!(target.polygon, Some(PolygonPoints::Trigger));
    let transition = AreaStructureRequest::SetTransition {
        instance_id: "town:TriggerList:0".to_owned(),
        destination: "destination_waypoint".to_owned(),
        flags: 2,
        load_screen_id: 7,
    };
    assert!(check_area_structure_request("town", &transition).is_ok());
    let spawn = AreaStructureRequest::SetSpawnPoints {
        instance_id: "town:Encounter List:0".to_owned(),
        point_count: 1,
        points_finite: true,
    };
    let target = check_area_structure_request("town", &spawn).expect("set encounter spawn points");
    assert_eq!((target.list_label.as_str(), target.index), ("Encounter List", 0));
}

#[test]
fn area_inventory_embeds_the_resolved_uti_and_preserves_unknown_fields() {
    let request = AreaStructureRequest::AddInventoryItem {
        instance_id: "town:Placeable List:0".to_owned(),
        resref: "potion".to_owned(),
        stack_size: 3,
        x: 2,
        y: 1,
        infinite: false,
        category_index: None,
        template_file_type: Some("UTI ".to_owned()),
    };
    let target = check_area_structure_request("town", &request).expect("add inventory item");
    assert_eq!(inventory_target(&target.list_label, None), Ok(InventoryTarget::Placeable));
}

#[test]
fn area_store_inventory_targets_one_category_and_marks_infinite_stock() {
    let request = AreaStructureRequest::AddInventoryItem {
        instance_id: "town:StoreList:0".to_owned(),
        resref: "potion".to_owned(),
        stack_size: 1,
        x: 0,
        y: 0,
        infinite: true,
        category_index: Some(3),
        template_file_type: Some("UTI ".to_owned()),
    };
    let target = check_area_structure_request("town", &request).expect("add store inventory item");
    assert_eq!(inventory_target(&target.list_label, Some(3)), Ok(InventoryTarget::StoreCategory(3)));
}

#[test]
fn inventories_are_bounded_and_marked() {
    assert_eq!(check_store_category(4, 5), Ok(()));
    assert_eq!(check_store_category(5, 5), Err(EditError::AreaInventoryCategoryNotFound));
    assert_eq!(check_inventory_room(99_999), Ok(()));
    assert_eq!(check_inventory_room(100_000), Err(EditError::AreaInventoryLimitExceeded));
    assert_eq!(check_inventory_position(0, 1), Ok(()));
    assert_eq!(check_inventory_position(1, 1), Err(EditError::AreaInventoryItemNotFound));
    assert_eq!(
        inventory_item_fields("StoreList", 1, 0, 0, true),
        InventoryItemFields { stack_size: 1, x: 0, y: 0, infinite: Some(1), marks_has_inventory: false }
    );
    assert_eq!(
        inventory_item_fields("Placeable List", 3, 2, 1, true),
        InventoryItemFields { stack_size: 3, x: 2, y: 1, infinite: None, marks_has_inventory: true }
    );
}
