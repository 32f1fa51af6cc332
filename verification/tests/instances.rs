use aurora_forge::blueprint::{
    blueprint_file_type, blueprint_list_labels, check_blueprint_file_type, BlueprintListKind,
};
use aurora_forge::error::EditError;
use aurora_forge::instances::{area_instance_id, instance_list_label, parse_area_instance_id};

#[test]
fn adds_a_typed_instance_to_the_expected_git_list() {
    let label = instance_list_label("door").expect("door list");
    assert_eq!(area_instance_id("town", label, 0), "town:Door List:0");
}

#[test]
fn instance_categories_are_read_in_any_case() {
    assert_eq!(instance_list_label("Creature"), Ok("Creature List"));
    assert_eq!(instance_list_label("ITEM"), Ok("List"));
    assert_eq!(instance_list_label("waypoint"), Ok("WaypointList"));
    assert_eq!(instance_list_label("dragon"), Err(EditError::InstanceCategoryUnsupported));
}

#[test]
fn instance_ids_read_back_as_label_and_index() {
    let id = area_instance_id("town", "Placeable List", 12);
    assert_eq!(
        parse_area_instance_id("town", &id),
        Ok(("Placeable List".to_owned(), 12))
    );
    assert_eq!(parse_area_instance_id("town", "town:a:b:+7"), Ok(("a:b".to_owned(), 7)));
}

#[test]
fn malformed_instance_ids_are_refused() {
    let invalid = Err(EditError::AreaInstanceIdInvalid);
    assert_eq!(parse_area_instance_id("town", "village:Door List:0"), invalid);
    assert_eq!(parse_area_instance_id("town", "town:Door List"), invalid);
    assert_eq!(parse_area_instance_id("town", "town:Door List:"), invalid);
    assert_eq!(parse_area_instance_id("town", "town:Door List:-1"), invalid);
    assert_eq!(parse_area_instance_id("town", "town:Door List:1x"), invalid);
    assert_eq!(parse_area_instance_id("town", "town:Door List:+"), invalid);
    assert_eq!(
        parse_area_instance_id("town", "town:Door List:99999999999999999999999"),
        invalid
    );
    assert_eq!(parse_area_instance_id("town", "town"), invalid);
}

#[test]
fn blueprint_lists_belong_to_their_formats() {
    assert_eq!(blueprint_file_type(BlueprintListKind::Feat), "UTC ");
    assert_eq!(blueprint_file_type(BlueprintListKind::ItemProperty), "UTI ");
    assert_eq!(check_blueprint_file_type(BlueprintListKind::Sound, "UTS "), Ok(()));
    assert_eq!(
        check_blueprint_file_type(BlueprintListKind::Sound, "UTC "),
        Err(EditError::BlueprintListFormatInvalid)
    );
    assert_eq!(
        blueprint_list_labels(BlueprintListKind::EquippedItem),
        vec!["Equip_ItemList", "EquipItemList"]
    );
    assert_eq!(blueprint_list_labels(BlueprintListKind::EncounterCreature), vec!["CreatureList"]);
}
