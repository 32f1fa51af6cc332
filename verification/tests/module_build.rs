use aurora_forge::error::EditError;
use aurora_forge::module_build::{check_module_output_extension, check_reopened_count, plan_hak_resources, plan_module_resources, ResourceOrigin};
use aurora_forge::resource::ResourceKey;

fn key(resref: &str, resource_type: u16) -> ResourceKey {
    ResourceKey::new(resref, resource_type)
}

#[test]
fn a_module_build_keeps_source_order_and_appends_new_resources() {
    let source = vec![key("module", 2014), key("start", 2012), key("start", 2023), key("old", 2009)];
    let deleted = vec![key("old", 2009)];
    let modified = vec![key("start", 2023), key("added", 2009)];
    let plan = plan_module_resources(&source, &deleted, &modified);
    let summary: Vec<(String, u16, ResourceOrigin)> =
        plan.into_iter().map(|p| (p.key.resref, p.key.resource_type, p.origin)).collect();
    assert_eq!(
        summary,
        vec![
            ("module".to_owned(), 2014, ResourceOrigin::Source { position: 0 }),
            ("start".to_owned(), 2012, ResourceOrigin::Source { position: 1 }),
            ("start".to_owned(), 2023, ResourceOrigin::Staged),
            ("added".to_owned(), 2009, ResourceOrigin::Staged),
        ]
    );
}

#[test]
fn a_deleted_resource_changed_again_is_built_from_its_staged_copy() {
    let source = vec![key("old", 2009)];
    let plan = plan_module_resources(&source, &source, &source);
    assert_eq!(plan.len(), 1);
    assert_eq!(plan[0].origin, ResourceOrigin::Staged);
}

#[test]
fn a_hak_holds_the_changed_resources() {
    assert_eq!(plan_hak_resources(&[]), Err(EditError::HakEmpty));
    let plan = plan_hak_resources(&[key("tiles", 2013), key("item", 2025)]).expect("plan");
    assert_eq!(plan.len(), 2);
    assert!(plan.iter().all(|p| p.origin == ResourceOrigin::Staged));
    assert_eq!(plan[1].key, key("item", 2025));
}

#[test]
fn builds_go_to_mod_files_and_read_back_whole() {
    assert_eq!(check_module_output_extension(Some("MOD")), Ok(()));
    assert_eq!(check_module_output_extension(Some("hak")), Err(EditError::BuildExtensionInvalid));
    assert_eq!(check_module_output_extension(None), Err(EditError::BuildExtensionInvalid));
    assert_eq!(check_reopened_count(3, 3), Ok(()));
    assert_eq!(check_reopened_count(2, 3), Err(EditError::BuildReopenFailed));
}
