use aurora_forge::resource::ResourceKey;
use aurora_forge::digest::sha256_bytes;
use aurora_forge::error::EditError;
use aurora_forge::module_info::{
    validate_module_manifest, validate_new_module_definition, ModuleManifestDefinition,
    NewModuleDefinition,
};
use aurora_forge::workspace::{
    backup_file_name, check_output_not_source, check_saved_state, check_staged_transaction,
    check_workspace_root, check_source_unchanged, source_fingerprint,
    workspace_id, workspace_migration, EDIT_WORKSPACE_SCHEMA_VERSION,
};

fn new_module() -> NewModuleDefinition {
    NewModuleDefinition {
        name: "Validation".to_owned(),
        tag: "VALIDATION".to_owned(),
        entry_area: "start".to_owned(),
        tileset: "tno01".to_owned(),
    }
}

fn manifest() -> ModuleManifestDefinition {
    ModuleManifestDefinition {
        name: "Adventure".to_owned(),
        tag: "ADV".to_owned(),
        description: "A test module".to_owned(),
        entry_area: "town".to_owned(),
        areas: vec!["town".to_owned(), "forest".to_owned()],
        hak_files: vec!["tiles".to_owned()],
        custom_tlk: None,
    }
}

#[test]
fn a_new_module_needs_an_entry_resref_and_an_identity() {
    assert_eq!(validate_new_module_definition(&new_module()), Ok(()));
    let mut bad_area = new_module();
    bad_area.entry_area = "Start".to_owned();
    assert_eq!(validate_new_module_definition(&bad_area), Err(EditError::ResrefInvalid));
    let mut blank = new_module();
    blank.tag = "  ".to_owned();
    let error = validate_new_module_definition(&blank).unwrap_err();
    assert_eq!(error.code(), "EDIT_NEW_MODULE_IDENTITY_INVALID");
}

#[test]
fn a_manifest_declares_distinct_areas_including_its_entry() {
    assert_eq!(validate_module_manifest(&manifest()), Ok(()));
    let mut duplicate = manifest();
    duplicate.areas.push("town".to_owned());
    assert_eq!(validate_module_manifest(&duplicate), Err(EditError::ModuleAreaDuplicate));
    let mut missing = manifest();
    missing.entry_area = "castle".to_owned();
    assert_eq!(validate_module_manifest(&missing), Err(EditError::ModuleEntryAreaMissing));
    let mut invalid_area = manifest();
    invalid_area.areas.insert(0, "Bad Area".to_owned());
    invalid_area.areas.push("town".to_owned());
    assert_eq!(validate_module_manifest(&invalid_area), Err(EditError::ResrefInvalid));
}

#[test]
fn a_manifest_identity_is_bounded() {
    let mut long_tag = manifest();
    long_tag.tag = "T".repeat(65);
    assert_eq!(validate_module_manifest(&long_tag), Err(EditError::ModuleManifestInvalid));
    let mut long_description = manifest();
    long_description.description = "d".repeat(64 * 1024 + 1);
    assert_eq!(validate_module_manifest(&long_description), Err(EditError::ModuleManifestInvalid));
    let mut exact = manifest();
    exact.tag = "T".repeat(64);
    exact.description = "d".repeat(64 * 1024);
    assert_eq!(validate_module_manifest(&exact), Ok(()));
}

#[test]
fn a_changed_source_is_detected_by_size_or_digest() {
    let digest = "ab".repeat(32);
    assert_eq!(check_source_unchanged(&digest, 10, &digest.to_uppercase(), 10), Ok(()));
    assert_eq!(check_source_unchanged(&digest, 10, &digest, 11), Err(EditError::SourceChanged));
    assert_eq!(
        check_source_unchanged(&digest, 10, &"cd".repeat(32), 10),
        Err(EditError::SourceChanged)
    );
}

#[test]
fn a_source_fingerprint_keeps_the_digest_in_lower_case() {
    let fingerprint = source_fingerprint("module.mod", "ABCDEF", 42);
    assert_eq!(fingerprint.path, "module.mod");
    assert_eq!(fingerprint.sha256, "abcdef");
    assert_eq!(fingerprint.size_bytes, 42);
}

#[test]
fn a_workspace_id_is_the_digest_prefix_of_its_identity() {
    let id = workspace_id("ABC", "C:\\Work\\Space");
    assert_eq!(id.len(), 16);
    assert_eq!(id, workspace_id("abc", "c:/work/space"));
    assert_ne!(id, workspace_id("abc", "c:/work/other"));
    assert!(id.bytes().all(|b| b.is_ascii_hexdigit() && !b.is_ascii_uppercase()));
}

#[test]
fn saved_states_of_unknown_versions_or_cursors_are_refused() {
    assert_eq!(check_saved_state(3, 2, 2), Ok(()));
    assert_eq!(check_saved_state(0, 0, 0), Err(EditError::WorkspaceVersionUnsupported));
    assert_eq!(
        check_saved_state(EDIT_WORKSPACE_SCHEMA_VERSION + 1, 0, 0),
        Err(EditError::WorkspaceVersionUnsupported)
    );
    assert_eq!(check_saved_state(1, 3, 2), Err(EditError::WorkspaceCursorInvalid));
}

#[test]
fn a_legacy_state_is_migrated_with_its_backup_named_by_version() {
    assert_eq!(backup_file_name(1), "workspace.json.v1.bak");
    assert_eq!(backup_file_name(12), "workspace.json.v12.bak");
    let record = workspace_migration(1, "root/workspace.json.v1.bak").expect("migration");
    assert_eq!(record.from_version, 1);
    assert_eq!(record.to_version, EDIT_WORKSPACE_SCHEMA_VERSION);
    assert_eq!(record.backup_path, "root/workspace.json.v1.bak");
    assert_eq!(record.steps.len(), 2);
    assert_eq!(workspace_migration(2, "b").expect("migration").steps.len(), 1);
    assert!(workspace_migration(EDIT_WORKSPACE_SCHEMA_VERSION, "b").is_none());
}

#[test]
fn detects_a_changed_source_before_reporting_intact() {
    let original: &[u8] = b"synthetic module";
    let changed: &[u8] = b"changed module";
    let expected = sha256_bytes(original);
    assert_eq!(check_source_unchanged(&expected, original.len() as u64, &expected, original.len() as u64), Ok(()));
    assert_eq!(
        check_source_unchanged(&expected, original.len() as u64, &sha256_bytes(changed), changed.len() as u64),
        Err(EditError::SourceChanged)
    );
}

fn parts(list: &[&str]) -> Vec<String> {
    list.iter().map(|part| part.to_string()).collect()
}

#[test]
fn the_source_module_stays_outside_workspaces_and_builds() {
    let source = parts(&["/", "modules", "town.mod"]);
    assert_eq!(check_workspace_root(&parts(&["/", "modules"]), &source), Err(EditError::WorkspaceSourceOverlap));
    assert_eq!(check_workspace_root(&source, &source), Err(EditError::WorkspaceSourceOverlap));
    assert_eq!(check_workspace_root(&parts(&["/", "work", "town"]), &source), Ok(()));
    assert_eq!(check_workspace_root(&parts(&["/", "mod"]), &source), Ok(()));
    assert_eq!(check_output_not_source(&source, &source), Err(EditError::BuildSourceOverwriteBlocked));
    assert_eq!(check_output_not_source(&parts(&["/", "modules", "town2.mod"]), &source), Ok(()));
    assert_eq!(check_output_not_source(&parts(&["/", "modules"]), &source), Ok(()));
}

#[test]
fn edits_are_committed_with_exactly_their_staged_resources() {
    let area = vec![ResourceKey::new("area001", 2012)];
    assert_eq!(check_staged_transaction(&area, &area, None, None, None, Some("b")), Ok(()));
    assert_eq!(check_staged_transaction(&[], &[], None, None, None, None), Err(EditError::ResourceTransactionRequired));
    assert_eq!(
        check_staged_transaction(&area, &[ResourceKey::new("area002", 2012)], None, None, None, None),
        Err(EditError::ResourceTransactionRequired)
    );
    assert_eq!(
        check_staged_transaction(&area, &area, Some(("a", "b")), None, Some("a"), Some("b")),
        Ok(())
    );
    assert_eq!(
        check_staged_transaction(&area, &area, Some(("a", "b")), Some("x"), Some("a"), Some("b")),
        Err(EditError::ResourceHashTransactionMismatch)
    );
    assert_eq!(
        check_staged_transaction(&area, &area, Some(("a", "b")), Some("a"), None, Some("c")),
        Err(EditError::ResourceHashTransactionMismatch)
    );
}
