use aurora_forge::error::EditError;
use aurora_forge::paths::PathPart;
use aurora_forge::resource::ResourceKey;
use aurora_forge::sync::{
    plan_from_toolset_keys,
    baseline_from_plan, classify_sync_state, compare_aurora_sync, content_digest,
    resource_key_from_aurora_path, resource_key_from_path_parts, verify_sync_action,
    AuroraSyncAction, AuroraSyncBaseline, AuroraSyncBaselineEntry, AuroraSyncDirection,
    AuroraSyncManifest, AuroraSyncState, AuroraSyncWorkspaceFile, DevelopmentFile,
    AURORA_SYNC_SCHEMA_VERSION,
};

fn file(name: &str, sha256: &str) -> DevelopmentFile {
    DevelopmentFile { name: name.to_owned(), sha256: sha256.to_owned(), size_bytes: 1 }
}

#[test]
fn detects_initial_conflicts_and_one_sided_files() {
    let toolset = AuroraSyncManifest {
        schema_version: 1,
        root: "C:/toolset".to_owned(),
        files: vec![file("start.nss", "toolset"), file("only.dlg", "incoming")],
    };
    let workspace = vec![
        AuroraSyncWorkspaceFile {
            resource: ResourceKey::new("start", 2009),
            sha256: Some("workspace".to_owned()),
            size_bytes: Some(1),
        },
        AuroraSyncWorkspaceFile {
            resource: ResourceKey::new("out", 2014),
            sha256: Some("outgoing".to_owned()),
            size_bytes: Some(1),
        },
    ];
    let plan = compare_aurora_sync(&toolset, &workspace, None).expect("plan");
    assert_eq!(plan.conflict_count, 1);
    assert_eq!(plan.incoming_count, 1);
    assert_eq!(plan.outgoing_count, 1);
}

#[test]
fn uses_the_baseline_for_three_way_change_detection() {
    let toolset = AuroraSyncManifest {
        schema_version: 1,
        root: "C:/toolset".to_owned(),
        files: vec![file("start.nss", "incoming")],
    };
    let workspace = vec![AuroraSyncWorkspaceFile {
        resource: ResourceKey::new("start", 2009),
        sha256: Some("old".to_owned()),
        size_bytes: Some(1),
    }];
    let baseline = AuroraSyncBaseline {
        schema_version: AURORA_SYNC_SCHEMA_VERSION,
        root: toolset.root.clone(),
        entries: vec![AuroraSyncBaselineEntry {
            resource: ResourceKey::new("start", 2009),
            relative_path: "start.nss".to_owned(),
            toolset_sha256: Some("old".to_owned()),
            workspace_sha256: Some("old".to_owned()),
        }],
    };
    let plan = compare_aurora_sync(&toolset, &workspace, Some(&baseline)).expect("plan");
    assert_eq!(plan.entries[0].state, AuroraSyncState::ToolsetChanged);
}

#[test]
fn rejects_duplicate_resource_names_in_nested_folders() {
    let toolset = AuroraSyncManifest {
        schema_version: 1,
        root: "C:/toolset".to_owned(),
        files: vec![file("one/start.nss", "a"), file("two/start.nss", "b")],
    };
    let error = compare_aurora_sync(&toolset, &[], None).expect_err("duplicate");
    assert_eq!(error.code(), "EDIT_AURORA_SYNC_DUPLICATE_RESOURCE");
}

#[test]
fn plan_entries_come_in_key_order_with_paths_and_counts() {
    let toolset = AuroraSyncManifest {
        schema_version: 1,
        root: "C:/toolset".to_owned(),
        files: vec![file("zeta.nss", "same"), file("alpha.utc", "t")],
    };
    let workspace = vec![
        AuroraSyncWorkspaceFile {
            resource: ResourceKey::new("zeta", 2009),
            sha256: Some("same".to_owned()),
            size_bytes: Some(4),
        },
        AuroraSyncWorkspaceFile {
            resource: ResourceKey::new("mid", 2009),
            sha256: Some("first".to_owned()),
            size_bytes: Some(1),
        },
        AuroraSyncWorkspaceFile {
            resource: ResourceKey::new("mid", 2009),
            sha256: Some("second".to_owned()),
            size_bytes: Some(1),
        },
    ];
    let plan = compare_aurora_sync(&toolset, &workspace, None).expect("plan");
    let names: Vec<&str> = plan.entries.iter().map(|e| e.resource.resref.as_str()).collect();
    assert_eq!(names, vec!["alpha", "mid", "zeta"]);
    assert_eq!(plan.entries[0].state, AuroraSyncState::ToolsetOnly);
    assert_eq!(plan.entries[0].relative_path, "alpha.utc");
    assert_eq!(plan.entries[1].state, AuroraSyncState::WorkspaceOnly);
    assert_eq!(plan.entries[1].workspace_sha256.as_deref(), Some("second"));
    assert_eq!(plan.entries[1].relative_path, "mid.nss");
    assert_eq!(plan.entries[2].state, AuroraSyncState::Identical);
    assert_eq!(plan.identical_count, 1);
    assert_eq!(plan.incoming_count, 1);
    assert_eq!(plan.outgoing_count, 1);
    assert_eq!(plan.conflict_count, 0);
    assert_eq!(plan.root, "C:/toolset");
    assert!(!plan.baseline_found);
    assert_eq!(plan.schema_version, AURORA_SYNC_SCHEMA_VERSION);
}

#[test]
fn classification_covers_every_state() {
    assert_eq!(classify_sync_state(Some("a"), Some("a"), None, None), AuroraSyncState::Identical);
    assert_eq!(classify_sync_state(None, None, None, None), AuroraSyncState::Identical);
    assert_eq!(classify_sync_state(Some("a"), None, None, None), AuroraSyncState::ToolsetOnly);
    assert_eq!(classify_sync_state(None, Some("a"), None, None), AuroraSyncState::WorkspaceOnly);
    assert_eq!(classify_sync_state(Some("a"), Some("b"), None, None), AuroraSyncState::Conflict);
    assert_eq!(
        classify_sync_state(Some("new"), Some("old"), Some(Some("old")), Some(Some("old"))),
        AuroraSyncState::ToolsetChanged
    );
    assert_eq!(
        classify_sync_state(Some("old"), Some("new"), Some(Some("old")), Some(Some("old"))),
        AuroraSyncState::WorkspaceChanged
    );
    assert_eq!(
        classify_sync_state(Some("x"), Some("y"), Some(Some("old")), Some(Some("old"))),
        AuroraSyncState::Conflict
    );
    assert_eq!(
        classify_sync_state(Some("x"), Some("y"), Some(Some("x")), Some(Some("y"))),
        AuroraSyncState::Conflict
    );
    assert_eq!(
        classify_sync_state(Some("a"), None, Some(None), Some(None)),
        AuroraSyncState::ToolsetChanged
    );
}

#[test]
fn toolset_paths_give_keys_or_errors() {
    let key = resource_key_from_aurora_path("areas/start.are").expect("key");
    assert_eq!(key.resref, "start");
    assert_eq!(key.resource_type, 2012);
    assert_eq!(
        resource_key_from_aurora_path("../start.nss").unwrap_err(),
        EditError::AuroraSyncPathInvalid
    );
    assert_eq!(
        resource_key_from_aurora_path("/abs/start.nss").unwrap_err(),
        EditError::AuroraSyncPathInvalid
    );
    assert_eq!(
        resource_key_from_aurora_path("start").unwrap_err(),
        EditError::AuroraSyncExtensionInvalid
    );
    assert_eq!(
        resource_key_from_aurora_path("start.zzz").unwrap_err(),
        EditError::AuroraSyncExtensionInvalid
    );
    assert_eq!(
        resource_key_from_aurora_path("averyveryverylongname.nss").unwrap_err(),
        EditError::AuroraSyncResrefInvalid
    );
    assert_eq!(
        resource_key_from_aurora_path("déjà.nss").unwrap_err(),
        EditError::AuroraSyncResrefInvalid
    );
}

#[test]
fn path_parts_decide_the_key() {
    let normal = [PathPart::Normal];
    let key = resource_key_from_path_parts(false, &normal, Some("dlg"), Some("talk")).expect("key");
    assert_eq!(key.resref, "talk");
    assert_eq!(key.resource_type, 2029);
    assert_eq!(
        resource_key_from_path_parts(true, &normal, Some("dlg"), Some("talk")).unwrap_err(),
        EditError::AuroraSyncPathInvalid
    );
    assert_eq!(
        resource_key_from_path_parts(false, &[PathPart::Normal, PathPart::ParentDir], Some("dlg"), Some("talk"))
            .unwrap_err(),
        EditError::AuroraSyncPathInvalid
    );
    assert_eq!(
        resource_key_from_path_parts(false, &normal, None, Some("talk")).unwrap_err(),
        EditError::AuroraSyncExtensionInvalid
    );
    assert_eq!(
        resource_key_from_path_parts(false, &normal, Some("dlg"), None).unwrap_err(),
        EditError::AuroraSyncResrefInvalid
    );
    assert_eq!(
        resource_key_from_path_parts(false, &normal, Some("dlg"), Some("")).unwrap_err(),
        EditError::AuroraSyncResrefInvalid
    );
}

#[test]
fn actions_must_match_the_previewed_entry() {
    let toolset = AuroraSyncManifest {
        schema_version: 1,
        root: "C:/toolset".to_owned(),
        files: vec![file("start.nss", "t")],
    };
    let plan = compare_aurora_sync(&toolset, &[], None).expect("plan");
    let entry = &plan.entries[0];
    let action = AuroraSyncAction {
        resource: ResourceKey::new("start", 2009),
        direction: AuroraSyncDirection::PullFromToolset,
        expected_toolset_sha256: Some("t".to_owned()),
        expected_workspace_sha256: None,
    };
    assert_eq!(verify_sync_action(entry, &action), Ok(()));
    let stale = AuroraSyncAction { expected_toolset_sha256: Some("u".to_owned()), ..action.clone() };
    assert_eq!(verify_sync_action(entry, &stale), Err(EditError::AuroraSyncPreconditionFailed));
    let other = AuroraSyncAction { resource: ResourceKey::new("start", 2010), ..action };
    assert_eq!(verify_sync_action(entry, &other), Err(EditError::AuroraSyncPreconditionFailed));
}

#[test]
fn a_recorded_plan_makes_later_changes_directional() {
    let toolset = AuroraSyncManifest {
        schema_version: 1,
        root: "C:/toolset".to_owned(),
        files: vec![file("start.nss", "v1")],
    };
    let workspace = vec![AuroraSyncWorkspaceFile {
        resource: ResourceKey::new("start", 2009),
        sha256: Some("v1".to_owned()),
        size_bytes: Some(2),
    }];
    let plan = compare_aurora_sync(&toolset, &workspace, None).expect("plan");
    let baseline = baseline_from_plan(&plan);
    assert_eq!(baseline.entries.len(), 1);
    assert_eq!(baseline.entries[0].relative_path, "start.nss");
    assert_eq!(baseline.entries[0].toolset_sha256.as_deref(), Some("v1"));
    assert_eq!(baseline.root, "C:/toolset");
    let changed = AuroraSyncManifest { files: vec![file("start.nss", "v2")], ..toolset };
    let later = compare_aurora_sync(&changed, &workspace, Some(&baseline)).expect("plan");
    assert_eq!(later.entries[0].state, AuroraSyncState::ToolsetChanged);
    assert_eq!(later.incoming_count, 1);
    assert!(later.baseline_found);
}

#[test]
fn content_digest_is_the_hex_sha256_of_the_bytes() {
    assert_eq!(content_digest(None), None);
    assert_eq!(
        content_digest(Some(b"abc")).as_deref(),
        Some("ba7816bf8f01cfea414140de5dae2223b00361a396177a9cb410ff61f20015ad")
    );
}

#[test]
fn the_first_key_fault_stops_the_comparison() {
    let toolset = AuroraSyncManifest {
        schema_version: 1,
        root: "C:/toolset".to_owned(),
        files: vec![file("one/start.nss", "a"), file("two/start.nss", "b"), file("bad.xyz", "c")],
    };
    let start = || Ok(ResourceKey::new("start", 2009));
    let duplicate = plan_from_toolset_keys(&toolset, vec![start(), start(), Err(EditError::AuroraSyncExtensionInvalid)], &[], None);
    assert_eq!(duplicate.map(|_| ()), Err(EditError::AuroraSyncDuplicateResource));
    let first = plan_from_toolset_keys(
        &toolset,
        vec![start(), Err(EditError::AuroraSyncPathInvalid), start()],
        &[],
        None,
    );
    assert_eq!(first.map(|_| ()), Err(EditError::AuroraSyncPathInvalid));
    let distinct = plan_from_toolset_keys(
        &toolset,
        vec![start(), Ok(ResourceKey::new("start", 2010)), Ok(ResourceKey::new("other", 2009))],
        &[],
        None,
    )
    .expect("distinct keys");
    assert_eq!(distinct.entries.len(), 3);
    assert_eq!(distinct.incoming_count, 3);
    let empty = AuroraSyncManifest { schema_version: 1, root: "C:/toolset".to_owned(), files: vec![] };
    assert_eq!(compare_aurora_sync(&empty, &[], None).expect("no files").entries.len(), 0);
}

#[test]
fn a_plain_file_name_is_split_at_its_last_dot() {
    assert_eq!(resource_key_from_aurora_path("start.nss"), Ok(ResourceKey::new("start", 2009)));
    assert_eq!(resource_key_from_aurora_path("module.ifo"), Ok(ResourceKey::new("module", 2014)));
    assert_eq!(resource_key_from_aurora_path("start.old.nss"), Ok(ResourceKey::new("start.old", 2009)));
    assert_eq!(
        resource_key_from_aurora_path("start.nss.zzz").unwrap_err(),
        EditError::AuroraSyncExtensionInvalid
    );
}

#[test]
fn a_file_in_folders_is_keyed_by_its_last_name() {
    assert_eq!(resource_key_from_aurora_path("one/two/start.nss"), Ok(ResourceKey::new("start", 2009)));
    assert_eq!(resource_key_from_aurora_path("areas/old/area01.git"), Ok(ResourceKey::new("area01", 2023)));
    assert_eq!(
        resource_key_from_aurora_path("one/start.old").unwrap_err(),
        EditError::AuroraSyncExtensionInvalid
    );
    assert_eq!(
        resource_key_from_aurora_path("one/../start.nss").unwrap_err(),
        EditError::AuroraSyncPathInvalid
    );
}
