use aurora_forge::deploy::{
    check_deployment_owner, cleanup_outcome, development_cleanup_report, obsolete_files,
    ownership_conflict, profile_context_warnings, reproducible_build_verification,
    BuildProfileWarning, CleanupOutcome, DevelopmentDeployment, ModuleBuildReport,
};
use aurora_forge::error::EditError;
use aurora_forge::profiles::ModuleBuildProfile;
use aurora_forge::sync::DevelopmentFile;

fn file(name: &str, sha256: &str) -> DevelopmentFile {
    DevelopmentFile { name: name.to_owned(), sha256: sha256.to_owned(), size_bytes: 1 }
}

fn deployment(workspace_id: &str, files: Vec<DevelopmentFile>) -> DevelopmentDeployment {
    DevelopmentDeployment { workspace_id: workspace_id.to_owned(), development_path: "dev".to_owned(), files }
}

fn report(sha256: &str, resource_count: usize) -> ModuleBuildReport {
    ModuleBuildReport {
        output_path: "out.mod".to_owned(),
        sha256: sha256.to_owned(),
        size_bytes: 10,
        resource_count,
        modified_resources: 1,
        deleted_resources: 0,
        source_intact: true,
    }
}

fn profile(block_on_warnings: bool) -> ModuleBuildProfile {
    ModuleBuildProfile {
        name: "Release".to_owned(),
        output_name: "out.mod".to_owned(),
        block_on_warnings,
        deploy_development: false,
        hak_files: vec!["a.hak".to_owned()],
        custom_tlk: None,
    }
}

#[test]
fn build_verification_compares_the_two_digests() {
    let same = reproducible_build_verification(profile(false), &report("x", 4), &report("x", 4), Vec::new());
    assert!(same.identical);
    assert_eq!(same.resource_count, 4);
    let different = reproducible_build_verification(profile(false), &report("x", 4), &report("y", 5), Vec::new());
    assert!(!different.identical);
    assert_eq!(different.first_sha256, "x");
    assert_eq!(different.second_sha256, "y");
    assert_eq!(different.resource_count, 4);
}

#[test]
fn profile_warnings_compare_haks_and_tlk_with_the_module() {
    let haks = vec!["a.hak".to_owned()];
    assert_eq!(profile_context_warnings(&profile(false), &haks, None), Ok(vec![]));
    assert_eq!(
        profile_context_warnings(&profile(false), &[], Some("x")),
        Ok(vec![BuildProfileWarning::HakFilesDiffer, BuildProfileWarning::CustomTlkDiffers])
    );
    assert_eq!(
        profile_context_warnings(&profile(true), &haks, Some("x")),
        Err(EditError::BuildProfileWarningsBlocked)
    );
    assert_eq!(profile_context_warnings(&profile(true), &haks, None), Ok(vec![]));
}

#[test]
fn cleanup_removes_only_files_left_as_deployed() {
    let files = vec![file("a.nss", "1"), file("b.dlg", "2"), file("c.utc", "3")];
    let current = vec![Some("1".to_owned()), Some("changed".to_owned()), None];
    let cleanup = development_cleanup_report(&files, &current);
    assert_eq!(cleanup.removed, vec!["a.nss".to_owned()]);
    assert_eq!(cleanup.preserved_changed, vec!["b.dlg".to_owned()]);
    assert_eq!(cleanup_outcome(&files[2], None), CleanupOutcome::Missing);
    assert_eq!(cleanup_outcome(&files[0], Some("1")), CleanupOutcome::Remove);
    assert_eq!(cleanup_outcome(&files[0], Some("9")), CleanupOutcome::Preserve);
}

#[test]
fn deployments_respect_the_files_other_workspaces_own() {
    let new_files = vec![file("a.nss", "1"), file("b.dlg", "2")];
    let other = deployment("other", vec![file("z.utc", "0"), file("b.dlg", "9"), file("a.nss", "9")]);
    assert_eq!(ownership_conflict(&other, "mine", &new_files), Some(1));
    let unrelated = deployment("other", vec![file("z.utc", "0")]);
    assert_eq!(ownership_conflict(&unrelated, "mine", &new_files), None);
    let own = deployment("mine", vec![file("a.nss", "0"), file("old.ncs", "0"), file("gone.utc", "0")]);
    assert_eq!(ownership_conflict(&own, "mine", &new_files), None);
    assert_eq!(obsolete_files(&own, &new_files), vec![1, 2]);
    assert_eq!(check_deployment_owner(&own, "mine"), Ok(()));
    assert_eq!(check_deployment_owner(&own, "other"), Err(EditError::DeploymentWorkspaceMismatch));
}
