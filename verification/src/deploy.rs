//! The decisions around builds and development deployments: whether two
//! builds agree, whether a profile matches its module, which deployed files a
//! workspace owns and which of them a cleanup removes.
use crate::error::EditError;
use crate::profiles::ModuleBuildProfile;
use crate::resource::{copy_string, text_equal};
use crate::sync::DevelopmentFile;
use vstd::prelude::*;

verus! {

/// What building a module produced.
#[derive(Debug, Clone, PartialEq, Eq)]
pub struct ModuleBuildReport {
    pub output_path: String,
    pub sha256: String,
    pub size_bytes: u64,
    pub resource_count: usize,
    pub modified_resources: usize,
    pub deleted_resources: usize,
    pub source_intact: bool,
}

/// Two builds of one profile and whether they are byte for byte the same.
#[derive(Debug, Clone, PartialEq, Eq)]
pub struct ReproducibleBuildVerification {
    pub profile: ModuleBuildProfile,
    pub first_sha256: String,
    pub second_sha256: String,
    pub identical: bool,
    pub resource_count: usize,
    pub warnings: Vec<String>,
}

/// The files a workspace deployed to the game's development folder.
#[derive(Debug, Clone, PartialEq, Eq)]
pub struct DevelopmentDeployment {
    pub workspace_id: String,
    pub development_path: String,
    pub files: Vec<DevelopmentFile>,
}

/// What a cleanup of the development folder removed, and what it kept
/// because the file changed after it was deployed.
#[derive(Debug, Clone, PartialEq, Eq)]
pub struct DevelopmentCleanupReport {
    pub removed: Vec<String>,
    pub preserved_changed: Vec<String>,
}

/// Compares two builds of the same profile; the resource count is the first
/// build's.
pub fn reproducible_build_verification(
    profile: ModuleBuildProfile,
    first: &ModuleBuildReport,
    second: &ModuleBuildReport,
    warnings: Vec<String>,
) -> (verification: ReproducibleBuildVerification)
    ensures
        verification.profile == profile,
        verification.first_sha256@ == first.sha256@,
        verification.second_sha256@ == second.sha256@,
        verification.identical == (first.sha256@ == second.sha256@),
        verification.resource_count == first.resource_count,
        verification.warnings == warnings,
{
    ReproducibleBuildVerification {
        profile,
        first_sha256: copy_string(&first.sha256),
        second_sha256: copy_string(&second.sha256),
        identical: text_equal(first.sha256.as_str(), second.sha256.as_str()),
        resource_count: first.resource_count,
        warnings,
    }
}

/// How a build profile differs from the module it builds.
#[derive(Debug, Clone, Copy, PartialEq, Eq)]
pub enum BuildProfileWarning {
    HakFilesDiffer,
    CustomTlkDiffers,
}

fn same_texts(a: &Vec<String>, b: &[String]) -> (same: bool)
    ensures
        same == (a@.len() == b@.len() && forall|i: int| 0 <= i < a@.len() ==> (#[trigger] a@[i])@ == b@[i]@),
{
    if a.len() != b.len() {
        return false;
    }
    let mut i: usize = 0;
    while i < a.len()
        invariant
            a@.len() == b@.len(),
            i <= a@.len(),
            forall|k: int| 0 <= k < i ==> (#[trigger] a@[k])@ == b@[k]@,
        decreases a@.len() - i,
    {
        if !text_equal(a[i].as_str(), b[i].as_str()) {
            return false;
        }
        i += 1;
    }
    true
}

/// The profile lists the same HAK files, in the same order, as the module.
pub open spec fn same_hak_files(profile: ModuleBuildProfile, module_hak_files: Seq<String>) -> bool {
    profile.hak_files@.len() == module_hak_files.len() && forall|i: int|
        0 <= i < module_hak_files.len() ==> (#[trigger] profile.hak_files@[i])@ == module_hak_files[i]@
}

/// The profile names the same custom TLK as the module (or both none).
pub open spec fn same_custom_tlk(profile: ModuleBuildProfile, module_custom_tlk: Option<&str>) -> bool {
    match (profile.custom_tlk, module_custom_tlk) {
        (Some(a), Some(b)) => a@ == b@,
        (None, None) => true,
        _ => false,
    }
}

/// The warnings of a profile against its module: a differing HAK list, then a
/// differing custom TLK; a profile that blocks on warnings is refused instead.
pub fn profile_context_warnings(
    profile: &ModuleBuildProfile,
    module_hak_files: &[String],
    module_custom_tlk: Option<&str>,
) -> (result: Result<Vec<BuildProfileWarning>, EditError>)
    ensures
        ({
            let expected = if same_hak_files(*profile, module_hak_files@) {
                seq![]
            } else {
                seq![BuildProfileWarning::HakFilesDiffer]
            } + if same_custom_tlk(*profile, module_custom_tlk) {
                seq![]
            } else {
                seq![BuildProfileWarning::CustomTlkDiffers]
            };
            &&& profile.block_on_warnings && expected.len() > 0 ==> result == Err::<
                Vec<BuildProfileWarning>,
                EditError,
            >(EditError::BuildProfileWarningsBlocked)
            &&& !(profile.block_on_warnings && expected.len() > 0) ==> (result matches Ok(warnings)
                && warnings@ == expected)
        }),
{
    let mut warnings: Vec<BuildProfileWarning> = Vec::new();
    let same_haks = same_texts(&profile.hak_files, module_hak_files);
    if !same_haks {
        warnings.push(BuildProfileWarning::HakFilesDiffer);
    }
    let same_tlk = match (&profile.custom_tlk, module_custom_tlk) {
        (Some(a), Some(b)) => text_equal(a.as_str(), b),
        (None, None) => true,
        _ => false,
    };
    if !same_tlk {
        warnings.push(BuildProfileWarning::CustomTlkDiffers);
    }
    proof {
        let expected = if same_hak_files(*profile, module_hak_files@) {
            seq![]
        } else {
            seq![BuildProfileWarning::HakFilesDiffer]
        } + if same_custom_tlk(*profile, module_custom_tlk) {
            seq![]
        } else {
            seq![BuildProfileWarning::CustomTlkDiffers]
        };
        assert(warnings@ =~= expected);
    }
    if profile.block_on_warnings && warnings.len() > 0 {
        return Err(EditError::BuildProfileWarningsBlocked);
    }
    Ok(warnings)
}

/// Some file of `files` has the name `name`.
pub open spec fn names_file(files: Seq<DevelopmentFile>, name: Seq<char>) -> bool {
    exists|i: int| 0 <= i < files.len() && (#[trigger] files[i]).name@ == name
}

fn find_file_name(files: &[DevelopmentFile], name: &str) -> (found: bool)
    ensures
        found == names_file(files@, name@),
{
    let mut i: usize = 0;
    while i < files.len()
        invariant
            i <= files@.len(),
            forall|k: int| 0 <= k < i ==> (#[trigger] files@[k]).name@ != name@,
        decreases files@.len() - i,
    {
        if text_equal(files[i].name.as_str(), name) {
            return true;
        }
        i += 1;
    }
    false
}

/// The first file that a deployment of another workspace owns and that a
/// new deployment would overwrite, if any.
pub open spec fn spec_ownership_conflict(
    manifest: DevelopmentDeployment,
    workspace_id: Seq<char>,
    new_files: Seq<DevelopmentFile>,
) -> Option<int> {
    if manifest.workspace_id@ == workspace_id {
        None
    } else if exists|i: int|
        0 <= i < manifest.files@.len() && names_file(new_files, (#[trigger] manifest.files@[i]).name@) {
        Some(
            choose|i: int|
                0 <= i < manifest.files@.len() && names_file(new_files, manifest.files@[i].name@)
                    && forall|j: int|
                    0 <= j < i ==> !names_file(new_files, (#[trigger] manifest.files@[j]).name@),
        )
    } else {
        None
    }
}

/// Checks a deployment manifest found in the development folder against a
/// new deployment: gives the position of the first file that another
/// workspace owns and that the new deployment would overwrite.
pub fn ownership_conflict(
    manifest: &DevelopmentDeployment,
    workspace_id: &str,
    new_files: &[DevelopmentFile],
) -> (conflict: Option<usize>)
    ensures
        match conflict {
            Some(i) => spec_ownership_conflict(*manifest, workspace_id@, new_files@) == Some(i as int),
            None => spec_ownership_conflict(*manifest, workspace_id@, new_files@) is None,
        },
{
    if text_equal(manifest.workspace_id.as_str(), workspace_id) {
        return None;
    }
    let mut i: usize = 0;
    while i < manifest.files.len()
        invariant
            i <= manifest.files@.len(),
            manifest.workspace_id@ != workspace_id@,
            forall|j: int| 0 <= j < i ==> !names_file(new_files@, (#[trigger] manifest.files@[j]).name@),
        decreases manifest.files@.len() - i,
    {
        if find_file_name(new_files, manifest.files[i].name.as_str()) {
            proof {
                let chosen = spec_ownership_conflict(*manifest, workspace_id@, new_files@);
                assert(chosen is Some);
                let c = chosen->0;
                if c < i {
                    assert(!names_file(new_files@, manifest.files@[c].name@));
                } else if c > i {
                    assert(!names_file(new_files@, manifest.files@[i as int].name@));
                }
            }
            return Some(i);
        }
        i += 1;
    }
    None
}

/// The files of an earlier deployment of the same workspace that the new
/// deployment no longer holds: the positions of those whose name it lacks.
pub fn obsolete_files(manifest: &DevelopmentDeployment, new_files: &[DevelopmentFile]) -> (obsolete: Vec<usize>)
    ensures
        forall|k: int|
            0 <= k < obsolete@.len() ==> (#[trigger] obsolete@[k]) < manifest.files@.len()
                && !names_file(new_files@, manifest.files@[obsolete@[k] as int].name@),
        forall|i: int|
            0 <= i < manifest.files@.len() && !names_file(new_files@, manifest.files@[i].name@)
                ==> obsolete@.contains(i as usize),
        forall|a: int, b: int| 0 <= a < b < obsolete@.len() ==> obsolete@[a] < obsolete@[b],
{
    let mut obsolete: Vec<usize> = Vec::new();
    let mut i: usize = 0;
    while i < manifest.files.len()
        invariant
            i <= manifest.files@.len(),
            forall|k: int|
                0 <= k < obsolete@.len() ==> (#[trigger] obsolete@[k]) < i
                    && !names_file(new_files@, manifest.files@[obsolete@[k] as int].name@),
            forall|j: int|
                0 <= j < i && !names_file(new_files@, manifest.files@[j].name@) ==> obsolete@.contains(
                    j as usize,
                ),
            forall|a: int, b: int| 0 <= a < b < obsolete@.len() ==> obsolete@[a] < obsolete@[b],
        decreases manifest.files@.len() - i,
    {
        if !find_file_name(new_files, manifest.files[i].name.as_str()) {
            let ghost before = obsolete@;
            obsolete.push(i);
            proof {
                assert forall|j: int|
                    0 <= j < i + 1 && !names_file(new_files@, manifest.files@[j].name@) implies obsolete@.contains(
                    j as usize,
                ) by {
                    if j < i {
                        let w = choose|w: int| 0 <= w < before.len() && before[w] == j as usize;
                        assert(obsolete@[w] == j as usize);
                    } else {
                        assert(obsolete@[before.len() as int] == i);
                    }
                }
            }
        }
        i += 1;
    }
    obsolete
}

/// What a cleanup does with one deployed file, given its current digest (none
/// where it is gone).
#[derive(Debug, Clone, Copy, PartialEq, Eq)]
pub enum CleanupOutcome {
    /// The file is gone; nothing to do.
    Missing,
    /// The file is as deployed; it is removed.
    Remove,
    /// The file changed after deployment; it is kept.
    Preserve,
}

pub open spec fn spec_cleanup_outcome(deployed_sha256: Seq<char>, current_sha256: Option<Seq<char>>) -> CleanupOutcome {
    match current_sha256 {
        None => CleanupOutcome::Missing,
        Some(current) => if current == deployed_sha256 {
            CleanupOutcome::Remove
        } else {
            CleanupOutcome::Preserve
        },
    }
}

pub fn cleanup_outcome(file: &DevelopmentFile, current_sha256: Option<&str>) -> (outcome: CleanupOutcome)
    ensures
        outcome == spec_cleanup_outcome(
            file.sha256@,
            match current_sha256 {
                Some(c) => Some(c@),
                None => None,
            },
        ),
{
    match current_sha256 {
        None => CleanupOutcome::Missing,
        Some(current) => if text_equal(current, file.sha256.as_str()) {
            CleanupOutcome::Remove
        } else {
            CleanupOutcome::Preserve
        },
    }
}

/// Refuses a deployment manifest that another workspace wrote.
pub fn check_deployment_owner(deployment: &DevelopmentDeployment, workspace_id: &str) -> (result: Result<(), EditError>)
    ensures
        result is Ok == (deployment.workspace_id@ == workspace_id@),
        result matches Err(error) ==> error == EditError::DeploymentWorkspaceMismatch,
{
    if text_equal(deployment.workspace_id.as_str(), workspace_id) {
        Ok(())
    } else {
        Err(EditError::DeploymentWorkspaceMismatch)
    }
}

/// The names of the files that a cleanup removes (`Remove`) or keeps as
/// changed (`Preserve`), in deployment order.
pub open spec fn cleanup_names(
    files: Seq<DevelopmentFile>,
    current: Seq<Option<String>>,
    wanted: CleanupOutcome,
) -> Seq<Seq<char>>
    decreases files.len(),
{
    if files.len() == 0 {
        seq![]
    } else {
        let last = files.len() - 1;
        let earlier = cleanup_names(files.drop_last(), current, wanted);
        if spec_cleanup_outcome(files[last].sha256@, crate::sync::opt_text(current[last])) == wanted {
            earlier.push(files[last].name@)
        } else {
            earlier
        }
    }
}

pub open spec fn texts(values: Seq<String>) -> Seq<Seq<char>> {
    values.map_values(|v: String| v@)
}

/// The cleanup report of a deployment, given each file's current digest
/// (none where the file is gone): the names of the files that are as deployed
/// (removed) and of those that changed (kept), in deployment order.
pub fn development_cleanup_report(files: &[DevelopmentFile], current: &[Option<String>]) -> (report: DevelopmentCleanupReport)
    requires
        files@.len() == current@.len(),
    ensures
        texts(report.removed@) == cleanup_names(files@, current@, CleanupOutcome::Remove),
        texts(report.preserved_changed@) == cleanup_names(files@, current@, CleanupOutcome::Preserve),
{
    let mut removed: Vec<String> = Vec::new();
    let mut preserved_changed: Vec<String> = Vec::new();
    let mut i: usize = 0;
    while i < files.len()
        invariant
            files@.len() == current@.len(),
            i <= files@.len(),
            texts(removed@) == cleanup_names(files@.take(i as int), current@, CleanupOutcome::Remove),
            texts(preserved_changed@) == cleanup_names(
                files@.take(i as int),
                current@,
                CleanupOutcome::Preserve,
            ),
        decreases files@.len() - i,
    {
        let digest: Option<&str> = match &current[i] {
            Some(c) => Some(c.as_str()),
            None => None,
        };
        proof {
            let next = files@.take(i + 1);
            assert(next.drop_last() =~= files@.take(i as int));
            assert(next[i as int] == files@[i as int]);
        }
        let outcome = cleanup_outcome(&files[i], digest);
        match outcome {
            CleanupOutcome::Missing => {},
            CleanupOutcome::Remove => {
                removed.push(copy_string(&files[i].name));
            },
            CleanupOutcome::Preserve => {
                preserved_changed.push(copy_string(&files[i].name));
            },
        }
        proof {
            assert(texts(removed@) =~= cleanup_names(files@.take(i + 1), current@, CleanupOutcome::Remove));
            assert(texts(preserved_changed@) =~= cleanup_names(
                files@.take(i + 1),
                current@,
                CleanupOutcome::Preserve,
            ));
        }
        i += 1;
    }
    proof {
        assert(files@.take(files@.len() as int) =~= files@);
    }
    DevelopmentCleanupReport { removed, preserved_changed }
}

} // verus!
