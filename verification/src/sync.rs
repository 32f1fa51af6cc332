//! Three-way comparison between the files of an Aurora Toolset module folder
//! and the resources of an editing workspace, against the state recorded at
//! the last synchronisation.
use crate::digest::sha256_hex;
use crate::error::EditError;
use crate::paths::{
    name_extension, name_stem, path_extension, path_file_stem, path_is_absolute, path_parts,
    folder_parts, folder_path, last_name, PathPart,
};
use crate::resource::{
    copy_string, key_lt, lemma_key_le_transitive, lemma_key_total, resource_key_lt,
    text_equal, ResourceKey,
};
use vstd::prelude::*;

verus! {

pub const AURORA_SYNC_SCHEMA_VERSION: u32 = 2;

/// A file with its SHA-256 digest and size.
#[derive(Debug, Clone, PartialEq, Eq)]
pub struct DevelopmentFile {
    pub name: String,
    pub sha256: String,
    pub size_bytes: u64,
}

/// The files of a Toolset module folder, by path relative to its root.
#[derive(Debug, Clone, PartialEq, Eq)]
pub struct AuroraSyncManifest {
    pub schema_version: u32,
    pub root: String,
    pub files: Vec<DevelopmentFile>,
}

/// A resource of the workspace and its digest, if it has contents.
#[derive(Debug, Clone, PartialEq, Eq)]
pub struct AuroraSyncWorkspaceFile {
    pub resource: ResourceKey,
    pub sha256: Option<String>,
    pub size_bytes: Option<u64>,
}

/// What the last synchronisation recorded of one resource.
#[derive(Debug, Clone, PartialEq, Eq)]
pub struct AuroraSyncBaselineEntry {
    pub resource: ResourceKey,
    pub relative_path: String,
    pub toolset_sha256: Option<String>,
    pub workspace_sha256: Option<String>,
}

/// What the last synchronisation recorded.
#[derive(Debug, Clone, PartialEq, Eq)]
pub struct AuroraSyncBaseline {
    pub schema_version: u32,
    pub root: String,
    pub entries: Vec<AuroraSyncBaselineEntry>,
}

/// How the two sides of one resource relate.
#[derive(Debug, Clone, Copy, PartialEq, Eq)]
pub enum AuroraSyncState {
    Identical,
    ToolsetOnly,
    WorkspaceOnly,
    ToolsetChanged,
    WorkspaceChanged,
    Conflict,
}

/// One resource of a synchronisation plan.
#[derive(Debug, Clone, PartialEq, Eq)]
pub struct AuroraSyncEntry {
    pub resource: ResourceKey,
    pub relative_path: String,
    pub toolset_sha256: Option<String>,
    pub workspace_sha256: Option<String>,
    pub baseline_toolset_sha256: Option<String>,
    pub baseline_workspace_sha256: Option<String>,
    pub state: AuroraSyncState,
}

/// The comparison of both sides, resource by resource, in key order.
#[derive(Debug, Clone, PartialEq, Eq)]
pub struct AuroraSyncPlan {
    pub schema_version: u32,
    pub root: String,
    pub baseline_found: bool,
    pub entries: Vec<AuroraSyncEntry>,
    pub identical_count: usize,
    pub incoming_count: usize,
    pub outgoing_count: usize,
    pub conflict_count: usize,
}

/// Which way a resource is copied.
#[derive(Debug, Clone, Copy, PartialEq, Eq)]
pub enum AuroraSyncDirection {
    PullFromToolset,
    PushToToolset,
}

/// A copy that the user asked for, with the digests the preview showed.
#[derive(Debug, Clone, PartialEq, Eq)]
pub struct AuroraSyncAction {
    pub resource: ResourceKey,
    pub direction: AuroraSyncDirection,
    pub expected_toolset_sha256: Option<String>,
    pub expected_workspace_sha256: Option<String>,
}

/// A copy that was made.
#[derive(Debug, Clone, PartialEq, Eq)]
pub struct AuroraSyncAppliedFile {
    pub resource: ResourceKey,
    pub direction: AuroraSyncDirection,
    pub sha256: Option<String>,
}

/// An optional text by its characters.
pub open spec fn opt_text(value: Option<String>) -> Option<Seq<char>> {
    match value {
        Some(text) => Some(text@),
        None => None,
    }
}

/// An optional borrowed text by its characters.
pub open spec fn opt_str_text(value: Option<&str>) -> Option<Seq<char>> {
    match value {
        Some(text) => Some(text@),
        None => None,
    }
}

/// An optional recorded value by its characters.
pub open spec fn opt_opt_text(value: Option<Option<&str>>) -> Option<Option<Seq<char>>> {
    match value {
        Some(inner) => Some(opt_str_text(inner)),
        None => None,
    }
}

fn copy_opt_string(value: &Option<String>) -> (copy: Option<String>)
    ensures
        opt_text(copy) == opt_text(*value),
{
    match value {
        Some(text) => Some(copy_string(text)),
        None => None,
    }
}

fn opt_as_str(value: &Option<String>) -> (borrowed: Option<&str>)
    ensures
        opt_str_text(borrowed) == opt_text(*value),
{
    match value {
        Some(text) => Some(text.as_str()),
        None => None,
    }
}

fn opt_str_equal(a: Option<&str>, b: Option<&str>) -> (equal: bool)
    ensures
        equal == (opt_str_text(a) == opt_str_text(b)),
{
    match (a, b) {
        (Some(x), Some(y)) => text_equal(x, y),
        (None, None) => true,
        _ => false,
    }
}

/// The state of a resource: identical when both sides hold the same digest
/// (or both lack it); without a record, one-sided when only one side has it,
/// else a conflict; with a record, changed on the side that moved away from it,
/// and a conflict when both or neither moved.
pub open spec fn spec_classify(
    toolset: Option<Seq<char>>,
    workspace: Option<Seq<char>>,
    baseline_toolset: Option<Option<Seq<char>>>,
    baseline_workspace: Option<Option<Seq<char>>>,
) -> AuroraSyncState {
    if toolset == workspace {
        AuroraSyncState::Identical
    } else {
        match (baseline_toolset, baseline_workspace) {
            (Some(recorded_toolset), Some(recorded_workspace)) => {
                let toolset_changed = toolset != recorded_toolset;
                let workspace_changed = workspace != recorded_workspace;
                if toolset_changed && !workspace_changed {
                    AuroraSyncState::ToolsetChanged
                } else if !toolset_changed && workspace_changed {
                    AuroraSyncState::WorkspaceChanged
                } else {
                    AuroraSyncState::Conflict
                }
            },
            _ => match (toolset, workspace) {
                (Some(_), None) => AuroraSyncState::ToolsetOnly,
                (None, Some(_)) => AuroraSyncState::WorkspaceOnly,
                _ => AuroraSyncState::Conflict,
            },
        }
    }
}

/// Classifies one resource from its digests on both sides and, where a
/// record exists, the digests it recorded.
pub fn classify_sync_state(
    toolset: Option<&str>,
    workspace: Option<&str>,
    baseline_toolset: Option<Option<&str>>,
    baseline_workspace: Option<Option<&str>>,
) -> (state: AuroraSyncState)
    ensures
        state == spec_classify(
            opt_str_text(toolset),
            opt_str_text(workspace),
            opt_opt_text(baseline_toolset),
            opt_opt_text(baseline_workspace),
        ),
{
    if opt_str_equal(toolset, workspace) {
        return AuroraSyncState::Identical;
    }
    match (baseline_toolset, baseline_workspace) {
        (Some(recorded_toolset), Some(recorded_workspace)) => {
            let toolset_changed = !opt_str_equal(toolset, recorded_toolset);
            let workspace_changed = !opt_str_equal(workspace, recorded_workspace);
            if toolset_changed && !workspace_changed {
                AuroraSyncState::ToolsetChanged
            } else if !toolset_changed && workspace_changed {
                AuroraSyncState::WorkspaceChanged
            } else {
                AuroraSyncState::Conflict
            }
        },
        _ => match (toolset, workspace) {
            (Some(_), None) => AuroraSyncState::ToolsetOnly,
            (None, Some(_)) => AuroraSyncState::WorkspaceOnly,
            _ => AuroraSyncState::Conflict,
        },
    }
}

/// A requested copy still matches the plan entry it was made from.
pub open spec fn action_matches(entry: AuroraSyncEntry, action: AuroraSyncAction) -> bool {
    &&& entry.resource.key() == action.resource.key()
    &&& opt_text(entry.toolset_sha256) == opt_text(action.expected_toolset_sha256)
    &&& opt_text(entry.workspace_sha256) == opt_text(action.expected_workspace_sha256)
}

/// Refuses a copy whose resource or expected digests differ from the entry.
pub fn verify_sync_action(entry: &AuroraSyncEntry, action: &AuroraSyncAction) -> (result: Result<(), EditError>)
    ensures
        result is Ok == action_matches(*entry, *action),
        result matches Err(error) ==> error == EditError::AuroraSyncPreconditionFailed,
{
    if !entry.resource.same_key(&action.resource) || !opt_str_equal(
        opt_as_str(&entry.toolset_sha256),
        opt_as_str(&action.expected_toolset_sha256),
    ) || !opt_str_equal(
        opt_as_str(&entry.workspace_sha256),
        opt_as_str(&action.expected_workspace_sha256),
    ) {
        return Err(EditError::AuroraSyncPreconditionFailed);
    }
    Ok(())
}

/// A baseline entry records a plan entry: same resource, path and digests.
pub open spec fn records_entry(recorded: AuroraSyncBaselineEntry, entry: AuroraSyncEntry) -> bool {
    &&& recorded.resource.resref@ == entry.resource.resref@
    &&& recorded.resource.resource_type == entry.resource.resource_type
    &&& recorded.relative_path@ == entry.relative_path@
    &&& opt_text(recorded.toolset_sha256) == opt_text(entry.toolset_sha256)
    &&& opt_text(recorded.workspace_sha256) == opt_text(entry.workspace_sha256)
}

/// The record to keep after a synchronisation: each entry's resource, path
/// and current digests.
pub fn baseline_from_plan(plan: &AuroraSyncPlan) -> (baseline: AuroraSyncBaseline)
    ensures
        baseline.schema_version == AURORA_SYNC_SCHEMA_VERSION,
        baseline.root@ == plan.root@,
        baseline.entries@.len() == plan.entries@.len(),
        forall|i: int|
            0 <= i < plan.entries@.len() ==> records_entry(
                #[trigger] baseline.entries@[i],
                plan.entries@[i],
            ),
{
    let mut entries: Vec<AuroraSyncBaselineEntry> = Vec::new();
    let mut index: usize = 0;
    while index < plan.entries.len()
        invariant
            index <= plan.entries@.len(),
            entries@.len() == index,
            forall|i: int| 0 <= i < index ==> records_entry(#[trigger] entries@[i], plan.entries@[i]),
        decreases plan.entries@.len() - index,
    {
        let entry = &plan.entries[index];
        entries.push(
            AuroraSyncBaselineEntry {
                resource: entry.resource.copy_key(),
                relative_path: copy_string(&entry.relative_path),
                toolset_sha256: copy_opt_string(&entry.toolset_sha256),
                workspace_sha256: copy_opt_string(&entry.workspace_sha256),
            },
        );
        index += 1;
    }
    AuroraSyncBaseline {
        schema_version: AURORA_SYNC_SCHEMA_VERSION,
        root: copy_string(&plan.root),
        entries,
    }
}

/// The digest of optional contents: the lower-case hexadecimal SHA-256 of
/// the bytes, none for absent contents.
pub fn content_digest(bytes: Option<&[u8]>) -> (digest: Option<String>)
    ensures
        match bytes {
            Some(b) => digest matches Some(text) && text@ == sha256_hex(b@) && text@.len() == 64,
            None => digest is None,
        },
{
    match bytes {
        Some(b) => Some(crate::digest::sha256_bytes(b)),
        None => None,
    }
}

/// The keys in strictly ascending order.
pub open spec fn keys_ascending(keys: Seq<ResourceKey>) -> bool {
    forall|i: int, j: int| 0 <= i < j < keys.len() ==> key_lt(#[trigger] keys[i].key(), #[trigger] keys[j].key())
}

/// Some key of `keys` is `key`.
pub open spec fn has_key(keys: Seq<ResourceKey>, key: (Seq<u8>, u16)) -> bool {
    exists|i: int| 0 <= i < keys.len() && (#[trigger] keys[i]).key() == key
}

/// Adds a key to an ascending list of distinct keys, where it is missing.
fn insert_key(keys: &mut Vec<ResourceKey>, key: &ResourceKey)
    requires
        keys_ascending(old(keys)@),
    ensures
        keys_ascending(final(keys)@),
        forall|k: (Seq<u8>, u16)| #[trigger] has_key(final(keys)@, k) == (has_key(old(keys)@, k) || k == key.key()),
{
    let mut position: usize = 0;
    while position < keys.len() && resource_key_lt(&keys[position], key)
        invariant
            position <= keys@.len(),
            forall|i: int| 0 <= i < position ==> key_lt(#[trigger] keys@[i].key(), key.key()),
        decreases keys@.len() - position,
    {
        position += 1;
    }
    if position < keys.len() && keys[position].same_key(key) {
        return;
    }
    let ghost before = keys@;
    proof {
        if position < before.len() {
            lemma_key_total(before[position as int].key(), key.key());
        }
    }
    keys.insert(position, key.copy_key());
    proof {
        let after = keys@;
        assert(after[position as int].key() == key.key());
        assert forall|i: int, j: int| 0 <= i < j < after.len() implies key_lt(#[trigger] after[i].key(), #[trigger] after[j].key()) by {
            if j < position {
                assert(after[i] == before[i] && after[j] == before[j]);
            } else if j == position {
                assert(after[i] == before[i]);
            } else if i == position {
                assert(after[j] == before[j - 1]);
                if j - 1 > position {
                    lemma_key_le_transitive(key.key(), before[position as int].key(), before[j - 1].key());
                }
            } else if i < position {
                assert(after[i] == before[i] && after[j] == before[j - 1]);
                lemma_key_le_transitive(before[i].key(), key.key(), before[position as int].key());
                if j - 1 > position {
                    lemma_key_le_transitive(before[i].key(), before[position as int].key(), before[j - 1].key());
                }
            } else {
                assert(after[i] == before[i - 1] && after[j] == before[j - 1]);
            }
        }
        assert forall|k: (Seq<u8>, u16)| #[trigger] has_key(after, k) == (has_key(before, k) || k == key.key()) by {
            if has_key(after, k) {
                let i = choose|i: int| 0 <= i < after.len() && (#[trigger] after[i]).key() == k;
                if i < position {
                    assert(after[i] == before[i]);
                } else if i > position {
                    assert(after[i] == before[i - 1]);
                }
            }
            if has_key(before, k) {
                let i = choose|i: int| 0 <= i < before.len() && (#[trigger] before[i]).key() == k;
                if i < position {
                    assert(after[i] == before[i]);
                } else {
                    assert(after[i + 1] == before[i]);
                }
            }
            if k == key.key() {
                assert(after[position as int].key() == k);
            }
        }
    }
}

/// The baseline entries, or none without a baseline.
pub open spec fn baseline_entries(baseline: Option<&AuroraSyncBaseline>) -> Seq<AuroraSyncBaselineEntry> {
    match baseline {
        Some(recorded) => recorded.entries@,
        None => seq![],
    }
}

/// The resources that either side or the record knows.
pub open spec fn sync_universe_has(
    toolset_keys: Seq<ResourceKey>,
    workspace: Seq<AuroraSyncWorkspaceFile>,
    recorded: Seq<AuroraSyncBaselineEntry>,
    key: (Seq<u8>, u16),
) -> bool {
    ||| has_key(toolset_keys, key)
    ||| exists|i: int| 0 <= i < workspace.len() && (#[trigger] workspace[i]).resource.key() == key
    ||| exists|i: int| 0 <= i < recorded.len() && (#[trigger] recorded[i]).resource.key() == key
}

/// The position of the last key equal to `key`, or -1.
pub open spec fn last_key_index(keys: Seq<ResourceKey>, key: (Seq<u8>, u16)) -> int
    decreases keys.len(),
{
    if keys.len() == 0 {
        -1
    } else if keys.last().key() == key {
        keys.len() - 1
    } else {
        last_key_index(keys.drop_last(), key)
    }
}

/// The position of the last workspace file of `key`, or -1.
pub open spec fn last_workspace_index(files: Seq<AuroraSyncWorkspaceFile>, key: (Seq<u8>, u16)) -> int
    decreases files.len(),
{
    if files.len() == 0 {
        -1
    } else if files.last().resource.key() == key {
        files.len() - 1
    } else {
        last_workspace_index(files.drop_last(), key)
    }
}

/// The position of the last recorded entry of `key`, or -1.
pub open spec fn last_baseline_index(entries: Seq<AuroraSyncBaselineEntry>, key: (Seq<u8>, u16)) -> int
    decreases entries.len(),
{
    if entries.len() == 0 {
        -1
    } else if entries.last().resource.key() == key {
        entries.len() - 1
    } else {
        last_baseline_index(entries.drop_last(), key)
    }
}

/// An entry of the plan says what both sides and the record hold of its
/// resource: the Toolset file of that key, the last workspace file and the
/// last recorded entry of that key (the later of two duplicates wins), and
/// the state that these digests give. Its path is the Toolset file's, else
/// the recorded one, else the resource's file name.
pub open spec fn entry_matches(
    toolset: AuroraSyncManifest,
    toolset_keys: Seq<ResourceKey>,
    workspace: Seq<AuroraSyncWorkspaceFile>,
    recorded: Seq<AuroraSyncBaselineEntry>,
    has_baseline: bool,
    entry: AuroraSyncEntry,
) -> bool {
    let key = entry.resource.key();
    let t = last_key_index(toolset_keys, key);
    let w = last_workspace_index(workspace, key);
    let b = last_baseline_index(recorded, key);
    let toolset_sha = if t >= 0 {
        Some(toolset.files@[t].sha256@)
    } else {
        None
    };
    let workspace_sha = if w >= 0 {
        opt_text(workspace[w].sha256)
    } else {
        None
    };
    let recorded_toolset = if b >= 0 {
        opt_text(recorded[b].toolset_sha256)
    } else {
        None
    };
    let recorded_workspace = if b >= 0 {
        opt_text(recorded[b].workspace_sha256)
    } else {
        None
    };
    &&& opt_text(entry.toolset_sha256) == toolset_sha
    &&& opt_text(entry.workspace_sha256) == workspace_sha
    &&& opt_text(entry.baseline_toolset_sha256) == recorded_toolset
    &&& opt_text(entry.baseline_workspace_sha256) == recorded_workspace
    &&& entry.state == spec_classify(
        toolset_sha,
        workspace_sha,
        if b >= 0 {
            Some(recorded_toolset)
        } else {
            None
        },
        if b >= 0 {
            Some(recorded_workspace)
        } else {
            None
        },
    )
    &&& entry.relative_path@ == if t >= 0 {
        toolset.files@[t].name@
    } else if b >= 0 {
        recorded[b].relative_path@
    } else {
        entry.resource.spec_file_name()
    }
}

/// The groups of states that a plan counts.
#[derive(Debug, Clone, Copy, PartialEq, Eq)]
pub enum SyncTally {
    /// Both sides agree.
    Identical,
    /// Only the Toolset side holds a change.
    Incoming,
    /// Only the workspace side holds a change.
    Outgoing,
    /// Both sides changed, or the sides differ with nothing to tell which moved.
    Conflict,
}

/// The state belongs to the group.
pub open spec fn in_tally(state: AuroraSyncState, tally: SyncTally) -> bool {
    match tally {
        SyncTally::Identical => state == AuroraSyncState::Identical,
        SyncTally::Incoming => state == AuroraSyncState::ToolsetOnly || state
            == AuroraSyncState::ToolsetChanged,
        SyncTally::Outgoing => state == AuroraSyncState::WorkspaceOnly || state
            == AuroraSyncState::WorkspaceChanged,
        SyncTally::Conflict => state == AuroraSyncState::Conflict,
    }
}

/// How many entries have a state of the group.
pub open spec fn count_states(entries: Seq<AuroraSyncEntry>, tally: SyncTally) -> nat
    decreases entries.len(),
{
    if entries.len() == 0 {
        0
    } else {
        count_states(entries.drop_last(), tally) + if in_tally(entries.last().state, tally) {
            1nat
        } else {
            0nat
        }
    }
}

/// The plan that comparing the Toolset files (whose keys are `toolset_keys`),
/// the workspace files and the optional record gives: one entry per known
/// resource, in ascending key order, each as `entry_matches` says, with the
/// counts of its states.
pub open spec fn plan_matches(
    toolset: AuroraSyncManifest,
    toolset_keys: Seq<ResourceKey>,
    workspace: Seq<AuroraSyncWorkspaceFile>,
    baseline: Option<&AuroraSyncBaseline>,
    plan: AuroraSyncPlan,
) -> bool {
    let recorded = baseline_entries(baseline);
    let entries = plan.entries@;
    &&& plan.schema_version == AURORA_SYNC_SCHEMA_VERSION
    &&& plan.root@ == toolset.root@
    &&& plan.baseline_found == baseline.is_some()
    &&& forall|i: int, j: int|
        0 <= i < j < entries.len() ==> key_lt(#[trigger] entries[i].resource.key(), #[trigger] entries[j].resource.key())
    &&& forall|i: int|
        0 <= i < entries.len() ==> sync_universe_has(toolset_keys, workspace, recorded, (#[trigger] entries[i]).resource.key())
    &&& forall|k: (Seq<u8>, u16)|
        sync_universe_has(toolset_keys, workspace, recorded, k) ==> exists|i: int|
            0 <= i < entries.len() && (#[trigger] entries[i]).resource.key() == k
    &&& forall|i: int|
        0 <= i < entries.len() ==> entry_matches(
            toolset,
            toolset_keys,
            workspace,
            recorded,
            baseline.is_some(),
            #[trigger] entries[i],
        )
    &&& plan.identical_count == count_states(entries, SyncTally::Identical)
    &&& plan.incoming_count == count_states(entries, SyncTally::Incoming)
    &&& plan.outgoing_count == count_states(entries, SyncTally::Outgoing)
    &&& plan.conflict_count == count_states(entries, SyncTally::Conflict)
}

fn find_last_key(keys: &Vec<ResourceKey>, key: &ResourceKey) -> (found: Option<usize>)
    ensures
        match found {
            Some(i) => i < keys@.len() && i == last_key_index(keys@, key.key()),
            None => last_key_index(keys@, key.key()) == -1,
        },
{
    let mut found: Option<usize> = None;
    let mut i: usize = 0;
    while i < keys.len()
        invariant
            i <= keys@.len(),
            match found {
                Some(f) => f < i && f == last_key_index(keys@.take(i as int), key.key()),
                None => last_key_index(keys@.take(i as int), key.key()) == -1,
            },
        decreases keys@.len() - i,
    {
        proof {
            assert(keys@.take(i + 1).drop_last() =~= keys@.take(i as int));
        }
        if keys[i].same_key(key) {
            found = Some(i);
        }
        i += 1;
    }
    proof {
        assert(keys@.take(keys@.len() as int) =~= keys@);
    }
    found
}

fn find_last_workspace(files: &[AuroraSyncWorkspaceFile], key: &ResourceKey) -> (found: Option<usize>)
    ensures
        match found {
            Some(i) => i < files@.len() && i == last_workspace_index(files@, key.key()),
            None => last_workspace_index(files@, key.key()) == -1,
        },
{
    let mut found: Option<usize> = None;
    let mut i: usize = 0;
    while i < files.len()
        invariant
            i <= files@.len(),
            match found {
                Some(f) => f < i && f == last_workspace_index(files@.take(i as int), key.key()),
                None => last_workspace_index(files@.take(i as int), key.key()) == -1,
            },
        decreases files@.len() - i,
    {
        proof {
            assert(files@.take(i + 1).drop_last() =~= files@.take(i as int));
        }
        if files[i].resource.same_key(key) {
            found = Some(i);
        }
        i += 1;
    }
    proof {
        assert(files@.take(files@.len() as int) =~= files@);
    }
    found
}

fn find_last_baseline(entries: &Vec<AuroraSyncBaselineEntry>, key: &ResourceKey) -> (found: Option<usize>)
    ensures
        match found {
            Some(i) => i < entries@.len() && i == last_baseline_index(entries@, key.key()),
            None => last_baseline_index(entries@, key.key()) == -1,
        },
{
    let mut found: Option<usize> = None;
    let mut i: usize = 0;
    while i < entries.len()
        invariant
            i <= entries@.len(),
            match found {
                Some(f) => f < i && f == last_baseline_index(entries@.take(i as int), key.key()),
                None => last_baseline_index(entries@.take(i as int), key.key()) == -1,
            },
        decreases entries@.len() - i,
    {
        proof {
            assert(entries@.take(i + 1).drop_last() =~= entries@.take(i as int));
        }
        if entries[i].resource.same_key(key) {
            found = Some(i);
        }
        i += 1;
    }
    proof {
        assert(entries@.take(entries@.len() as int) =~= entries@);
    }
    found
}

/// The distinct keys that either side or the record knows, ascending.
fn collect_keys(
    toolset_keys: &Vec<ResourceKey>,
    workspace_files: &[AuroraSyncWorkspaceFile],
    recorded: &Vec<AuroraSyncBaselineEntry>,
) -> (keys: Vec<ResourceKey>)
    ensures
        keys_ascending(keys@),
        forall|k: (Seq<u8>, u16)|
            #[trigger] has_key(keys@, k) == sync_universe_has(toolset_keys@, workspace_files@, recorded@, k),
{
    let mut keys: Vec<ResourceKey> = Vec::new();
    let mut i: usize = 0;
    while i < toolset_keys.len()
        invariant
            i <= toolset_keys@.len(),
            keys_ascending(keys@),
            forall|k: (Seq<u8>, u16)| #[trigger] has_key(keys@, k) == has_key(toolset_keys@.take(i as int), k),
        decreases toolset_keys@.len() - i,
    {
        insert_key(&mut keys, &toolset_keys[i]);
        proof {
            let prefix = toolset_keys@.take(i + 1);
            assert forall|k: (Seq<u8>, u16)| #[trigger] has_key(keys@, k) == has_key(prefix, k) by {
                if has_key(toolset_keys@.take(i as int), k) {
                    let j = choose|j: int| 0 <= j < i && (#[trigger] toolset_keys@.take(i as int)[j]).key() == k;
                    assert(prefix[j] == toolset_keys@[j]);
                }
                if has_key(prefix, k) {
                    let j = choose|j: int| 0 <= j < i + 1 && (#[trigger] prefix[j]).key() == k;
                    if j < i {
                        assert(toolset_keys@.take(i as int)[j] == prefix[j]);
                    }
                }
                assert(prefix[i as int] == toolset_keys@[i as int]);
            }
        }
        i += 1;
    }
    proof {
        assert(toolset_keys@.take(toolset_keys@.len() as int) =~= toolset_keys@);
    }
    let mut i: usize = 0;
    while i < workspace_files.len()
        invariant
            i <= workspace_files@.len(),
            keys_ascending(keys@),
            forall|k: (Seq<u8>, u16)|
                #[trigger] has_key(keys@, k) == (has_key(toolset_keys@, k) || exists|j: int|
                    0 <= j < i && (#[trigger] workspace_files@[j]).resource.key() == k),
        decreases workspace_files@.len() - i,
    {
        insert_key(&mut keys, &workspace_files[i].resource);
        proof {
            assert forall|k: (Seq<u8>, u16)|
                #[trigger] has_key(keys@, k) == (has_key(toolset_keys@, k) || exists|j: int|
                    0 <= j < i + 1 && (#[trigger] workspace_files@[j]).resource.key() == k) by {
                if k == workspace_files@[i as int].resource.key() {
                    assert(workspace_files@[i as int].resource.key() == k);
                }
            }
        }
        i += 1;
    }
    let mut i: usize = 0;
    while i < recorded.len()
        invariant
            i <= recorded@.len(),
            keys_ascending(keys@),
            forall|k: (Seq<u8>, u16)|
                #[trigger] has_key(keys@, k) == (has_key(toolset_keys@, k) || (exists|j: int|
                    0 <= j < workspace_files@.len() && (#[trigger] workspace_files@[j]).resource.key() == k)
                    || exists|j: int| 0 <= j < i && (#[trigger] recorded@[j]).resource.key() == k),
        decreases recorded@.len() - i,
    {
        insert_key(&mut keys, &recorded[i].resource);
        proof {
            assert forall|k: (Seq<u8>, u16)|
                #[trigger] has_key(keys@, k) == (has_key(toolset_keys@, k) || (exists|j: int|
                    0 <= j < workspace_files@.len() && (#[trigger] workspace_files@[j]).resource.key() == k)
                    || exists|j: int| 0 <= j < i + 1 && (#[trigger] recorded@[j]).resource.key() == k) by {
                if k == recorded@[i as int].resource.key() {
                    assert(recorded@[i as int].resource.key() == k);
                }
            }
        }
        i += 1;
    }
    keys
}

/// Compares the Toolset files, whose keys are `toolset_keys` (one per file),
/// with the workspace files and the optional record of the last
/// synchronisation.
pub fn plan_aurora_sync(
    toolset: &AuroraSyncManifest,
    toolset_keys: &Vec<ResourceKey>,
    workspace_files: &[AuroraSyncWorkspaceFile],
    baseline: Option<&AuroraSyncBaseline>,
) -> (plan: AuroraSyncPlan)
    requires
        toolset_keys@.len() == toolset.files@.len(),
    ensures
        plan_matches(*toolset, toolset_keys@, workspace_files@, baseline, plan),
{
    let no_entries: Vec<AuroraSyncBaselineEntry> = Vec::new();
    let recorded: &Vec<AuroraSyncBaselineEntry> = match baseline {
        Some(record) => &record.entries,
        None => &no_entries,
    };
    assert(recorded@ == baseline_entries(baseline));
    let keys = collect_keys(toolset_keys, workspace_files, recorded);
    let mut entries: Vec<AuroraSyncEntry> = Vec::new();
    let mut identical_count: usize = 0;
    let mut incoming_count: usize = 0;
    let mut outgoing_count: usize = 0;
    let mut conflict_count: usize = 0;
    let mut i: usize = 0;
    while i < keys.len()
        invariant
            i <= keys@.len(),
            toolset_keys@.len() == toolset.files@.len(),
            recorded@ == baseline_entries(baseline),
            entries@.len() == i,
            forall|j: int| 0 <= j < i ==> (#[trigger] entries@[j]).resource.key() == keys@[j].key(),
            forall|j: int|
                0 <= j < i ==> entry_matches(
                    *toolset,
                    toolset_keys@,
                    workspace_files@,
                    recorded@,
                    baseline.is_some(),
                    #[trigger] entries@[j],
                ),
            identical_count == count_states(entries@, SyncTally::Identical),
            incoming_count == count_states(entries@, SyncTally::Incoming),
            outgoing_count == count_states(entries@, SyncTally::Outgoing),
            conflict_count == count_states(entries@, SyncTally::Conflict),
            identical_count <= i,
            incoming_count <= i,
            outgoing_count <= i,
            conflict_count <= i,
        decreases keys@.len() - i,
    {
        let key = &keys[i];
        let t = find_last_key(toolset_keys, key);
        let w = find_last_workspace(workspace_files, key);
        let b = find_last_baseline(recorded, key);
        let toolset_sha: Option<String> = match t {
            Some(ti) => Some(copy_string(&toolset.files[ti].sha256)),
            None => None,
        };
        let workspace_sha: Option<String> = match w {
            Some(wi) => copy_opt_string(&workspace_files[wi].sha256),
            None => None,
        };
        let recorded_toolset: Option<String> = match b {
            Some(bi) => copy_opt_string(&recorded[bi].toolset_sha256),
            None => None,
        };
        let recorded_workspace: Option<String> = match b {
            Some(bi) => copy_opt_string(&recorded[bi].workspace_sha256),
            None => None,
        };
        let state = classify_sync_state(
            opt_as_str(&toolset_sha),
            opt_as_str(&workspace_sha),
            match b {
                Some(_) => Some(opt_as_str(&recorded_toolset)),
                None => None,
            },
            match b {
                Some(_) => Some(opt_as_str(&recorded_workspace)),
                None => None,
            },
        );
        let relative_path: String = match t {
            Some(ti) => copy_string(&toolset.files[ti].name),
            None => match b {
                Some(bi) => copy_string(&recorded[bi].relative_path),
                None => key.file_name(),
            },
        };
        let entry = AuroraSyncEntry {
            resource: key.copy_key(),
            relative_path,
            toolset_sha256: toolset_sha,
            workspace_sha256: workspace_sha,
            baseline_toolset_sha256: recorded_toolset,
            baseline_workspace_sha256: recorded_workspace,
            state,
        };
        let ghost before = entries@;
        match state {
            AuroraSyncState::Identical => {
                identical_count += 1;
            },
            AuroraSyncState::ToolsetOnly | AuroraSyncState::ToolsetChanged => {
                incoming_count += 1;
            },
            AuroraSyncState::WorkspaceOnly | AuroraSyncState::WorkspaceChanged => {
                outgoing_count += 1;
            },
            AuroraSyncState::Conflict => {
                conflict_count += 1;
            },
        }
        entries.push(entry);
        proof {
            assert(entries@.drop_last() =~= before);
            assert(entry_matches(
                *toolset,
                toolset_keys@,
                workspace_files@,
                recorded@,
                baseline.is_some(),
                entries@[i as int],
            ));
        }
        i += 1;
    }
    proof {
        assert forall|a: int, c: int| 0 <= a < c < entries@.len() implies key_lt(
            #[trigger] entries@[a].resource.key(),
            #[trigger] entries@[c].resource.key(),
        ) by {
            assert(key_lt(keys@[a].key(), keys@[c].key()));
        }
        assert forall|a: int| 0 <= a < entries@.len() implies sync_universe_has(
            toolset_keys@,
            workspace_files@,
            recorded@,
            (#[trigger] entries@[a]).resource.key(),
        ) by {
            assert(has_key(keys@, keys@[a].key()));
        }
        assert forall|k: (Seq<u8>, u16)|
            sync_universe_has(toolset_keys@, workspace_files@, recorded@, k) implies exists|a: int|
                0 <= a < entries@.len() && (#[trigger] entries@[a]).resource.key() == k by {
            assert(has_key(keys@, k));
            let a = choose|a: int| 0 <= a < keys@.len() && (#[trigger] keys@[a]).key() == k;
            assert(entries@[a].resource.key() == k);
        }
    }
    AuroraSyncPlan {
        schema_version: AURORA_SYNC_SCHEMA_VERSION,
        root: copy_string(&toolset.root),
        baseline_found: baseline.is_some(),
        entries,
        identical_count,
        incoming_count,
        outgoing_count,
        conflict_count,
    }
}

/// A component that leaves or bypasses the Toolset folder.
pub open spec fn escaping_part(part: PathPart) -> bool {
    part == PathPart::ParentDir || part == PathPart::RootDir || part == PathPart::Prefix
}

/// The resource type whose extension is `extension` (the smallest such type).
pub open spec fn spec_type_for_extension(extension: Seq<char>) -> Option<u16> {
    if exists|t: u16| crate::resource::spec_resource_extension(t) == Some(extension) {
        Some(
            choose|t: u16|
                crate::resource::spec_resource_extension(t) == Some(extension) && forall|u: u16|
                    u < t ==> crate::resource::spec_resource_extension(u) != Some(extension),
        )
    } else {
        None
    }
}

/// A ResRef as the Toolset may name it: 1 to 16 bytes of ASCII.
pub open spec fn toolset_resref(stem: Seq<char>) -> bool {
    0 < crate::resource::text_bytes(stem).len() <= 16 && vstd::utf8::is_ascii_chars(stem)
}

/// The key that a Toolset path gives, from what the platform makes of the
/// path: an error for an absolute path or one that leaves its folder, for a
/// missing or unknown extension, or for a stem that is no ResRef.
pub open spec fn spec_key_from_parts(
    absolute: bool,
    parts: Seq<PathPart>,
    extension: Option<Seq<char>>,
    stem: Option<Seq<char>>,
) -> Result<(Seq<char>, u16), EditError> {
    if absolute || exists|i: int| 0 <= i < parts.len() && escaping_part(#[trigger] parts[i]) {
        Err(EditError::AuroraSyncPathInvalid)
    } else {
        match extension {
            None => Err(EditError::AuroraSyncExtensionInvalid),
            Some(ext) => match spec_type_for_extension(ext) {
                None => Err(EditError::AuroraSyncExtensionInvalid),
                Some(resource_type) => match stem {
                    None => Err(EditError::AuroraSyncResrefInvalid),
                    Some(name) => if toolset_resref(name) {
                        Ok((name, resource_type))
                    } else {
                        Err(EditError::AuroraSyncResrefInvalid)
                    },
                },
            },
        }
    }
}

/// The key of a resource from what the platform makes of its Toolset path.
pub fn resource_key_from_path_parts(
    absolute: bool,
    parts: &[PathPart],
    extension: Option<&str>,
    stem: Option<&str>,
) -> (result: Result<ResourceKey, EditError>)
    ensures
        match spec_key_from_parts(absolute, parts@, opt_str_text(extension), opt_str_text(stem)) {
            Ok((name, resource_type)) => result matches Ok(key) && key.resref@ == name
                && key.resource_type == resource_type,
            Err(error) => result == Err::<ResourceKey, EditError>(error),
        },
{
    let mut escaping = absolute;
    let mut i: usize = 0;
    while i < parts.len() && !escaping
        invariant
            i <= parts@.len(),
            escaping == absolute,
            forall|j: int| 0 <= j < i ==> !escaping_part(#[trigger] parts@[j]),
        decreases parts@.len() - i,
    {
        match parts[i] {
            PathPart::ParentDir | PathPart::RootDir | PathPart::Prefix => {
                return Err(EditError::AuroraSyncPathInvalid);
            },
            _ => {},
        }
        i += 1;
    }
    if escaping {
        return Err(EditError::AuroraSyncPathInvalid);
    }
    let ext = match extension {
        Some(ext) => ext,
        None => {
            return Err(EditError::AuroraSyncExtensionInvalid);
        },
    };
    let resource_type = match crate::resource::resource_type_for_extension(ext) {
        Some(t) => t,
        None => {
            return Err(EditError::AuroraSyncExtensionInvalid);
        },
    };
    let name = match stem {
        Some(name) => name,
        None => {
            return Err(EditError::AuroraSyncResrefInvalid);
        },
    };
    if name.as_bytes().len() == 0 || name.as_bytes().len() > 16 || !name.is_ascii() {
        return Err(EditError::AuroraSyncResrefInvalid);
    }
    Ok(ResourceKey::new(name, resource_type))
}

/// The key that plain file names joined by `/` (a path every platform splits
/// alike) give: the stem and the extension of the last name.
pub open spec fn folder_path_key(path: Seq<char>) -> Result<(Seq<char>, u16), EditError> {
    spec_key_from_parts(
        false,
        folder_parts(path),
        name_extension(last_name(path)),
        Some(name_stem(last_name(path))),
    )
}

/// The key result is the one that the spec gives.
pub open spec fn key_result_is(result: Result<ResourceKey, EditError>, expected: Result<(Seq<char>, u16), EditError>) -> bool {
    match expected {
        Ok((name, resource_type)) => result matches Ok(key) && key.resref@ == name && key.resource_type
            == resource_type,
        Err(error) => result == Err::<ResourceKey, EditError>(error),
    }
}

/// The key of the resource that a path relative to the Toolset folder holds:
/// its stem as ResRef and the type of its extension. How a path splits is
/// the platform's, but plain file names joined by `/` split alike
/// everywhere, and such a path in folders is keyed by its last name.
pub fn resource_key_from_aurora_path(relative_path: &str) -> (result: Result<ResourceKey, EditError>)
    ensures
        folder_path(relative_path@) ==> key_result_is(result, folder_path_key(relative_path@)),
        result matches Ok(key) ==> toolset_resref(key.resref@)
            && crate::resource::spec_resource_extension(key.resource_type) is Some,
        result matches Err(error) ==> error == EditError::AuroraSyncPathInvalid || error
            == EditError::AuroraSyncExtensionInvalid || error == EditError::AuroraSyncResrefInvalid,
{
    let absolute = path_is_absolute(relative_path);
    let parts = path_parts(relative_path);
    let extension = path_extension(relative_path);
    let stem = path_file_stem(relative_path);
    let result = resource_key_from_path_parts(
        absolute,
        parts.as_slice(),
        opt_as_str(&extension),
        opt_as_str(&stem),
    );
    proof {
        if folder_path(relative_path@) {
            assert(parts@ == folder_parts(relative_path@));
            assert(opt_text(extension) == name_extension(last_name(relative_path@)));
            assert(opt_text(stem) == Some(name_stem(last_name(relative_path@))));
        }
    }
    result
}

/// The keys of the Toolset files, taken in order: the first file whose path
/// gives no key stops with that error, and so does the first file whose key
/// an earlier file already gave, with the duplicate error; else the keys.
pub open spec fn toolset_key_outcome(results: Seq<Result<ResourceKey, EditError>>) -> Result<
    Seq<ResourceKey>,
    EditError,
>
    decreases results.len(),
{
    if results.len() == 0 {
        Ok(Seq::empty())
    } else {
        match toolset_key_outcome(results.drop_last()) {
            Err(error) => Err(error),
            Ok(keys) => match results.last() {
                Err(error) => Err(error),
                Ok(key) => if exists|j: int| 0 <= j < keys.len() && (#[trigger] keys[j]).key() == key.key() {
                    Err(EditError::AuroraSyncDuplicateResource)
                } else {
                    Ok(keys.push(key))
                },
            },
        }
    }
}

/// What a Toolset path can give: a key with a Toolset ResRef and a known
/// type, or one of the three path errors.
pub open spec fn toolset_key_result(result: Result<ResourceKey, EditError>) -> bool {
    match result {
        Ok(key) => toolset_resref(key.resref@) && crate::resource::spec_resource_extension(
            key.resource_type,
        ) is Some,
        Err(error) => error == EditError::AuroraSyncPathInvalid || error
            == EditError::AuroraSyncExtensionInvalid || error == EditError::AuroraSyncResrefInvalid,
    }
}

proof fn lemma_key_outcome_error_stays(results: Seq<Result<ResourceKey, EditError>>, n: int, k: int)
    requires
        0 <= n <= k <= results.len(),
        toolset_key_outcome(results.take(n)) is Err,
    ensures
        toolset_key_outcome(results.take(k)) == toolset_key_outcome(results.take(n)),
    decreases k - n,
{
    if k > n {
        lemma_key_outcome_error_stays(results, n, k - 1);
        assert(results.take(k).drop_last() =~= results.take(k - 1));
    }
}

proof fn lemma_key_outcome_distinct(results: Seq<Result<ResourceKey, EditError>>)
    requires
        toolset_key_outcome(results) is Ok,
    ensures
        toolset_key_outcome(results)->Ok_0.len() == results.len(),
        forall|a: int, b: int|
            0 <= a < b < results.len() ==> (#[trigger] toolset_key_outcome(results)->Ok_0[a]).key()
                != (#[trigger] toolset_key_outcome(results)->Ok_0[b]).key(),
    decreases results.len(),
{
    if results.len() > 0 {
        lemma_key_outcome_distinct(results.drop_last());
        let keys = toolset_key_outcome(results.drop_last())->Ok_0;
        let all = toolset_key_outcome(results)->Ok_0;
        assert forall|a: int, b: int| 0 <= a < b < results.len() implies (#[trigger] all[a]).key()
            != (#[trigger] all[b]).key() by {
            if b < results.len() - 1 {
                assert(all[a] == keys[a] && all[b] == keys[b]);
            } else {
                assert(all[a] == keys[a]);
            }
        }
    }
}

/// Compares the Toolset files with the workspace files and the optional
/// record of the last synchronisation, given what each file's path gives
/// (one result per file, in order): the first path error or repeated key
/// stops the comparison; else the plan of the keys.
pub fn plan_from_toolset_keys(
    toolset: &AuroraSyncManifest,
    results: Vec<Result<ResourceKey, EditError>>,
    workspace_files: &[AuroraSyncWorkspaceFile],
    baseline: Option<&AuroraSyncBaseline>,
) -> (result: Result<AuroraSyncPlan, EditError>)
    requires
        results@.len() == toolset.files@.len(),
    ensures
        match toolset_key_outcome(results@) {
            Ok(keys) => result matches Ok(plan) && plan_matches(*toolset, keys, workspace_files@, baseline, plan),
            Err(error) => result == Err::<AuroraSyncPlan, EditError>(error),
        },
{
    let total: usize = results.len();
    let ghost all = results@;
    let mut rest = results;
    let mut keys: Vec<ResourceKey> = Vec::new();
    let mut i: usize = 0;
    assert(all.take(0) =~= Seq::<Result<ResourceKey, EditError>>::empty());
    while rest.len() > 0
        invariant
            i + rest@.len() == all.len(),
            rest@ == all.skip(i as int),
            toolset_key_outcome(all.take(i as int)) == Ok::<Seq<ResourceKey>, EditError>(keys@),
            keys@.len() == i,
            all.len() == toolset.files@.len(),
            all == results@,
            all.len() == total,
        decreases rest@.len(),
    {
        let item = rest.remove(0);
        proof {
            assert(item == all[i as int]);
            assert(all.take(i + 1).drop_last() =~= all.take(i as int));
            assert(all.take(i + 1).last() == all[i as int]);
            assert(rest@ =~= all.skip(i + 1));
        }
        match item {
            Err(error) => {
                proof {
                    assert(toolset_key_outcome(all.take(i + 1)) == Err::<Seq<ResourceKey>, EditError>(error));
                    lemma_key_outcome_error_stays(all, i + 1, all.len() as int);
                    assert(all.take(all.len() as int) =~= all);
                }
                return Err(error);
            },
            Ok(key) => {
                let found = find_last_key(&keys, &key);
                proof {
                    lemma_last_key_index_absent(keys@, key.key());
                }
                if found.is_some() {
                    proof {
                        let w = choose|w: int| 0 <= w < keys@.len() && (#[trigger] keys@[w]).key() == key.key();
                        assert(keys@[w].key() == key.key());
                        assert(toolset_key_outcome(all.take(i + 1)) == Err::<Seq<ResourceKey>, EditError>(
                            EditError::AuroraSyncDuplicateResource,
                        ));
                        lemma_key_outcome_error_stays(all, i + 1, all.len() as int);
                        assert(all.take(all.len() as int) =~= all);
                    }
                    return Err(EditError::AuroraSyncDuplicateResource);
                }
                let ghost earlier = keys@;
                keys.push(key);
                proof {
                    assert(toolset_key_outcome(all.take(i + 1)) == Ok::<Seq<ResourceKey>, EditError>(
                        earlier.push(key),
                    ));
                }
            },
        }
        i += 1;
    }
    assert(all.take(all.len() as int) =~= all);
    let plan = plan_aurora_sync(toolset, &keys, workspace_files, baseline);
    Ok(plan)
}

/// Compares a Toolset folder with the workspace files and the optional record
/// of the last synchronisation. Each Toolset file is keyed by its path, in
/// order; a path that gives no key, or a key that an earlier file already
/// gave, stops the comparison with that error. How a path splits into its
/// folders, stem and extension is the platform's; the plan that follows from
/// the keys is `plan_from_toolset_keys`'s.
pub fn compare_aurora_sync(
    toolset: &AuroraSyncManifest,
    workspace_files: &[AuroraSyncWorkspaceFile],
    baseline: Option<&AuroraSyncBaseline>,
) -> (result: Result<AuroraSyncPlan, EditError>)
    ensures
        exists|results: Seq<Result<ResourceKey, EditError>>|
            #![trigger toolset_key_outcome(results)]
            {
                &&& results.len() == toolset.files@.len()
                &&& forall|i: int| 0 <= i < results.len() ==> toolset_key_result(#[trigger] results[i])
                &&& forall|i: int|
                    0 <= i < results.len() && folder_path(toolset.files@[i].name@) ==> key_result_is(
                        #[trigger] results[i],
                        folder_path_key(toolset.files@[i].name@),
                    )
                &&& match toolset_key_outcome(results) {
                    Ok(keys) => result matches Ok(plan) && plan_matches(
                        *toolset,
                        keys,
                        workspace_files@,
                        baseline,
                        plan,
                    ),
                    Err(error) => result == Err::<AuroraSyncPlan, EditError>(error),
                }
            },
        toolset.files@.len() == 0 ==> result is Ok,
        result matches Ok(plan) ==> plan_for_distinct_keys(*toolset, workspace_files@, baseline, plan),
        result matches Err(error) ==> error == EditError::AuroraSyncPathInvalid || error
            == EditError::AuroraSyncExtensionInvalid || error == EditError::AuroraSyncResrefInvalid
            || error == EditError::AuroraSyncDuplicateResource,
{
    let mut results: Vec<Result<ResourceKey, EditError>> = Vec::new();
    let mut i: usize = 0;
    while i < toolset.files.len()
        invariant
            i <= toolset.files@.len(),
            results@.len() == i,
            forall|j: int| 0 <= j < i ==> toolset_key_result(#[trigger] results@[j]),
            forall|j: int|
                0 <= j < i && folder_path(toolset.files@[j].name@) ==> key_result_is(
                    #[trigger] results@[j],
                    folder_path_key(toolset.files@[j].name@),
                ),
        decreases toolset.files@.len() - i,
    {
        results.push(resource_key_from_aurora_path(toolset.files[i].name.as_str()));
        i += 1;
    }
    let ghost given = results@;
    let result = plan_from_toolset_keys(toolset, results, workspace_files, baseline);
    proof {
        assert(given.len() == 0 ==> given =~= Seq::<Result<ResourceKey, EditError>>::empty());
        if toolset_key_outcome(given) is Ok {
            lemma_key_outcome_distinct(given);
            let keys = toolset_key_outcome(given)->Ok_0;
            assert(plan_matches(*toolset, keys, workspace_files@, baseline, result->Ok_0));
        } else {
            lemma_key_outcome_errors(given);
        }
    }
    result
}

/// The error that stops the keying is a path error or the duplicate error.
proof fn lemma_key_outcome_errors(results: Seq<Result<ResourceKey, EditError>>)
    requires
        forall|i: int| 0 <= i < results.len() ==> toolset_key_result(#[trigger] results[i]),
    ensures
        toolset_key_outcome(results) matches Err(error) ==> error == EditError::AuroraSyncPathInvalid
            || error == EditError::AuroraSyncExtensionInvalid || error
            == EditError::AuroraSyncResrefInvalid || error == EditError::AuroraSyncDuplicateResource,
    decreases results.len(),
{
    if results.len() > 0 {
        let shorter = results.drop_last();
        assert forall|i: int| 0 <= i < shorter.len() implies toolset_key_result(#[trigger] shorter[i]) by {
            assert(shorter[i] == results[i]);
        }
        lemma_key_outcome_errors(shorter);
        assert(toolset_key_result(results[results.len() - 1]));
    }
}

/// The plan compares the Toolset files under distinct keys, one per file (the
/// keys their paths give), with the workspace files and the record.
pub open spec fn plan_for_distinct_keys(
    toolset: AuroraSyncManifest,
    workspace: Seq<AuroraSyncWorkspaceFile>,
    baseline: Option<&AuroraSyncBaseline>,
    plan: AuroraSyncPlan,
) -> bool {
    exists|keys: Seq<ResourceKey>|
        #![trigger plan_matches(toolset, keys, workspace, baseline, plan)]
        {
            &&& keys.len() == toolset.files@.len()
            &&& forall|i: int, j: int|
                0 <= i < j < keys.len() ==> (#[trigger] keys[i]).key() != (#[trigger] keys[j]).key()
            &&& plan_matches(toolset, keys, workspace, baseline, plan)
        }
}

/// Where no key equals `key`, the last index of `key` is -1, and conversely.
proof fn lemma_last_key_index_absent(keys: Seq<ResourceKey>, key: (Seq<u8>, u16))
    ensures
        (last_key_index(keys, key) == -1) == (forall|i: int| 0 <= i < keys.len() ==> (#[trigger] keys[i]).key() != key),
    decreases keys.len(),
{
    if keys.len() > 0 {
        lemma_last_key_index_absent(keys.drop_last(), key);
        if last_key_index(keys, key) == -1 {
            assert forall|i: int| 0 <= i < keys.len() implies (#[trigger] keys[i]).key() != key by {
                if i < keys.len() - 1 {
                    assert(keys.drop_last()[i] == keys[i]);
                }
            }
        } else if keys.last().key() != key {
            let j = last_key_index(keys.drop_last(), key);
            assert(!(forall|i: int| 0 <= i < keys.drop_last().len() ==> (#[trigger] keys.drop_last()[i]).key() != key));
            let w = choose|i: int| 0 <= i < keys.drop_last().len() && (#[trigger] keys.drop_last()[i]).key() == key;
            assert(keys[w] == keys.drop_last()[w]);
        }
    }
}

/// The state seen from the other side: incoming and outgoing swap.
pub open spec fn mirrored_state(state: AuroraSyncState) -> AuroraSyncState {
    match state {
        AuroraSyncState::ToolsetOnly => AuroraSyncState::WorkspaceOnly,
        AuroraSyncState::WorkspaceOnly => AuroraSyncState::ToolsetOnly,
        AuroraSyncState::ToolsetChanged => AuroraSyncState::WorkspaceChanged,
        AuroraSyncState::WorkspaceChanged => AuroraSyncState::ToolsetChanged,
        other => other,
    }
}

/// The classification treats both sides alike: exchanging the Toolset and the
/// workspace (and their recorded digests) exchanges incoming and outgoing
/// states and keeps identical and conflicting ones.
pub proof fn law_sync_state_mirrors(
    toolset: Option<Seq<char>>,
    workspace: Option<Seq<char>>,
    recorded_toolset: Option<Option<Seq<char>>>,
    recorded_workspace: Option<Option<Seq<char>>>,
)
    ensures
        spec_classify(workspace, toolset, recorded_workspace, recorded_toolset) == mirrored_state(
            spec_classify(toolset, workspace, recorded_toolset, recorded_workspace),
        ),
{
}

/// Three-way change detection: with a record of the last synchronisation, a
/// resource whose sides differ and of which only one side moved away from the
/// record is a change of that side; one whose sides differ and both (or
/// neither) moved is a conflict.
pub proof fn law_three_way_change(
    toolset: Option<Seq<char>>,
    workspace: Option<Seq<char>>,
    recorded_toolset: Option<Seq<char>>,
    recorded_workspace: Option<Seq<char>>,
)
    requires
        toolset != workspace,
    ensures
        toolset != recorded_toolset && workspace == recorded_workspace ==> spec_classify(
            toolset,
            workspace,
            Some(recorded_toolset),
            Some(recorded_workspace),
        ) == AuroraSyncState::ToolsetChanged,
        toolset == recorded_toolset && workspace != recorded_workspace ==> spec_classify(
            toolset,
            workspace,
            Some(recorded_toolset),
            Some(recorded_workspace),
        ) == AuroraSyncState::WorkspaceChanged,
        (toolset != recorded_toolset) == (workspace != recorded_workspace) ==> spec_classify(
            toolset,
            workspace,
            Some(recorded_toolset),
            Some(recorded_workspace),
        ) == AuroraSyncState::Conflict,
{
}

/// A resource type that synchronisation carries: every known type but the
/// compiled, cached and bookkeeping ones.
pub open spec fn synced_resource_type(resource_type: u16) -> bool {
    !(resource_type == 2011 || resource_type == 2061 || resource_type == 2062 || resource_type
        == 9997 || resource_type == 9998 || resource_type == 9999)
}

/// Whether a file with this extension takes part in synchronisation: the
/// extension names a resource type, and that type is synchronised.
pub fn supported_aurora_extension(extension: &str) -> (supported: bool)
    ensures
        supported == (spec_type_for_extension(extension@) matches Some(t) && synced_resource_type(t)),
{
    match crate::resource::resource_type_for_extension(extension) {
        Some(t) => {
            !(t == 2011 || t == 2061 || t == 2062 || t == 9997 || t == 9998 || t == 9999)
        },
        None => false,
    }
}

} // verus!
