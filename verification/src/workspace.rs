//! What an edit workspace decides about its source module and its own saved
//! state: whether the source is still the one it was made from, that neither
//! the workspace nor a build output lies on the source, whether an edit is
//! committed with exactly its staged resources, its identifier, and whether
//! (and how) a saved state written by an older version is taken up.
use crate::bytes::decimal_digits;
use crate::bytes::lemma_decimal_digits_ascii;
use crate::bytes::push_decimal;
use crate::digest::{sha256_bytes, sha256_hex};
use crate::error::EditError;
use crate::resource::{ascii_chars, ascii_string, text_bytes, text_equal, ResourceKey};
use crate::text::{
    ascii_lower_char, ascii_lowercase, bytes_equal_ignoring_ascii_case, equal_ignoring_ascii_case,
    lower_char, lower_text, push_char, push_lowercase,
};
use vstd::prelude::*;
use vstd::std_specs::iter::IteratorSpec;
use vstd::string::StrSliceExecFns;
use vstd::string::StringExecFns;

verus! {

/// The version of the saved workspace state that this library writes.
pub const EDIT_WORKSPACE_SCHEMA_VERSION: u32 = 3;

/// The source module a workspace was made from: where it is, its digest and
/// its size.
#[derive(Debug, Clone, PartialEq, Eq)]
pub struct SourceFingerprint {
    pub path: String,
    pub sha256: String,
    pub size_bytes: u64,
}

/// The record of a saved state taken up from an older version: the two
/// versions, the copy kept of the old state and the steps taken.
#[derive(Debug, Clone, PartialEq, Eq)]
pub struct WorkspaceMigrationRecord {
    pub from_version: u32,
    pub to_version: u32,
    pub backup_path: String,
    pub steps: Vec<String>,
}

/// The source is unchanged when its size is the expected one and its digest
/// equals the expected one, ignoring ASCII case.
pub open spec fn spec_check_source(
    expected_sha256: Seq<char>,
    expected_size: u64,
    actual_sha256: Seq<char>,
    actual_size: u64,
) -> Result<(), EditError> {
    if actual_size != expected_size {
        Err(EditError::SourceChanged)
    } else if !equal_ignoring_ascii_case(text_bytes(actual_sha256), text_bytes(expected_sha256)) {
        Err(EditError::SourceChanged)
    } else {
        Ok(())
    }
}

/// Checks that the source module still has the expected size and digest.
pub fn check_source_unchanged(
    expected_sha256: &str,
    expected_size: u64,
    actual_sha256: &str,
    actual_size: u64,
) -> (result: Result<(), EditError>)
    ensures
        result == spec_check_source(expected_sha256@, expected_size, actual_sha256@, actual_size),
{
    if actual_size != expected_size {
        return Err(EditError::SourceChanged);
    }
    if !bytes_equal_ignoring_ascii_case(actual_sha256.as_bytes(), expected_sha256.as_bytes()) {
        return Err(EditError::SourceChanged);
    }
    Ok(())
}

/// The fingerprint a new workspace keeps of its source: the path as given,
/// the expected digest in ASCII lower case, and the size.
pub fn source_fingerprint(path: &str, expected_sha256: &str, size_bytes: u64) -> (source: SourceFingerprint)
    ensures
        source.path@ == path@,
        source.sha256@ == lower_text(expected_sha256@),
        source.size_bytes == size_bytes,
{
    SourceFingerprint {
        path: String::from_str(path),
        sha256: ascii_lowercase(expected_sha256),
        size_bytes,
    }
}

/// How a character of the workspace's path enters its identity: backslashes
/// as slashes, ASCII letters in lower case.
pub open spec fn identity_path_char(c: char) -> char {
    if c == '\\' {
        '/'
    } else {
        lower_char(c)
    }
}

/// The text a workspace identifier is the digest of: the source's expected
/// digest in lower case, a NUL character, and the workspace's absolute path
/// with slashes for backslashes, in lower case.
pub open spec fn workspace_identity(expected_sha256: Seq<char>, path: Seq<char>) -> Seq<char> {
    lower_text(expected_sha256) + seq!['\0'] + path.map_values(|c: char| identity_path_char(c))
}

/// A workspace's identifier: the first 16 hexadecimal digits of the SHA-256
/// digest of the UTF-8 of its identity.
pub open spec fn spec_workspace_id(expected_sha256: Seq<char>, path: Seq<char>) -> Seq<char> {
    sha256_hex(text_bytes(workspace_identity(expected_sha256, path))).take(16)
}

/// Appends the path as it enters a workspace identity.
fn push_identity_path(out: &mut String, path: &str)
    ensures
        final(out)@ == old(out)@ + path@.map_values(|c: char| identity_path_char(c)),
{
    broadcast use vstd::string::axiom_spec_iter, vstd::string::next_postcondition;

    let mut chars = path.chars();
    let ghost start = out@;
    let ghost mut k: int = 0;
    loop
        invariant
            0 <= k <= path@.len(),
            chars.remaining() == path@.skip(k),
            chars.obeys_prophetic_iter_laws(),
            out@ == start + path@.take(k).map_values(|c: char| identity_path_char(c)),
            start == old(out)@,
        ensures
            out@ == start + path@.map_values(|c: char| identity_path_char(c)),
        decreases path@.len() - k,
    {
        let next = chars.next();
        match next {
            Some(c) => {
                proof {
                    assert(path@.skip(k)[0] == path@[k]);
                    assert(path@.skip(k).drop_first() =~= path@.skip(k + 1));
                }
                let mapped = if c == '\\' {
                    '/'
                } else {
                    ascii_lower_char(c)
                };
                push_char(out, mapped);
                proof {
                    assert(path@.take(k + 1).map_values(|c: char| identity_path_char(c))
                        =~= path@.take(k).map_values(|c: char| identity_path_char(c)).push(
                        identity_path_char(c),
                    ));
                    k = k + 1;
                }
            },
            None => {
                proof {
                    assert(path@.skip(k).len() == 0);
                    assert(path@.take(k) =~= path@);
                }
                break;
            },
        }
    }
}

/// The identifier of a workspace made from a source of the expected digest
/// at the given absolute path.
pub fn workspace_id(expected_sha256: &str, absolute_path: &str) -> (id: String)
    ensures
        id@ == spec_workspace_id(expected_sha256@, absolute_path@),
{
    let mut identity = String::new();
    push_lowercase(&mut identity, expected_sha256);
    push_char(&mut identity, '\0');
    push_identity_path(&mut identity, absolute_path);
    assert(identity@ =~= workspace_identity(expected_sha256@, absolute_path@));
    let digest = sha256_bytes(identity.as_str().as_bytes());
    String::from_str(digest.as_str().substring_char(0, 16))
}

/// A saved state can be taken up when its version is known (from 1 to the
/// current one) and its cursor lies within its timeline.
pub open spec fn spec_check_saved_state(schema_version: u32, cursor: usize, timeline_len: usize) -> Result<
    (),
    EditError,
> {
    if schema_version == 0 || schema_version > EDIT_WORKSPACE_SCHEMA_VERSION {
        Err(EditError::WorkspaceVersionUnsupported)
    } else if cursor > timeline_len {
        Err(EditError::WorkspaceCursorInvalid)
    } else {
        Ok(())
    }
}

/// Checks a saved workspace state before it is taken up.
pub fn check_saved_state(schema_version: u32, cursor: usize, timeline_len: usize) -> (result: Result<
    (),
    EditError,
>)
    ensures
        result == spec_check_saved_state(schema_version, cursor, timeline_len),
{
    if schema_version == 0 || schema_version > EDIT_WORKSPACE_SCHEMA_VERSION {
        return Err(EditError::WorkspaceVersionUnsupported);
    }
    if cursor > timeline_len {
        return Err(EditError::WorkspaceCursorInvalid);
    }
    Ok(())
}

/// The name of the copy kept of a saved state of an older version.
pub open spec fn spec_backup_file_name(previous_schema: u32) -> Seq<char> {
    "workspace.json.v"@ + ascii_chars(decimal_digits(previous_schema as nat)) + ".bak"@
}

/// The name of the copy kept of a saved state of an older version, beside
/// the state itself.
pub fn backup_file_name(previous_schema: u32) -> (name: String)
    ensures
        name@ == spec_backup_file_name(previous_schema),
{
    let mut digits: Vec<u8> = Vec::new();
    push_decimal(&mut digits, previous_schema as usize);
    proof {
        assert(digits@ =~= decimal_digits(previous_schema as nat));
        lemma_decimal_digits_ascii(previous_schema as nat);
    }
    let number = ascii_string(digits);
    String::from_str("workspace.json.v").concat(number.as_str()).concat(".bak")
}

/// The steps that take a saved state of the given version up to the current
/// one.
pub open spec fn spec_migration_steps(previous_schema: u32) -> Seq<Seq<char>> {
    let first: Seq<Seq<char>> = if previous_schema < 2 {
        seq!["initialisation des révisions de ressources et des suppressions atomiques"@]
    } else {
        seq![]
    };
    if previous_schema < 3 {
        first.push("activation des baselines Toolset et de l’historique de migration"@)
    } else {
        first
    }
}

/// The record of taking up a saved state of the given version, with its old
/// copy kept at `backup_path`; none when the state is already current.
pub fn workspace_migration(previous_schema: u32, backup_path: &str) -> (migration: Option<
    WorkspaceMigrationRecord,
>)
    ensures
        previous_schema >= EDIT_WORKSPACE_SCHEMA_VERSION <==> migration is None,
        migration matches Some(record) ==> {
            &&& record.from_version == previous_schema
            &&& record.to_version == EDIT_WORKSPACE_SCHEMA_VERSION
            &&& record.backup_path@ == backup_path@
            &&& record.steps@.len() == spec_migration_steps(previous_schema).len()
            &&& forall|i: int|
                0 <= i < record.steps@.len() ==> #[trigger] record.steps@[i]@
                    == spec_migration_steps(previous_schema)[i]
        },
{
    if previous_schema >= EDIT_WORKSPACE_SCHEMA_VERSION {
        return None;
    }
    let mut steps: Vec<String> = Vec::new();
    if previous_schema < 2 {
        steps.push(
            String::from_str("initialisation des révisions de ressources et des suppressions atomiques"),
        );
    }
    steps.push(String::from_str("activation des baselines Toolset et de l’historique de migration"));
    Some(
        WorkspaceMigrationRecord {
            from_version: previous_schema,
            to_version: EDIT_WORKSPACE_SCHEMA_VERSION,
            backup_path: String::from_str(backup_path),
            steps,
        },
    )
}

/// The components of an absolute path, by their texts.
pub open spec fn components_view(components: Seq<String>) -> Seq<Seq<char>> {
    Seq::new(components.len(), |i: int| components[i]@)
}

/// `prefix` is a leading part of `path`, component by component (the path
/// itself included).
pub open spec fn starts_with_components(path: Seq<Seq<char>>, prefix: Seq<Seq<char>>) -> bool {
    prefix.len() <= path.len() && path.subrange(0, prefix.len() as int) == prefix
}

fn components_start_with(path: &[String], prefix: &[String]) -> (starts: bool)
    ensures
        starts == starts_with_components(components_view(path@), components_view(prefix@)),
{
    if prefix.len() > path.len() {
        return false;
    }
    let mut i: usize = 0;
    while i < prefix.len()
        invariant
            prefix@.len() <= path@.len(),
            i <= prefix@.len(),
            forall|j: int| 0 <= j < i ==> path@[j]@ == prefix@[j]@,
        decreases prefix@.len() - i,
    {
        if !text_equal(path[i].as_str(), prefix[i].as_str()) {
            proof {
                assert(components_view(path@).subrange(0, prefix@.len() as int)[i as int]
                    != components_view(prefix@)[i as int]);
            }
            return false;
        }
        i += 1;
    }
    assert(components_view(path@).subrange(0, prefix@.len() as int) =~= components_view(prefix@));
    true
}

/// Checks that a workspace root neither contains nor is the source module,
/// given both absolute paths as their components.
pub fn check_workspace_root(root: &[String], source: &[String]) -> (result: Result<(), EditError>)
    ensures
        result is Err == starts_with_components(components_view(source@), components_view(root@)),
        result matches Err(error) ==> error == EditError::WorkspaceSourceOverlap,
{
    if components_start_with(source, root) {
        Err(EditError::WorkspaceSourceOverlap)
    } else {
        Ok(())
    }
}

/// Checks that a build output is not the source module, given both absolute
/// paths as their components.
pub fn check_output_not_source(output: &[String], source: &[String]) -> (result: Result<(), EditError>)
    ensures
        result is Err == (components_view(output@) == components_view(source@)),
        result matches Err(error) ==> error == EditError::BuildSourceOverwriteBlocked,
{
    let same = output.len() == source.len() && components_start_with(output, source);
    proof {
        let o = components_view(output@);
        let c = components_view(source@);
        assert(o.len() == output@.len() && c.len() == source@.len());
        if output@.len() == source@.len() {
            assert(o.subrange(0, c.len() as int) =~= o);
            assert(same == starts_with_components(o, c));
            assert(same == (o == c));
        } else {
            assert(o != c);
        }
    }
    if same {
        Err(EditError::BuildSourceOverwriteBlocked)
    } else {
        Ok(())
    }
}

/// Two lists of keys name the same resources in the same order.
pub open spec fn same_keys(a: Seq<ResourceKey>, b: Seq<ResourceKey>) -> bool {
    &&& a.len() == b.len()
    &&& forall|i: int| 0 <= i < a.len() ==> (#[trigger] a[i]).key() == b[i].key()
}

pub open spec fn opt_text_view(value: Option<&str>) -> Option<Seq<char>> {
    match value {
        Some(text) => Some(text@),
        None => None,
    }
}

/// Whether an edit may be committed with the staged revision: the command
/// must name resources, exactly those the revision stages; a structural
/// transform's digests must be those of the revision (before: its earlier
/// output, else its source; after: its new output).
pub open spec fn spec_check_staged(
    expected: Seq<ResourceKey>,
    staged: Seq<ResourceKey>,
    transform: Option<(Seq<char>, Seq<char>)>,
    before_output: Option<Seq<char>>,
    after_source: Option<Seq<char>>,
    after_output: Option<Seq<char>>,
) -> Result<(), EditError> {
    if expected.len() == 0 || !same_keys(staged, expected) {
        Err(EditError::ResourceTransactionRequired)
    } else {
        match transform {
            None => Ok(()),
            Some((before, after)) => {
                let staged_before = if before_output is Some {
                    before_output
                } else {
                    after_source
                };
                if staged_before != Some(before) || after_output != Some(after) {
                    Err(EditError::ResourceHashTransactionMismatch)
                } else {
                    Ok(())
                }
            },
        }
    }
}

fn opt_text_equal(value: Option<&str>, expected: &str) -> (equal: bool)
    ensures
        equal == (opt_text_view(value) == Some(expected@)),
{
    match value {
        Some(text) => text_equal(text, expected),
        None => false,
    }
}

/// Checks that an edit is committed with exactly its staged resources and,
/// for a structural transform (its before and after digests), with the
/// staged digests.
pub fn check_staged_transaction(
    expected: &[ResourceKey],
    staged: &[ResourceKey],
    transform: Option<(&str, &str)>,
    before_output: Option<&str>,
    after_source: Option<&str>,
    after_output: Option<&str>,
) -> (result: Result<(), EditError>)
    ensures
        result == spec_check_staged(
            expected@,
            staged@,
            match transform {
                Some((before, after)) => Some((before@, after@)),
                None => None,
            },
            opt_text_view(before_output),
            opt_text_view(after_source),
            opt_text_view(after_output),
        ),
{
    if expected.len() == 0 || staged.len() != expected.len() {
        return Err(EditError::ResourceTransactionRequired);
    }
    let mut i: usize = 0;
    while i < expected.len()
        invariant
            staged@.len() == expected@.len(),
            i <= expected@.len(),
            forall|j: int| 0 <= j < i ==> (#[trigger] staged@[j]).key() == expected@[j].key(),
        decreases expected@.len() - i,
    {
        if !staged[i].same_key(&expected[i]) {
            return Err(EditError::ResourceTransactionRequired);
        }
        i += 1;
    }
    match transform {
        None => Ok(()),
        Some((before, after)) => {
            let staged_before = match before_output {
                Some(text) => Some(text),
                None => after_source,
            };
            if !opt_text_equal(staged_before, before) || !opt_text_equal(after_output, after) {
                Err(EditError::ResourceHashTransactionMismatch)
            } else {
                Ok(())
            }
        },
    }
}

} // verus!
