//! The checks that an assistant's proposal passes before the editor previews
//! it: a bounded summary, a bounded number of bounded operations, and only
//! field edits of GFF resources and text replacements of scripts.
use crate::commands::{command_self_check, passes_self_check, EditCommand};
use crate::digest::{sha256_bytes, sha256_hex};
use crate::error::EditError;
use crate::resource::{resource_extension, spec_resource_extension, text_bytes, text_equal};
use crate::text::{is_blank, is_blank_text, valid_resref_text, validate_resref};
use vstd::prelude::*;

verus! {

/// The most operations a proposal holds.
pub const MAX_AI_COMMANDS: usize = 32;

/// The largest proposal, as JSON.
pub const MAX_AI_PROPOSAL_BYTES: usize = 1_048_576;

/// The largest value of a field edit, as JSON.
pub const MAX_AI_FIELD_VALUE_BYTES: usize = 65_536;

/// The longest field path.
pub const MAX_AI_FIELD_PATH_BYTES: usize = 256;

/// The largest script text of a replacement.
pub const MAX_AI_SCRIPT_BYTES: usize = 262_144;

/// The resource type of NWScript sources.
pub const NSS_RESOURCE_TYPE: u16 = 2009;

/// A GFF resource type that an assistant may edit fields of.
pub open spec fn ai_gff_extension(extension: Seq<char>) -> bool {
    ||| extension == "are"@
    ||| extension == "ifo"@
    ||| extension == "bic"@
    ||| extension == "git"@
    ||| extension == "uti"@
    ||| extension == "utc"@
    ||| extension == "dlg"@
    ||| extension == "itp"@
    ||| extension == "utt"@
    ||| extension == "uts"@
    ||| extension == "gff"@
    ||| extension == "fac"@
    ||| extension == "ute"@
    ||| extension == "utd"@
    ||| extension == "utp"@
    ||| extension == "gic"@
    ||| extension == "gui"@
    ||| extension == "utm"@
    ||| extension == "jrl"@
    ||| extension == "utw"@
}

fn is_ai_gff_extension(extension: &str) -> (editable: bool)
    ensures
        editable == ai_gff_extension(extension@),
{
    text_equal(extension, "are") || text_equal(extension, "ifo") || text_equal(extension, "bic") || text_equal(extension, "git") || text_equal(extension, "uti") || text_equal(extension, "utc") || text_equal(extension, "dlg") || text_equal(extension, "itp") || text_equal(extension, "utt") || text_equal(extension, "uts") || text_equal(extension, "gff") || text_equal(extension, "fac") || text_equal(extension, "ute") || text_equal(extension, "utd") || text_equal(extension, "utp") || text_equal(extension, "gic") || text_equal(extension, "gui") || text_equal(extension, "utm") || text_equal(extension, "jrl") || text_equal(extension, "utw")
}

/// The first error among the first `count` operations, in order.
pub open spec fn ai_commands_error(commands: Seq<EditCommand>, count: int) -> Option<EditError>
    decreases count,
{
    if count <= 0 {
        None
    } else {
        match ai_commands_error(commands, count - 1) {
            Some(error) => Some(error),
            None => ai_command_error(commands[count - 1]),
        }
    }
}

/// Why one operation is refused, if it is: its own check, then the resource
/// it names, then its bounds; an operation other than a field edit or a text
/// replacement is unsupported.
pub open spec fn ai_command_error(command: EditCommand) -> Option<EditError> {
    if !command_self_check(command) {
        Some(EditError::AiCommandInvalid)
    } else {
        match command {
            EditCommand::SetField { resource, path, before_json, after_json } => {
                if !valid_resref_text(resource.resref@) {
                    Some(EditError::ResrefInvalid)
                } else if !(spec_resource_extension(resource.resource_type) matches Some(extension)
                    && ai_gff_extension(extension)) {
                    Some(EditError::AiResourceTypeUnsupported)
                } else if text_bytes(path@).len() > MAX_AI_FIELD_PATH_BYTES || text_bytes(
                    before_json@,
                ).len() > MAX_AI_FIELD_VALUE_BYTES || text_bytes(after_json@).len()
                    > MAX_AI_FIELD_VALUE_BYTES {
                    Some(EditError::AiFieldOperationTooLarge)
                } else {
                    None
                }
            },
            EditCommand::ReplaceText { resource, before, after } => {
                if !valid_resref_text(resource.resref@) {
                    Some(EditError::ResrefInvalid)
                } else if resource.resource_type != NSS_RESOURCE_TYPE {
                    Some(EditError::AiResourceTypeUnsupported)
                } else if text_bytes(before@).len() > MAX_AI_SCRIPT_BYTES || text_bytes(after@).len()
                    > MAX_AI_SCRIPT_BYTES {
                    Some(EditError::AiScriptTooLarge)
                } else {
                    None
                }
            },
            _ => Some(EditError::AiCommandUnsupported),
        }
    }
}

/// What checking a proposal gives: the first rule it breaks.
pub open spec fn spec_validate_ai_change_set(
    summary: Seq<char>,
    commands: Seq<EditCommand>,
    encoded_bytes: int,
) -> Result<(), EditError> {
    if is_blank_text(summary) || text_bytes(summary).len() > 512 {
        Err(EditError::AiSummaryInvalid)
    } else if commands.len() == 0 || commands.len() > MAX_AI_COMMANDS {
        Err(EditError::AiCommandCountInvalid)
    } else if encoded_bytes > MAX_AI_PROPOSAL_BYTES {
        Err(EditError::AiProposalTooLarge)
    } else {
        match ai_commands_error(commands, commands.len() as int) {
            Some(error) => Err(error),
            None => Ok(()),
        }
    }
}

fn check_ai_command(command: &EditCommand) -> (result: Result<(), EditError>)
    ensures
        match ai_command_error(*command) {
            Some(error) => result == Err::<(), EditError>(error),
            None => result is Ok,
        },
{
    if !passes_self_check(command) {
        return Err(EditError::AiCommandInvalid);
    }
    match command {
        EditCommand::SetField { resource, path, before_json, after_json } => {
            if validate_resref(resource.resref.as_str()).is_err() {
                return Err(EditError::ResrefInvalid);
            }
            let editable = match resource_extension(resource.resource_type) {
                Some(extension) => is_ai_gff_extension(extension),
                None => false,
            };
            if !editable {
                return Err(EditError::AiResourceTypeUnsupported);
            }
            if path.as_str().as_bytes().len() > MAX_AI_FIELD_PATH_BYTES
                || before_json.as_str().as_bytes().len() > MAX_AI_FIELD_VALUE_BYTES
                || after_json.as_str().as_bytes().len() > MAX_AI_FIELD_VALUE_BYTES {
                return Err(EditError::AiFieldOperationTooLarge);
            }
            Ok(())
        },
        EditCommand::ReplaceText { resource, before, after } => {
            if validate_resref(resource.resref.as_str()).is_err() {
                return Err(EditError::ResrefInvalid);
            }
            if resource.resource_type != NSS_RESOURCE_TYPE {
                return Err(EditError::AiResourceTypeUnsupported);
            }
            if before.as_str().as_bytes().len() > MAX_AI_SCRIPT_BYTES || after.as_str().as_bytes().len()
                > MAX_AI_SCRIPT_BYTES {
                return Err(EditError::AiScriptTooLarge);
            }
            Ok(())
        },
        _ => Err(EditError::AiCommandUnsupported),
    }
}

proof fn lemma_ai_error_persists(commands: Seq<EditCommand>, a: int, b: int)
    requires
        0 <= a <= b,
        ai_commands_error(commands, a) is Some,
    ensures
        ai_commands_error(commands, b) == ai_commands_error(commands, a),
    decreases b - a,
{
    if a < b {
        lemma_ai_error_persists(commands, a, b - 1);
    }
}

/// An assistant's proposal: what it says it does, and the operations.
#[derive(Debug, Clone, PartialEq, Eq)]
pub struct AiChangeSet {
    pub summary: String,
    pub commands: Vec<EditCommand>,
}

/// Checks an assistant's proposal: its summary, the number of its operations,
/// its size as JSON (`encoded_bytes`, measured by the caller) and each
/// operation in order.
pub fn validate_controlled_ai_change_set(change_set: &AiChangeSet, encoded_bytes: usize) -> (result:
    Result<(), EditError>)
    ensures
        result == spec_validate_ai_change_set(
            change_set.summary@,
            change_set.commands@,
            encoded_bytes as int,
        ),
{
    let summary = change_set.summary.as_str();
    let commands = &change_set.commands;
    if is_blank(summary) || summary.as_bytes().len() > 512 {
        return Err(EditError::AiSummaryInvalid);
    }
    if commands.len() == 0 || commands.len() > MAX_AI_COMMANDS {
        return Err(EditError::AiCommandCountInvalid);
    }
    if encoded_bytes > MAX_AI_PROPOSAL_BYTES {
        return Err(EditError::AiProposalTooLarge);
    }
    first_command_error(commands)
}

/// The first operation that is refused, in order.
fn first_command_error(commands: &Vec<EditCommand>) -> (result: Result<(), EditError>)
    ensures
        match ai_commands_error(commands@, commands@.len() as int) {
            Some(error) => result == Err::<(), EditError>(error),
            None => result == Ok::<(), EditError>(()),
        },
{
    let mut index: usize = 0;
    while index < commands.len()
        invariant
            index <= commands@.len(),
            ai_commands_error(commands@, index as int) is None,
        decreases commands@.len() - index,
    {
        match check_ai_command(&commands[index]) {
            Ok(()) => {},
            Err(error) => {
                proof {
                    lemma_ai_error_persists(commands@, index + 1, commands@.len() as int);
                }
                return Err(error);
            },
        }
        index += 1;
    }
    Ok(())
}

/// The digest of a proposal that passes the checks: the lower-case
/// hexadecimal SHA-256 of its JSON encoding `encoded`, made by the caller.
pub fn ai_change_set_sha256(change_set: &AiChangeSet, encoded: &[u8]) -> (digest: Result<
    String,
    EditError,
>)
    ensures
        match spec_validate_ai_change_set(
            change_set.summary@,
            change_set.commands@,
            encoded@.len() as int,
        ) {
            Err(error) => digest == Err::<String, EditError>(error),
            Ok(()) => digest matches Ok(text) && text@ == sha256_hex(encoded@),
        },
{
    validate_controlled_ai_change_set(change_set, encoded.len())?;
    Ok(sha256_bytes(encoded))
}

/// Checks that a proposal the user confirmed is the one that was previewed:
/// its digest (that of its JSON encoding `encoded`) must equal the digest
/// `expected_sha256` shown with the preview. Gives the digest back.
pub fn confirm_ai_change_set(change_set: &AiChangeSet, encoded: &[u8], expected_sha256: &str) -> (result:
    Result<String, EditError>)
    ensures
        match spec_validate_ai_change_set(
            change_set.summary@,
            change_set.commands@,
            encoded@.len() as int,
        ) {
            Err(error) => result == Err::<String, EditError>(error),
            Ok(()) => if sha256_hex(encoded@) == expected_sha256@ {
                result matches Ok(text) && text@ == expected_sha256@
            } else {
                result == Err::<String, EditError>(EditError::AiProposalChanged)
            },
        },
{
    let digest = ai_change_set_sha256(change_set, encoded)?;
    if !text_equal(digest.as_str(), expected_sha256) {
        return Err(EditError::AiProposalChanged);
    }
    Ok(digest)
}

} // verus!
