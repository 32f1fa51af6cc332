//! The editing commands of a workspace, as the checks read them, and the
//! check each command passes on its own before it is previewed or applied.
use crate::area::TileState;
use crate::digest::{is_sha256, is_sha256_text};
use crate::resource::{text_bytes, ResourceKey};
use crate::text::{is_blank, is_blank_text};
use vstd::prelude::*;

verus! {

/// The largest text that a replacement may write.
pub const MAX_REPLACEMENT_TEXT_BYTES: usize = 8_388_608;

/// A resource and the SHA-256 digest of its contents.
#[derive(Debug, Clone, PartialEq, Eq)]
pub struct ResourceContentDigest {
    pub resource: ResourceKey,
    pub content_sha256: String,
}

/// An editing command. Values that the commands carry as JSON (field values,
/// transforms, placements) are held as their JSON text; whether a placement's
/// coordinates are finite is judged by the caller, who holds them.
#[derive(Debug, Clone, PartialEq, Eq)]
pub enum EditCommand {
    SetField { resource: ResourceKey, path: String, before_json: String, after_json: String },
    TransformResource {
        resource: ResourceKey,
        operation: String,
        before_sha256: String,
        after_sha256: String,
    },
    ReplaceText { resource: ResourceKey, before: String, after: String },
    CompileScript {
        resource: ResourceKey,
        inputs: Vec<ResourceContentDigest>,
        compiler_sha256: String,
        before_sha256: Option<String>,
        after_sha256: String,
    },
    MoveInstance { area: String, instance_id: String, before_json: String, after_json: String },
    SetTile { area: String, x: u32, y: u32, before: TileState, after: TileState },
    AddInstance { area: String, instance_id: String, placement_json: String, placement_finite: bool },
    RemoveInstance { area: String, instance_id: String },
    CreateResource { resource: ResourceKey, content_sha256: String },
    DeleteResource { resource: ResourceKey, content_sha256: String },
    CreateResourceSet { resources: Vec<ResourceContentDigest> },
    DeleteResourceSet { resources: Vec<ResourceContentDigest> },
}

/// Every digest of the list spells a SHA-256 digest.
pub open spec fn all_digests_valid(digests: Seq<ResourceContentDigest>) -> bool {
    forall|i: int| 0 <= i < digests.len() ==> is_sha256_text(#[trigger] digests[i].content_sha256@)
}

/// The check a command passes on its own: a field edit names a field; a
/// transformation names an operation and two digests; a replacement writes at
/// most 8 MiB; tiles face one of four directions; placements are finite;
/// digests of created, deleted and compiled resources are SHA-256 digests,
/// and sets and compilations list at least one.
pub open spec fn command_self_check(command: EditCommand) -> bool {
    match command {
        EditCommand::SetField { path, .. } => !is_blank_text(path@),
        EditCommand::TransformResource { operation, before_sha256, after_sha256, .. } => {
            !is_blank_text(operation@) && is_sha256_text(before_sha256@) && is_sha256_text(
                after_sha256@,
            )
        },
        EditCommand::ReplaceText { after, .. } => text_bytes(after@).len()
            <= MAX_REPLACEMENT_TEXT_BYTES,
        EditCommand::SetTile { before, after, .. } => before.orientation <= 3 && after.orientation
            <= 3,
        EditCommand::AddInstance { placement_finite, .. } => placement_finite,
        EditCommand::CreateResource { content_sha256, .. } => is_sha256_text(content_sha256@),
        EditCommand::DeleteResource { content_sha256, .. } => is_sha256_text(content_sha256@),
        EditCommand::CreateResourceSet { resources } => resources@.len() > 0 && all_digests_valid(
            resources@,
        ),
        EditCommand::DeleteResourceSet { resources } => resources@.len() > 0 && all_digests_valid(
            resources@,
        ),
        EditCommand::CompileScript {
            inputs,
            compiler_sha256,
            before_sha256,
            after_sha256,
            ..
        } => {
            &&& inputs@.len() > 0
            &&& all_digests_valid(inputs@)
            &&& is_sha256_text(compiler_sha256@)
            &&& (before_sha256 matches Some(before) ==> is_sha256_text(before@))
            &&& is_sha256_text(after_sha256@)
        },
        EditCommand::MoveInstance { .. } => true,
        EditCommand::RemoveInstance { .. } => true,
    }
}

fn digests_valid(digests: &Vec<ResourceContentDigest>) -> (valid: bool)
    ensures
        valid == all_digests_valid(digests@),
{
    let mut i: usize = 0;
    while i < digests.len()
        invariant
            i <= digests@.len(),
            forall|j: int| 0 <= j < i ==> is_sha256_text(#[trigger] digests@[j].content_sha256@),
        decreases digests@.len() - i,
    {
        if !is_sha256(digests[i].content_sha256.as_str()) {
            return false;
        }
        i = i + 1;
    }
    true
}

/// Whether a command passes its own check.
pub fn passes_self_check(command: &EditCommand) -> (valid: bool)
    ensures
        valid == command_self_check(*command),
{
    match command {
        EditCommand::SetField { path, .. } => !is_blank(path.as_str()),
        EditCommand::TransformResource { operation, before_sha256, after_sha256, .. } => {
            !is_blank(operation.as_str()) && is_sha256(before_sha256.as_str()) && is_sha256(
                after_sha256.as_str(),
            )
        },
        EditCommand::ReplaceText { after, .. } => after.as_str().as_bytes().len()
            <= MAX_REPLACEMENT_TEXT_BYTES,
        EditCommand::SetTile { before, after, .. } => before.orientation <= 3 && after.orientation
            <= 3,
        EditCommand::AddInstance { placement_finite, .. } => *placement_finite,
        EditCommand::CreateResource { content_sha256, .. } => is_sha256(content_sha256.as_str()),
        EditCommand::DeleteResource { content_sha256, .. } => is_sha256(content_sha256.as_str()),
        EditCommand::CreateResourceSet { resources } => resources.len() > 0 && digests_valid(resources),
        EditCommand::DeleteResourceSet { resources } => resources.len() > 0 && digests_valid(resources),
        EditCommand::CompileScript {
            inputs,
            compiler_sha256,
            before_sha256,
            after_sha256,
            ..
        } => {
            let before_ok = match before_sha256 {
                Some(before) => is_sha256(before.as_str()),
                None => true,
            };
            inputs.len() > 0 && digests_valid(inputs) && is_sha256(compiler_sha256.as_str())
                && before_ok && is_sha256(after_sha256.as_str())
        },
        EditCommand::MoveInstance { .. } => true,
        EditCommand::RemoveInstance { .. } => true,
    }
}

} // verus!
