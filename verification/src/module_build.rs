//! Which resources a new module or HAK is built from: the source module's
//! resources less the deleted ones, each taken from the workspace where it
//! was changed, then the resources the workspace added.
use crate::error::EditError;
use crate::resource::{text_bytes, ResourceKey};
use crate::text::{bytes_equal_ignoring_ascii_case, equal_ignoring_ascii_case};
use vstd::prelude::*;

verus! {

/// Where a resource of a build comes from: the workspace's staged copy, or
/// the source module's resource at a position of its inventory.
#[derive(Debug, Clone, Copy, PartialEq, Eq)]
pub enum ResourceOrigin {
    Staged,
    Source { position: usize },
}

/// A resource of a build and where it comes from.
#[derive(Debug, Clone, PartialEq, Eq)]
pub struct PlannedResource {
    pub key: ResourceKey,
    pub origin: ResourceOrigin,
}

/// A planned resource by its key and origin.
pub open spec fn planned_view(planned: PlannedResource) -> ((Seq<u8>, u16), ResourceOrigin) {
    (planned.key.key(), planned.origin)
}

pub open spec fn planned_views(plan: Seq<PlannedResource>) -> Seq<((Seq<u8>, u16), ResourceOrigin)> {
    plan.map_values(|p: PlannedResource| planned_view(p))
}

/// Some key of the list is the key.
pub open spec fn lists_key(keys: Seq<ResourceKey>, key: (Seq<u8>, u16)) -> bool {
    exists|i: int| 0 <= i < keys.len() && (#[trigger] keys[i]).key() == key
}

/// The source module's resources that are not deleted, in inventory order,
/// each staged where the workspace changed it and otherwise taken from its
/// position in the source.
pub open spec fn kept_source(
    source: Seq<ResourceKey>,
    deleted: Seq<ResourceKey>,
    modified: Seq<ResourceKey>,
) -> Seq<((Seq<u8>, u16), ResourceOrigin)>
    decreases source.len(),
{
    if source.len() == 0 {
        Seq::empty()
    } else {
        let before = kept_source(source.drop_last(), deleted, modified);
        let key = source.last().key();
        if lists_key(deleted, key) {
            before
        } else if lists_key(modified, key) {
            before.push((key, ResourceOrigin::Staged))
        } else {
            before.push((key, ResourceOrigin::Source { position: (source.len() - 1) as usize }))
        }
    }
}

/// The keys that a plan already holds.
pub open spec fn plan_has_key(plan: Seq<((Seq<u8>, u16), ResourceOrigin)>, key: (Seq<u8>, u16)) -> bool {
    exists|i: int| 0 <= i < plan.len() && (#[trigger] plan[i]).0 == key
}

/// The changed resources that the kept source resources do not hold, in the
/// order of `modified`, each staged.
pub open spec fn added_resources(
    kept: Seq<((Seq<u8>, u16), ResourceOrigin)>,
    modified: Seq<ResourceKey>,
) -> Seq<((Seq<u8>, u16), ResourceOrigin)>
    decreases modified.len(),
{
    if modified.len() == 0 {
        Seq::empty()
    } else {
        let before = added_resources(kept, modified.drop_last());
        let key = modified.last().key();
        if plan_has_key(kept, key) {
            before
        } else {
            before.push((key, ResourceOrigin::Staged))
        }
    }
}

/// The resources of a module built from the source module's inventory
/// `source`, with the workspace's `deleted` and `modified` resources.
pub open spec fn spec_module_plan(
    source: Seq<ResourceKey>,
    deleted: Seq<ResourceKey>,
    modified: Seq<ResourceKey>,
) -> Seq<((Seq<u8>, u16), ResourceOrigin)> {
    let kept = kept_source(source, deleted, modified);
    kept + added_resources(kept, modified)
}

/// Whether some key of the list is `key`.
fn find_key(keys: &[ResourceKey], key: &ResourceKey) -> (found: bool)
    ensures
        found == lists_key(keys@, key.key()),
{
    let mut i: usize = 0;
    while i < keys.len()
        invariant
            i <= keys@.len(),
            forall|j: int| 0 <= j < i ==> (#[trigger] keys@[j]).key() != key.key(),
        decreases keys@.len() - i,
    {
        if keys[i].same_key(key) {
            return true;
        }
        i = i + 1;
    }
    false
}

/// The resources of a module built from the source module's inventory
/// `source` and the workspace's `deleted` and `modified` resources: the
/// source's resources that are not deleted, in order, staged where changed,
/// then the changed resources the source does not keep.
pub fn plan_module_resources(
    source: &[ResourceKey],
    deleted: &[ResourceKey],
    modified: &[ResourceKey],
) -> (plan: Vec<PlannedResource>)
    ensures
        planned_views(plan@) == spec_module_plan(source@, deleted@, modified@),
{
    let mut plan: Vec<PlannedResource> = Vec::new();
    let mut i: usize = 0;
    while i < source.len()
        invariant
            i <= source@.len(),
            planned_views(plan@) == kept_source(source@.take(i as int), deleted@, modified@),
        decreases source@.len() - i,
    {
        let key = &source[i];
        proof {
            assert(source@.take(i + 1).drop_last() =~= source@.take(i as int));
            assert(source@.take(i + 1).last() == source@[i as int]);
        }
        if !find_key(deleted, key) {
            let origin = if find_key(modified, key) {
                ResourceOrigin::Staged
            } else {
                ResourceOrigin::Source { position: i }
            };
            plan.push(PlannedResource { key: key.copy_key(), origin });
            assert(planned_views(plan@) =~= kept_source(source@.take(i + 1), deleted@, modified@));
        }
        i = i + 1;
    }
    proof {
        assert(source@.take(source@.len() as int) =~= source@);
    }
    let ghost kept = planned_views(plan@);
    let kept_count = plan.len();
    let mut m: usize = 0;
    while m < modified.len()
        invariant
            m <= modified@.len(),
            kept_count <= plan@.len(),
            kept == kept_source(source@, deleted@, modified@),
            planned_views(plan@).take(kept_count as int) == kept,
            kept.len() == kept_count,
            planned_views(plan@) == kept + added_resources(kept, modified@.take(m as int)),
        decreases modified@.len() - m,
    {
        let key = &modified[m];
        proof {
            assert(modified@.take(m + 1).drop_last() =~= modified@.take(m as int));
            assert(modified@.take(m + 1).last() == modified@[m as int]);
        }
        let held = kept_holds(&plan, kept_count, key);
        if !held {
            let ghost before = planned_views(plan@);
            let entry = PlannedResource { key: key.copy_key(), origin: ResourceOrigin::Staged };
            assert(planned_view(entry) == (key.key(), ResourceOrigin::Staged));
            plan.push(entry);
            proof {
                assert(planned_views(plan@) =~= before.push(planned_view(entry)));
                assert(!plan_has_key(kept, key.key()));
                assert(added_resources(kept, modified@.take(m + 1)) == added_resources(
                    kept,
                    modified@.take(m as int),
                ).push((key.key(), ResourceOrigin::Staged)));
                assert(planned_views(plan@) =~= kept + added_resources(kept, modified@.take(m + 1)));
            }
        }
        proof {
            assert(planned_views(plan@).take(kept_count as int) =~= kept);
        }
        m = m + 1;
    }
    proof {
        assert(modified@.take(modified@.len() as int) =~= modified@);
    }
    plan
}

/// Whether the first `count` planned resources hold key `key`.
fn kept_holds(plan: &Vec<PlannedResource>, count: usize, key: &ResourceKey) -> (found: bool)
    requires
        count <= plan@.len(),
    ensures
        found == plan_has_key(planned_views(plan@).take(count as int), key.key()),
{
    let ghost prefix = planned_views(plan@).take(count as int);
    let mut i: usize = 0;
    while i < count
        invariant
            i <= count,
            count <= plan@.len(),
            prefix == planned_views(plan@).take(count as int),
            forall|j: int| 0 <= j < i ==> (#[trigger] prefix[j]).0 != key.key(),
        decreases count - i,
    {
        if plan[i].key.same_key(key) {
            assert(prefix[i as int].0 == key.key());
            return true;
        }
        assert(prefix[i as int].0 == plan@[i as int].key.key());
        i = i + 1;
    }
    false
}

/// The resources of a HAK of the workspace's changed resources, in order,
/// each staged; a HAK needs at least one.
pub fn plan_hak_resources(modified: &[ResourceKey]) -> (plan: Result<Vec<PlannedResource>, EditError>)
    ensures
        modified@.len() == 0 ==> plan == Err::<Vec<PlannedResource>, EditError>(EditError::HakEmpty),
        modified@.len() > 0 ==> (plan matches Ok(resources) && resources@.len() == modified@.len()
            && forall|i: int|
            0 <= i < modified@.len() ==> #[trigger] planned_view(resources@[i]) == (
                modified@[i].key(),
                ResourceOrigin::Staged,
            )),
{
    if modified.len() == 0 {
        return Err(EditError::HakEmpty);
    }
    let mut plan: Vec<PlannedResource> = Vec::new();
    let mut i: usize = 0;
    while i < modified.len()
        invariant
            i <= modified@.len(),
            plan@.len() == i,
            forall|j: int|
                0 <= j < i ==> #[trigger] planned_view(plan@[j]) == (
                    modified@[j].key(),
                    ResourceOrigin::Staged,
                ),
        decreases modified@.len() - i,
    {
        plan.push(PlannedResource { key: modified[i].copy_key(), origin: ResourceOrigin::Staged });
        i = i + 1;
    }
    Ok(plan)
}

proof fn lemma_kept_source(source: Seq<ResourceKey>, deleted: Seq<ResourceKey>, modified: Seq<ResourceKey>)
    requires
        source.len() <= usize::MAX,
    ensures
        forall|j: int|
            0 <= j < kept_source(source, deleted, modified).len() ==> {
                let entry = #[trigger] kept_source(source, deleted, modified)[j];
                &&& !lists_key(deleted, entry.0)
                &&& (entry.1 is Staged ==> lists_key(modified, entry.0))
                &&& (entry.1 matches ResourceOrigin::Source { position } ==> position < source.len()
                    && source[position as int].key() == entry.0)
            },
        forall|i: int|
            0 <= i < source.len() && !lists_key(deleted, (#[trigger] source[i]).key()) ==> plan_has_key(
                kept_source(source, deleted, modified),
                source[i].key(),
            ),
    decreases source.len(),
{
    if source.len() > 0 {
        let front = source.drop_last();
        lemma_kept_source(front, deleted, modified);
        let before = kept_source(front, deleted, modified);
        let all = kept_source(source, deleted, modified);
        assert forall|j: int| 0 <= j < all.len() implies {
            let entry = #[trigger] all[j];
            &&& !lists_key(deleted, entry.0)
            &&& (entry.1 is Staged ==> lists_key(modified, entry.0))
            &&& (entry.1 matches ResourceOrigin::Source { position } ==> position < source.len()
                && source[position as int].key() == entry.0)
        } by {
            if j < before.len() {
                assert(all[j] == before[j]);
                if let ResourceOrigin::Source { position } = before[j].1 {
                    assert(source[position as int] == front[position as int]);
                }
            }
        }
        assert forall|i: int|
            0 <= i < source.len() && !lists_key(deleted, (#[trigger] source[i]).key()) implies plan_has_key(
            all,
            source[i].key(),
        ) by {
            if i < front.len() {
                assert(front[i] == source[i]);
                let j = choose|j: int| 0 <= j < before.len() && (#[trigger] before[j]).0 == front[i].key();
                assert(all[j] == before[j]);
            } else {
                assert(all[all.len() - 1].0 == source[i].key());
            }
        }
    }
}

proof fn lemma_added_resources(kept: Seq<((Seq<u8>, u16), ResourceOrigin)>, modified: Seq<ResourceKey>)
    ensures
        forall|j: int|
            0 <= j < added_resources(kept, modified).len() ==> (#[trigger] added_resources(
                kept,
                modified,
            )[j]).1 == ResourceOrigin::Staged && lists_key(modified, added_resources(kept, modified)[j].0),
        forall|i: int|
            0 <= i < modified.len() ==> plan_has_key(kept, (#[trigger] modified[i]).key()) || plan_has_key(
                added_resources(kept, modified),
                modified[i].key(),
            ),
    decreases modified.len(),
{
    if modified.len() > 0 {
        let front = modified.drop_last();
        lemma_added_resources(kept, front);
        let before = added_resources(kept, front);
        let all = added_resources(kept, modified);
        assert forall|j: int| 0 <= j < all.len() implies (#[trigger] all[j]).1 == ResourceOrigin::Staged
            && lists_key(modified, all[j].0) by {
            if j < before.len() {
                assert(all[j] == before[j]);
                let k = choose|k: int| 0 <= k < front.len() && (#[trigger] front[k]).key() == before[j].0;
                assert(modified[k] == front[k]);
            } else {
                assert(modified[modified.len() - 1].key() == all[j].0);
            }
        }
        assert forall|i: int| 0 <= i < modified.len() implies plan_has_key(
            kept,
            (#[trigger] modified[i]).key(),
        ) || plan_has_key(all, modified[i].key()) by {
            if i < front.len() {
                assert(front[i] == modified[i]);
                if plan_has_key(before, front[i].key()) {
                    let j = choose|j: int| 0 <= j < before.len() && (#[trigger] before[j]).0 == front[i].key();
                    assert(all[j] == before[j]);
                }
            } else if !plan_has_key(kept, modified[i].key()) {
                assert(all[all.len() - 1].0 == modified[i].key());
            }
        }
    }
}

/// What a module build holds: every source resource that is not deleted,
/// every changed resource (from its staged copy), and no deleted resource
/// that was not changed again; a resource taken from the source is the one
/// at its inventory position, unchanged and not deleted.
pub proof fn law_module_build_contents(
    source: Seq<ResourceKey>,
    deleted: Seq<ResourceKey>,
    modified: Seq<ResourceKey>,
)
    requires
        source.len() <= usize::MAX,
    ensures
        forall|i: int|
            0 <= i < source.len() && !lists_key(deleted, (#[trigger] source[i]).key()) ==> plan_has_key(
                spec_module_plan(source, deleted, modified),
                source[i].key(),
            ),
        forall|i: int|
            0 <= i < modified.len() ==> plan_has_key(
                spec_module_plan(source, deleted, modified),
                (#[trigger] modified[i]).key(),
            ),
        forall|j: int|
            0 <= j < spec_module_plan(source, deleted, modified).len() ==> {
                let entry = #[trigger] spec_module_plan(source, deleted, modified)[j];
                &&& lists_key(deleted, entry.0) ==> lists_key(modified, entry.0) && entry.1
                    is Staged
                &&& (entry.1 is Staged ==> lists_key(modified, entry.0))
                &&& (entry.1 matches ResourceOrigin::Source { position } ==> position < source.len()
                    && source[position as int].key() == entry.0 && !lists_key(deleted, entry.0)
                    && !lists_key(modified, entry.0))
            },
{
    let kept = kept_source(source, deleted, modified);
    let added = added_resources(kept, modified);
    let plan = spec_module_plan(source, deleted, modified);
    lemma_kept_source(source, deleted, modified);
    lemma_added_resources(kept, modified);
    assert forall|i: int|
        0 <= i < source.len() && !lists_key(deleted, (#[trigger] source[i]).key()) implies plan_has_key(
        plan,
        source[i].key(),
    ) by {
        let j = choose|j: int| 0 <= j < kept.len() && (#[trigger] kept[j]).0 == source[i].key();
        assert(plan[j] == kept[j]);
    }
    assert forall|i: int| 0 <= i < modified.len() implies plan_has_key(
        plan,
        (#[trigger] modified[i]).key(),
    ) by {
        if plan_has_key(kept, modified[i].key()) {
            let j = choose|j: int| 0 <= j < kept.len() && (#[trigger] kept[j]).0 == modified[i].key();
            assert(plan[j] == kept[j]);
        } else {
            let j = choose|j: int| 0 <= j < added.len() && (#[trigger] added[j]).0 == modified[i].key();
            assert(plan[kept.len() + j] == added[j]);
        }
    }
    assert forall|j: int| 0 <= j < plan.len() implies {
        let entry = #[trigger] plan[j];
        &&& lists_key(deleted, entry.0) ==> lists_key(modified, entry.0) && entry.1 is Staged
        &&& (entry.1 is Staged ==> lists_key(modified, entry.0))
        &&& (entry.1 matches ResourceOrigin::Source { position } ==> position < source.len()
            && source[position as int].key() == entry.0 && !lists_key(deleted, entry.0)
            && !lists_key(modified, entry.0))
    } by {
        if j < kept.len() {
            assert(plan[j] == kept[j]);
            if kept[j].1 is Source {
                lemma_source_origin_unchanged(source, deleted, modified, j);
            }
        } else {
            assert(plan[j] == added[j - kept.len()]);
        }
    }
}

/// A resource that a build takes from the source is not a changed one.
proof fn lemma_source_origin_unchanged(
    source: Seq<ResourceKey>,
    deleted: Seq<ResourceKey>,
    modified: Seq<ResourceKey>,
    j: int,
)
    requires
        0 <= j < kept_source(source, deleted, modified).len(),
        kept_source(source, deleted, modified)[j].1 is Source,
    ensures
        !lists_key(modified, kept_source(source, deleted, modified)[j].0),
    decreases source.len(),
{
    let front = source.drop_last();
    let before = kept_source(front, deleted, modified);
    if j < before.len() {
        assert(kept_source(source, deleted, modified)[j] == before[j]);
        lemma_source_origin_unchanged(front, deleted, modified, j);
    }
}

/// Checks that a module build output has the `.mod` extension (any ASCII
/// case), given the extension of its path, if it has one.
pub fn check_module_output_extension(extension: Option<&str>) -> (result: Result<(), EditError>)
    ensures
        result is Ok == (extension matches Some(found) && equal_ignoring_ascii_case(
            text_bytes(found@),
            text_bytes("mod"@),
        )),
        result matches Err(error) ==> error == EditError::BuildExtensionInvalid,
{
    let matches_mod = match extension {
        Some(found) => bytes_equal_ignoring_ascii_case(found.as_bytes(), "mod".as_bytes()),
        None => false,
    };
    if matches_mod {
        Ok(())
    } else {
        Err(EditError::BuildExtensionInvalid)
    }
}

/// Checks that the built module, read back, lists as many resources as were
/// planned.
pub fn check_reopened_count(reopened: u32, planned: usize) -> (result: Result<(), EditError>)
    ensures
        result is Err == (reopened != planned),
        result matches Err(error) ==> error == EditError::BuildReopenFailed,
{
    if reopened as usize != planned {
        Err(EditError::BuildReopenFailed)
    } else {
        Ok(())
    }
}

} // verus!
