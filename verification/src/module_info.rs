//! The identity of a module: the definition of a new one, and the manifest
//! (name, tag, areas, entry area) that an existing one is given.
use crate::error::EditError;
use crate::deploy::texts;
use crate::resource::text_bytes;
use crate::text::{is_blank, is_blank_text, validate_resref, valid_resref_text};
use vstd::prelude::*;

verus! {

/// What a new, empty module is made from.
#[derive(Debug, Clone, PartialEq, Eq)]
pub struct NewModuleDefinition {
    pub name: String,
    pub tag: String,
    pub entry_area: String,
    pub tileset: String,
}

/// The identity and area list that a module's manifest is given.
#[derive(Debug, Clone, PartialEq, Eq)]
pub struct ModuleManifestDefinition {
    pub name: String,
    pub tag: String,
    pub description: String,
    pub entry_area: String,
    pub areas: Vec<String>,
    pub hak_files: Vec<String>,
    pub custom_tlk: Option<String>,
}

/// The verdict on a new module's definition: its entry area must be a valid
/// ResRef, and its name and tag must not be blank.
pub open spec fn spec_check_new_module(definition: NewModuleDefinition) -> Result<(), EditError> {
    if !valid_resref_text(definition.entry_area@) {
        Err(EditError::ResrefInvalid)
    } else if is_blank_text(definition.name@) || is_blank_text(definition.tag@) {
        Err(EditError::NewModuleIdentityInvalid)
    } else {
        Ok(())
    }
}

/// Checks the definition of a new module.
pub fn validate_new_module_definition(definition: &NewModuleDefinition) -> (result: Result<(), EditError>)
    ensures
        result == spec_check_new_module(*definition),
{
    validate_resref(definition.entry_area.as_str())?;
    if is_blank(definition.name.as_str()) || is_blank(definition.tag.as_str()) {
        return Err(EditError::NewModuleIdentityInvalid);
    }
    Ok(())
}

/// The manifest's name, tag and description are within bounds: a name of 1
/// to 1024 bytes and a tag of 1 to 64 bytes, neither blank, and a
/// description of at most 64 KiB.
pub open spec fn manifest_identity_ok(definition: ModuleManifestDefinition) -> bool {
    &&& !is_blank_text(definition.name@)
    &&& text_bytes(definition.name@).len() <= 1024
    &&& !is_blank_text(definition.tag@)
    &&& text_bytes(definition.tag@).len() <= 64
    &&& text_bytes(definition.description@).len() <= 64 * 1024
}

/// The first fault of an area list, read in order: an area that is not a
/// valid ResRef, or one that an earlier area already names.
pub open spec fn area_list_fault(areas: Seq<Seq<char>>) -> Option<EditError>
    decreases areas.len(),
{
    if areas.len() == 0 {
        None
    } else {
        match area_list_fault(areas.drop_last()) {
            Some(fault) => Some(fault),
            None => if !valid_resref_text(areas.last()) {
                Some(EditError::ResrefInvalid)
            } else if areas.drop_last().contains(areas.last()) {
                Some(EditError::ModuleAreaDuplicate)
            } else {
                None
            },
        }
    }
}

/// The verdict on a manifest: its identity within bounds, its entry area a
/// valid ResRef, its areas valid and distinct, and its entry area among them;
/// the first fault found in that order is the error.
pub open spec fn spec_check_manifest(definition: ModuleManifestDefinition) -> Result<(), EditError> {
    let areas = texts(definition.areas@);
    if !manifest_identity_ok(definition) {
        Err(EditError::ModuleManifestInvalid)
    } else if !valid_resref_text(definition.entry_area@) {
        Err(EditError::ResrefInvalid)
    } else {
        match area_list_fault(areas) {
            Some(fault) => Err(fault),
            None => if areas.contains(definition.entry_area@) {
                Ok(())
            } else {
                Err(EditError::ModuleEntryAreaMissing)
            },
        }
    }
}

/// Whether some area among the first `count` names `area`.
fn names_area(areas: &Vec<String>, count: usize, area: &String) -> (found: bool)
    requires
        count <= areas@.len(),
    ensures
        found == texts(areas@).take(count as int).contains(area@),
{
    let ghost names = texts(areas@).take(count as int);
    let mut j: usize = 0;
    while j < count
        invariant
            count <= areas@.len(),
            j <= count,
            names == texts(areas@).take(count as int),
            forall|k: int| 0 <= k < j ==> names[k] != area@,
        decreases count - j,
    {
        if areas[j] == *area {
            assert(names[j as int] == area@);
            return true;
        }
        j = j + 1;
    }
    false
}

/// Checks the manifest that a module is about to be given.
pub fn validate_module_manifest(definition: &ModuleManifestDefinition) -> (result: Result<(), EditError>)
    ensures
        result == spec_check_manifest(*definition),
{
    if is_blank(definition.name.as_str()) || definition.name.as_str().as_bytes().len() > 1024
        || is_blank(definition.tag.as_str()) || definition.tag.as_str().as_bytes().len() > 64
        || definition.description.as_str().as_bytes().len() > 64 * 1024
    {
        return Err(EditError::ModuleManifestInvalid);
    }
    validate_resref(definition.entry_area.as_str())?;
    let areas = &definition.areas;
    let ghost all = texts(areas@);
    let mut i: usize = 0;
    while i < areas.len()
        invariant
            i <= areas@.len(),
            all == texts(areas@),
            areas@ == definition.areas@,
            manifest_identity_ok(*definition),
            valid_resref_text(definition.entry_area@),
            area_list_fault(all.take(i as int)) is None,
        decreases areas@.len() - i,
    {
        proof {
            assert(all.take(i + 1).drop_last() =~= all.take(i as int));
            assert(all.take(i + 1).last() == areas@[i as int]@);
        }
        match validate_resref(areas[i].as_str()) {
            Ok(()) => {},
            Err(error) => {
                proof {
                    assert(area_list_fault(all.take(i + 1)) == Some(EditError::ResrefInvalid));
                    lemma_fault_persists(all, i + 1);
                }
                return Err(error);
            },
        }
        if names_area(areas, i, &areas[i]) {
            proof {
                assert(all.take(i + 1).drop_last().contains(all.take(i + 1).last()));
                assert(area_list_fault(all.take(i + 1)) == Some(EditError::ModuleAreaDuplicate));
                lemma_fault_persists(all, i + 1);
            }
            return Err(EditError::ModuleAreaDuplicate);
        }
        i = i + 1;
    }
    proof {
        assert(all.take(areas@.len() as int) =~= all);
    }
    if names_area(areas, areas.len(), &definition.entry_area) {
        Ok(())
    } else {
        Err(EditError::ModuleEntryAreaMissing)
    }
}

/// A fault of an area list stays the first fault of any longer list.
proof fn lemma_fault_persists(areas: Seq<Seq<char>>, k: int)
    requires
        0 <= k <= areas.len(),
        area_list_fault(areas.take(k)) is Some,
    ensures
        area_list_fault(areas) == area_list_fault(areas.take(k)),
    decreases areas.len() - k,
{
    if k < areas.len() {
        assert(areas.take(k + 1).drop_last() =~= areas.take(k));
        lemma_fault_persists(areas, k + 1);
    } else {
        assert(areas.take(k) =~= areas);
    }
}

} // verus!
