//! The lists of a blueprint that the editor can change, the blueprint format
//! that holds each of them, and what an edit of one of them adds or removes.
use crate::error::EditError;
use crate::resource::text_equal;
use crate::text::{valid_resref_text, validate_resref};
use vstd::prelude::*;

verus! {

/// A list of a creature, item, sound or encounter blueprint.
#[derive(Debug, Clone, Copy, PartialEq, Eq)]
pub enum BlueprintListKind {
    Feat,
    SpecialAbility,
    Class,
    EquippedItem,
    ItemProperty,
    Sound,
    EncounterCreature,
}

/// The GFF type of the blueprints that hold a list of this kind.
pub open spec fn spec_blueprint_file_type(kind: BlueprintListKind) -> Seq<char> {
    match kind {
        BlueprintListKind::Feat
        | BlueprintListKind::SpecialAbility
        | BlueprintListKind::Class
        | BlueprintListKind::EquippedItem => "UTC "@,
        BlueprintListKind::ItemProperty => "UTI "@,
        BlueprintListKind::Sound => "UTS "@,
        BlueprintListKind::EncounterCreature => "UTE "@,
    }
}

/// The GFF type of the blueprints that hold a list of this kind.
pub fn blueprint_file_type(kind: BlueprintListKind) -> (file_type: &'static str)
    ensures
        file_type@ == spec_blueprint_file_type(kind),
{
    match kind {
        BlueprintListKind::Feat
        | BlueprintListKind::SpecialAbility
        | BlueprintListKind::Class
        | BlueprintListKind::EquippedItem => "UTC ",
        BlueprintListKind::ItemProperty => "UTI ",
        BlueprintListKind::Sound => "UTS ",
        BlueprintListKind::EncounterCreature => "UTE ",
    }
}

/// Checks that a blueprint of the given GFF type holds lists of this kind.
pub fn check_blueprint_file_type(kind: BlueprintListKind, file_type: &str) -> (result: Result<(), EditError>)
    ensures
        result is Ok == (file_type@ == spec_blueprint_file_type(kind)),
        result matches Err(error) ==> error == EditError::BlueprintListFormatInvalid,
{
    if text_equal(file_type, blueprint_file_type(kind)) {
        Ok(())
    } else {
        Err(EditError::BlueprintListFormatInvalid)
    }
}

/// The labels under which a blueprint may store a list of this kind, in the
/// order they are looked for.
pub open spec fn spec_blueprint_list_labels(kind: BlueprintListKind) -> Seq<Seq<char>> {
    match kind {
        BlueprintListKind::Feat => seq!["FeatList"@],
        BlueprintListKind::SpecialAbility => seq!["SpecAbilityList"@],
        BlueprintListKind::Class => seq!["ClassList"@],
        BlueprintListKind::EquippedItem => seq!["Equip_ItemList"@, "EquipItemList"@],
        BlueprintListKind::ItemProperty => seq!["PropertiesList"@, "PropertyList"@],
        BlueprintListKind::Sound => seq!["Sounds"@],
        BlueprintListKind::EncounterCreature => seq!["CreatureList"@],
    }
}

/// The labels under which a blueprint may store a list of this kind.
pub fn blueprint_list_labels(kind: BlueprintListKind) -> (labels: Vec<&'static str>)
    ensures
        labels@.len() == spec_blueprint_list_labels(kind).len(),
        forall|i: int|
            0 <= i < labels@.len() ==> (#[trigger] labels@[i])@ == spec_blueprint_list_labels(kind)[i],
{
    let mut labels: Vec<&'static str> = Vec::new();
    match kind {
        BlueprintListKind::Feat => {
            labels.push("FeatList");
        },
        BlueprintListKind::SpecialAbility => {
            labels.push("SpecAbilityList");
        },
        BlueprintListKind::Class => {
            labels.push("ClassList");
        },
        BlueprintListKind::EquippedItem => {
            labels.push("Equip_ItemList");
            labels.push("EquipItemList");
        },
        BlueprintListKind::ItemProperty => {
            labels.push("PropertiesList");
            labels.push("PropertyList");
        },
        BlueprintListKind::Sound => {
            labels.push("Sounds");
        },
        BlueprintListKind::EncounterCreature => {
            labels.push("CreatureList");
        },
    }
    labels
}

/// The most entries a blueprint list can hold.
pub const MAX_BLUEPRINT_LIST_ENTRIES: usize = 100_000;

/// A structural edit of a blueprint's lists. The challenge rating of an
/// encounter creature is checked by the caller, who reports whether it is
/// finite and not negative.
#[derive(Debug, Clone, PartialEq, Eq)]
pub enum BlueprintStructureRequest {
    AddFeat { feat_id: u16 },
    AddSpecialAbility { spell_id: u16, caster_level: u8, flags: u8 },
    AddClass { class_id: u32, class_level: u16 },
    AddEquippedItem { resref: String, slot: u32 },
    AddItemProperty {
        property_name: u16,
        subtype: u16,
        cost_table: u8,
        cost_value: u16,
        param1: u8,
        param1_value: u8,
        chance_appear: u8,
    },
    AddSound { resref: String },
    AddEncounterCreature {
        resref: String,
        appearance: u32,
        challenge_rating_valid: bool,
        single_spawn: bool,
    },
    RemoveEntry { list_kind: BlueprintListKind, entry_index: usize },
}

/// What a blueprint holds where an edit looks for its list.
#[derive(Debug, Clone, PartialEq, Eq)]
pub enum BlueprintListState {
    /// No field under any of the list's labels.
    Missing,
    /// The field found is not a list.
    NotAList,
    /// The list's entries, each given by the integer it holds under the label
    /// that must stay unique in the list ("Feat" in feats, "Class" in
    /// classes), where it holds one.
    Entries(Vec<Option<i64>>),
}

/// An entry to append to a blueprint list, with its values in the field
/// types of the blueprint format.
#[derive(Debug, Clone, PartialEq, Eq)]
pub enum BlueprintEntry {
    Feat { feat_id: u16 },
    SpecialAbility { spell_id: u16, caster_level: u8, flags: u8 },
    Class { class_id: i32, class_level: i16 },
    EquippedItem { resref: String, slot: u32 },
    ItemProperty {
        property_name: u16,
        subtype: u16,
        cost_table: u8,
        cost_value: u16,
        param1: u8,
        param1_value: u8,
        chance_appear: u8,
    },
    Sound { resref: String },
    EncounterCreature { resref: String, appearance: i32, single_spawn: bool },
}

/// What an accepted edit does to the list of its kind.
#[derive(Debug, Clone, PartialEq, Eq)]
pub enum BlueprintEdit {
    Append(BlueprintEntry),
    Remove(usize),
}

/// The list that a request works on.
pub open spec fn request_list_kind(request: BlueprintStructureRequest) -> BlueprintListKind {
    match request {
        BlueprintStructureRequest::AddFeat { .. } => BlueprintListKind::Feat,
        BlueprintStructureRequest::AddSpecialAbility { .. } => BlueprintListKind::SpecialAbility,
        BlueprintStructureRequest::AddClass { .. } => BlueprintListKind::Class,
        BlueprintStructureRequest::AddEquippedItem { .. } => BlueprintListKind::EquippedItem,
        BlueprintStructureRequest::AddItemProperty { .. } => BlueprintListKind::ItemProperty,
        BlueprintStructureRequest::AddSound { .. } => BlueprintListKind::Sound,
        BlueprintStructureRequest::AddEncounterCreature { .. } => BlueprintListKind::EncounterCreature,
        BlueprintStructureRequest::RemoveEntry { list_kind, .. } => list_kind,
    }
}

/// What is wrong with the request's own values, checked in this order before
/// the blueprint is looked at.
pub open spec fn request_error(request: BlueprintStructureRequest) -> Option<EditError> {
    match request {
        BlueprintStructureRequest::AddClass { class_id, class_level } => if class_level == 0
            || class_level > 60 {
            Some(EditError::BlueprintClassLevelInvalid)
        } else if class_id > i32::MAX {
            Some(EditError::BlueprintClassIdInvalid)
        } else {
            None
        },
        BlueprintStructureRequest::AddEquippedItem { resref, .. } => if !valid_resref_text(
            resref@,
        ) {
            Some(EditError::ResrefInvalid)
        } else {
            None
        },
        BlueprintStructureRequest::AddItemProperty { chance_appear, .. } => if chance_appear
            > 100 {
            Some(EditError::BlueprintPropertyChanceInvalid)
        } else {
            None
        },
        BlueprintStructureRequest::AddSound { resref } => if !valid_resref_text(resref@) {
            Some(EditError::ResrefInvalid)
        } else {
            None
        },
        BlueprintStructureRequest::AddEncounterCreature {
            resref,
            appearance,
            challenge_rating_valid,
            ..
        } => if !valid_resref_text(resref@) {
            Some(EditError::ResrefInvalid)
        } else if appearance > i32::MAX {
            Some(EditError::BlueprintAppearanceInvalid)
        } else if !challenge_rating_valid {
            Some(EditError::BlueprintChallengeRatingInvalid)
        } else {
            None
        },
        _ => None,
    }
}

/// The value that an added entry must not share with an entry already in the
/// list: the feat of a feat, the class of a class.
pub open spec fn request_unique_value(request: BlueprintStructureRequest) -> Option<i64> {
    match request {
        BlueprintStructureRequest::AddFeat { feat_id } => Some(feat_id as i64),
        BlueprintStructureRequest::AddClass { class_id, .. } => Some(class_id as i64),
        _ => None,
    }
}

/// The entry that an add request appends.
pub open spec fn request_entry(request: BlueprintStructureRequest) -> BlueprintEntry {
    match request {
        BlueprintStructureRequest::AddFeat { feat_id } => BlueprintEntry::Feat { feat_id },
        BlueprintStructureRequest::AddSpecialAbility { spell_id, caster_level, flags } =>
            BlueprintEntry::SpecialAbility { spell_id, caster_level, flags },
        BlueprintStructureRequest::AddClass { class_id, class_level } => BlueprintEntry::Class {
            class_id: class_id as i32,
            class_level: class_level as i16,
        },
        BlueprintStructureRequest::AddEquippedItem { resref, slot } =>
            BlueprintEntry::EquippedItem { resref, slot },
        BlueprintStructureRequest::AddItemProperty {
            property_name,
            subtype,
            cost_table,
            cost_value,
            param1,
            param1_value,
            chance_appear,
        } => BlueprintEntry::ItemProperty {
            property_name,
            subtype,
            cost_table,
            cost_value,
            param1,
            param1_value,
            chance_appear,
        },
        BlueprintStructureRequest::AddSound { resref } => BlueprintEntry::Sound { resref },
        BlueprintStructureRequest::AddEncounterCreature { resref, appearance, single_spawn, .. } =>
            BlueprintEntry::EncounterCreature { resref, appearance: appearance as i32, single_spawn },
        BlueprintStructureRequest::RemoveEntry { .. } => BlueprintEntry::Feat { feat_id: 0 },
    }
}

/// Whether some entry of the list holds the value.
pub open spec fn holds_value(entries: Seq<Option<i64>>, value: i64) -> bool {
    exists|i: int| 0 <= i < entries.len() && entries[i] == Some(value)
}

/// What an edit does to a blueprint of the given GFF type whose list is in
/// the given state: the request's own checks, then the blueprint's type, the
/// list's field, and for an addition the list's limit and the uniqueness of
/// its value, for a removal the entry's presence.
pub open spec fn spec_plan_blueprint_edit(
    request: BlueprintStructureRequest,
    file_type: Seq<char>,
    list: BlueprintListState,
) -> Result<BlueprintEdit, EditError> {
    let kind = request_list_kind(request);
    if request_error(request) is Some {
        Err(request_error(request)->0)
    } else if file_type != spec_blueprint_file_type(kind) {
        Err(EditError::BlueprintListFormatInvalid)
    } else {
        match list {
            BlueprintListState::Missing => Err(EditError::GffFieldNotFound),
            BlueprintListState::NotAList => Err(EditError::GffPathInvalid),
            BlueprintListState::Entries(entries) => match request {
                BlueprintStructureRequest::RemoveEntry { entry_index, .. } => if entry_index
                    >= entries@.len() {
                    Err(EditError::BlueprintEntryNotFound)
                } else {
                    Ok(BlueprintEdit::Remove(entry_index))
                },
                _ => if entries@.len() >= MAX_BLUEPRINT_LIST_ENTRIES {
                    Err(EditError::BlueprintListLimitExceeded)
                } else if request_unique_value(request) matches Some(value) && holds_value(
                    entries@,
                    value,
                ) {
                    Err(EditError::BlueprintEntryDuplicate)
                } else {
                    Ok(BlueprintEdit::Append(request_entry(request)))
                },
            },
        }
    }
}

/// The list that a request works on.
pub fn blueprint_request_list_kind(request: &BlueprintStructureRequest) -> (kind: BlueprintListKind)
    ensures
        kind == request_list_kind(*request),
{
    match request {
        BlueprintStructureRequest::AddFeat { .. } => BlueprintListKind::Feat,
        BlueprintStructureRequest::AddSpecialAbility { .. } => BlueprintListKind::SpecialAbility,
        BlueprintStructureRequest::AddClass { .. } => BlueprintListKind::Class,
        BlueprintStructureRequest::AddEquippedItem { .. } => BlueprintListKind::EquippedItem,
        BlueprintStructureRequest::AddItemProperty { .. } => BlueprintListKind::ItemProperty,
        BlueprintStructureRequest::AddSound { .. } => BlueprintListKind::Sound,
        BlueprintStructureRequest::AddEncounterCreature { .. } => BlueprintListKind::EncounterCreature,
        BlueprintStructureRequest::RemoveEntry { list_kind, .. } => *list_kind,
    }
}

fn check_request(request: &BlueprintStructureRequest) -> (result: Result<(), EditError>)
    ensures
        match request_error(*request) {
            Some(error) => result == Err::<(), EditError>(error),
            None => result is Ok,
        },
{
    match request {
        BlueprintStructureRequest::AddClass { class_id, class_level } => {
            if *class_level == 0 || *class_level > 60 {
                Err(EditError::BlueprintClassLevelInvalid)
            } else if *class_id > 2147483647u32 {
                Err(EditError::BlueprintClassIdInvalid)
            } else {
                Ok(())
            }
        },
        BlueprintStructureRequest::AddEquippedItem { resref, .. } => validate_resref(resref.as_str()),
        BlueprintStructureRequest::AddItemProperty { chance_appear, .. } => {
            if *chance_appear > 100 {
                Err(EditError::BlueprintPropertyChanceInvalid)
            } else {
                Ok(())
            }
        },
        BlueprintStructureRequest::AddSound { resref } => validate_resref(resref.as_str()),
        BlueprintStructureRequest::AddEncounterCreature {
            resref,
            appearance,
            challenge_rating_valid,
            ..
        } => {
            let checked = validate_resref(resref.as_str());
            if checked.is_err() {
                checked
            } else if *appearance > 2147483647u32 {
                Err(EditError::BlueprintAppearanceInvalid)
            } else if !*challenge_rating_valid {
                Err(EditError::BlueprintChallengeRatingInvalid)
            } else {
                Ok(())
            }
        },
        _ => Ok(()),
    }
}

fn entries_hold(entries: &Vec<Option<i64>>, value: i64) -> (found: bool)
    ensures
        found == holds_value(entries@, value),
{
    let mut index: usize = 0;
    while index < entries.len()
        invariant
            index <= entries@.len(),
            forall|i: int| 0 <= i < index ==> entries@[i] != Some(value),
        decreases entries@.len() - index,
    {
        if entries[index] == Some(value) {
            return true;
        }
        index = index + 1;
    }
    false
}

fn make_entry(request: &BlueprintStructureRequest) -> (entry: BlueprintEntry)
    requires
        request_error(*request) is None,
        !(request is RemoveEntry),
    ensures
        entry == request_entry(*request),
{
    match request {
        BlueprintStructureRequest::AddFeat { feat_id } => BlueprintEntry::Feat { feat_id: *feat_id },
        BlueprintStructureRequest::AddSpecialAbility { spell_id, caster_level, flags } =>
            BlueprintEntry::SpecialAbility {
                spell_id: *spell_id,
                caster_level: *caster_level,
                flags: *flags,
            },
        BlueprintStructureRequest::AddClass { class_id, class_level } => BlueprintEntry::Class {
            class_id: *class_id as i32,
            class_level: *class_level as i16,
        },
        BlueprintStructureRequest::AddEquippedItem { resref, slot } =>
            BlueprintEntry::EquippedItem { resref: resref.clone(), slot: *slot },
        BlueprintStructureRequest::AddItemProperty {
            property_name,
            subtype,
            cost_table,
            cost_value,
            param1,
            param1_value,
            chance_appear,
        } => BlueprintEntry::ItemProperty {
            property_name: *property_name,
            subtype: *subtype,
            cost_table: *cost_table,
            cost_value: *cost_value,
            param1: *param1,
            param1_value: *param1_value,
            chance_appear: *chance_appear,
        },
        BlueprintStructureRequest::AddSound { resref } => BlueprintEntry::Sound {
            resref: resref.clone(),
        },
        BlueprintStructureRequest::AddEncounterCreature { resref, appearance, single_spawn, .. } =>
            BlueprintEntry::EncounterCreature {
                resref: resref.clone(),
                appearance: *appearance as i32,
                single_spawn: *single_spawn,
            },
        BlueprintStructureRequest::RemoveEntry { .. } => BlueprintEntry::Feat { feat_id: 0 },
    }
}

/// Decides what a structural edit does to a blueprint of GFF type
/// `file_type` whose list of the request's kind is in state `list`: the
/// entry to append, the index to remove, or why the edit is refused.
pub fn plan_blueprint_edit(
    request: &BlueprintStructureRequest,
    file_type: &str,
    list: &BlueprintListState,
) -> (result: Result<BlueprintEdit, EditError>)
    ensures
        result == spec_plan_blueprint_edit(*request, file_type@, *list),
{
    let kind = blueprint_request_list_kind(request);
    let checked = check_request(request);
    if let Err(error) = checked {
        return Err(error);
    }
    let format = check_blueprint_file_type(kind, file_type);
    if let Err(error) = format {
        return Err(error);
    }
    match list {
        BlueprintListState::Missing => Err(EditError::GffFieldNotFound),
        BlueprintListState::NotAList => Err(EditError::GffPathInvalid),
        BlueprintListState::Entries(entries) => match request {
            BlueprintStructureRequest::RemoveEntry { entry_index, .. } => {
                if *entry_index >= entries.len() {
                    Err(EditError::BlueprintEntryNotFound)
                } else {
                    Ok(BlueprintEdit::Remove(*entry_index))
                }
            },
            _ => {
                if entries.len() >= MAX_BLUEPRINT_LIST_ENTRIES {
                    return Err(EditError::BlueprintListLimitExceeded);
                }
                let unique: Option<i64> = match request {
                    BlueprintStructureRequest::AddFeat { feat_id } => Some(*feat_id as i64),
                    BlueprintStructureRequest::AddClass { class_id, .. } => Some(*class_id as i64),
                    _ => None,
                };
                if let Some(value) = unique {
                    if entries_hold(entries, value) {
                        return Err(EditError::BlueprintEntryDuplicate);
                    }
                }
                Ok(BlueprintEdit::Append(make_entry(request)))
            },
        },
    }
}

} // verus!
