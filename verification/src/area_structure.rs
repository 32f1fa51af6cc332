//! The checks that a new area, and a structural edit of an area instance,
//! pass before any resource is written: the size of the area; the instance
//! an edit names, whether that instance's list takes the edit, and the
//! edit's own values.
use crate::area::{free_of_control_chars, no_control_chars};
use crate::error::EditError;
use crate::mapgen::{MAP_MAX_HEIGHT, MAP_MAX_WIDTH};
use crate::instances::{parse_area_instance_id, spec_parse_instance_id};
use crate::resource::{text_bytes, text_equal};
use crate::text::{valid_resref_text, validate_resref};
use vstd::prelude::*;

verus! {

/// The number of tiles of a new area with this ResRef and size, or why no
/// such area can be made.
pub open spec fn spec_new_area_tiles(resref: Seq<char>, width: u32, height: u32) -> Result<u32, EditError> {
    if !valid_resref_text(resref) {
        Err(EditError::ResrefInvalid)
    } else if width == 0 || height == 0 || width > MAP_MAX_WIDTH || height > MAP_MAX_HEIGHT {
        Err(EditError::AreaDimensionsInvalid)
    } else {
        Ok((width * height) as u32)
    }
}

/// Checks the ResRef and size of a new area and counts its tiles.
pub fn new_area_tile_count(resref: &str, width: u32, height: u32) -> (result: Result<u32, EditError>)
    ensures
        result == spec_new_area_tiles(resref@, width, height),
{
    validate_resref(resref)?;
    if width == 0 || height == 0 || width > MAP_MAX_WIDTH || height > MAP_MAX_HEIGHT {
        return Err(EditError::AreaDimensionsInvalid);
    }
    assert(width * height <= 1024) by (nonlinear_arith)
        requires
            width <= 32,
            height <= 32,
    ;
    Ok(width * height)
}

/// The most points a polygon or a spawn point list of an area instance holds.
pub const MAX_AREA_POINTS: usize = 256;

/// A structural edit of an area instance, named by its identifier. The
/// coordinates of polygon and spawn points are judged by the caller, who
/// holds them: for spawn points, it reports how many there are and whether
/// all of them are finite. An inventory item is added from a resolved item
/// blueprint, given here by its GFF type.
#[derive(Debug, Clone, PartialEq, Eq)]
pub enum AreaStructureRequest {
    SetGeometry { instance_id: String },
    SetSpawnPoints { instance_id: String, point_count: usize, points_finite: bool },
    SetTransition { instance_id: String, destination: String, flags: u8, load_screen_id: u16 },
    AddInventoryItem {
        instance_id: String,
        resref: String,
        stack_size: u16,
        x: u16,
        y: u16,
        infinite: bool,
        category_index: Option<usize>,
        template_file_type: Option<String>,
    },
    RemoveInventoryItem { instance_id: String, item_index: usize, category_index: Option<usize> },
}

/// How the points of an instance's polygon are stored: trigger points are
/// labelled `PointX`..`PointZ` in structs of type 3, encounter points `X`..`Z`
/// in structs of type 1.
#[derive(Debug, Clone, Copy, PartialEq, Eq)]
pub enum PolygonPoints {
    Trigger,
    Encounter,
}

/// The instance that an accepted request edits: the list that holds it and
/// its index there, and for a polygon how its points are stored.
#[derive(Debug, Clone, PartialEq, Eq)]
pub struct AreaStructureTarget {
    pub list_label: String,
    pub index: usize,
    pub polygon: Option<PolygonPoints>,
}

/// The inventory that an item edit works on.
#[derive(Debug, Clone, Copy, PartialEq, Eq)]
pub enum InventoryTarget {
    /// The item list of a placeable.
    Placeable,
    /// The item list of the store category at this index.
    StoreCategory(usize),
}

pub open spec fn request_instance_id(request: AreaStructureRequest) -> String {
    match request {
        AreaStructureRequest::SetGeometry { instance_id } => instance_id,
        AreaStructureRequest::SetSpawnPoints { instance_id, .. } => instance_id,
        AreaStructureRequest::SetTransition { instance_id, .. } => instance_id,
        AreaStructureRequest::AddInventoryItem { instance_id, .. } => instance_id,
        AreaStructureRequest::RemoveInventoryItem { instance_id, .. } => instance_id,
    }
}

/// A transition destination an area accepts: at most 64 bytes, without NUL
/// or other control characters.
pub open spec fn destination_ok(destination: Seq<char>) -> bool {
    text_bytes(destination).len() <= 64 && no_control_chars(destination)
}

/// What is wrong with an inventory item's own values, checked before its
/// identifier is read: its ResRef, its stack size, then the item blueprint.
pub open spec fn inventory_item_error(
    resref: Seq<char>,
    stack_size: u16,
    template_file_type: Option<String>,
) -> Option<EditError> {
    if !valid_resref_text(resref) {
        Some(EditError::ResrefInvalid)
    } else if stack_size == 0 {
        Some(EditError::AreaInventoryStackInvalid)
    } else if template_file_type is None {
        Some(EditError::AreaInventoryTemplateRequired)
    } else if template_file_type->0@ != "UTI "@ {
        Some(EditError::AreaInventoryTemplateInvalid)
    } else {
        None
    }
}

/// The verdict on a request for an instance of `area`, before the area is
/// looked at.
pub open spec fn spec_check_area_structure(area: Seq<char>, request: AreaStructureRequest) -> Result<
    (Seq<char>, usize, Option<PolygonPoints>),
    EditError,
> {
    let pre = match request {
        AreaStructureRequest::AddInventoryItem { resref, stack_size, template_file_type, .. } =>
            inventory_item_error(resref@, stack_size, template_file_type),
        _ => None,
    };
    if pre is Some {
        Err(pre->0)
    } else {
        match spec_parse_instance_id(area, request_instance_id(request)@) {
            None => Err(EditError::AreaInstanceIdInvalid),
            Some((label, index)) => match request {
                AreaStructureRequest::SetGeometry { .. } => if label == "TriggerList"@ {
                    Ok((label, index, Some(PolygonPoints::Trigger)))
                } else if label == "Encounter List"@ {
                    Ok((label, index, Some(PolygonPoints::Encounter)))
                } else {
                    Err(EditError::AreaGeometryCategoryInvalid)
                },
                AreaStructureRequest::SetSpawnPoints { point_count, points_finite, .. } => if label
                    != "Encounter List"@ {
                    Err(EditError::AreaSpawnCategoryInvalid)
                } else if point_count > MAX_AREA_POINTS || !points_finite {
                    Err(EditError::AreaSpawnPointsInvalid)
                } else {
                    Ok((label, index, None))
                },
                AreaStructureRequest::SetTransition { destination, .. } => if label != "Door List"@
                    && label != "TriggerList"@ {
                    Err(EditError::AreaTransitionCategoryInvalid)
                } else if !destination_ok(destination@) {
                    Err(EditError::AreaTransitionDestinationInvalid)
                } else {
                    Ok((label, index, None))
                },
                _ => Ok((label, index, None)),
            },
        }
    }
}

/// Whether a transition destination is acceptable.
pub fn check_destination(destination: &str) -> (ok: bool)
    ensures
        ok == destination_ok(destination@),
{
    destination.as_bytes().len() <= 64 && free_of_control_chars(destination)
}

fn check_inventory_item(
    resref: &str,
    stack_size: u16,
    template_file_type: &Option<String>,
) -> (result: Result<(), EditError>)
    ensures
        match inventory_item_error(resref@, stack_size, *template_file_type) {
            Some(error) => result == Err::<(), EditError>(error),
            None => result is Ok,
        },
{
    validate_resref(resref)?;
    if stack_size == 0 {
        return Err(EditError::AreaInventoryStackInvalid);
    }
    match template_file_type {
        None => Err(EditError::AreaInventoryTemplateRequired),
        Some(file_type) => {
            if text_equal(file_type.as_str(), "UTI ") {
                Ok(())
            } else {
                Err(EditError::AreaInventoryTemplateInvalid)
            }
        },
    }
}

/// Checks a structural edit of an instance of `area` and names the instance
/// it edits.
pub fn check_area_structure_request(area: &str, request: &AreaStructureRequest) -> (result: Result<
    AreaStructureTarget,
    EditError,
>)
    ensures
        match spec_check_area_structure(area@, *request) {
            Ok((label, index, polygon)) => result matches Ok(target) && target.list_label@ == label
                && target.index == index && target.polygon == polygon,
            Err(error) => result == Err::<AreaStructureTarget, EditError>(error),
        },
{
    let instance_id = match request {
        AreaStructureRequest::SetGeometry { instance_id } => instance_id,
        AreaStructureRequest::SetSpawnPoints { instance_id, .. } => instance_id,
        AreaStructureRequest::SetTransition { instance_id, .. } => instance_id,
        AreaStructureRequest::AddInventoryItem {
            instance_id,
            resref,
            stack_size,
            template_file_type,
            ..
        } => {
            check_inventory_item(resref.as_str(), *stack_size, template_file_type)?;
            instance_id
        },
        AreaStructureRequest::RemoveInventoryItem { instance_id, .. } => instance_id,
    };
    let (list_label, index) = parse_area_instance_id(area, instance_id.as_str())?;
    let label = list_label.as_str();
    let polygon = match request {
        AreaStructureRequest::SetGeometry { .. } => {
            if text_equal(label, "TriggerList") {
                Some(PolygonPoints::Trigger)
            } else if text_equal(label, "Encounter List") {
                Some(PolygonPoints::Encounter)
            } else {
                return Err(EditError::AreaGeometryCategoryInvalid);
            }
        },
        AreaStructureRequest::SetSpawnPoints { point_count, points_finite, .. } => {
            if !text_equal(label, "Encounter List") {
                return Err(EditError::AreaSpawnCategoryInvalid);
            }
            if *point_count > MAX_AREA_POINTS || !*points_finite {
                return Err(EditError::AreaSpawnPointsInvalid);
            }
            None
        },
        AreaStructureRequest::SetTransition { destination, .. } => {
            if !text_equal(label, "Door List") && !text_equal(label, "TriggerList") {
                return Err(EditError::AreaTransitionCategoryInvalid);
            }
            if !check_destination(destination.as_str()) {
                return Err(EditError::AreaTransitionDestinationInvalid);
            }
            None
        },
        _ => None,
    };
    Ok(AreaStructureTarget { list_label, index, polygon })
}

/// The inventory of an instance of the list `list_label` that an item edit
/// works on: a placeable's items, or a store's category, whose index the edit
/// must give.
pub open spec fn spec_inventory_target(list_label: Seq<char>, category_index: Option<usize>) -> Result<
    InventoryTarget,
    EditError,
> {
    if list_label == "Placeable List"@ {
        Ok(InventoryTarget::Placeable)
    } else if list_label == "StoreList"@ {
        match category_index {
            Some(category) => Ok(InventoryTarget::StoreCategory(category)),
            None => Err(EditError::AreaInventoryCategoryRequired),
        }
    } else {
        Err(EditError::AreaInventoryCategoryInvalid)
    }
}

/// The inventory that an item edit of an instance of `list_label` works on.
pub fn inventory_target(list_label: &str, category_index: Option<usize>) -> (result: Result<
    InventoryTarget,
    EditError,
>)
    ensures
        result == spec_inventory_target(list_label@, category_index),
{
    if text_equal(list_label, "Placeable List") {
        Ok(InventoryTarget::Placeable)
    } else if text_equal(list_label, "StoreList") {
        match category_index {
            Some(category) => Ok(InventoryTarget::StoreCategory(category)),
            None => Err(EditError::AreaInventoryCategoryRequired),
        }
    } else {
        Err(EditError::AreaInventoryCategoryInvalid)
    }
}

/// The most items an inventory holds.
pub const MAX_INVENTORY_ITEMS: usize = 100_000;

/// Checks that a store has a category at `category_index` among its
/// `category_count`.
pub fn check_store_category(category_index: usize, category_count: usize) -> (result: Result<(), EditError>)
    ensures
        result is Err == (category_index >= category_count),
        result matches Err(error) ==> error == EditError::AreaInventoryCategoryNotFound,
{
    if category_index >= category_count {
        Err(EditError::AreaInventoryCategoryNotFound)
    } else {
        Ok(())
    }
}

/// Checks that an inventory of `item_count` items has room for one more.
pub fn check_inventory_room(item_count: usize) -> (result: Result<(), EditError>)
    ensures
        result is Err == (item_count >= MAX_INVENTORY_ITEMS),
        result matches Err(error) ==> error == EditError::AreaInventoryLimitExceeded,
{
    if item_count >= MAX_INVENTORY_ITEMS {
        Err(EditError::AreaInventoryLimitExceeded)
    } else {
        Ok(())
    }
}

/// Checks that an inventory of `item_count` items has an item at `item_index`.
pub fn check_inventory_position(item_index: usize, item_count: usize) -> (result: Result<(), EditError>)
    ensures
        result is Err == (item_index >= item_count),
        result matches Err(error) ==> error == EditError::AreaInventoryItemNotFound,
{
    if item_index >= item_count {
        Err(EditError::AreaInventoryItemNotFound)
    } else {
        Ok(())
    }
}

/// What an added inventory item records besides its blueprint: its stack
/// size and position, whether it is in infinite stock (a store's items
/// only), and whether its placeable is marked as having an inventory.
#[derive(Debug, Clone, Copy, PartialEq, Eq)]
pub struct InventoryItemFields {
    pub stack_size: u16,
    pub x: u16,
    pub y: u16,
    pub infinite: Option<u8>,
    pub marks_has_inventory: bool,
}

/// The fields that an item added to an instance of the list `list_label`
/// records.
pub fn inventory_item_fields(list_label: &str, stack_size: u16, x: u16, y: u16, infinite: bool) -> (fields:
    InventoryItemFields)
    ensures
        fields.stack_size == stack_size,
        fields.x == x,
        fields.y == y,
        fields.infinite == if list_label@ == "StoreList"@ {
            Some::<u8>(if infinite { 1u8 } else { 0u8 })
        } else {
            None::<u8>
        },
        fields.marks_has_inventory == (list_label@ == "Placeable List"@),
{
    let store = text_equal(list_label, "StoreList");
    InventoryItemFields {
        stack_size,
        x,
        y,
        infinite: if store {
            Some(if infinite { 1u8 } else { 0u8 })
        } else {
            None
        },
        marks_has_inventory: text_equal(list_label, "Placeable List"),
    }
}

} // verus!
