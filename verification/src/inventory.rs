//! The inventories of area instances as plain values: a placeable's item
//! list, and a store's categories, each with its own item list. An added item
//! goes at the end of the one list it names and nowhere else; a removed item
//! leaves only that list.
use crate::area_structure::MAX_INVENTORY_ITEMS;
use crate::error::EditError;
use vstd::prelude::*;

verus! {

/// An item of an inventory: its blueprint, stack size and position, and, in
/// a store, whether it is in infinite stock.
#[derive(Debug, Clone, PartialEq, Eq)]
pub struct InventoryItem {
    pub template_resref: String,
    pub stack_size: u16,
    pub x: u16,
    pub y: u16,
    pub infinite: Option<u8>,
}

/// The inventory of an area instance. An item list that an instance does not
/// hold yet is `None`; adding an item creates it.
#[derive(Debug, Clone, PartialEq, Eq)]
pub enum InstanceInventory {
    Placeable { has_inventory: bool, items: Option<Vec<InventoryItem>> },
    Store { categories: Vec<Option<Vec<InventoryItem>>> },
}

/// An inventory with its lists as sequences.
pub enum InventoryView {
    Placeable { has_inventory: bool, items: Option<Seq<InventoryItem>> },
    Store { categories: Seq<Option<Seq<InventoryItem>>> },
}

/// An item list as a sequence.
pub open spec fn list_view(list: Option<Vec<InventoryItem>>) -> Option<Seq<InventoryItem>> {
    match list {
        Some(items) => Some(items@),
        None => None,
    }
}

impl View for InstanceInventory {
    type V = InventoryView;

    open spec fn view(&self) -> InventoryView {
        match *self {
            InstanceInventory::Placeable { has_inventory, items } => InventoryView::Placeable {
                has_inventory,
                items: list_view(items),
            },
            InstanceInventory::Store { categories } => InventoryView::Store {
                categories: categories_view(categories@),
            },
        }
    }
}

/// A store's categories with their lists as sequences.
pub open spec fn categories_view(categories: Seq<Option<Vec<InventoryItem>>>) -> Seq<
    Option<Seq<InventoryItem>>,
> {
    Seq::new(categories.len(), |i: int| list_view(categories[i]))
}

/// The items of a list, none where the list is absent.
pub open spec fn items_of(list: Option<Seq<InventoryItem>>) -> Seq<InventoryItem> {
    match list {
        Some(items) => items,
        None => Seq::empty(),
    }
}

/// The item that an addition stores: a store's items record whether they are
/// in infinite stock (1 or 0), a placeable's do not.
pub open spec fn added_item(
    inventory: InventoryView,
    template_resref: String,
    stack_size: u16,
    x: u16,
    y: u16,
    infinite: bool,
) -> InventoryItem {
    InventoryItem {
        template_resref,
        stack_size,
        x,
        y,
        infinite: match inventory {
            InventoryView::Store { .. } => Some(if infinite { 1u8 } else { 0u8 }),
            InventoryView::Placeable { .. } => None,
        },
    }
}

/// The inventory after `item` is added: at the end of the placeable's list,
/// which then marks the placeable as having an inventory, or at the end of
/// the store category `category_index`. Refused where a store's category is
/// not given or does not exist, or where the list is full.
pub open spec fn spec_add_item(
    inventory: InventoryView,
    category_index: Option<usize>,
    item: InventoryItem,
) -> Result<InventoryView, EditError> {
    match inventory {
        InventoryView::Placeable { has_inventory, items } => {
            let list = items_of(items);
            if list.len() >= MAX_INVENTORY_ITEMS {
                Err(EditError::AreaInventoryLimitExceeded)
            } else {
                Ok(InventoryView::Placeable { has_inventory: true, items: Some(list.push(item)) })
            }
        },
        InventoryView::Store { categories } => match category_index {
            None => Err(EditError::AreaInventoryCategoryRequired),
            Some(k) => if k >= categories.len() {
                Err(EditError::AreaInventoryCategoryNotFound)
            } else {
                let list = items_of(categories[k as int]);
                if list.len() >= MAX_INVENTORY_ITEMS {
                    Err(EditError::AreaInventoryLimitExceeded)
                } else {
                    Ok(
                        InventoryView::Store {
                            categories: categories.update(k as int, Some(list.push(item))),
                        },
                    )
                }
            },
        },
    }
}

/// The inventory after the item at `item_index` of the named list is
/// removed. Refused where a store's category is not given or does not exist,
/// where the list is absent, or where it has no item at that index.
pub open spec fn spec_remove_item(
    inventory: InventoryView,
    category_index: Option<usize>,
    item_index: usize,
) -> Result<InventoryView, EditError> {
    match inventory {
        InventoryView::Placeable { has_inventory, items } => match items {
            None => Err(EditError::GffFieldNotFound),
            Some(list) => if item_index >= list.len() {
                Err(EditError::AreaInventoryItemNotFound)
            } else {
                Ok(InventoryView::Placeable { has_inventory, items: Some(list.remove(item_index as int)) })
            },
        },
        InventoryView::Store { categories } => match category_index {
            None => Err(EditError::AreaInventoryCategoryRequired),
            Some(k) => if k >= categories.len() {
                Err(EditError::AreaInventoryCategoryNotFound)
            } else {
                match categories[k as int] {
                    None => Err(EditError::GffFieldNotFound),
                    Some(list) => if item_index >= list.len() {
                        Err(EditError::AreaInventoryItemNotFound)
                    } else {
                        Ok(
                            InventoryView::Store {
                                categories: categories.update(
                                    k as int,
                                    Some(list.remove(item_index as int)),
                                ),
                            },
                        )
                    },
                }
            },
        },
    }
}

/// Adds an item to the end of a list and gives back the list.
fn push_item(list: Option<Vec<InventoryItem>>, item: InventoryItem) -> (result: Result<
    Vec<InventoryItem>,
    Option<Vec<InventoryItem>>,
>)
    ensures
        items_of(list_view(list)).len() >= MAX_INVENTORY_ITEMS ==> result == Err::<
            Vec<InventoryItem>,
            Option<Vec<InventoryItem>>,
        >(list),
        items_of(list_view(list)).len() < MAX_INVENTORY_ITEMS ==> (result matches Ok(items)
            && items@ == items_of(list_view(list)).push(item)),
{
    let mut items = match list {
        Some(items) => {
            if items.len() >= MAX_INVENTORY_ITEMS {
                return Err(Some(items));
            }
            items
        },
        None => Vec::new(),
    };
    items.push(item);
    Ok(items)
}

/// Adds an item with this blueprint, stack size and position to the end of
/// the list that `category_index` names (a placeable has one list; a store
/// has one per category). The inventory is unchanged where it is refused.
pub fn add_inventory_item(
    inventory: &mut InstanceInventory,
    category_index: Option<usize>,
    template_resref: String,
    stack_size: u16,
    x: u16,
    y: u16,
    infinite: bool,
) -> (result: Result<(), EditError>)
    ensures
        match spec_add_item(
            old(inventory)@,
            category_index,
            added_item(old(inventory)@, template_resref, stack_size, x, y, infinite),
        ) {
            Ok(after) => result is Ok && final(inventory)@ == after,
            Err(error) => result == Err::<(), EditError>(error) && final(inventory)@ == old(
                inventory,
            )@,
        },
{
    let mut taken = InstanceInventory::Store { categories: Vec::new() };
    std::mem::swap(&mut taken, inventory);
    match taken {
        InstanceInventory::Placeable { has_inventory, items } => {
            let item = InventoryItem { template_resref, stack_size, x, y, infinite: None };
            match push_item(items, item) {
                Ok(list) => {
                    *inventory = InstanceInventory::Placeable { has_inventory: true, items: Some(list) };
                    Ok(())
                },
                Err(list) => {
                    *inventory = InstanceInventory::Placeable { has_inventory, items: list };
                    Err(EditError::AreaInventoryLimitExceeded)
                },
            }
        },
        InstanceInventory::Store { mut categories } => {
            let ghost before = categories@;
            let k = match category_index {
                None => {
                    *inventory = InstanceInventory::Store { categories };
                    return Err(EditError::AreaInventoryCategoryRequired);
                },
                Some(k) => k,
            };
            if k >= categories.len() {
                *inventory = InstanceInventory::Store { categories };
                return Err(EditError::AreaInventoryCategoryNotFound);
            }
            let slot = categories.remove(k);
            let item = InventoryItem {
                template_resref,
                stack_size,
                x,
                y,
                infinite: Some(if infinite { 1u8 } else { 0u8 }),
            };
            match push_item(slot, item) {
                Ok(list) => {
                    categories.insert(k, Some(list));
                    proof {
                        assert(categories@ =~= before.update(k as int, Some(list)));
                        assert(categories_view(categories@) =~= categories_view(before).update(
                            k as int,
                            Some(list@),
                        ));
                    }
                    *inventory = InstanceInventory::Store { categories };
                    Ok(())
                },
                Err(list) => {
                    categories.insert(k, list);
                    proof {
                        assert(categories@ =~= before);
                    }
                    *inventory = InstanceInventory::Store { categories };
                    Err(EditError::AreaInventoryLimitExceeded)
                },
            }
        },
    }
}

/// Removes the item at `item_index` of the list that `category_index` names.
/// The inventory is unchanged where it is refused.
pub fn remove_inventory_item(
    inventory: &mut InstanceInventory,
    category_index: Option<usize>,
    item_index: usize,
) -> (result: Result<(), EditError>)
    ensures
        match spec_remove_item(old(inventory)@, category_index, item_index) {
            Ok(after) => result is Ok && final(inventory)@ == after,
            Err(error) => result == Err::<(), EditError>(error) && final(inventory)@ == old(
                inventory,
            )@,
        },
{
    let mut taken = InstanceInventory::Store { categories: Vec::new() };
    std::mem::swap(&mut taken, inventory);
    match taken {
        InstanceInventory::Placeable { has_inventory, items } => match items {
            None => {
                *inventory = InstanceInventory::Placeable { has_inventory, items: None };
                Err(EditError::GffFieldNotFound)
            },
            Some(mut list) => {
                if item_index >= list.len() {
                    *inventory = InstanceInventory::Placeable { has_inventory, items: Some(list) };
                    return Err(EditError::AreaInventoryItemNotFound);
                }
                list.remove(item_index);
                *inventory = InstanceInventory::Placeable { has_inventory, items: Some(list) };
                Ok(())
            },
        },
        InstanceInventory::Store { mut categories } => {
            let ghost before = categories@;
            let k = match category_index {
                None => {
                    *inventory = InstanceInventory::Store { categories };
                    return Err(EditError::AreaInventoryCategoryRequired);
                },
                Some(k) => k,
            };
            if k >= categories.len() {
                *inventory = InstanceInventory::Store { categories };
                return Err(EditError::AreaInventoryCategoryNotFound);
            }
            let slot = categories.remove(k);
            match slot {
                None => {
                    categories.insert(k, None);
                    proof {
                        assert(categories@ =~= before);
                    }
                    *inventory = InstanceInventory::Store { categories };
                    Err(EditError::GffFieldNotFound)
                },
                Some(mut list) => {
                    if item_index >= list.len() {
                        categories.insert(k, Some(list));
                        proof {
                            assert(categories@ =~= before);
                        }
                        *inventory = InstanceInventory::Store { categories };
                        return Err(EditError::AreaInventoryItemNotFound);
                    }
                    list.remove(item_index);
                    categories.insert(k, Some(list));
                    proof {
                        assert(categories@ =~= before.update(k as int, Some(list)));
                        assert(categories_view(categories@) =~= categories_view(before).update(
                            k as int,
                            Some(list@),
                        ));
                    }
                    *inventory = InstanceInventory::Store { categories };
                    Ok(())
                },
            }
        },
    }
}

/// The items of the list that `category_index` names (a placeable's one
/// list, or a store's category).
pub open spec fn named_list(inventory: InventoryView, category_index: Option<usize>) -> Seq<InventoryItem> {
    match inventory {
        InventoryView::Placeable { items, .. } => items_of(items),
        InventoryView::Store { categories } => match category_index {
            Some(k) => items_of(categories[k as int]),
            None => Seq::empty(),
        },
    }
}

/// The inventory with the named list present (empty where it was absent),
/// and a placeable marked as having an inventory.
pub open spec fn with_list_present(inventory: InventoryView, category_index: Option<usize>) -> InventoryView {
    match inventory {
        InventoryView::Placeable { items, .. } => InventoryView::Placeable {
            has_inventory: true,
            items: Some(items_of(items)),
        },
        InventoryView::Store { categories } => match category_index {
            Some(k) => InventoryView::Store {
                categories: categories.update(k as int, Some(items_of(categories[k as int]))),
            },
            None => inventory,
        },
    }
}

/// Removing the item that an addition put at the end of its list takes the
/// addition back: every list is as it was, except that the named list is
/// now present and a placeable stays marked as having an inventory.
pub proof fn law_remove_takes_back_add(
    inventory: InventoryView,
    category_index: Option<usize>,
    item: InventoryItem,
)
    requires
        spec_add_item(inventory, category_index, item) is Ok,
    ensures
        named_list(inventory, category_index).len() < MAX_INVENTORY_ITEMS,
        spec_add_item(inventory, category_index, item) matches Ok(after) && spec_remove_item(
            after,
            category_index,
            named_list(inventory, category_index).len() as usize,
        ) == Ok::<InventoryView, EditError>(with_list_present(inventory, category_index)),
{
    let list = named_list(inventory, category_index);
    assert(list.push(item).remove(list.len() as int) =~= list);
    match inventory {
        InventoryView::Placeable { .. } => {},
        InventoryView::Store { categories } => {
            let k = category_index->Some_0;
            assert(categories.update(k as int, Some(list.push(item))).update(
                k as int,
                Some(list.push(item).remove(list.len() as int)),
            ) =~= categories.update(k as int, Some(list)));
        },
    }
}

/// The named list of an inventory is present.
pub open spec fn list_present(inventory: InventoryView, category_index: Option<usize>) -> bool {
    match inventory {
        InventoryView::Placeable { items, .. } => items is Some,
        InventoryView::Store { categories } => match category_index {
            Some(k) => k < categories.len() && categories[k as int] is Some,
            None => false,
        },
    }
}

/// Removing an item takes out exactly the item at `item_index` of the named
/// list, and is refused only where that list or that item does not exist:
/// the items before it keep their places, those after it move down by one,
/// and nothing else changes (a placeable keeps its mark, a store its other
/// categories).
pub proof fn law_remove_item_takes_out_that_item(
    inventory: InventoryView,
    category_index: Option<usize>,
    item_index: usize,
)
    ensures
        spec_remove_item(inventory, category_index, item_index) is Ok == (list_present(
            inventory,
            category_index,
        ) && item_index < named_list(inventory, category_index).len()),
        spec_remove_item(inventory, category_index, item_index) matches Ok(after) ==> ({
            let before_items = named_list(inventory, category_index);
            let after_items = named_list(after, category_index);
            &&& list_present(after, category_index)
            &&& after_items.len() == before_items.len() - 1
            &&& forall|i: int| 0 <= i < item_index ==> #[trigger] after_items[i] == before_items[i]
            &&& forall|i: int|
                item_index <= i < after_items.len() ==> #[trigger] after_items[i] == before_items[i
                    + 1]
            &&& match (inventory, after) {
                (
                    InventoryView::Placeable { has_inventory, .. },
                    InventoryView::Placeable { has_inventory: kept, .. },
                ) => kept == has_inventory,
                (InventoryView::Store { categories }, InventoryView::Store { categories: edited }) => {
                    &&& edited.len() == categories.len()
                    &&& forall|c: int|
                        0 <= c < categories.len() && c != category_index->Some_0 ==> #[trigger] edited[c]
                            == categories[c]
                },
                _ => false,
            }
        }),
{
}

/// Adding an item puts it, with the blueprint, stack size and position it
/// was given, after the items already in the named list, which keep their
/// places; a store's item records whether it is in infinite stock, a
/// placeable's does not. The placeable is then marked as having an
/// inventory, and a store's other categories are unchanged.
pub proof fn law_add_item_appends_to_named_list(
    inventory: InventoryView,
    category_index: Option<usize>,
    template_resref: String,
    stack_size: u16,
    x: u16,
    y: u16,
    infinite: bool,
)
    ensures
        spec_add_item(
            inventory,
            category_index,
            added_item(inventory, template_resref, stack_size, x, y, infinite),
        ) matches Ok(after) ==> ({
            let before_items = named_list(inventory, category_index);
            let after_items = named_list(after, category_index);
            let added = after_items[after_items.len() - 1];
            &&& list_present(after, category_index)
            &&& after_items.len() == before_items.len() + 1
            &&& forall|i: int| 0 <= i < before_items.len() ==> #[trigger] after_items[i] == before_items[i]
            &&& added.template_resref == template_resref
            &&& added.stack_size == stack_size
            &&& added.x == x
            &&& added.y == y
            &&& match (inventory, after) {
                (InventoryView::Placeable { .. }, InventoryView::Placeable { has_inventory, .. }) => {
                    has_inventory && added.infinite is None
                },
                (InventoryView::Store { categories }, InventoryView::Store { categories: edited }) => {
                    &&& added.infinite == Some(if infinite { 1u8 } else { 0u8 })
                    &&& edited.len() == categories.len()
                    &&& forall|c: int|
                        0 <= c < categories.len() && c != category_index->Some_0 ==> #[trigger] edited[c]
                            == categories[c]
                },
                _ => false,
            }
        }),
{
}

} // verus!
