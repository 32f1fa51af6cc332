//! The categories of a JRL journal and their entries, with the structural
//! edits that add and remove them.
use crate::error::EditError;
use crate::resource::{text_bytes, text_equal};
use crate::text::{
    bytes_equal_ignoring_ascii_case, equal_ignoring_ascii_case, valid_journal_tag,
    validate_journal_tag,
};
use vstd::prelude::*;

verus! {

/// The most categories a journal holds, and the most entries a category holds.
pub const MAX_JOURNAL_ITEMS: usize = 100_000;

/// A journal entry as the editor reads it: its id, where it is an unsigned
/// 32-bit number.
#[derive(Debug, Clone, Copy, PartialEq, Eq)]
pub struct JournalEntryRecord {
    pub id: Option<u32>,
}

/// A journal category: its tag, where it has one, and its entries.
#[derive(Debug, Clone, PartialEq, Eq)]
pub struct JournalCategoryRecord {
    pub tag: Option<String>,
    pub entries: Vec<JournalEntryRecord>,
}

/// The categories of a journal.
#[derive(Debug, Clone, PartialEq, Eq)]
pub struct JournalTable {
    pub categories: Vec<JournalCategoryRecord>,
}

/// A structural edit of a journal.
#[derive(Debug, Clone, PartialEq, Eq)]
pub enum JournalStructureAction {
    AddCategory { tag: String },
    RemoveCategory { category_index: usize },
    AddEntry { category_index: usize },
    RemoveEntry { category_index: usize, entry_index: usize },
}

/// A category by its texts.
pub struct CategoryView {
    pub tag: Option<Seq<char>>,
    pub entries: Seq<JournalEntryRecord>,
}

pub open spec fn category_view(category: JournalCategoryRecord) -> CategoryView {
    CategoryView {
        tag: match category.tag {
            Some(tag) => Some(tag@),
            None => None,
        },
        entries: category.entries@,
    }
}

pub open spec fn journal_view(table: JournalTable) -> Seq<CategoryView> {
    table.categories@.map_values(|c: JournalCategoryRecord| category_view(c))
}

/// A structural edit by its texts.
pub enum JournalEdit {
    AddCategory { tag: Seq<char> },
    RemoveCategory { category_index: usize },
    AddEntry { category_index: usize },
    RemoveEntry { category_index: usize, entry_index: usize },
}

pub open spec fn journal_edit(action: JournalStructureAction) -> JournalEdit {
    match action {
        JournalStructureAction::AddCategory { tag } => JournalEdit::AddCategory { tag: tag@ },
        JournalStructureAction::RemoveCategory { category_index } => JournalEdit::RemoveCategory {
            category_index,
        },
        JournalStructureAction::AddEntry { category_index } => JournalEdit::AddEntry {
            category_index,
        },
        JournalStructureAction::RemoveEntry { category_index, entry_index } => JournalEdit::RemoveEntry {
            category_index,
            entry_index,
        },
    }
}

/// A category's tag equals `tag`, ignoring ASCII case.
pub open spec fn same_tag(existing: Option<Seq<char>>, tag: Seq<char>) -> bool {
    match existing {
        Some(existing) => equal_ignoring_ascii_case(text_bytes(existing), text_bytes(tag)),
        None => false,
    }
}

/// The largest entry id, where some entry has one.
pub open spec fn max_entry_id(entries: Seq<JournalEntryRecord>) -> Option<u32>
    decreases entries.len(),
{
    if entries.len() == 0 {
        None
    } else {
        let earlier = max_entry_id(entries.drop_last());
        match entries.last().id {
            Some(id) => match earlier {
                Some(m) => if m >= id {
                    Some(m)
                } else {
                    Some(id)
                },
                None => Some(id),
            },
            None => earlier,
        }
    }
}

/// The id of a new entry: one more than the largest id (an error where that
/// does not fit), zero for a category without ids.
pub open spec fn next_entry_id(entries: Seq<JournalEntryRecord>) -> Result<u32, EditError> {
    match max_entry_id(entries) {
        Some(m) => if m == u32::MAX {
            Err(EditError::JournalEntryIdExhausted)
        } else {
            Ok((m + 1) as u32)
        },
        None => Ok(0),
    }
}

/// What a structural edit makes of a journal.
pub open spec fn spec_edit_journal(categories: Seq<CategoryView>, action: JournalEdit) -> Result<Seq<CategoryView>, EditError> {
    match action {
        JournalEdit::AddCategory { tag } => {
            if !valid_journal_tag(tag) {
                Err(EditError::JournalTagInvalid)
            } else if categories.len() >= MAX_JOURNAL_ITEMS {
                Err(EditError::JournalCategoryLimitExceeded)
            } else if exists|i: int| 0 <= i < categories.len() && same_tag((#[trigger] categories[i]).tag, tag) {
                Err(EditError::JournalTagDuplicate)
            } else {
                Ok(categories.push(CategoryView { tag: Some(tag), entries: seq![] }))
            }
        },
        JournalEdit::RemoveCategory { category_index } => {
            if category_index >= categories.len() {
                Err(EditError::JournalCategoryNotFound)
            } else {
                Ok(categories.remove(category_index as int))
            }
        },
        JournalEdit::AddEntry { category_index } => {
            if category_index >= categories.len() {
                Err(EditError::JournalCategoryNotFound)
            } else {
                let category = categories[category_index as int];
                match next_entry_id(category.entries) {
                    Err(error) => Err(error),
                    Ok(id) => if category.entries.len() >= MAX_JOURNAL_ITEMS {
                        Err(EditError::JournalEntryLimitExceeded)
                    } else {
                        Ok(
                            categories.update(
                                category_index as int,
                                CategoryView {
                                    tag: category.tag,
                                    entries: category.entries.push(JournalEntryRecord { id: Some(id) }),
                                },
                            ),
                        )
                    },
                }
            }
        },
        JournalEdit::RemoveEntry { category_index, entry_index } => {
            if category_index >= categories.len() {
                Err(EditError::JournalCategoryNotFound)
            } else {
                let category = categories[category_index as int];
                if entry_index >= category.entries.len() {
                    Err(EditError::JournalEntryNotFound)
                } else {
                    Ok(
                        categories.update(
                            category_index as int,
                            CategoryView {
                                tag: category.tag,
                                entries: category.entries.remove(entry_index as int),
                            },
                        ),
                    )
                }
            }
        },
    }
}

fn tag_taken(categories: &Vec<JournalCategoryRecord>, tag: &str) -> (taken: bool)
    ensures
        taken == exists|i: int|
            0 <= i < categories@.len() && same_tag((#[trigger] category_view(categories@[i])).tag, tag@),
{
    let mut i: usize = 0;
    while i < categories.len()
        invariant
            i <= categories@.len(),
            forall|j: int| 0 <= j < i ==> !same_tag((#[trigger] category_view(categories@[j])).tag, tag@),
        decreases categories@.len() - i,
    {
        match &categories[i].tag {
            Some(existing) => {
                if bytes_equal_ignoring_ascii_case(existing.as_str().as_bytes(), tag.as_bytes()) {
                    proof {
                        assert(category_view(categories@[i as int]).tag == Some(existing@));
                    }
                    return true;
                }
            },
            None => {},
        }
        i += 1;
    }
    false
}

fn compute_next_entry_id(entries: &Vec<JournalEntryRecord>) -> (result: Result<u32, EditError>)
    ensures
        result == next_entry_id(entries@),
{
    let mut maximum: Option<u32> = None;
    let mut i: usize = 0;
    while i < entries.len()
        invariant
            i <= entries@.len(),
            maximum == max_entry_id(entries@.take(i as int)),
        decreases entries@.len() - i,
    {
        proof {
            let prefix = entries@.take(i + 1);
            assert(prefix.drop_last() =~= entries@.take(i as int));
            assert(prefix.last() == entries@[i as int]);
        }
        match entries[i].id {
            Some(id) => {
                maximum = match maximum {
                    Some(m) => if m >= id {
                        Some(m)
                    } else {
                        Some(id)
                    },
                    None => Some(id),
                };
            },
            None => {},
        }
        i += 1;
    }
    proof {
        assert(entries@.take(entries@.len() as int) =~= entries@);
    }
    match maximum {
        Some(m) => if m == u32::MAX {
            Err(EditError::JournalEntryIdExhausted)
        } else {
            Ok(m + 1)
        },
        None => Ok(0),
    }
}

fn copy_tag(tag: &Option<String>) -> (copy: Option<String>)
    ensures
        match copy {
            Some(c) => tag matches Some(t) && c@ == t@,
            None => tag is None,
        },
{
    match tag {
        Some(t) => Some(crate::resource::copy_string(t)),
        None => None,
    }
}

fn copy_entries(entries: &Vec<JournalEntryRecord>) -> (copy: Vec<JournalEntryRecord>)
    ensures
        copy@ == entries@,
{
    let mut copy: Vec<JournalEntryRecord> = Vec::new();
    let mut i: usize = 0;
    while i < entries.len()
        invariant
            i <= entries@.len(),
            copy@ == entries@.take(i as int),
        decreases entries@.len() - i,
    {
        copy.push(entries[i]);
        proof {
            assert(copy@ =~= entries@.take(i + 1));
        }
        i += 1;
    }
    proof {
        assert(entries@.take(entries@.len() as int) =~= entries@);
    }
    copy
}

impl JournalTable {
    /// Applies a structural edit: adds or removes a category (tags are unique
    /// ignoring ASCII case) or an entry (a new entry's id follows the largest
    /// one). A refused edit changes nothing.
    pub fn edit(&mut self, action: &JournalStructureAction) -> (result: Result<(), EditError>)
        ensures
            match spec_edit_journal(journal_view(*old(self)), journal_edit(*action)) {
                Ok(categories) => result is Ok && journal_view(*final(self)) == categories,
                Err(error) => result == Err::<(), EditError>(error) && journal_view(*final(self))
                    == journal_view(*old(self)),
            },
    {
        let ghost before = journal_view(*self);
        match action {
            JournalStructureAction::AddCategory { tag } => {
                if validate_journal_tag(tag.as_str()).is_err() {
                    return Err(EditError::JournalTagInvalid);
                }
                if self.categories.len() >= MAX_JOURNAL_ITEMS {
                    return Err(EditError::JournalCategoryLimitExceeded);
                }
                if tag_taken(&self.categories, tag.as_str()) {
                    proof {
                        let i = choose|i: int|
                            0 <= i < self.categories@.len() && same_tag(
                                (#[trigger] category_view(self.categories@[i])).tag,
                                tag@,
                            );
                        assert(before[i] == category_view(self.categories@[i]));
                    }
                    return Err(EditError::JournalTagDuplicate);
                }
                proof {
                    assert forall|i: int| 0 <= i < before.len() implies !same_tag((#[trigger] before[i]).tag, tag@) by {
                        assert(before[i] == category_view(self.categories@[i]));
                    }
                }
                self.categories.push(
                    JournalCategoryRecord {
                        tag: Some(crate::resource::copy_string(tag)),
                        entries: Vec::new(),
                    },
                );
                proof {
                    assert(journal_view(*self) =~= before.push(
                        CategoryView { tag: Some(tag@), entries: seq![] },
                    ));
                }
                Ok(())
            },
            JournalStructureAction::RemoveCategory { category_index } => {
                if *category_index >= self.categories.len() {
                    return Err(EditError::JournalCategoryNotFound);
                }
                self.categories.remove(*category_index);
                proof {
                    assert(journal_view(*self) =~= before.remove(*category_index as int));
                }
                Ok(())
            },
            JournalStructureAction::AddEntry { category_index } => {
                if *category_index >= self.categories.len() {
                    return Err(EditError::JournalCategoryNotFound);
                }
                let id = match compute_next_entry_id(&self.categories[*category_index].entries) {
                    Ok(id) => id,
                    Err(error) => {
                        return Err(error);
                    },
                };
                if self.categories[*category_index].entries.len() >= MAX_JOURNAL_ITEMS {
                    return Err(EditError::JournalEntryLimitExceeded);
                }
                let category = &self.categories[*category_index];
                let mut entries = copy_entries(&category.entries);
                entries.push(JournalEntryRecord { id: Some(id) });
                let updated = JournalCategoryRecord { tag: copy_tag(&category.tag), entries };
                self.categories.set(*category_index, updated);
                proof {
                    assert(journal_view(*self) =~= before.update(
                        *category_index as int,
                        CategoryView {
                            tag: before[*category_index as int].tag,
                            entries: before[*category_index as int].entries.push(
                                JournalEntryRecord { id: Some(id) },
                            ),
                        },
                    ));
                }
                Ok(())
            },
            JournalStructureAction::RemoveEntry { category_index, entry_index } => {
                if *category_index >= self.categories.len() {
                    return Err(EditError::JournalCategoryNotFound);
                }
                if *entry_index >= self.categories[*category_index].entries.len() {
                    return Err(EditError::JournalEntryNotFound);
                }
                let category = &self.categories[*category_index];
                let mut entries = copy_entries(&category.entries);
                entries.remove(*entry_index);
                let updated = JournalCategoryRecord { tag: copy_tag(&category.tag), entries };
                self.categories.set(*category_index, updated);
                proof {
                    assert(journal_view(*self) =~= before.update(
                        *category_index as int,
                        CategoryView {
                            tag: before[*category_index as int].tag,
                            entries: before[*category_index as int].entries.remove(
                                *entry_index as int,
                            ),
                        },
                    ));
                }
                Ok(())
            },
        }
    }
}

proof fn lemma_max_entry_id_bounds(entries: Seq<JournalEntryRecord>)
    ensures
        forall|i: int|
            0 <= i < entries.len() ==> ((#[trigger] entries[i]).id matches Some(id) ==> max_entry_id(
                entries,
            ) matches Some(m) && id <= m),
    decreases entries.len(),
{
    if entries.len() > 0 {
        lemma_max_entry_id_bounds(entries.drop_last());
        assert forall|i: int| 0 <= i < entries.len() implies ((#[trigger] entries[i]).id matches Some(id)
            ==> max_entry_id(entries) matches Some(m) && id <= m) by {
            if i < entries.len() - 1 {
                assert(entries[i] == entries.drop_last()[i]);
            }
        }
    }
}

/// A new journal entry gets a fresh id: greater than the id of every entry
/// already in its category, so no two entries that the editor adds to a
/// category share an id.
pub proof fn law_new_entry_id_is_fresh(categories: Seq<CategoryView>, category_index: usize)
    requires
        spec_edit_journal(categories, JournalEdit::AddEntry { category_index }) is Ok,
    ensures
        ({
            let entries = categories[category_index as int].entries;
            let edited = spec_edit_journal(categories, JournalEdit::AddEntry { category_index })->Ok_0;
            let added = edited[category_index as int].entries.last();
            &&& added.id matches Some(new_id) && forall|i: int|
                0 <= i < entries.len() ==> ((#[trigger] entries[i]).id matches Some(id) ==> id < new_id)
        }),
{
    lemma_max_entry_id_bounds(categories[category_index as int].entries);
}

/// Removing an entry takes out exactly the entry at `entry_index` of the
/// named category, and is refused only where the category or the entry does
/// not exist: the entries before it keep their places, those after it move
/// down by one, the category keeps its tag, and every other category is
/// unchanged.
pub proof fn law_remove_entry_takes_out_that_entry(
    categories: Seq<CategoryView>,
    category_index: usize,
    entry_index: usize,
)
    ensures
        spec_edit_journal(categories, JournalEdit::RemoveEntry { category_index, entry_index }) is Ok
            == (category_index < categories.len() && entry_index
            < categories[category_index as int].entries.len()),
        spec_edit_journal(categories, JournalEdit::RemoveEntry { category_index, entry_index }) matches Ok(
            edited,
        ) ==> ({
            let before = categories[category_index as int].entries;
            let after = edited[category_index as int].entries;
            &&& edited.len() == categories.len()
            &&& after.len() == before.len() - 1
            &&& forall|i: int| 0 <= i < entry_index ==> #[trigger] after[i] == before[i]
            &&& forall|i: int| entry_index <= i < after.len() ==> #[trigger] after[i] == before[i + 1]
            &&& edited[category_index as int].tag == categories[category_index as int].tag
            &&& forall|c: int|
                0 <= c < categories.len() && c != category_index ==> #[trigger] edited[c]
                    == categories[c]
        }),
{
}

/// Removing a category takes out exactly the category at `category_index`,
/// and is refused only where there is none: those before it keep their
/// places and those after it move down by one.
pub proof fn law_remove_category_takes_out_that_category(categories: Seq<CategoryView>, category_index: usize)
    ensures
        spec_edit_journal(categories, JournalEdit::RemoveCategory { category_index }) is Ok == (
        category_index < categories.len()),
        spec_edit_journal(categories, JournalEdit::RemoveCategory { category_index }) matches Ok(edited)
            ==> {
            &&& edited.len() == categories.len() - 1
            &&& forall|i: int| 0 <= i < category_index ==> #[trigger] edited[i] == categories[i]
            &&& forall|i: int|
                category_index <= i < edited.len() ==> #[trigger] edited[i] == categories[i + 1]
        },
{
}

/// Adding a category puts an empty category with the given tag after the
/// existing ones, which are unchanged; adding an entry puts one entry after
/// those of the named category, which keep their places, leaving its tag
/// and every other category unchanged.
pub proof fn law_additions_append(categories: Seq<CategoryView>, tag: Seq<char>, category_index: usize)
    ensures
        spec_edit_journal(categories, JournalEdit::AddCategory { tag }) matches Ok(edited) ==> {
            &&& edited.len() == categories.len() + 1
            &&& forall|i: int| 0 <= i < categories.len() ==> #[trigger] edited[i] == categories[i]
            &&& edited[categories.len() as int].tag == Some(tag)
            &&& edited[categories.len() as int].entries.len() == 0
        },
        spec_edit_journal(categories, JournalEdit::AddEntry { category_index }) matches Ok(edited) ==> {
            let before = categories[category_index as int].entries;
            let after = edited[category_index as int].entries;
            &&& category_index < categories.len()
            &&& edited.len() == categories.len()
            &&& after.len() == before.len() + 1
            &&& forall|i: int| 0 <= i < before.len() ==> #[trigger] after[i] == before[i]
            &&& edited[category_index as int].tag == categories[category_index as int].tag
            &&& forall|c: int|
                0 <= c < categories.len() && c != category_index ==> #[trigger] edited[c] == categories[c]
        },
{
}

/// Checks that a resource declares the GFF type of a journal before it is
/// edited.
pub fn check_journal_format(file_type: &str) -> (result: Result<(), EditError>)
    ensures
        result is Ok == (file_type@ == "JRL "@),
        result matches Err(error) ==> error == EditError::JournalFormatInvalid,
{
    if text_equal(file_type, "JRL ") {
        Ok(())
    } else {
        Err(EditError::JournalFormatInvalid)
    }
}

} // verus!
