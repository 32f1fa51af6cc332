use aurora_forge::error::EditError;
use aurora_forge::journal::{check_journal_format, JournalCategoryRecord, JournalEntryRecord, JournalStructureAction, JournalTable};

#[test]
fn journal_structure_adds_unique_categories_and_stable_entry_ids() {
    let mut journal = JournalTable { categories: Vec::new() };
    journal.edit(&JournalStructureAction::AddCategory { tag: "main_quest".to_owned() }).expect("add category");
    journal.edit(&JournalStructureAction::AddEntry { category_index: 0 }).expect("add first entry");
    journal.edit(&JournalStructureAction::AddEntry { category_index: 0 }).expect("add second entry");
    let entries = &journal.categories[0].entries;
    assert_eq!(entries.len(), 2);
    assert_eq!(entries[0].id, Some(0));
    assert_eq!(entries[1].id, Some(1));
    let error = journal
        .edit(&JournalStructureAction::AddCategory { tag: "MAIN_QUEST".to_owned() })
        .expect_err("duplicate category tag");
    assert_eq!(error.code(), "EDIT_JOURNAL_TAG_DUPLICATE");
}

#[test]
fn new_entry_ids_follow_the_largest_existing_id() {
    let mut journal = JournalTable {
        categories: vec![JournalCategoryRecord {
            tag: Some("side".to_owned()),
            entries: vec![
                JournalEntryRecord { id: Some(5) },
                JournalEntryRecord { id: None },
                JournalEntryRecord { id: Some(2) },
            ],
        }],
    };
    journal.edit(&JournalStructureAction::AddEntry { category_index: 0 }).expect("add entry");
    assert_eq!(journal.categories[0].entries[3].id, Some(6));
    journal.categories[0].entries.push(JournalEntryRecord { id: Some(u32::MAX) });
    let before = journal.clone();
    assert_eq!(
        journal.edit(&JournalStructureAction::AddEntry { category_index: 0 }),
        Err(EditError::JournalEntryIdExhausted)
    );
    assert_eq!(journal, before);
}

#[test]
fn journal_edits_report_each_refusal() {
    let mut journal = JournalTable {
        categories: vec![JournalCategoryRecord { tag: Some("q".to_owned()), entries: Vec::new() }],
    };
    assert_eq!(
        journal.edit(&JournalStructureAction::AddCategory { tag: "bad tag".to_owned() }),
        Err(EditError::JournalTagInvalid)
    );
    assert_eq!(
        journal.edit(&JournalStructureAction::RemoveCategory { category_index: 1 }),
        Err(EditError::JournalCategoryNotFound)
    );
    assert_eq!(
        journal.edit(&JournalStructureAction::AddEntry { category_index: 2 }),
        Err(EditError::JournalCategoryNotFound)
    );
    assert_eq!(
        journal.edit(&JournalStructureAction::RemoveEntry { category_index: 0, entry_index: 0 }),
        Err(EditError::JournalEntryNotFound)
    );
    journal.edit(&JournalStructureAction::AddEntry { category_index: 0 }).expect("add");
    journal.edit(&JournalStructureAction::RemoveEntry { category_index: 0, entry_index: 0 }).expect("remove");
    assert!(journal.categories[0].entries.is_empty());
    journal.edit(&JournalStructureAction::RemoveCategory { category_index: 0 }).expect("remove category");
    assert!(journal.categories.is_empty());
}

#[test]
fn only_jrl_resources_are_edited_as_journals() {
    assert_eq!(check_journal_format("JRL "), Ok(()));
    assert_eq!(check_journal_format("FAC "), Err(EditError::JournalFormatInvalid));
}
