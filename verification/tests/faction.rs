use aurora_forge::error::EditError;
use aurora_forge::faction::{
    check_faction_format, FactionRecord, FactionStructureAction, FactionTable, ReputationRecord, NO_PARENT,
};

fn faction(name: &str, parent_id: u32) -> FactionRecord {
    FactionRecord { name: Some(name.to_owned()), parent_id: Some(parent_id) }
}

fn reputation(source_id: u32, target_id: u32, value: u32) -> ReputationRecord {
    ReputationRecord { source_id, target_id, value }
}

fn three_factions() -> FactionTable {
    let pairs = [(0, 1, 0), (0, 2, 50), (1, 1, 100), (1, 2, 0), (2, 1, 0), (2, 2, 100)];
    FactionTable {
        factions: vec![faction("PC", u32::MAX), faction("Hostile", u32::MAX), faction("Guild", 1)],
        reputations: pairs.iter().map(|&(s, t, v)| reputation(s, t, v)).collect(),
    }
}

#[test]
fn faction_structure_completes_the_matrix_and_retargets_references_on_removal() {
    let mut added = three_factions();
    added
        .edit(&FactionStructureAction::AddFaction { name: "Merchants".to_owned(), parent_id: Some(2) })
        .expect("add faction");
    assert_eq!(added.factions.len(), 4);
    assert_eq!(added.reputations.len(), 12);

    let mut removed = added.clone();
    removed.edit(&FactionStructureAction::RemoveFaction { faction_index: 1 }).expect("remove faction");
    let remaining = &removed.factions;
    assert_eq!(remaining.len(), 3);
    assert_eq!(remaining[1].name.as_deref(), Some("Guild"));
    assert_eq!(remaining[1].parent_id, Some(u32::MAX));
    assert_eq!(remaining[2].parent_id, Some(1));
    assert_eq!(removed.reputations.len(), 6);
    for r in &removed.reputations {
        assert!(r.source_id < 3 && (1..3).contains(&r.target_id));
    }
}

#[test]
fn faction_structure_validates_pc_and_typescript_ipc_invariants() {
    let table = FactionTable {
        factions: vec![faction("PC", u32::MAX), faction("Hostile", u32::MAX)],
        reputations: Vec::new(),
    };
    let mut edited = table.clone();
    let remove_error = edited.edit(&FactionStructureAction::RemoveFaction { faction_index: 0 }).unwrap_err();
    assert_eq!(remove_error.code(), "EDIT_FACTION_PC_REMOVE_FORBIDDEN");
    let target_error = edited
        .edit(&FactionStructureAction::AddReputation { source_id: 1, target_id: 0, value: 50 })
        .unwrap_err();
    assert_eq!(target_error.code(), "EDIT_FACTION_REPUTATION_PC_TARGET_INVALID");
    assert_eq!(edited, table);
}

#[test]
fn adding_a_faction_fills_both_directions_of_the_matrix() {
    let mut table = FactionTable { factions: vec![faction("PC", NO_PARENT)], reputations: Vec::new() };
    table.edit(&FactionStructureAction::AddFaction { name: "  Town  ".to_owned(), parent_id: None }).expect("add");
    assert_eq!(table.factions[1].name.as_deref(), Some("Town"));
    assert_eq!(table.factions[1].parent_id, Some(NO_PARENT));
    assert_eq!(table.reputations, vec![reputation(0, 1, 50), reputation(1, 1, 100)]);
    table.edit(&FactionStructureAction::AddFaction { name: "Guards".to_owned(), parent_id: Some(1) }).expect("add");
    assert_eq!(
        &table.reputations[2..],
        &[reputation(0, 2, 50), reputation(1, 2, 50), reputation(2, 1, 50), reputation(2, 2, 100)]
    );
}

#[test]
fn faction_edits_report_each_refusal() {
    let base = three_factions();
    let cases = vec![
        (FactionStructureAction::AddFaction { name: "   ".to_owned(), parent_id: None }, EditError::FactionNameInvalid),
        (FactionStructureAction::AddFaction { name: "a\nb".to_owned(), parent_id: None }, EditError::FactionNameInvalid),
        (FactionStructureAction::AddFaction { name: "New".to_owned(), parent_id: Some(3) }, EditError::FactionParentNotFound),
        (FactionStructureAction::AddFaction { name: "guild".to_owned(), parent_id: None }, EditError::FactionNameDuplicate),
        (FactionStructureAction::RemoveFaction { faction_index: 3 }, EditError::FactionNotFound),
        (FactionStructureAction::AddReputation { source_id: 3, target_id: 1, value: 1 }, EditError::FactionReputationEndpointNotFound),
        (FactionStructureAction::AddReputation { source_id: 1, target_id: 2, value: 101 }, EditError::FactionReputationValueInvalid),
        (FactionStructureAction::AddReputation { source_id: 1, target_id: 2, value: 10 }, EditError::FactionReputationDuplicate),
        (FactionStructureAction::RemoveReputation { reputation_index: 6 }, EditError::FactionReputationNotFound),
    ];
    for (action, expected) in cases {
        let mut table = base.clone();
        assert_eq!(table.edit(&action), Err(expected));
        assert_eq!(table, base);
    }
    let mut full = FactionTable { factions: Vec::new(), reputations: Vec::new() };
    for i in 0..65_535u32 {
        full.factions.push(FactionRecord { name: None, parent_id: Some(i) });
    }
    assert_eq!(
        full.edit(&FactionStructureAction::AddFaction { name: "One more".to_owned(), parent_id: None }),
        Err(EditError::FactionLimitExceeded)
    );
}

#[test]
fn reputations_can_be_added_and_removed() {
    let mut table = three_factions();
    table.reputations.retain(|r| !(r.source_id == 0 && r.target_id == 1));
    table.edit(&FactionStructureAction::AddReputation { source_id: 0, target_id: 1, value: 75 }).expect("add");
    assert_eq!(*table.reputations.last().unwrap(), reputation(0, 1, 75));
    let before = table.reputations.len();
    table.edit(&FactionStructureAction::RemoveReputation { reputation_index: 0 }).expect("remove");
    assert_eq!(table.reputations.len(), before - 1);
}

#[test]
fn only_fac_resources_are_edited_as_factions() {
    assert_eq!(check_faction_format("FAC "), Ok(()));
    assert_eq!(check_faction_format("JRL "), Err(EditError::FactionFormatInvalid));
    assert_eq!(check_faction_format("FAC"), Err(EditError::FactionFormatInvalid));
}
