//! The faction table of a FAC resource: factions (their position is their id)
//! and the reputation matrix between them, with the structural edits that add
//! and remove factions and reputations.
use crate::error::EditError;
use crate::resource::{text_bytes, text_equal};
use crate::text::{
    bytes_equal_ignoring_ascii_case, equal_ignoring_ascii_case, trim_spec, trim_text,
    valid_faction_name, validate_faction_name,
};
use vstd::prelude::*;

verus! {

/// The most factions a FAC resource holds.
pub const MAX_FACTIONS: usize = 65_535;

/// The parent id of a faction without parent.
pub const NO_PARENT: u32 = 0xffff_ffff;

/// A faction as the editor reads it: its name and parent id, where the
/// resource gives them.
#[derive(Debug, Clone, PartialEq, Eq)]
pub struct FactionRecord {
    pub name: Option<String>,
    pub parent_id: Option<u32>,
}

/// How faction `source_id` regards faction `target_id`, from 0 to 100.
#[derive(Debug, Clone, Copy, PartialEq, Eq)]
pub struct ReputationRecord {
    pub source_id: u32,
    pub target_id: u32,
    pub value: u32,
}

/// The factions of a FAC resource and its reputations.
#[derive(Debug, Clone, PartialEq, Eq)]
pub struct FactionTable {
    pub factions: Vec<FactionRecord>,
    pub reputations: Vec<ReputationRecord>,
}

/// A structural edit of a FAC resource.
#[derive(Debug, Clone, PartialEq, Eq)]
pub enum FactionStructureAction {
    AddFaction { name: String, parent_id: Option<u32> },
    RemoveFaction { faction_index: usize },
    AddReputation { source_id: u32, target_id: u32, value: u32 },
    RemoveReputation { reputation_index: usize },
}

/// A structural edit by its texts.
pub enum FactionEdit {
    AddFaction { name: Seq<char>, parent_id: Option<u32> },
    RemoveFaction { faction_index: usize },
    AddReputation { source_id: u32, target_id: u32, value: u32 },
    RemoveReputation { reputation_index: usize },
}

pub open spec fn faction_edit(action: FactionStructureAction) -> FactionEdit {
    match action {
        FactionStructureAction::AddFaction { name, parent_id } => FactionEdit::AddFaction {
            name: name@,
            parent_id,
        },
        FactionStructureAction::RemoveFaction { faction_index } => FactionEdit::RemoveFaction {
            faction_index,
        },
        FactionStructureAction::AddReputation { source_id, target_id, value } => FactionEdit::AddReputation {
            source_id,
            target_id,
            value,
        },
        FactionStructureAction::RemoveReputation { reputation_index } => FactionEdit::RemoveReputation {
            reputation_index,
        },
    }
}

/// A faction by its texts.
pub struct FactionView {
    pub name: Option<Seq<char>>,
    pub parent_id: Option<u32>,
}

pub open spec fn faction_view(faction: FactionRecord) -> FactionView {
    FactionView {
        name: match faction.name {
            Some(name) => Some(name@),
            None => None,
        },
        parent_id: faction.parent_id,
    }
}

pub open spec fn factions_view(factions: Seq<FactionRecord>) -> Seq<FactionView> {
    factions.map_values(|f: FactionRecord| faction_view(f))
}

/// Some reputation goes from `source_id` to `target_id`.
pub open spec fn has_reputation(reputations: Seq<ReputationRecord>, source_id: u32, target_id: u32) -> bool {
    exists|i: int|
        0 <= i < reputations.len() && (#[trigger] reputations[i]).source_id == source_id
            && reputations[i].target_id == target_id
}

/// A faction's name equals `name`, ignoring ASCII case.
pub open spec fn same_name(existing: Option<Seq<char>>, name: Seq<char>) -> bool {
    match existing {
        Some(existing) => equal_ignoring_ascii_case(text_bytes(existing), text_bytes(name)),
        None => false,
    }
}

/// Some faction has a name equal to `name`, ignoring ASCII case.
pub open spec fn name_taken(factions: Seq<FactionView>, name: Seq<char>) -> bool {
    exists|i: int| 0 <= i < factions.len() && same_name((#[trigger] factions[i]).name, name)
}

/// The reputations towards a new faction: from each earlier faction that has
/// none yet, a neutral 50.
pub open spec fn with_source_reputations(reputations: Seq<ReputationRecord>, new_id: u32, count: nat) -> Seq<ReputationRecord>
    decreases count,
{
    if count == 0 {
        reputations
    } else {
        let earlier = with_source_reputations(reputations, new_id, (count - 1) as nat);
        let source_id = (count - 1) as u32;
        if has_reputation(earlier, source_id, new_id) {
            earlier
        } else {
            earlier.push(ReputationRecord { source_id, target_id: new_id, value: 50 })
        }
    }
}

/// The reputations of a new faction towards each faction from 1 up to
/// itself that it has none for yet: 100 for itself, 50 for the others.
pub open spec fn with_target_reputations(reputations: Seq<ReputationRecord>, new_id: u32, count: nat) -> Seq<ReputationRecord>
    decreases count,
{
    if count == 0 {
        reputations
    } else {
        let earlier = with_target_reputations(reputations, new_id, (count - 1) as nat);
        let target_id = count as u32;
        if has_reputation(earlier, new_id, target_id) {
            earlier
        } else {
            earlier.push(
                ReputationRecord {
                    source_id: new_id,
                    target_id,
                    value: if target_id == new_id {
                        100
                    } else {
                        50
                    },
                },
            )
        }
    }
}

/// A table by its texts.
pub struct FactionTableView {
    pub factions: Seq<FactionView>,
    pub reputations: Seq<ReputationRecord>,
}

impl FactionTable {
    pub open spec fn view(&self) -> FactionTableView {
        FactionTableView { factions: factions_view(self.factions@), reputations: self.reputations@ }
    }
}

/// The parent id that a faction keeps when faction `removed` goes: none for
/// the removed one, one less for a later one.
pub open spec fn remapped_parent(parent: Option<u32>, removed: u32) -> Option<u32> {
    match parent {
        Some(p) => if p == removed {
            Some(NO_PARENT)
        } else if p != NO_PARENT && p > removed {
            Some((p - 1) as u32)
        } else {
            Some(p)
        },
        None => None,
    }
}

/// The reputations that remain when faction `removed` goes: those that
/// involve it are dropped, later ids are lowered by one.
pub open spec fn remapped_reputations(reputations: Seq<ReputationRecord>, removed: u32) -> Seq<ReputationRecord>
    decreases reputations.len(),
{
    if reputations.len() == 0 {
        seq![]
    } else {
        let earlier = remapped_reputations(reputations.drop_last(), removed);
        let r = reputations.last();
        if r.source_id == removed || r.target_id == removed {
            earlier
        } else {
            earlier.push(
                ReputationRecord {
                    source_id: if r.source_id > removed {
                        (r.source_id - 1) as u32
                    } else {
                        r.source_id
                    },
                    target_id: if r.target_id > removed {
                        (r.target_id - 1) as u32
                    } else {
                        r.target_id
                    },
                    value: r.value,
                },
            )
        }
    }
}

/// What a structural edit makes of a table: the edited table, or the error
/// that refuses the edit.
pub open spec fn spec_edit_factions(table: FactionTableView, action: FactionEdit) -> Result<FactionTableView, EditError> {
    let count = table.factions.len();
    match action {
        FactionEdit::AddFaction { name, parent_id } => {
            let trimmed = trim_spec(name);
            if !valid_faction_name(trimmed) {
                Err(EditError::FactionNameInvalid)
            } else if count >= MAX_FACTIONS {
                Err(EditError::FactionLimitExceeded)
            } else if parent_id matches Some(p) && p >= count {
                Err(EditError::FactionParentNotFound)
            } else if name_taken(table.factions, trimmed) {
                Err(EditError::FactionNameDuplicate)
            } else {
                let new_id = count as u32;
                Ok(
                    FactionTableView {
                        factions: table.factions.push(
                            FactionView {
                                name: Some(trimmed),
                                parent_id: Some(
                                    match parent_id {
                                        Some(p) => p,
                                        None => NO_PARENT,
                                    },
                                ),
                            },
                        ),
                        reputations: with_target_reputations(
                            with_source_reputations(table.reputations, new_id, new_id as nat),
                            new_id,
                            new_id as nat,
                        ),
                    },
                )
            }
        },
        FactionEdit::RemoveFaction { faction_index } => {
            if faction_index == 0 {
                Err(EditError::FactionPcRemoveForbidden)
            } else if faction_index >= count || faction_index > u32::MAX {
                Err(EditError::FactionNotFound)
            } else {
                let removed = faction_index as u32;
                let remaining = table.factions.remove(faction_index as int);
                Ok(
                    FactionTableView {
                        factions: Seq::new(
                            remaining.len(),
                            |i: int|
                                FactionView {
                                    name: remaining[i].name,
                                    parent_id: remapped_parent(remaining[i].parent_id, removed),
                                },
                        ),
                        reputations: remapped_reputations(table.reputations, removed),
                    },
                )
            }
        },
        FactionEdit::AddReputation { source_id, target_id, value } => {
            if source_id >= count || target_id >= count {
                Err(EditError::FactionReputationEndpointNotFound)
            } else if target_id == 0 {
                Err(EditError::FactionReputationPcTargetInvalid)
            } else if value > 100 {
                Err(EditError::FactionReputationValueInvalid)
            } else if has_reputation(table.reputations, source_id, target_id) {
                Err(EditError::FactionReputationDuplicate)
            } else {
                Ok(
                    FactionTableView {
                        factions: table.factions,
                        reputations: table.reputations.push(
                            ReputationRecord { source_id, target_id, value },
                        ),
                    },
                )
            }
        },
        FactionEdit::RemoveReputation { reputation_index } => {
            if reputation_index >= table.reputations.len() {
                Err(EditError::FactionReputationNotFound)
            } else {
                Ok(
                    FactionTableView {
                        factions: table.factions,
                        reputations: table.reputations.remove(reputation_index as int),
                    },
                )
            }
        },
    }
}

fn find_reputation(reputations: &Vec<ReputationRecord>, source_id: u32, target_id: u32) -> (found: bool)
    ensures
        found == has_reputation(reputations@, source_id, target_id),
{
    let mut i: usize = 0;
    while i < reputations.len()
        invariant
            i <= reputations@.len(),
            forall|j: int|
                0 <= j < i ==> !((#[trigger] reputations@[j]).source_id == source_id
                    && reputations@[j].target_id == target_id),
        decreases reputations@.len() - i,
    {
        if reputations[i].source_id == source_id && reputations[i].target_id == target_id {
            return true;
        }
        i += 1;
    }
    false
}

fn find_name(factions: &Vec<FactionRecord>, name: &str) -> (found: bool)
    ensures
        found == name_taken(factions_view(factions@), name@),
{
    let mut i: usize = 0;
    while i < factions.len()
        invariant
            i <= factions@.len(),
            forall|j: int| 0 <= j < i ==> !same_name((#[trigger] factions_view(factions@)[j]).name, name@),
        decreases factions@.len() - i,
    {
        match &factions[i].name {
            Some(existing) => {
                if bytes_equal_ignoring_ascii_case(existing.as_str().as_bytes(), name.as_bytes()) {
                    proof {
                        assert(factions_view(factions@)[i as int].name == Some(existing@));
                    }
                    return true;
                }
            },
            None => {},
        }
        i += 1;
    }
    false
}

fn copy_name(name: &Option<String>) -> (copy: Option<String>)
    ensures
        match copy {
            Some(c) => name matches Some(n) && c@ == n@,
            None => name is None,
        },
{
    match name {
        Some(n) => Some(crate::resource::copy_string(n)),
        None => None,
    }
}

impl FactionTable {
    fn add_faction(&mut self, name: &str, parent_id: Option<u32>) -> (result: Result<(), EditError>)
        ensures
            match spec_edit_factions(old(self).view(), FactionEdit::AddFaction { name: name@, parent_id }) {
                Ok(table) => result is Ok && final(self).view() == table,
                Err(error) => result == Err::<(), EditError>(error) && final(self).view()
                    == old(self).view(),
            },
    {
        let trimmed = trim_text(name);
        if validate_faction_name(trimmed).is_err() {
            return Err(EditError::FactionNameInvalid);
        }
        let count = self.factions.len();
        if count >= MAX_FACTIONS {
            return Err(EditError::FactionLimitExceeded);
        }
        match parent_id {
            Some(p) => {
                if p as usize >= count {
                    return Err(EditError::FactionParentNotFound);
                }
            },
            None => {},
        }
        if find_name(&self.factions, trimmed) {
            return Err(EditError::FactionNameDuplicate);
        }
        let new_id: u32 = count as u32;
        let ghost old_factions = factions_view(self.factions@);
        self.factions.push(
            FactionRecord {
                name: Some(trimmed.to_owned()),
                parent_id: Some(
                    match parent_id {
                        Some(p) => p,
                        None => NO_PARENT,
                    },
                ),
            },
        );
        proof {
            assert(factions_view(self.factions@) =~= old_factions.push(
                FactionView {
                    name: Some(trim_spec(name@)),
                    parent_id: Some(
                        match parent_id {
                            Some(p) => p,
                            None => NO_PARENT,
                        },
                    ),
                },
            ));
        }
        let ghost old_reputations = self.reputations@;
        let ghost pushed = self.factions@;
        let mut source_id: u32 = 0;
        while source_id < new_id
            invariant
                self.factions@ == pushed,
                source_id <= new_id,
                self.reputations@ == with_source_reputations(old_reputations, new_id, source_id as nat),
            decreases new_id - source_id,
        {
            if !find_reputation(&self.reputations, source_id, new_id) {
                self.reputations.push(ReputationRecord { source_id, target_id: new_id, value: 50 });
            }
            source_id += 1;
        }
        let ghost sourced = self.reputations@;
        let mut target_id: u32 = 1;
        while target_id <= new_id
            invariant
                self.factions@ == pushed,
                1 <= target_id <= new_id + 1,
                new_id < MAX_FACTIONS,
                self.reputations@ == with_target_reputations(sourced, new_id, (target_id - 1) as nat),
            decreases new_id + 1 - target_id,
        {
            if !find_reputation(&self.reputations, new_id, target_id) {
                let value: u32 = if target_id == new_id {
                    100
                } else {
                    50
                };
                self.reputations.push(ReputationRecord { source_id: new_id, target_id, value });
            }
            target_id += 1;
        }
        Ok(())
    }

    fn remove_faction(&mut self, faction_index: usize) -> (result: Result<(), EditError>)
        ensures
            match spec_edit_factions(old(self).view(), FactionEdit::RemoveFaction { faction_index }) {
                Ok(table) => result is Ok && final(self).view() == table,
                Err(error) => result == Err::<(), EditError>(error) && final(self).view()
                    == old(self).view(),
            },
    {
        if faction_index == 0 {
            return Err(EditError::FactionPcRemoveForbidden);
        }
        if faction_index >= self.factions.len() || faction_index as u64 > 0xffff_ffffu64 {
            return Err(EditError::FactionNotFound);
        }
        let removed: u32 = faction_index as u32;
        let ghost remaining = factions_view(self.factions@).remove(faction_index as int);
        let mut factions: Vec<FactionRecord> = Vec::new();
        let mut i: usize = 0;
        while i < self.factions.len()
            invariant
                i <= self.factions@.len(),
                faction_index < self.factions@.len(),
                remaining == factions_view(self.factions@).remove(faction_index as int),
                removed == faction_index,
                factions@.len() == if i <= faction_index { i as int } else { i - 1 },
                forall|j: int|
                    0 <= j < factions@.len() ==> #[trigger] faction_view(factions@[j]) == (FactionView {
                        name: remaining[j].name,
                        parent_id: remapped_parent(remaining[j].parent_id, removed),
                    }),
            decreases self.factions@.len() - i,
        {
            if i != faction_index {
                let record = &self.factions[i];
                let parent_id: Option<u32> = match record.parent_id {
                    Some(p) => {
                        if p == removed {
                            Some(NO_PARENT)
                        } else if p != NO_PARENT && p > removed {
                            Some(p - 1)
                        } else {
                            Some(p)
                        }
                    },
                    None => None,
                };
                let ghost at = factions@.len() as int;
                factions.push(FactionRecord { name: copy_name(&record.name), parent_id });
                proof {
                    assert(remaining[at] == factions_view(self.factions@)[i as int]);
                    assert(faction_view(factions@[at]) == (FactionView {
                        name: remaining[at].name,
                        parent_id: remapped_parent(remaining[at].parent_id, removed),
                    }));
                }
            }
            i += 1;
        }
        let ghost old_reputations = self.reputations@;
        let mut reputations: Vec<ReputationRecord> = Vec::new();
        let mut k: usize = 0;
        while k < self.reputations.len()
            invariant
                k <= self.reputations@.len(),
                old_reputations == self.reputations@,
                reputations@ == remapped_reputations(old_reputations.take(k as int), removed),
            decreases self.reputations@.len() - k,
        {
            let r = self.reputations[k];
            proof {
                let prefix = old_reputations.take(k + 1);
                assert(prefix.drop_last() =~= old_reputations.take(k as int));
                assert(prefix.last() == r);
            }
            if r.source_id != removed && r.target_id != removed {
                let source_id: u32 = if r.source_id > removed {
                    r.source_id - 1
                } else {
                    r.source_id
                };
                let target_id: u32 = if r.target_id > removed {
                    r.target_id - 1
                } else {
                    r.target_id
                };
                reputations.push(ReputationRecord { source_id, target_id, value: r.value });
            }
            k += 1;
        }
        proof {
            assert(old_reputations.take(old_reputations.len() as int) =~= old_reputations);
        }
        self.factions = factions;
        self.reputations = reputations;
        proof {
            assert(factions_view(self.factions@) =~= Seq::new(
                remaining.len(),
                |j: int|
                    FactionView {
                        name: remaining[j].name,
                        parent_id: remapped_parent(remaining[j].parent_id, removed),
                    },
            ));
        }
        Ok(())
    }

    /// Applies a structural edit: adds or removes a faction (completing or
    /// renumbering the reputation matrix) or a reputation. A refused edit
    /// changes nothing.
    pub fn edit(&mut self, action: &FactionStructureAction) -> (result: Result<(), EditError>)
        ensures
            match spec_edit_factions(old(self).view(), faction_edit(*action)) {
                Ok(table) => result is Ok && final(self).view() == table,
                Err(error) => result == Err::<(), EditError>(error) && final(self).view()
                    == old(self).view(),
            },
    {
        match action {
            FactionStructureAction::AddFaction { name, parent_id } => self.add_faction(
                name.as_str(),
                *parent_id,
            ),
            FactionStructureAction::RemoveFaction { faction_index } => self.remove_faction(
                *faction_index,
            ),
            FactionStructureAction::AddReputation { source_id, target_id, value } => {
                let count = self.factions.len();
                if *source_id as usize >= count || *target_id as usize >= count {
                    return Err(EditError::FactionReputationEndpointNotFound);
                }
                if *target_id == 0 {
                    return Err(EditError::FactionReputationPcTargetInvalid);
                }
                if *value > 100 {
                    return Err(EditError::FactionReputationValueInvalid);
                }
                if find_reputation(&self.reputations, *source_id, *target_id) {
                    return Err(EditError::FactionReputationDuplicate);
                }
                self.reputations.push(
                    ReputationRecord { source_id: *source_id, target_id: *target_id, value: *value },
                );
                Ok(())
            },
            FactionStructureAction::RemoveReputation { reputation_index } => {
                if *reputation_index >= self.reputations.len() {
                    return Err(EditError::FactionReputationNotFound);
                }
                self.reputations.remove(*reputation_index);
                Ok(())
            },
        }
    }
}

/// Every reputation links factions of the table, and every parent is a
/// faction of the table or none.
pub open spec fn table_consistent(table: FactionTableView) -> bool {
    let count = table.factions.len();
    &&& forall|i: int|
        0 <= i < table.reputations.len() ==> (#[trigger] table.reputations[i]).source_id < count
            && table.reputations[i].target_id < count
    &&& forall|i: int|
        0 <= i < count ==> ((#[trigger] table.factions[i]).parent_id matches Some(p) ==> p < count
            || p == NO_PARENT)
}

proof fn lemma_source_fill(reputations: Seq<ReputationRecord>, new_id: u32, count: nat)
    requires
        count <= new_id,
    ensures
        ({
            let filled = with_source_reputations(reputations, new_id, count);
            &&& filled.len() >= reputations.len()
            &&& forall|i: int| 0 <= i < reputations.len() ==> #[trigger] filled[i] == reputations[i]
            &&& forall|i: int|
                reputations.len() <= i < filled.len() ==> (#[trigger] filled[i]).target_id == new_id
                    && filled[i].source_id < count
            &&& forall|s: u32| s < count ==> has_reputation(filled, s, new_id)
        }),
    decreases count,
{
    if count > 0 {
        lemma_source_fill(reputations, new_id, (count - 1) as nat);
        let earlier = with_source_reputations(reputations, new_id, (count - 1) as nat);
        let filled = with_source_reputations(reputations, new_id, count);
        let source_id = (count - 1) as u32;
        assert forall|s: u32| s < count implies has_reputation(filled, s, new_id) by {
            if s < count - 1 {
                assert(has_reputation(earlier, s, new_id));
                let w = choose|w: int|
                    0 <= w < earlier.len() && (#[trigger] earlier[w]).source_id == s && earlier[w].target_id
                        == new_id;
                assert(filled[w] == earlier[w]);
            } else if !has_reputation(earlier, source_id, new_id) {
                assert(filled[filled.len() - 1].source_id == s);
            } else {
                let w = choose|w: int|
                    0 <= w < earlier.len() && (#[trigger] earlier[w]).source_id == source_id
                        && earlier[w].target_id == new_id;
                assert(filled[w] == earlier[w]);
            }
        }
    }
}

proof fn lemma_target_fill(reputations: Seq<ReputationRecord>, new_id: u32, count: nat)
    requires
        count <= new_id,
    ensures
        ({
            let filled = with_target_reputations(reputations, new_id, count);
            &&& filled.len() >= reputations.len()
            &&& forall|i: int| 0 <= i < reputations.len() ==> #[trigger] filled[i] == reputations[i]
            &&& forall|i: int|
                reputations.len() <= i < filled.len() ==> (#[trigger] filled[i]).source_id == new_id
                    && 1 <= filled[i].target_id <= count
            &&& forall|t: u32| 1 <= t <= count ==> has_reputation(filled, new_id, t)
        }),
    decreases count,
{
    if count > 0 {
        lemma_target_fill(reputations, new_id, (count - 1) as nat);
        let earlier = with_target_reputations(reputations, new_id, (count - 1) as nat);
        let filled = with_target_reputations(reputations, new_id, count);
        let target_id = count as u32;
        assert forall|t: u32| 1 <= t <= count implies has_reputation(filled, new_id, t) by {
            if t < count {
                assert(has_reputation(earlier, new_id, t));
                let w = choose|w: int|
                    0 <= w < earlier.len() && (#[trigger] earlier[w]).source_id == new_id && earlier[w].target_id
                        == t;
                assert(filled[w] == earlier[w]);
            } else if !has_reputation(earlier, new_id, target_id) {
                assert(filled[filled.len() - 1].target_id == t);
            } else {
                let w = choose|w: int|
                    0 <= w < earlier.len() && (#[trigger] earlier[w]).source_id == new_id
                        && earlier[w].target_id == target_id;
                assert(filled[w] == earlier[w]);
            }
        }
    }
}

proof fn lemma_remapped_bounded(reputations: Seq<ReputationRecord>, removed: u32, count: nat)
    requires
        removed < count,
        forall|i: int|
            0 <= i < reputations.len() ==> (#[trigger] reputations[i]).source_id < count
                && reputations[i].target_id < count,
    ensures
        forall|i: int|
            0 <= i < remapped_reputations(reputations, removed).len() ==> (#[trigger] remapped_reputations(
                reputations,
                removed,
            )[i]).source_id < count - 1 && remapped_reputations(reputations, removed)[i].target_id
                < count - 1,
    decreases reputations.len(),
{
    if reputations.len() > 0 {
        let shorter = reputations.drop_last();
        assert forall|i: int| 0 <= i < shorter.len() implies (#[trigger] shorter[i]).source_id < count
            && shorter[i].target_id < count by {
            assert(shorter[i] == reputations[i]);
        }
        lemma_remapped_bounded(shorter, removed, count);
        let earlier = remapped_reputations(shorter, removed);
        let all = remapped_reputations(reputations, removed);
        let r = reputations[reputations.len() - 1];
        assert(reputations.last() == r);
        assert forall|i: int| 0 <= i < all.len() implies (#[trigger] all[i]).source_id < count - 1
            && all[i].target_id < count - 1 by {
            if i < earlier.len() {
                assert(all[i] == earlier[i]);
            }
        }
    }
}

/// What the FAC editor promises: adding a faction completes the
/// reputation matrix (every earlier faction has a reputation towards the new
/// one, and the new one towards every faction from 1 to itself), and every
/// structural edit keeps a consistent table consistent — removals renumber
/// parents and reputations so that they still name factions of the table.
pub proof fn law_faction_edits_keep_table_consistent(table: FactionTableView, action: FactionEdit)
    requires
        table_consistent(table),
    ensures
        spec_edit_factions(table, action) matches Ok(edited) ==> table_consistent(edited),
        spec_edit_factions(table, action) matches Ok(edited) ==> (action matches FactionEdit::AddFaction { .. } ==> {
            let new_id = table.factions.len() as u32;
            &&& forall|s: u32| s < new_id ==> has_reputation(edited.reputations, s, new_id)
            &&& forall|t: u32| 1 <= t <= new_id ==> has_reputation(edited.reputations, new_id, t)
        }),
{
    let count = table.factions.len();
    match action {
        FactionEdit::AddFaction { name, parent_id } => {
            if let Ok(edited) = spec_edit_factions(table, action) {
                let new_id = count as u32;
                lemma_source_fill(table.reputations, new_id, new_id as nat);
                let sourced = with_source_reputations(table.reputations, new_id, new_id as nat);
                lemma_target_fill(sourced, new_id, new_id as nat);
                assert forall|i: int| 0 <= i < edited.reputations.len() implies (#[trigger] edited.reputations[i]).source_id
                    < count + 1 && edited.reputations[i].target_id < count + 1 by {
                    if i < sourced.len() {
                        assert(edited.reputations[i] == sourced[i]);
                        if i < table.reputations.len() {
                            assert(sourced[i] == table.reputations[i]);
                        }
                    }
                }
                assert forall|i: int| 0 <= i < count + 1 implies ((#[trigger] edited.factions[i]).parent_id matches Some(p) ==> p < count + 1
                    || p == NO_PARENT) by {
                    if i < count {
                        assert(edited.factions[i] == table.factions[i]);
                    }
                }
                assert forall|s: u32| s < new_id implies has_reputation(edited.reputations, s, new_id) by {
                    assert(has_reputation(sourced, s, new_id));
                    let w = choose|w: int|
                        0 <= w < sourced.len() && (#[trigger] sourced[w]).source_id == s && sourced[w].target_id
                            == new_id;
                    assert(edited.reputations[w] == sourced[w]);
                }
            }
        },
        FactionEdit::RemoveFaction { faction_index } => {
            if let Ok(edited) = spec_edit_factions(table, action) {
                let removed = faction_index as u32;
                lemma_remapped_bounded(table.reputations, removed, count);
                let remaining = table.factions.remove(faction_index as int);
                assert forall|i: int| 0 <= i < edited.factions.len() implies ((#[trigger] edited.factions[i]).parent_id matches Some(p) ==> p < count - 1
                    || p == NO_PARENT) by {
                    if i < faction_index {
                        assert(remaining[i] == table.factions[i]);
                    } else {
                        assert(remaining[i] == table.factions[i + 1]);
                    }
                }
            }
        },
        FactionEdit::AddReputation { .. } => {},
        FactionEdit::RemoveReputation { reputation_index } => {
            if let Ok(edited) = spec_edit_factions(table, action) {
                assert forall|i: int| 0 <= i < edited.reputations.len() implies (#[trigger] edited.reputations[i]).source_id
                    < count && edited.reputations[i].target_id < count by {
                    if i < reputation_index {
                        assert(edited.reputations[i] == table.reputations[i]);
                    } else {
                        assert(edited.reputations[i] == table.reputations[i + 1]);
                    }
                }
            }
        },
    }
}

/// Checks that a resource declares the GFF type of a faction before it is
/// edited.
pub fn check_faction_format(file_type: &str) -> (result: Result<(), EditError>)
    ensures
        result is Ok == (file_type@ == "FAC "@),
        result matches Err(error) ==> error == EditError::FactionFormatInvalid,
{
    if text_equal(file_type, "FAC ") {
        Ok(())
    } else {
        Err(EditError::FactionFormatInvalid)
    }
}

/// An id as it reads once faction `removed` is gone: one less above it.
pub open spec fn id_after_removal(id: u32, removed: u32) -> int {
    if id > removed {
        id - 1
    } else {
        id as int
    }
}

/// The reputation `record` comes from the one at position `at` of
/// `reputations`, which does not involve faction `removed`: same value, ids
/// read as after the removal.
pub open spec fn kept_from(reputations: Seq<ReputationRecord>, record: ReputationRecord, removed: u32, at: int) -> bool {
    &&& 0 <= at < reputations.len()
    &&& reputations[at].source_id != removed && reputations[at].target_id != removed
    &&& record.source_id == id_after_removal(reputations[at].source_id, removed)
    &&& record.target_id == id_after_removal(reputations[at].target_id, removed)
    &&& record.value == reputations[at].value
}

/// The reputations `kept` are those of `reputations` that do not involve
/// faction `removed`, in their order, with ids read as after the removal and
/// their values: `from[j]` is the position of the old reputation that
/// `kept[j]` comes from.
pub open spec fn kept_in_order(
    reputations: Seq<ReputationRecord>,
    kept: Seq<ReputationRecord>,
    removed: u32,
    from: Seq<int>,
) -> bool {
    &&& from.len() == kept.len()
    &&& forall|a: int, b: int| 0 <= a < b < from.len() ==> #[trigger] from[a] < #[trigger] from[b]
    &&& forall|j: int| 0 <= j < kept.len() ==> #[trigger] kept_from(reputations, kept[j], removed, from[j])
    &&& forall|i: int|
        0 <= i < reputations.len() && (#[trigger] reputations[i]).source_id != removed
            && reputations[i].target_id != removed ==> exists|j: int| 0 <= j < from.len() && from[j] == i
}

/// The reputations that remain after a removal are the old ones that do not
/// involve the removed faction, in order and with their values.
proof fn lemma_remapped_reputations_kept(reputations: Seq<ReputationRecord>, removed: u32) -> (from: Seq<int>)
    ensures
        kept_in_order(reputations, remapped_reputations(reputations, removed), removed, from),
    decreases reputations.len(),
{
    if reputations.len() == 0 {
        seq![]
    } else {
        let earlier = reputations.drop_last();
        let before = lemma_remapped_reputations_kept(earlier, removed);
        let kept = remapped_reputations(reputations, removed);
        let last = reputations.len() - 1;
        let r = reputations.last();
        let from = if r.source_id == removed || r.target_id == removed {
            before
        } else {
            before.push(last)
        };
        let kept_earlier = remapped_reputations(earlier, removed);
        assert(kept_in_order(earlier, kept_earlier, removed, before));
        assert(kept_earlier.len() == before.len());
        if r.source_id == removed || r.target_id == removed {
            assert(kept == kept_earlier);
        } else {
            assert(kept.len() == kept_earlier.len() + 1);
        }
        assert forall|j: int| 0 <= j < before.len() implies 0 <= before[j] < earlier.len()
            && reputations[before[j]] == earlier[before[j]] && #[trigger] kept[j] == kept_earlier[j] by {
            assert(kept_from(earlier, kept_earlier[j], removed, before[j]));
        }
        assert forall|j: int| 0 <= j < kept.len() implies #[trigger] kept_from(
            reputations,
            kept[j],
            removed,
            from[j],
        ) by {
            if j < before.len() {
                assert(kept[j] == kept_earlier[j]);
                assert(kept_from(earlier, kept_earlier[j], removed, before[j]));
                assert(from[j] == before[j]);
            } else {
                assert(from[j] == last);
                assert(reputations[last] == r);
            }
        }
        assert forall|a: int, b: int| 0 <= a < b < from.len() implies #[trigger] from[a] < #[trigger] from[b] by {
            assert(kept_earlier.len() == before.len());
            if b < before.len() {
                assert(from[a] == before[a] && from[b] == before[b]);
            } else {
                assert(from[a] == before[a]);
                assert(kept_from(earlier, kept_earlier[a], removed, before[a]));
            }
        }
        assert forall|i: int|
            0 <= i < reputations.len() && (#[trigger] reputations[i]).source_id != removed
                && reputations[i].target_id != removed implies exists|j: int| 0 <= j < from.len() && from[j]
            == i by {
            if i < last {
                assert(earlier[i] == reputations[i]);
                let j = choose|j: int| 0 <= j < before.len() && before[j] == i;
                assert(from[j] == i);
            } else {
                assert(from[from.len() - 1] == i);
            }
        }
        assert(kept_in_order(reputations, kept, removed, from));
        from
    }
}

/// Removing a faction keeps every reputation between two other factions, in
/// their order and with their values; only ids above the removed one are
/// lowered by one, and the reputations of the removed faction go. The other
/// factions keep their order and names, and a parent id is kept, lowered by
/// one above the removed faction, or none where it was the removed faction.
pub proof fn law_remove_faction_keeps_other_reputations(table: FactionTableView, faction_index: usize)
    requires
        spec_edit_factions(table, FactionEdit::RemoveFaction { faction_index }) is Ok,
    ensures
        ({
            let after = spec_edit_factions(table, FactionEdit::RemoveFaction { faction_index })->Ok_0;
            let removed = faction_index as u32;
            &&& 0 < faction_index < table.factions.len()
            &&& exists|from: Seq<int>|
                #[trigger] kept_in_order(table.reputations, after.reputations, removed, from)
            &&& after.factions.len() == table.factions.len() - 1
            &&& forall|i: int|
                0 <= i < after.factions.len() ==> {
                    let old = if i < faction_index {
                        table.factions[i]
                    } else {
                        table.factions[i + 1]
                    };
                    &&& (#[trigger] after.factions[i]).name == old.name
                    &&& match old.parent_id {
                        None => after.factions[i].parent_id is None,
                        Some(p) => after.factions[i].parent_id == Some(
                            if p == removed {
                                NO_PARENT
                            } else if p != NO_PARENT && p > removed {
                                (p - 1) as u32
                            } else {
                                p
                            },
                        ),
                    }
                }
        }),
{
    let removed = faction_index as u32;
    let from = lemma_remapped_reputations_kept(table.reputations, removed);
    let after = spec_edit_factions(table, FactionEdit::RemoveFaction { faction_index })->Ok_0;
    assert(kept_in_order(table.reputations, after.reputations, removed, from));
}

/// Removing a reputation takes out exactly the one at `reputation_index`,
/// and is refused only where there is none: those before it keep their
/// places, those after it move down by one, and the factions are unchanged.
pub proof fn law_remove_reputation_takes_out_that_one(table: FactionTableView, reputation_index: usize)
    ensures
        spec_edit_factions(table, FactionEdit::RemoveReputation { reputation_index }) is Ok == (
        reputation_index < table.reputations.len()),
        spec_edit_factions(table, FactionEdit::RemoveReputation { reputation_index }) matches Ok(after)
            ==> {
            &&& after.factions == table.factions
            &&& after.reputations.len() == table.reputations.len() - 1
            &&& forall|i: int|
                0 <= i < reputation_index ==> #[trigger] after.reputations[i] == table.reputations[i]
            &&& forall|i: int|
                reputation_index <= i < after.reputations.len() ==> #[trigger] after.reputations[i]
                    == table.reputations[i + 1]
        },
{
}

/// Adding a reputation puts it, with the ids and value it was given, after
/// the reputations already in the table, which keep their places; the
/// factions are unchanged. The value is at most 100, the endpoints are
/// factions of the table, the target is not the player faction, and no
/// reputation between the two existed before.
pub proof fn law_add_reputation_appends_it(table: FactionTableView, source_id: u32, target_id: u32, value: u32)
    ensures
        spec_edit_factions(table, FactionEdit::AddReputation { source_id, target_id, value }) matches Ok(
            after,
        ) ==> {
            &&& after.factions == table.factions
            &&& after.reputations.len() == table.reputations.len() + 1
            &&& forall|i: int|
                0 <= i < table.reputations.len() ==> #[trigger] after.reputations[i] == table.reputations[i]
            &&& after.reputations[table.reputations.len() as int] == (ReputationRecord {
                source_id,
                target_id,
                value,
            })
            &&& value <= 100 && source_id < table.factions.len() && 0 < target_id < table.factions.len()
            &&& forall|i: int|
                0 <= i < table.reputations.len() ==> !((#[trigger] table.reputations[i]).source_id == source_id
                    && table.reputations[i].target_id == target_id)
        },
{
}

} // verus!
