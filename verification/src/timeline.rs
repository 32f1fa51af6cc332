//! The undoable history of an editing workspace: the logical value that each
//! command changes, the commands applied so far and the cursor that undo and
//! redo move.
use crate::error::EditError;
use crate::resource::{copy_string, text_equal};
use vstd::prelude::*;

verus! {

/// The logical change that a command makes: the value it expects at its
/// target and the value it leaves there. Values are canonical JSON texts.
#[derive(Debug, Clone, PartialEq, Eq)]
pub struct CommandEffect {
    pub target: String,
    pub before: String,
    pub after: String,
}

/// A command's change by its texts.
pub struct EffectView {
    pub target: Seq<char>,
    pub before: Seq<char>,
    pub after: Seq<char>,
}

impl CommandEffect {
    pub open spec fn view(&self) -> EffectView {
        EffectView { target: self.target@, before: self.before@, after: self.after@ }
    }

    /// A copy with the same texts.
    pub fn copy_effect(&self) -> (copy: CommandEffect)
        ensures
            copy.view() == self.view(),
    {
        CommandEffect {
            target: copy_string(&self.target),
            before: copy_string(&self.before),
            after: copy_string(&self.after),
        }
    }
}

/// The value recorded for one target.
#[derive(Debug, Clone, PartialEq, Eq)]
pub struct TargetValue {
    pub target: String,
    pub value: String,
}

/// The value that the entries record for `target`: the last entry for it.
pub open spec fn lookup(values: Seq<TargetValue>, target: Seq<char>) -> Option<Seq<char>>
    decreases values.len(),
{
    if values.len() == 0 {
        None
    } else if values.last().target@ == target {
        Some(values.last().value@)
    } else {
        lookup(values.drop_last(), target)
    }
}

/// The value that counts at a target: the recorded one, else `default`.
pub open spec fn value_or(values: Seq<TargetValue>, target: Seq<char>, default: Seq<char>) -> Seq<char> {
    match lookup(values, target) {
        Some(value) => value,
        None => default,
    }
}

/// The recorded values as a map from target to value.
pub open spec fn values_map(values: Seq<TargetValue>) -> Map<Seq<char>, Seq<char>> {
    Map::new(|k: Seq<char>| lookup(values, k) is Some, |k: Seq<char>| lookup(values, k)->0)
}

/// A history as a mathematical value.
pub struct TimelineModel {
    pub values: Map<Seq<char>, Seq<char>>,
    pub commands: Seq<EffectView>,
    pub cursor: nat,
}

/// The value that counts at a target: the recorded one, else `default`.
pub open spec fn model_value(values: Map<Seq<char>, Seq<char>>, target: Seq<char>, default: Seq<char>) -> Seq<char> {
    if values.contains_key(target) {
        values[target]
    } else {
        default
    }
}

/// Applying a command: refused (none) unless its target holds the value it
/// expects; else the commands after the cursor are dropped, the command is
/// appended, its result recorded and the cursor set after it.
pub open spec fn timeline_apply(model: TimelineModel, effect: EffectView) -> Option<TimelineModel> {
    if model_value(model.values, effect.target, effect.before) == effect.before {
        Some(
            TimelineModel {
                values: model.values.insert(effect.target, effect.after),
                commands: model.commands.take(model.cursor as int).push(effect),
                cursor: model.cursor + 1,
            },
        )
    } else {
        None
    }
}

/// Undoing: nothing to undo at the start; a conflict where the target no
/// longer holds the command's result; else its expected value is recorded
/// again and the cursor moves back.
pub open spec fn timeline_undo(model: TimelineModel) -> Result<TimelineModel, EditError> {
    if model.cursor == 0 {
        Err(EditError::NothingToUndo)
    } else {
        let command = model.commands[model.cursor - 1];
        if model_value(model.values, command.target, command.after) != command.after {
            Err(EditError::UndoConflict)
        } else {
            Ok(
                TimelineModel {
                    values: model.values.insert(command.target, command.before),
                    commands: model.commands,
                    cursor: (model.cursor - 1) as nat,
                },
            )
        }
    }
}

/// Redoing: nothing to redo at the end; a conflict where the target no longer
/// holds the value the command expects; else its result is recorded again and
/// the cursor moves on.
pub open spec fn timeline_redo(model: TimelineModel) -> Result<TimelineModel, EditError> {
    if model.cursor >= model.commands.len() {
        Err(EditError::NothingToRedo)
    } else {
        let command = model.commands[model.cursor as int];
        if model_value(model.values, command.target, command.before) != command.before {
            Err(EditError::RedoConflict)
        } else {
            Ok(
                TimelineModel {
                    values: model.values.insert(command.target, command.after),
                    commands: model.commands,
                    cursor: model.cursor + 1,
                },
            )
        }
    }
}

proof fn lemma_value_or_model(values: Seq<TargetValue>, target: Seq<char>, default: Seq<char>)
    ensures
        value_or(values, target, default) == model_value(values_map(values), target, default),
{
}

proof fn lemma_values_map_insert(before: Seq<TargetValue>, after: Seq<TargetValue>, target: Seq<char>, value: Seq<char>)
    requires
        forall|k: Seq<char>|
            #[trigger] lookup(after, k) == if k == target {
                Some(value)
            } else {
                lookup(before, k)
            },
    ensures
        values_map(after) == values_map(before).insert(target, value),
{
    assert(values_map(after) =~= values_map(before).insert(target, value)) by {
        assert forall|k: Seq<char>| #[trigger] values_map(after).contains_key(k) == values_map(before).insert(target, value).contains_key(k) by {
            assert(lookup(after, k) == if k == target { Some(value) } else { lookup(before, k) });
        }
        assert forall|k: Seq<char>| values_map(after).contains_key(k) implies #[trigger] values_map(after)[k] == values_map(before).insert(target, value)[k] by {
            assert(lookup(after, k) == if k == target { Some(value) } else { lookup(before, k) });
        }
    }
}

/// The recorded values, the applied commands (those before the cursor are in
/// effect, those after it can be redone) and the cursor.
pub struct EditTimeline {
    values: Vec<TargetValue>,
    commands: Vec<CommandEffect>,
    cursor: usize,
}

impl EditTimeline {
    pub closed spec fn values(&self) -> Seq<TargetValue> {
        self.values@
    }

    pub closed spec fn commands(&self) -> Seq<EffectView> {
        self.commands@.map_values(|c: CommandEffect| c.view())
    }

    pub closed spec fn spec_cursor(&self) -> nat {
        self.cursor as nat
    }

    /// The history as a mathematical value.
    pub open spec fn model(&self) -> TimelineModel {
        TimelineModel { values: values_map(self.values()), commands: self.commands(), cursor: self.spec_cursor() }
    }

    /// The cursor never passes the end of the history.
    pub open spec fn well_formed(&self) -> bool {
        self.spec_cursor() <= self.commands().len()
    }

    /// An empty history.
    pub fn new() -> (timeline: EditTimeline)
        ensures
            timeline.well_formed(),
            timeline.values().len() == 0,
            timeline.commands().len() == 0,
            timeline.spec_cursor() == 0,
    {
        let timeline = EditTimeline { values: Vec::new(), commands: Vec::new(), cursor: 0 };
        assert(timeline.commands() =~= Seq::<EffectView>::empty());
        timeline
    }

    /// A history as it was saved; refused where the cursor passes its end.
    pub fn restore(values: Vec<TargetValue>, commands: Vec<CommandEffect>, cursor: usize) -> (result: Result<EditTimeline, EditError>)
        ensures
            match result {
                Ok(timeline) => timeline.well_formed() && timeline.values() == values@
                    && timeline.commands() == commands@.map_values(|c: CommandEffect| c.view())
                    && timeline.spec_cursor() == cursor,
                Err(error) => cursor > commands@.len() && error == EditError::PreconditionFailed,
            },
    {
        if cursor > commands.len() {
            return Err(EditError::PreconditionFailed);
        }
        Ok(EditTimeline { values, commands, cursor })
    }

    pub fn cursor(&self) -> (cursor: usize)
        ensures
            cursor == self.spec_cursor(),
    {
        self.cursor
    }

    pub fn command_count(&self) -> (count: usize)
        ensures
            count == self.commands().len(),
    {
        self.commands.len()
    }

    pub fn can_undo(&self) -> (can: bool)
        ensures
            can == (self.spec_cursor() > 0),
    {
        self.cursor > 0
    }

    pub fn can_redo(&self) -> (can: bool)
        ensures
            can == (self.spec_cursor() < self.commands().len()),
    {
        self.cursor < self.commands.len()
    }

    fn find_value(&self, target: &str) -> (found: Option<usize>)
        ensures
            match found {
                Some(i) => i < self.values().len() && self.values()[i as int].target@ == target@
                    && lookup(self.values(), target@) == Some(self.values()[i as int].value@)
                    && forall|j: int| i < j < self.values().len() ==> (#[trigger] self.values()[j]).target@ != target@,
                None => lookup(self.values(), target@) is None,
            },
    {
        let mut i: usize = self.values.len();
        assert(self.values@.take(i as int) =~= self.values@);
        while i > 0
            invariant
                i <= self.values@.len(),
                forall|j: int| i <= j < self.values@.len() ==> (#[trigger] self.values@[j]).target@ != target@,
                lookup(self.values@, target@) == lookup(self.values@.take(i as int), target@),
            decreases i,
        {
            proof {
                let prefix = self.values@.take(i as int);
                assert(prefix.drop_last() =~= self.values@.take(i - 1));
                assert(prefix.last() == self.values@[i - 1]);
            }
            if text_equal(self.values[i - 1].target.as_str(), target) {
                return Some(i - 1);
            }
            i -= 1;
        }
        proof {
            assert(self.values@.take(0) =~= Seq::<TargetValue>::empty());
        }
        None
    }

    /// The value that counts at `target`: the recorded one, else `default`.
    pub fn current_value(&self, target: &str, default: &str) -> (value: String)
        ensures
            value@ == value_or(self.values(), target@, default@),
    {
        match self.find_value(target) {
            Some(i) => copy_string(&self.values[i].value),
            None => default.to_owned(),
        }
    }

    /// Records `value` at `target`.
    fn set_value(&mut self, target: &str, value: &str)
        ensures
            forall|k: Seq<char>|
                #[trigger] lookup(final(self).values(), k) == if k == target@ {
                    Some(value@)
                } else {
                    lookup(old(self).values(), k)
                },
            final(self).commands@ == old(self).commands@,
            final(self).cursor == old(self).cursor,
    {
        let found = self.find_value(target);
        match found {
            Some(i) => {
                let ghost before = self.values@;
                let entry = TargetValue { target: target.to_owned(), value: value.to_owned() };
                self.values.set(i, entry);
                proof {
                    assert forall|k: Seq<char>| #[trigger] lookup(self.values@, k) == if k == target@ {
                        Some(value@)
                    } else {
                        lookup(before, k)
                    } by {
                        lemma_lookup_update(before, i as int, self.values@[i as int], k);
                    }
                }
            },
            None => {
                self.values.push(TargetValue { target: target.to_owned(), value: value.to_owned() });
                proof {
                    assert(self.values@.drop_last() =~= old(self).values@);
                }
            },
        }
    }

    /// A command can be applied when the value at its target is the one it
    /// expects (a target without a recorded value holds what it expects).
    pub open spec fn spec_preview(&self, effect: EffectView) -> bool {
        value_or(self.values(), effect.target, effect.before) == effect.before
    }

    pub fn preview(&self, effect: &CommandEffect) -> (valid: bool)
        ensures
            valid == self.spec_preview(effect.view()),
            valid == timeline_apply(self.model(), effect.view()) is Some,
    {
        proof {
            lemma_value_or_model(self.values(), effect.target@, effect.before@);
        }
        let current = self.current_value(effect.target.as_str(), effect.before.as_str());
        text_equal(current.as_str(), effect.before.as_str())
    }

    /// Applies a command: drops the commands after the cursor, records the
    /// command's result at its target, appends the command and moves the
    /// cursor to the end. A command whose expectation does not hold is
    /// refused and changes nothing.
    pub fn apply(&mut self, effect: &CommandEffect) -> (result: Result<(), EditError>)
        requires
            old(self).well_formed(),
        ensures
            final(self).well_formed(),
            result is Ok == old(self).spec_preview(effect.view()),
            result matches Err(error) ==> error == EditError::PreconditionFailed && final(self).values()
                == old(self).values() && final(self).commands() == old(self).commands()
                && final(self).spec_cursor() == old(self).spec_cursor(),
            result is Ok ==> timeline_apply(old(self).model(), effect.view()) == Some(final(self).model()),
    {
        if !self.preview(effect) {
            return Err(EditError::PreconditionFailed);
        }
        let ghost before_commands = self.commands();
        self.commands.truncate(self.cursor);
        self.set_value(effect.target.as_str(), effect.after.as_str());
        self.commands.push(effect.copy_effect());
        self.cursor = self.commands.len();
        proof {
            assert(self.commands() =~= before_commands.take(old(self).spec_cursor() as int).push(
                effect.view(),
            ));
            lemma_value_or_model(old(self).values(), effect.target@, effect.before@);
            lemma_values_map_insert(old(self).values(), self.values(), effect.target@, effect.after@);
        }
        Ok(())
    }

    /// Undoes the command before the cursor, provided its target still holds
    /// the command's result: records the value it expected and moves the
    /// cursor back. Returns the command undone.
    pub fn undo(&mut self) -> (result: Result<CommandEffect, EditError>)
        requires
            old(self).well_formed(),
        ensures
            final(self).well_formed(),
            match timeline_undo(old(self).model()) {
                Ok(model) => result matches Ok(effect) && final(self).model() == model
                    && effect.view() == old(self).commands()[old(self).spec_cursor() - 1],
                Err(error) => result == Err::<CommandEffect, EditError>(error) && final(self).model()
                    == old(self).model(),
            },
    {
        if self.cursor == 0 {
            return Err(EditError::NothingToUndo);
        }
        let effect = self.commands[self.cursor - 1].copy_effect();
        let current = self.current_value(effect.target.as_str(), effect.after.as_str());
        if !text_equal(current.as_str(), effect.after.as_str()) {
            return Err(EditError::UndoConflict);
        }
        proof {
            lemma_value_or_model(old(self).values(), effect.target@, effect.after@);
        }
        self.set_value(effect.target.as_str(), effect.before.as_str());
        self.cursor = self.cursor - 1;
        proof {
            lemma_values_map_insert(old(self).values(), self.values(), effect.target@, effect.before@);
        }
        Ok(effect)
    }

    /// Redoes the command at the cursor, provided its target holds the value
    /// the command expects: records its result and moves the cursor on.
    /// Returns the command redone.
    pub fn redo(&mut self) -> (result: Result<CommandEffect, EditError>)
        requires
            old(self).well_formed(),
        ensures
            final(self).well_formed(),
            match timeline_redo(old(self).model()) {
                Ok(model) => result matches Ok(effect) && final(self).model() == model
                    && effect.view() == old(self).commands()[old(self).spec_cursor() as int],
                Err(error) => result == Err::<CommandEffect, EditError>(error) && final(self).model()
                    == old(self).model(),
            },
    {
        if self.cursor >= self.commands.len() {
            return Err(EditError::NothingToRedo);
        }
        let effect = self.commands[self.cursor].copy_effect();
        let current = self.current_value(effect.target.as_str(), effect.before.as_str());
        if !text_equal(current.as_str(), effect.before.as_str()) {
            return Err(EditError::RedoConflict);
        }
        proof {
            lemma_value_or_model(old(self).values(), effect.target@, effect.before@);
        }
        self.set_value(effect.target.as_str(), effect.after.as_str());
        self.cursor = self.cursor + 1;
        proof {
            lemma_values_map_insert(old(self).values(), self.values(), effect.target@, effect.after@);
        }
        Ok(effect)
    }
}

/// Replacing the last entry for a target changes the lookup of that target
/// only.
proof fn lemma_lookup_update(values: Seq<TargetValue>, index: int, entry: TargetValue, key: Seq<char>)
    requires
        0 <= index < values.len(),
        values[index].target@ == entry.target@,
        forall|j: int| index < j < values.len() ==> (#[trigger] values[j]).target@ != entry.target@,
    ensures
        lookup(values.update(index, entry), key) == if key == entry.target@ {
            Some(entry.value@)
        } else {
            lookup(values, key)
        },
    decreases values.len(),
{
    let updated = values.update(index, entry);
    if index < values.len() - 1 {
        assert(updated.last() == values.last());
        assert(updated.drop_last() =~= values.drop_last().update(index, entry));
        lemma_lookup_update(values.drop_last(), index, entry, key);
    } else {
        assert(updated.drop_last() =~= values.drop_last());
    }
}

/// Undo reverts apply: after applying a command and undoing it, the cursor
/// is back where it was, the command stays after the cursor ready to be
/// redone, and every target records what it recorded before, except that the
/// command's target now records the value the command expected (the value it
/// held, where it recorded one).
pub proof fn law_undo_reverts_apply(model: TimelineModel, effect: EffectView)
    requires
        model.cursor <= model.commands.len(),
        timeline_apply(model, effect) is Some,
    ensures
        timeline_undo(timeline_apply(model, effect)->0) matches Ok(undone) && {
            &&& undone.cursor == model.cursor
            &&& undone.commands == model.commands.take(model.cursor as int).push(effect)
            &&& undone.values == model.values.insert(effect.target, effect.before)
            &&& model.values.contains_key(effect.target) ==> undone.values == model.values
        },
{
    let applied = timeline_apply(model, effect)->0;
    assert(applied.commands[applied.cursor - 1] == effect);
    let undone = timeline_undo(applied)->Ok_0;
    assert(undone.values =~= model.values.insert(effect.target, effect.before));
    if model.values.contains_key(effect.target) {
        assert(model.values.insert(effect.target, effect.before) =~= model.values);
    }
}

/// Redo reverts undo: after undoing a command and redoing it, the cursor and
/// the commands are as they were, and every target records what it recorded
/// before, the command's target its result (which it held, where it recorded
/// one).
pub proof fn law_redo_reverts_undo(model: TimelineModel)
    requires
        model.cursor <= model.commands.len(),
        timeline_undo(model) is Ok,
    ensures
        timeline_redo(timeline_undo(model)->Ok_0) matches Ok(redone) && {
            let command = model.commands[model.cursor - 1];
            &&& redone.cursor == model.cursor
            &&& redone.commands == model.commands
            &&& redone.values == model.values.insert(command.target, command.after)
            &&& model.values.contains_key(command.target) ==> redone.values == model.values
        },
{
    let command = model.commands[model.cursor - 1];
    let redone = timeline_redo(timeline_undo(model)->Ok_0)->Ok_0;
    assert(redone.values =~= model.values.insert(command.target, command.after));
    if model.values.contains_key(command.target) {
        assert(model.values.insert(command.target, command.after) =~= model.values);
    }
}

/// Undo reverts redo: after redoing a command and undoing it, the cursor and
/// the commands are as they were, and every target records what it recorded
/// before, the command's target the value the command expects (which it held,
/// where it recorded one).
pub proof fn law_undo_reverts_redo(model: TimelineModel)
    requires
        model.cursor <= model.commands.len(),
        timeline_redo(model) is Ok,
    ensures
        timeline_undo(timeline_redo(model)->Ok_0) matches Ok(undone) && {
            let command = model.commands[model.cursor as int];
            &&& undone.cursor == model.cursor
            &&& undone.commands == model.commands
            &&& undone.values == model.values.insert(command.target, command.before)
            &&& model.values.contains_key(command.target) ==> undone.values == model.values
        },
{
    let command = model.commands[model.cursor as int];
    let undone = timeline_undo(timeline_redo(model)->Ok_0)->Ok_0;
    assert(undone.values =~= model.values.insert(command.target, command.before));
    if model.values.contains_key(command.target) {
        assert(model.values.insert(command.target, command.before) =~= model.values);
    }
}

/// Every step keeps the cursor within the history.
pub proof fn law_cursor_stays_within_history(model: TimelineModel, effect: EffectView)
    requires
        model.cursor <= model.commands.len(),
    ensures
        timeline_apply(model, effect) matches Some(next) ==> next.cursor == next.commands.len(),
        timeline_undo(model) matches Ok(next) ==> next.cursor < next.commands.len(),
        timeline_redo(model) matches Ok(next) ==> next.cursor <= next.commands.len(),
{
}

} // verus!
