use aurora_forge::error::EditError;
use aurora_forge::timeline::{CommandEffect, EditTimeline, TargetValue};

fn effect(target: &str, before: &str, after: &str) -> CommandEffect {
    CommandEffect { target: target.to_owned(), before: before.to_owned(), after: after.to_owned() }
}

#[test]
fn applies_previews_undoes_and_redoes_the_logical_values() {
    let mut timeline = EditTimeline::new();
    let rename = effect("field:module.ifo:Mod_Name", "\"Old\"", "\"New\"");
    assert!(timeline.preview(&rename));
    timeline.apply(&rename).expect("apply");
    assert_eq!(timeline.cursor(), 1);
    assert!(timeline.can_undo());
    assert!(!timeline.can_redo());
    assert_eq!(timeline.current_value("field:module.ifo:Mod_Name", "\"Old\""), "\"New\"");

    let undone = timeline.undo().expect("undo");
    assert_eq!(undone, rename);
    assert_eq!(timeline.cursor(), 0);
    assert!(timeline.can_redo());
    assert_eq!(timeline.current_value("field:module.ifo:Mod_Name", "\"x\""), "\"Old\"");

    let redone = timeline.redo().expect("redo");
    assert_eq!(redone, rename);
    assert_eq!(timeline.cursor(), 1);
    assert_eq!(timeline.current_value("field:module.ifo:Mod_Name", "\"x\""), "\"New\"");
}

#[test]
fn stale_expectations_are_refused() {
    let mut timeline = EditTimeline::new();
    timeline.apply(&effect("t", "1", "2")).expect("apply");
    let stale = effect("t", "1", "3");
    assert!(!timeline.preview(&stale));
    assert_eq!(timeline.apply(&stale), Err(EditError::PreconditionFailed));
    assert_eq!(timeline.cursor(), 1);
    assert_eq!(timeline.command_count(), 1);
    assert_eq!(timeline.current_value("t", "0"), "2");
}

#[test]
fn applying_after_undo_drops_the_redo_branch() {
    let mut timeline = EditTimeline::new();
    timeline.apply(&effect("a", "0", "1")).expect("apply");
    timeline.apply(&effect("b", "0", "1")).expect("apply");
    timeline.undo().expect("undo");
    assert_eq!(timeline.command_count(), 2);
    timeline.apply(&effect("c", "0", "1")).expect("apply");
    assert_eq!(timeline.command_count(), 2);
    assert_eq!(timeline.cursor(), 2);
    assert_eq!(timeline.redo(), Err(EditError::NothingToRedo));
}

#[test]
fn rejected_commands_keep_the_redo_branch() {
    let mut timeline = EditTimeline::new();
    timeline.apply(&effect("a", "0", "1")).expect("apply");
    timeline.undo().expect("undo");
    assert_eq!(timeline.apply(&effect("a", "5", "6")), Err(EditError::PreconditionFailed));
    assert!(timeline.can_redo());
    timeline.redo().expect("the redo branch survives");
}

#[test]
fn undo_and_redo_report_nothing_to_do_and_conflicts() {
    let mut timeline = EditTimeline::new();
    assert_eq!(timeline.undo(), Err(EditError::NothingToUndo));
    assert_eq!(timeline.redo(), Err(EditError::NothingToRedo));
    let values = vec![TargetValue { target: "t".to_owned(), value: "9".to_owned() }];
    let commands = vec![effect("t", "1", "2")];
    let mut restored = EditTimeline::restore(values.clone(), commands.clone(), 1).expect("restore");
    assert_eq!(restored.undo(), Err(EditError::UndoConflict));
    let mut restored = EditTimeline::restore(values, commands.clone(), 0).expect("restore");
    assert_eq!(restored.redo(), Err(EditError::RedoConflict));
    assert!(EditTimeline::restore(Vec::new(), commands, 2).is_err());
}
