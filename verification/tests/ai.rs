use aurora_forge::ai::{ai_change_set_sha256, confirm_ai_change_set, validate_controlled_ai_change_set, AiChangeSet};
use aurora_forge::area::TileState;
use aurora_forge::commands::{passes_self_check, EditCommand, ResourceContentDigest};
use aurora_forge::digest::sha256_bytes;
use aurora_forge::error::EditError;
use aurora_forge::resource::ResourceKey;

fn set_field(resref: &str, resource_type: u16, path: &str, size: usize) -> EditCommand {
    EditCommand::SetField {
        resource: ResourceKey::new(resref, resource_type),
        path: path.to_owned(),
        before_json: "1".repeat(size),
        after_json: "2".repeat(size),
    }
}

fn script(resource_type: u16, after: usize) -> EditCommand {
    EditCommand::ReplaceText {
        resource: ResourceKey::new("start", resource_type),
        before: "a".to_owned(),
        after: "b".repeat(after),
    }
}

fn proposal(summary: &str, commands: Vec<EditCommand>) -> AiChangeSet {
    AiChangeSet { summary: summary.to_owned(), commands }
}

fn digest(text: &str) -> ResourceContentDigest {
    ResourceContentDigest { resource: ResourceKey::new("start", 2009), content_sha256: text.to_owned() }
}

#[test]
fn a_bounded_field_and_script_proposal_passes() {
    let change_set = proposal("Rename the module", vec![set_field("module", 2014, "Mod_Name", 12), script(2009, 20)]);
    assert_eq!(validate_controlled_ai_change_set(&change_set, 400), Ok(()));
}

#[test]
fn proposals_are_refused_at_their_first_broken_rule() {
    let check = |summary: &str, commands: Vec<EditCommand>, size: usize| {
        validate_controlled_ai_change_set(&proposal(summary, commands), size)
    };
    let ok = vec![set_field("module", 2014, "Mod_Name", 12)];
    assert_eq!(check("  ", ok.clone(), 10), Err(EditError::AiSummaryInvalid));
    assert_eq!(check("s", Vec::new(), 10), Err(EditError::AiCommandCountInvalid));
    assert_eq!(check("s", vec![set_field("module", 2014, "Mod_Name", 1); 33], 10), Err(EditError::AiCommandCountInvalid));
    assert_eq!(check("s", ok.clone(), 1_048_577), Err(EditError::AiProposalTooLarge));
    let removal = EditCommand::RemoveInstance { area: "town".to_owned(), instance_id: "town:List:0".to_owned() };
    assert_eq!(check("s", vec![removal], 10), Err(EditError::AiCommandUnsupported));
    let creation = EditCommand::CreateResource { resource: ResourceKey::new("start", 2009), content_sha256: "xyz".to_owned() };
    assert_eq!(check("s", vec![creation], 10), Err(EditError::AiCommandInvalid));
    assert_eq!(check("s", vec![set_field("module", 2014, " ", 1)], 10), Err(EditError::AiCommandInvalid));
    assert_eq!(check("s", vec![set_field("Module", 2014, "Mod_Name", 1)], 10), Err(EditError::ResrefInvalid));
    assert_eq!(check("s", vec![set_field("module", 2009, "Mod_Name", 1)], 10), Err(EditError::AiResourceTypeUnsupported));
    assert_eq!(check("s", vec![set_field("module", 2014, "Mod_Name", 65_537)], 10), Err(EditError::AiFieldOperationTooLarge));
    assert_eq!(check("s", vec![script(2010, 1)], 10), Err(EditError::AiResourceTypeUnsupported));
    assert_eq!(check("s", vec![script(2009, 262_145)], 10), Err(EditError::AiScriptTooLarge));
    assert_eq!(check("s", vec![script(2009, 8_388_609)], 10), Err(EditError::AiCommandInvalid));
    let first_error_wins = vec![set_field("module", 2014, "Mod_Name", 1), set_field("Bad", 2014, "p", 1), set_field("module", 2009, "p", 1)];
    assert_eq!(check("s", first_error_wins, 10), Err(EditError::ResrefInvalid));
}

#[test]
fn a_valid_proposal_is_digested_from_its_encoding() {
    let change_set = proposal("Rename", vec![set_field("module", 2014, "Mod_Name", 3)]);
    let encoded = br#"{"summary":"Rename"}"#;
    assert_eq!(ai_change_set_sha256(&change_set, encoded), Ok(sha256_bytes(encoded)));
    let refused = proposal(" ", vec![set_field("module", 2014, "Mod_Name", 3)]);
    assert_eq!(ai_change_set_sha256(&refused, encoded), Err(EditError::AiSummaryInvalid));
}

#[test]
fn commands_check_their_own_digests_and_bounds() {
    let valid = "a".repeat(64);
    let tile = |orientation: u8| TileState { tile_id: 1, orientation, height: 0 };
    assert!(passes_self_check(&EditCommand::SetTile { area: "a".into(), x: 0, y: 0, before: tile(3), after: tile(0) }));
    assert!(!passes_self_check(&EditCommand::SetTile { area: "a".into(), x: 0, y: 0, before: tile(4), after: tile(0) }));
    assert!(passes_self_check(&EditCommand::TransformResource {
        resource: ResourceKey::new("a", 2014),
        operation: "retype".into(),
        before_sha256: valid.clone(),
        after_sha256: valid.to_uppercase(),
    }));
    assert!(!passes_self_check(&EditCommand::TransformResource {
        resource: ResourceKey::new("a", 2014),
        operation: " ".into(),
        before_sha256: valid.clone(),
        after_sha256: valid.clone(),
    }));
    assert!(!passes_self_check(&EditCommand::CreateResourceSet { resources: Vec::new() }));
    assert!(passes_self_check(&EditCommand::DeleteResourceSet { resources: vec![digest(&valid)] }));
    assert!(!passes_self_check(&EditCommand::DeleteResourceSet { resources: vec![digest(&valid), digest("00")] }));
    let compile = |before: Option<String>, inputs: Vec<ResourceContentDigest>| EditCommand::CompileScript {
        resource: ResourceKey::new("start", 2010),
        inputs,
        compiler_sha256: valid.clone(),
        before_sha256: before,
        after_sha256: valid.clone(),
    };
    assert!(passes_self_check(&compile(None, vec![digest(&valid)])));
    assert!(!passes_self_check(&compile(Some("0".into()), vec![digest(&valid)])));
    assert!(!passes_self_check(&compile(None, Vec::new())));
    assert!(!passes_self_check(&EditCommand::AddInstance {
        area: "a".into(),
        instance_id: "a:List:0".into(),
        placement_json: "{}".into(),
        placement_finite: false,
    }));
    assert!(passes_self_check(&EditCommand::MoveInstance {
        area: "a".into(),
        instance_id: "a:List:0".into(),
        before_json: "{}".into(),
        after_json: "{}".into(),
    }));
}

#[test]
fn rejects_uncontrolled_ai_commands_and_changed_confirmations() {
    let unsupported = AiChangeSet {
        summary: "Déplacer une instance".to_owned(),
        commands: vec![EditCommand::MoveInstance {
            area: "startarea".to_owned(),
            instance_id: "creature:0".to_owned(),
            before_json: r#"{"x":0.0,"y":0.0,"z":0.0,"bearing":0.0}"#.to_owned(),
            after_json: r#"{"x":1.0,"y":1.0,"z":0.0,"bearing":0.0}"#.to_owned(),
        }],
    };
    assert_eq!(
        validate_controlled_ai_change_set(&unsupported, 256).expect_err("unsupported command").code(),
        "EDIT_AI_COMMAND_UNSUPPORTED"
    );

    let change_set = AiChangeSet {
        summary: "Modifier le script".to_owned(),
        commands: vec![EditCommand::ReplaceText {
            resource: ResourceKey::new("start", 2009),
            before: "void main() {}".to_owned(),
            after: "void main() { int value = 1; }".to_owned(),
        }],
    };
    let encoded = br#"{"summary":"Modifier le script"}"#;
    assert_eq!(
        confirm_ai_change_set(&change_set, encoded, &"0".repeat(64)).expect_err("changed confirmation").code(),
        "EDIT_AI_PROPOSAL_CHANGED"
    );
}

#[test]
fn a_confirmed_proposal_gives_back_its_digest() {
    let change_set = proposal("Rename", vec![set_field("module", 2014, "Mod_Name", 3)]);
    let encoded = br#"{"summary":"Rename"}"#;
    let expected = sha256_bytes(encoded);
    assert_eq!(confirm_ai_change_set(&change_set, encoded, &expected), Ok(expected.clone()));
    let refused = proposal("", vec![set_field("module", 2014, "Mod_Name", 3)]);
    assert_eq!(confirm_ai_change_set(&refused, encoded, &expected), Err(EditError::AiSummaryInvalid));
}
