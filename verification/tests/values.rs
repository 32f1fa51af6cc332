use aurora_forge::area::{
    validate_area_environment_patch, AreaEnvironmentChecks, as_i32, as_u32, as_u8, validate_area_audio_patch,
    AreaAudioPatch, TileState,
};
use aurora_forge::dialogue::{dialogue_list_labels, dialogue_outgoing_labels, DialogueNodeKind};
use aurora_forge::digest::{hex_text, is_sha256, sha256_bytes, valid_sha256};
use aurora_forge::error::EditError;
use aurora_forge::resource::{walkmesh_extension, ResourceKey, WalkmeshKind};
use aurora_forge::text::{is_blank, validate_faction_name, validate_journal_tag, validate_resref};

#[test]
fn audio_patches_and_tile_orientations_are_bounded() {
    let patch = AreaAudioPatch { ambient_sound_day: Some(3), ambient_sound_day_volume: Some(127), ..Default::default() };
    assert_eq!(validate_area_audio_patch(&patch), Ok(()));
    let loud = AreaAudioPatch { ambient_sound_night_volume: Some(128), ..Default::default() };
    assert_eq!(validate_area_audio_patch(&loud), Err(EditError::AreaAudioInvalid));
    let negative = AreaAudioPatch { music_delay: Some(-1), ..Default::default() };
    assert_eq!(validate_area_audio_patch(&negative), Err(EditError::AreaAudioInvalid));
    assert!(TileState { tile_id: 4, orientation: 3, height: 0 }.orientation_valid());
    assert!(!TileState { tile_id: 4, orientation: 4, height: 0 }.orientation_valid());
}

#[test]
fn narrowing_keeps_only_values_that_fit() {
    assert_eq!(as_u8(255), Some(255));
    assert_eq!(as_u8(256), None);
    assert_eq!(as_u8(-1), None);
    assert_eq!(as_u32(4_294_967_295), Some(u32::MAX));
    assert_eq!(as_u32(4_294_967_296), None);
    assert_eq!(as_i32(-2_147_483_648), Some(i32::MIN));
    assert_eq!(as_i32(2_147_483_648), None);
}

#[test]
fn dialogue_labels_name_both_list_spellings() {
    assert_eq!(dialogue_list_labels(DialogueNodeKind::Entry), vec!["EntryList", "EntriesList"]);
    assert_eq!(dialogue_list_labels(DialogueNodeKind::Reply), vec!["ReplyList", "RepliesList"]);
    assert_eq!(dialogue_outgoing_labels(DialogueNodeKind::Entry), vec!["RepliesList", "ReplyList"]);
    assert_eq!(dialogue_outgoing_labels(DialogueNodeKind::Reply), vec!["EntriesList", "EntryList"]);
}

#[test]
fn digests_are_lower_case_hex_of_sha256() {
    assert_eq!(sha256_bytes(b""), "e3b0c44298fc1c149afbf4c8996fb92427ae41e4649b934ca495991b7852b855");
    assert_eq!(hex_text(&[0x00, 0xab, 0x7f]), "00ab7f");
    let upper = "E3B0C44298FC1C149AFBF4C8996FB92427AE41E4649B934CA495991B7852B855";
    assert!(valid_sha256(upper));
    assert!(is_sha256(&sha256_bytes(b"abc")));
    assert!(!valid_sha256("e3b0"));
    assert!(!valid_sha256(&"g".repeat(64)));
}

#[test]
fn names_and_tags_follow_their_rules() {
    assert!(is_blank(" \t\n"));
    assert!(!is_blank(" a "));
    assert_eq!(validate_resref("plc_table1"), Ok(()));
    assert_eq!(validate_resref(""), Err(EditError::ResrefInvalid));
    assert_eq!(validate_resref("seventeen_chars_x"), Err(EditError::ResrefInvalid));
    assert_eq!(validate_journal_tag("Main-Quest_1"), Ok(()));
    assert_eq!(validate_journal_tag("main quest"), Err(EditError::JournalTagInvalid));
    assert_eq!(validate_faction_name("Merchants"), Ok(()));
    assert_eq!(validate_faction_name("a\rb"), Err(EditError::FactionNameInvalid));
}

#[test]
fn resource_file_names_use_the_type_extension() {
    assert_eq!(ResourceKey::new("start", 2009).file_name(), "start.nss");
    assert_eq!(ResourceKey::new("odd", 65000).file_name(), "odd.65000");
}

#[test]
fn walkmesh_kinds_name_their_file_extension_and_type() {
    assert_eq!(walkmesh_extension(WalkmeshKind::Wok), "wok");
    assert_eq!(walkmesh_extension(WalkmeshKind::Pwk), "pwk");
    assert_eq!(walkmesh_extension(WalkmeshKind::Dwk), "dwk");
    assert_eq!(WalkmeshKind::Dwk.resource_type(), 2052);
    assert_eq!(WalkmeshKind::Pwk.resource_type(), 2053);
}

fn environment() -> AreaEnvironmentChecks {
    AreaEnvironmentChecks {
        tag: Some("TOWN".to_owned()),
        comments: Some("A quiet town".to_owned()),
        player_vs_player: Some(2),
        chance_rain: Some(100),
        chance_snow: None,
        chance_lightning: Some(0),
        wind_power: Some(1),
        fog_clip_distance_ok: true,
        shadow_opacity: Some(100),
        on_enter: Some("town_enter".to_owned()),
        on_exit: Some(String::new()),
        on_heartbeat: None,
        on_user_defined: None,
    }
}

#[test]
fn environment_patches_stay_within_engine_bounds() {
    assert_eq!(validate_area_environment_patch(&environment()), Ok(()));
    let invalid = Err(EditError::AreaEnvironmentInvalid);
    let mut tag = environment();
    tag.tag = Some("bad\ttag".to_owned());
    assert_eq!(validate_area_environment_patch(&tag), invalid);
    let mut empty_tag = environment();
    empty_tag.tag = Some(String::new());
    assert_eq!(validate_area_environment_patch(&empty_tag), invalid);
    let mut comments = environment();
    comments.comments = Some("a\0b".to_owned());
    assert_eq!(validate_area_environment_patch(&comments), invalid);
    let mut rain = environment();
    rain.chance_rain = Some(101);
    assert_eq!(validate_area_environment_patch(&rain), invalid);
    let mut fog = environment();
    fog.fog_clip_distance_ok = false;
    assert_eq!(validate_area_environment_patch(&fog), invalid);
    let mut script = environment();
    script.on_heartbeat = Some("Bad Script".to_owned());
    assert_eq!(validate_area_environment_patch(&script), Err(EditError::ResrefInvalid));
    let mut both = script.clone();
    both.wind_power = Some(3);
    assert_eq!(validate_area_environment_patch(&both), invalid);
}
