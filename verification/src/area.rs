//! Values of area resources that the editor reads and patches: audio and
//! environment settings, tiles, and the narrowing of stored integers.
use crate::error::EditError;
use crate::resource::text_bytes;
use crate::text::{char_vec, valid_resref_text, validate_resref};
use vstd::prelude::*;

verus! {

/// The audio settings of an area; `None` leaves a setting as it is.
#[derive(Debug, Clone, Copy, PartialEq, Eq, Default)]
pub struct AreaAudioPatch {
    pub ambient_sound_day: Option<i32>,
    pub ambient_sound_night: Option<i32>,
    pub ambient_sound_day_volume: Option<u8>,
    pub ambient_sound_night_volume: Option<u8>,
    pub environment_audio: Option<i32>,
    pub music_battle: Option<i32>,
    pub music_day: Option<i32>,
    pub music_night: Option<i32>,
    pub music_delay: Option<i32>,
}

/// A given identifier is not negative.
pub open spec fn audio_id_ok(value: Option<i32>) -> bool {
    value matches Some(v) ==> v >= 0
}

/// A given volume is at most 127.
pub open spec fn audio_volume_ok(value: Option<u8>) -> bool {
    value matches Some(v) ==> v <= 127
}

/// Audio identifiers are not negative and volumes lie within 0..=127.
pub open spec fn audio_patch_ok(patch: AreaAudioPatch) -> bool {
    &&& audio_id_ok(patch.ambient_sound_day)
    &&& audio_id_ok(patch.ambient_sound_night)
    &&& audio_id_ok(patch.environment_audio)
    &&& audio_id_ok(patch.music_battle)
    &&& audio_id_ok(patch.music_day)
    &&& audio_id_ok(patch.music_night)
    &&& audio_id_ok(patch.music_delay)
    &&& audio_volume_ok(patch.ambient_sound_day_volume)
    &&& audio_volume_ok(patch.ambient_sound_night_volume)
}

fn negative(value: Option<i32>) -> (negative: bool)
    ensures
        negative == !audio_id_ok(value),
{
    match value {
        Some(v) => v < 0,
        None => false,
    }
}

fn too_loud(value: Option<u8>) -> (loud: bool)
    ensures
        loud == !audio_volume_ok(value),
{
    match value {
        Some(v) => v > 127,
        None => false,
    }
}

/// Checks an audio patch before it is written to an area.
pub fn validate_area_audio_patch(patch: &AreaAudioPatch) -> (result: Result<(), EditError>)
    ensures
        result is Ok == audio_patch_ok(*patch),
        result matches Err(error) ==> error == EditError::AreaAudioInvalid,
{
    if negative(patch.ambient_sound_day) || negative(patch.ambient_sound_night) || negative(
        patch.environment_audio,
    ) || negative(patch.music_battle) || negative(patch.music_day) || negative(patch.music_night)
        || negative(patch.music_delay) || too_loud(patch.ambient_sound_day_volume) || too_loud(
        patch.ambient_sound_night_volume,
    ) {
        return Err(EditError::AreaAudioInvalid);
    }
    Ok(())
}

/// What the checks on an area's environment read of a patch: its tag and
/// comments, its bounded settings, whether its fog clip distance (if any) is
/// finite and within 1 to 1000 (judged by the caller, who holds the float),
/// and its event scripts; `None` leaves a value as it is.
#[derive(Debug, Clone, PartialEq, Eq)]
pub struct AreaEnvironmentChecks {
    pub tag: Option<String>,
    pub comments: Option<String>,
    pub player_vs_player: Option<u8>,
    pub chance_rain: Option<u8>,
    pub chance_snow: Option<u8>,
    pub chance_lightning: Option<u8>,
    pub wind_power: Option<u8>,
    pub fog_clip_distance_ok: bool,
    pub shadow_opacity: Option<u8>,
    pub on_enter: Option<String>,
    pub on_exit: Option<String>,
    pub on_heartbeat: Option<String>,
    pub on_user_defined: Option<String>,
}

/// A control character (general category `Cc`), as `char::is_control` has it.
pub open spec fn control_char(c: char) -> bool {
    (c as u32) < 0x20 || (0x7f <= (c as u32) && (c as u32) < 0xa0)
}

/// No character of the text is a control character.
pub open spec fn no_control_chars(text: Seq<char>) -> bool {
    forall|i: int| 0 <= i < text.len() ==> !control_char(#[trigger] text[i])
}

/// Whether no character of the text is a control character.
pub fn free_of_control_chars(text: &str) -> (ok: bool)
    ensures
        ok == no_control_chars(text@),
{
    let chars = char_vec(text);
    let mut i: usize = 0;
    while i < chars.len()
        invariant
            i <= chars@.len(),
            chars@ == text@,
            forall|j: int| 0 <= j < i ==> !control_char(#[trigger] chars@[j]),
        decreases chars@.len() - i,
    {
        let code = chars[i] as u32;
        if code < 0x20 || (0x7f <= code && code < 0xa0) {
            assert(control_char(text@[i as int]));
            return false;
        }
        i = i + 1;
    }
    true
}

/// A tag an area accepts: 1 to 64 bytes without control characters.
pub open spec fn area_tag_ok(tag: Seq<char>) -> bool {
    &&& 0 < text_bytes(tag).len() <= 64
    &&& forall|i: int| 0 <= i < tag.len() ==> !control_char(#[trigger] tag[i])
}

/// Comments an area accepts: at most 16 KiB without a NUL character.
pub open spec fn area_comments_ok(comments: Seq<char>) -> bool {
    &&& text_bytes(comments).len() <= 16 * 1024
    &&& forall|i: int| 0 <= i < comments.len() ==> #[trigger] comments[i] != '\0'
}

pub open spec fn at_most(value: Option<u8>, bound: u8) -> bool {
    value matches Some(v) ==> v <= bound
}

/// The settings of an environment patch lie within the engine's bounds.
pub open spec fn environment_values_ok(patch: AreaEnvironmentChecks) -> bool {
    &&& (patch.tag matches Some(tag) ==> area_tag_ok(tag@))
    &&& (patch.comments matches Some(comments) ==> area_comments_ok(comments@))
    &&& at_most(patch.player_vs_player, 2)
    &&& at_most(patch.chance_rain, 100)
    &&& at_most(patch.chance_snow, 100)
    &&& at_most(patch.chance_lightning, 100)
    &&& at_most(patch.wind_power, 2)
    &&& patch.fog_clip_distance_ok
    &&& at_most(patch.shadow_opacity, 100)
}

/// An event script a patch may set: none, empty (no script) or a ResRef.
pub open spec fn area_script_ok(script: Option<String>) -> bool {
    script matches Some(name) ==> (name@.len() == 0 || valid_resref_text(name@))
}

/// The verdict on an environment patch: its settings first, then its scripts.
pub open spec fn spec_check_environment(patch: AreaEnvironmentChecks) -> Result<(), EditError> {
    if !environment_values_ok(patch) {
        Err(EditError::AreaEnvironmentInvalid)
    } else if !(area_script_ok(patch.on_enter) && area_script_ok(patch.on_exit) && area_script_ok(
        patch.on_heartbeat,
    ) && area_script_ok(patch.on_user_defined)) {
        Err(EditError::ResrefInvalid)
    } else {
        Ok(())
    }
}

fn exceeds(value: Option<u8>, bound: u8) -> (over: bool)
    ensures
        over == !at_most(value, bound),
{
    match value {
        Some(v) => v > bound,
        None => false,
    }
}

fn tag_acceptable(tag: &str) -> (ok: bool)
    ensures
        ok == area_tag_ok(tag@),
{
    let length = tag.as_bytes().len();
    if length == 0 || length > 64 {
        return false;
    }
    free_of_control_chars(tag)
}

fn comments_acceptable(comments: &str) -> (ok: bool)
    ensures
        ok == area_comments_ok(comments@),
{
    if comments.as_bytes().len() > 16 * 1024 {
        return false;
    }
    let chars = char_vec(comments);
    let mut i: usize = 0;
    while i < chars.len()
        invariant
            i <= chars@.len(),
            chars@ == comments@,
            forall|j: int| 0 <= j < i ==> #[trigger] chars@[j] != '\0',
        decreases chars@.len() - i,
    {
        if chars[i] == '\0' {
            assert(comments@[i as int] == '\0');
            return false;
        }
        i = i + 1;
    }
    true
}

fn check_script(script: &Option<String>) -> (result: Result<(), EditError>)
    ensures
        result is Ok == area_script_ok(*script),
        result matches Err(error) ==> error == EditError::ResrefInvalid,
{
    match script {
        Some(name) => {
            if name.as_str().is_empty() {
                Ok(())
            } else {
                validate_resref(name.as_str())
            }
        },
        None => Ok(()),
    }
}

/// Checks an environment patch before it is written to an area.
pub fn validate_area_environment_patch(patch: &AreaEnvironmentChecks) -> (result: Result<(), EditError>)
    ensures
        result == spec_check_environment(*patch),
{
    let tag_ok = match &patch.tag {
        Some(tag) => tag_acceptable(tag.as_str()),
        None => true,
    };
    let comments_ok = match &patch.comments {
        Some(comments) => comments_acceptable(comments.as_str()),
        None => true,
    };
    if !tag_ok || !comments_ok || exceeds(patch.player_vs_player, 2) || exceeds(patch.chance_rain, 100)
        || exceeds(patch.chance_snow, 100) || exceeds(patch.chance_lightning, 100) || exceeds(
        patch.wind_power,
        2,
    ) || !patch.fog_clip_distance_ok || exceeds(patch.shadow_opacity, 100) {
        return Err(EditError::AreaEnvironmentInvalid);
    }
    check_script(&patch.on_enter)?;
    check_script(&patch.on_exit)?;
    check_script(&patch.on_heartbeat)?;
    check_script(&patch.on_user_defined)?;
    Ok(())
}

/// The state of one tile of an area.
#[derive(Debug, Clone, Copy, PartialEq, Eq)]
pub struct TileState {
    pub tile_id: u32,
    pub orientation: u8,
    pub height: i32,
}

impl TileState {
    /// A tile faces one of the four directions, 0 to 3.
    pub fn orientation_valid(&self) -> (valid: bool)
        ensures
            valid == (self.orientation <= 3),
    {
        self.orientation <= 3
    }
}

/// The value as a `u8`, where it fits.
pub fn as_u8(value: i64) -> (narrowed: Option<u8>)
    ensures
        match narrowed {
            Some(v) => v == value,
            None => value < 0 || value > u8::MAX,
        },
{
    if 0 <= value && value <= 255 {
        Some(value as u8)
    } else {
        None
    }
}

/// The value as a `u32`, where it fits.
pub fn as_u32(value: i64) -> (narrowed: Option<u32>)
    ensures
        match narrowed {
            Some(v) => v == value,
            None => value < 0 || value > u32::MAX,
        },
{
    if 0 <= value && value <= 0xffff_ffff {
        Some(value as u32)
    } else {
        None
    }
}

/// The value as an `i32`, where it fits.
pub fn as_i32(value: i64) -> (narrowed: Option<i32>)
    ensures
        match narrowed {
            Some(v) => v == value,
            None => value < i32::MIN || value > i32::MAX,
        },
{
    if -0x8000_0000 <= value && value <= 0x7fff_ffff {
        Some(value as i32)
    } else {
        None
    }
}

} // verus!
