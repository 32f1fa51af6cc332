//! Deterministic map layouts: a bounded description of an exterior area (its
//! size, border, reserved space and object densities) turns into tiles and
//! object placements that depend on the description and its seed alone.
use crate::digest::sha256_of;
use crate::error::EditError;
use crate::bytes::{decimal_digits, lemma_decimal_digits_ascii, push_decimal};
use crate::resource::{all_ascii, ascii_chars, ascii_string, text_bytes, text_equal};
use vstd::utf8::is_ascii_chars;
use crate::text::{is_blank, is_blank_text, valid_resref_text, validate_resref};
use vstd::prelude::*;

verus! {

pub const MAP_GENERATION_SCHEMA_VERSION: u32 = 1;

pub const MAP_MAX_WIDTH: u32 = 32;

pub const MAP_MAX_HEIGHT: u32 = 32;

pub const MAP_MAX_TILES: usize = 1024;

pub const MAP_MAX_DENSITY_RULES: usize = 16;

pub const MAP_MAX_BLUEPRINTS_PER_RULE: usize = 128;

pub const MAP_MAX_PLACEMENTS: usize = 2048;

pub const MAP_MAX_VARIANT_TILES: usize = 128;

/// How many objects of one category a map should hold.
#[derive(Debug, Clone, PartialEq, Eq)]
pub struct MapDensityRule {
    pub category: String,
    pub per_hundred_tiles: u16,
    pub min_spacing_tiles: u16,
    pub template_resrefs: Vec<String>,
}

/// The description of a map to generate.
#[derive(Debug, Clone, PartialEq, Eq)]
pub struct MapGenerationSpec {
    pub schema_version: u32,
    pub brief: String,
    pub resref: String,
    pub name: String,
    pub tileset: String,
    pub width: u32,
    pub height: u32,
    pub seed: u64,
    pub base_tile_id: u32,
    pub variant_tile_ids: Vec<u32>,
    pub border_margin: u16,
    pub reserved_percent: u8,
    pub densities: Vec<MapDensityRule>,
}

/// One tile of a generated map.
#[derive(Debug, Clone, Copy, PartialEq, Eq)]
pub struct MapTilePlan {
    pub x: u32,
    pub y: u32,
    pub tile_id: u32,
    pub orientation: u8,
    pub height: i32,
}

/// Counts that summarise a generated map.
#[derive(Debug, Clone, Copy, PartialEq, Eq)]
pub struct MapGenerationMetrics {
    pub total_tiles: usize,
    pub buildable_tiles: usize,
    pub reserved_tiles: usize,
    pub placement_count: usize,
    pub occupied_percent: u8,
}

/// What is known of the tileset that the map will be built with.
#[derive(Debug, Clone, PartialEq, Eq)]
pub struct MapCompatibilityReport {
    pub tileset_resolved: bool,
    pub tileset_sha256: Option<String>,
    pub resolved_tile_count: usize,
    pub selected_tile_ids: Vec<u32>,
    pub tile_ids_verified: bool,
    pub edge_compatibility_verified: bool,
}

impl Default for MapCompatibilityReport {
    /// A report that claims nothing: no tileset resolved, nothing verified.
    fn default() -> (report: MapCompatibilityReport)
        ensures
            !report.tileset_resolved,
            report.tileset_sha256 is None,
            report.resolved_tile_count == 0,
            report.selected_tile_ids@.len() == 0,
            !report.tile_ids_verified,
            !report.edge_compatibility_verified,
    {
        MapCompatibilityReport {
            tileset_resolved: false,
            tileset_sha256: None,
            resolved_tile_count: 0,
            selected_tile_ids: Vec::new(),
            tile_ids_verified: false,
            edge_compatibility_verified: false,
        }
    }
}

/// The object categories that a density rule may name.
pub open spec fn supported_category(category: Seq<char>) -> bool {
    ||| category == "creature"@
    ||| category == "door"@
    ||| category == "encounter"@
    ||| category == "item"@
    ||| category == "placeable"@
    ||| category == "sound"@
    ||| category == "store"@
    ||| category == "trigger"@
    ||| category == "waypoint"@
}

/// Whether `category` is one of the supported object categories.
pub fn is_supported_category(category: &str) -> (supported: bool)
    ensures
        supported == supported_category(category@),
{
    text_equal(category, "creature") || text_equal(category, "door") || text_equal(
        category,
        "encounter",
    ) || text_equal(category, "item") || text_equal(category, "placeable") || text_equal(
        category,
        "sound",
    ) || text_equal(category, "store") || text_equal(category, "trigger") || text_equal(
        category,
        "waypoint",
    )
}

/// The short prefix of the tags given to placed objects of a category.
pub open spec fn spec_short_category(category: Seq<char>) -> Seq<char> {
    if category == "creature"@ {
        "cre"@
    } else if category == "door"@ {
        "door"@
    } else if category == "encounter"@ {
        "enc"@
    } else if category == "item"@ {
        "item"@
    } else if category == "placeable"@ {
        "plc"@
    } else if category == "sound"@ {
        "snd"@
    } else if category == "store"@ {
        "store"@
    } else if category == "trigger"@ {
        "trg"@
    } else if category == "waypoint"@ {
        "wp"@
    } else {
        "obj"@
    }
}

pub fn short_category(category: &str) -> (short: &'static str)
    ensures
        short@ == spec_short_category(category@),
{
    if text_equal(category, "creature") {
        "cre"
    } else if text_equal(category, "door") {
        "door"
    } else if text_equal(category, "encounter") {
        "enc"
    } else if text_equal(category, "item") {
        "item"
    } else if text_equal(category, "placeable") {
        "plc"
    } else if text_equal(category, "sound") {
        "snd"
    } else if text_equal(category, "store") {
        "store"
    } else if text_equal(category, "trigger") {
        "trg"
    } else if text_equal(category, "waypoint") {
        "wp"
    } else {
        "obj"
    }
}

/// The label under which a category is shown to the user.
pub open spec fn spec_category_label(category: Seq<char>) -> Seq<char> {
    if category == "creature"@ {
        "Créatures"@
    } else if category == "door"@ {
        "Portes"@
    } else if category == "encounter"@ {
        "Rencontres"@
    } else if category == "item"@ {
        "Objets"@
    } else if category == "placeable"@ {
        "Plaçables"@
    } else if category == "sound"@ {
        "Sons"@
    } else if category == "store"@ {
        "Marchands"@
    } else if category == "trigger"@ {
        "Déclencheurs"@
    } else if category == "waypoint"@ {
        "Points de passage"@
    } else {
        "Éléments"@
    }
}

pub fn category_label(category: &str) -> (label: &'static str)
    ensures
        label@ == spec_category_label(category@),
{
    if text_equal(category, "creature") {
        "Créatures"
    } else if text_equal(category, "door") {
        "Portes"
    } else if text_equal(category, "encounter") {
        "Rencontres"
    } else if text_equal(category, "item") {
        "Objets"
    } else if text_equal(category, "placeable") {
        "Plaçables"
    } else if text_equal(category, "sound") {
        "Sons"
    } else if text_equal(category, "store") {
        "Marchands"
    } else if text_equal(category, "trigger") {
        "Déclencheurs"
    } else if text_equal(category, "waypoint") {
        "Points de passage"
    } else {
        "Éléments"
    }
}

/// Every template ResRef of the rule is valid.
pub open spec fn templates_valid(rule: MapDensityRule) -> bool {
    forall|i: int|
        0 <= i < rule.template_resrefs@.len() ==> valid_resref_text(
            #[trigger] rule.template_resrefs@[i]@,
        )
}

/// The rule at `index` names an unsupported category, exceeds a bound, or
/// repeats the category of an earlier rule.
pub open spec fn density_rule_invalid(rules: Seq<MapDensityRule>, index: int) -> bool {
    let rule = rules[index];
    ||| !supported_category(rule.category@)
    ||| rule.per_hundred_tiles > 100
    ||| rule.min_spacing_tiles > 64
    ||| rule.template_resrefs@.len() > MAP_MAX_BLUEPRINTS_PER_RULE
    ||| exists|k: int| 0 <= k < index && (#[trigger] rules[k]).category@ == rule.category@
}

/// The first error among the first `count` density rules, taken in order.
pub open spec fn density_rules_error(rules: Seq<MapDensityRule>, count: int) -> Option<EditError>
    decreases count,
{
    if count <= 0 {
        None
    } else {
        match density_rules_error(rules, count - 1) {
            Some(error) => Some(error),
            None => if density_rule_invalid(rules, count - 1) {
                Some(EditError::MapDensityInvalid)
            } else if !templates_valid(rules[count - 1]) {
                Some(EditError::ResrefInvalid)
            } else {
                None
            },
        }
    }
}

/// Once an error is found among the first rules, later rules do not change it.
proof fn lemma_density_error_persists(rules: Seq<MapDensityRule>, a: int, b: int)
    requires
        0 <= a <= b,
        density_rules_error(rules, a) is Some,
    ensures
        density_rules_error(rules, b) == density_rules_error(rules, a),
    decreases b - a,
{
    if a < b {
        lemma_density_error_persists(rules, a, b - 1);
    }
}

/// What validating a map description gives: the first rule it breaks.
pub open spec fn spec_validate_map(spec: MapGenerationSpec) -> Result<(), EditError> {
    if spec.schema_version != MAP_GENERATION_SCHEMA_VERSION {
        Err(EditError::MapSchemaUnsupported)
    } else if !valid_resref_text(spec.resref@) || !valid_resref_text(spec.tileset@) {
        Err(EditError::ResrefInvalid)
    } else if is_blank_text(spec.name@) || text_bytes(spec.name@).len() > 1024 || text_bytes(
        spec.brief@,
    ).len() > 64 * 1024 {
        Err(EditError::MapIdentityInvalid)
    } else if spec.width == 0 || spec.height == 0 || spec.width > MAP_MAX_WIDTH || spec.height
        > MAP_MAX_HEIGHT {
        Err(EditError::MapDimensionsInvalid)
    } else if spec.border_margin * 2 >= spec.width || spec.border_margin * 2 >= spec.height {
        Err(EditError::MapMarginInvalid)
    } else if spec.seed > u32::MAX || spec.reserved_percent > 90 || spec.variant_tile_ids@.len()
        > MAP_MAX_VARIANT_TILES || spec.densities@.len() > MAP_MAX_DENSITY_RULES {
        Err(EditError::MapLimitExceeded)
    } else {
        match density_rules_error(spec.densities@, spec.densities@.len() as int) {
            Some(error) => Err(error),
            None => Ok(()),
        }
    }
}

/// A map description that validation accepts.
pub open spec fn valid_map_spec(spec: MapGenerationSpec) -> bool {
    spec_validate_map(spec) is Ok
}

fn all_templates_valid(rule: &MapDensityRule) -> (valid: bool)
    ensures
        valid == templates_valid(*rule),
{
    let mut index: usize = 0;
    while index < rule.template_resrefs.len()
        invariant
            index <= rule.template_resrefs@.len(),
            forall|i: int|
                0 <= i < index ==> valid_resref_text(#[trigger] rule.template_resrefs@[i]@),
        decreases rule.template_resrefs@.len() - index,
    {
        if validate_resref(rule.template_resrefs[index].as_str()).is_err() {
            return false;
        }
        index += 1;
    }
    true
}

fn category_repeated(rules: &Vec<MapDensityRule>, index: usize) -> (repeated: bool)
    requires
        index < rules@.len(),
    ensures
        repeated == exists|k: int|
            0 <= k < index && (#[trigger] rules@[k]).category@ == rules@[index as int].category@,
{
    let mut k: usize = 0;
    while k < index
        invariant
            index < rules@.len(),
            k <= index,
            forall|j: int| 0 <= j < k ==> (#[trigger] rules@[j]).category@ != rules@[index as int].category@,
        decreases index - k,
    {
        if text_equal(rules[k].category.as_str(), rules[index].category.as_str()) {
            return true;
        }
        k += 1;
    }
    false
}

/// Checks a map description before anything is generated from it.
pub fn validate_map_spec(spec: &MapGenerationSpec) -> (result: Result<(), EditError>)
    ensures
        result == spec_validate_map(*spec),
{
    if spec.schema_version != MAP_GENERATION_SCHEMA_VERSION {
        return Err(EditError::MapSchemaUnsupported);
    }
    validate_resref(spec.resref.as_str())?;
    validate_resref(spec.tileset.as_str())?;
    if is_blank(spec.name.as_str()) || spec.name.as_str().as_bytes().len() > 1024
        || spec.brief.as_str().as_bytes().len() > 64 * 1024 {
        return Err(EditError::MapIdentityInvalid);
    }
    if spec.width == 0 || spec.height == 0 || spec.width > MAP_MAX_WIDTH || spec.height
        > MAP_MAX_HEIGHT {
        return Err(EditError::MapDimensionsInvalid);
    }
    let margin: u32 = spec.border_margin as u32;
    if margin * 2 >= spec.width || margin * 2 >= spec.height {
        return Err(EditError::MapMarginInvalid);
    }
    if spec.seed > 0xffff_ffffu64 || spec.reserved_percent > 90 || spec.variant_tile_ids.len()
        > MAP_MAX_VARIANT_TILES || spec.densities.len() > MAP_MAX_DENSITY_RULES {
        return Err(EditError::MapLimitExceeded);
    }
    let mut index: usize = 0;
    while index < spec.densities.len()
        invariant
            index <= spec.densities@.len(),
            density_rules_error(spec.densities@, index as int) is None,
            spec_validate_map(*spec) == match density_rules_error(
                spec.densities@,
                spec.densities@.len() as int,
            ) {
                Some(error) => Err(error),
                None => Ok(()),
            },
        decreases spec.densities@.len() - index,
    {
        let rule = &spec.densities[index];
        if !is_supported_category(rule.category.as_str()) || rule.per_hundred_tiles > 100
            || rule.min_spacing_tiles > 64 || rule.template_resrefs.len()
            > MAP_MAX_BLUEPRINTS_PER_RULE || category_repeated(&spec.densities, index) {
            proof {
                lemma_density_error_persists(
                    spec.densities@,
                    index + 1,
                    spec.densities@.len() as int,
                );
            }
            return Err(EditError::MapDensityInvalid);
        }
        if !all_templates_valid(rule) {
            proof {
                lemma_density_error_persists(
                    spec.densities@,
                    index + 1,
                    spec.densities@.len() as int,
                );
            }
            return Err(EditError::ResrefInvalid);
        }
        index += 1;
    }
    Ok(())
}

/// The salt that picks tile variants.
pub const TILE_SALT: u64 = 0x5449_4c45;

/// The salt that picks reserved cells.
pub const RESERVED_SALT: u64 = 0x5245_5356;

/// The salt mixed into a category's salt to pick templates and bearings.
pub const PLACEMENT_SALT: u64 = 0x504c_4143;

/// The mixing function behind every choice the generator makes: a
/// SplitMix-style finaliser of the seed, the cell and a salt.
#[verifier::opaque]
pub open spec fn spec_coordinate_hash(seed: u64, x: u32, y: u32, salt: u64) -> u64 {
    let v0 = seed ^ vstd::wrapping::u64_specs::wrapping_mul(x as u64, 0x9E37_79B9_7F4A_7C15)
        ^ vstd::wrapping::u64_specs::wrapping_mul(y as u64, 0xBF58_476D_1CE4_E5B9) ^ salt;
    let v1 = v0 ^ (v0 >> 30u64);
    let v2 = vstd::wrapping::u64_specs::wrapping_mul(v1, 0xBF58_476D_1CE4_E5B9);
    let v3 = v2 ^ (v2 >> 27u64);
    let v4 = vstd::wrapping::u64_specs::wrapping_mul(v3, 0x94D0_49BB_1331_11EB);
    v4 ^ (v4 >> 31u64)
}

pub fn coordinate_hash(seed: u64, x: u32, y: u32, salt: u64) -> (hash: u64)
    ensures
        hash == spec_coordinate_hash(seed, x, y, salt),
{
    reveal(spec_coordinate_hash);
    let mut value: u64 = seed ^ (x as u64).wrapping_mul(0x9E37_79B9_7F4A_7C15) ^ (y as u64).wrapping_mul(
        0xBF58_476D_1CE4_E5B9,
    ) ^ salt;
    value = value ^ (value >> 30u64);
    value = value.wrapping_mul(0xBF58_476D_1CE4_E5B9);
    value = value ^ (value >> 27u64);
    value = value.wrapping_mul(0x94D0_49BB_1331_11EB);
    value ^ (value >> 31u64)
}

/// The little-endian number that `bytes` spell.
pub open spec fn le_value(bytes: Seq<u8>) -> int
    decreases bytes.len(),
{
    if bytes.len() == 0 {
        0
    } else {
        bytes[0] + 256 * le_value(bytes.drop_first())
    }
}

/// The hash of a text: the first eight bytes of its SHA-256 digest, read as a
/// little-endian number.
pub open spec fn spec_text_hash(text: Seq<char>) -> u64 {
    le_value(sha256_of(text_bytes(text)).take(8)) as u64
}

/// 256 to the power `n`.
pub open spec fn byte_power(n: nat) -> int
    decreases n,
{
    if n == 0 {
        1
    } else {
        256 * byte_power((n - 1) as nat)
    }
}

proof fn lemma_byte_power_grows(a: nat, b: nat)
    requires
        a <= b,
    ensures
        1 <= byte_power(a) <= byte_power(b),
    decreases b,
{
    if a < b {
        lemma_byte_power_grows(a, (b - 1) as nat);
    } else if a > 0 {
        lemma_byte_power_grows((a - 1) as nat, (a - 1) as nat);
    }
}

/// The hash of a category name that seeds its placements.
pub fn text_hash(value: &str) -> (hash: u64)
    ensures
        hash == spec_text_hash(value@),
{
    let digest = crate::digest::sha256_digest(value.as_bytes());
    let ghost prefix = digest@.take(8);
    let mut result: u64 = 0;
    let mut index: usize = 8;
    proof {
        assert(prefix.subrange(8, 8).len() == 0);
        reveal_with_fuel(byte_power, 9);
        assert(byte_power(8) == 0x1_0000_0000_0000_0000);
    }
    while index > 0
        invariant
            index <= 8,
            digest@.len() == 32,
            prefix == digest@.take(8),
            result == le_value(prefix.subrange(index as int, 8)),
            result < byte_power((8 - index) as nat),
            byte_power(8) == 0x1_0000_0000_0000_0000,
        decreases index,
    {
        index -= 1;
        let b = digest[index];
        proof {
            let tail = prefix.subrange(index as int, 8);
            assert(tail.drop_first() =~= prefix.subrange(index + 1, 8));
            assert(tail[0] == b);
            let p = byte_power((7 - index) as nat);
            assert(byte_power((8 - index) as nat) == 256 * p);
            lemma_byte_power_grows((8 - index) as nat, 8);
            assert(result * 256 + b < 256 * p) by (nonlinear_arith)
                requires
                    0 <= b < 256,
                    0 <= result < p,
            ;
        }
        result = result * 256 + b as u64;
    }
    proof {
        assert(prefix.subrange(0, 8) =~= prefix);
    }
    result
}

/// The tile ids that the generator may choose from: the base tile first, then
/// each variant once, in the order of their first occurrence.
pub open spec fn spec_normalized_tile_ids(base: u32, variants: Seq<u32>) -> Seq<u32>
    decreases variants.len(),
{
    if variants.len() == 0 {
        seq![base]
    } else {
        let earlier = spec_normalized_tile_ids(base, variants.drop_last());
        if earlier.contains(variants.last()) {
            earlier
        } else {
            earlier.push(variants.last())
        }
    }
}

fn contains_tile_id(values: &Vec<u32>, value: u32) -> (found: bool)
    ensures
        found == values@.contains(value),
{
    let mut index: usize = 0;
    while index < values.len()
        invariant
            index <= values@.len(),
            forall|i: int| 0 <= i < index ==> values@[i] != value,
        decreases values@.len() - index,
    {
        if values[index] == value {
            return true;
        }
        index += 1;
    }
    false
}

/// The base tile followed by the distinct variant tiles.
pub fn normalized_tile_ids(spec: &MapGenerationSpec) -> (values: Vec<u32>)
    ensures
        values@ == spec_normalized_tile_ids(spec.base_tile_id, spec.variant_tile_ids@),
        values@.len() >= 1,
        values@.len() <= spec.variant_tile_ids@.len() + 1,
        values@[0] == spec.base_tile_id,
        values@.no_duplicates(),
        forall|i: int|
            0 <= i < spec.variant_tile_ids@.len() ==> values@.contains(
                #[trigger] spec.variant_tile_ids@[i],
            ),
{
    let mut values: Vec<u32> = Vec::new();
    values.push(spec.base_tile_id);
    let mut index: usize = 0;
    proof {
        assert(spec.variant_tile_ids@.take(0) =~= Seq::<u32>::empty());
    }
    while index < spec.variant_tile_ids.len()
        invariant
            index <= spec.variant_tile_ids@.len(),
            values@ == spec_normalized_tile_ids(
                spec.base_tile_id,
                spec.variant_tile_ids@.take(index as int),
            ),
            values@.len() >= 1,
            values@.len() <= index + 1,
            values@[0] == spec.base_tile_id,
            values@.no_duplicates(),
            forall|i: int| 0 <= i < index ==> values@.contains(#[trigger] spec.variant_tile_ids@[i]),
        decreases spec.variant_tile_ids@.len() - index,
    {
        let value = spec.variant_tile_ids[index];
        let ghost before = values@;
        proof {
            assert(spec.variant_tile_ids@.take(index + 1).drop_last() =~= spec.variant_tile_ids@.take(
                index as int,
            ));
        }
        if !contains_tile_id(&values, value) {
            values.push(value);
            proof {
                assert forall|i: int| 0 <= i < index implies values@.contains(
                    #[trigger] spec.variant_tile_ids@[i],
                ) by {
                    let w = choose|w: int| 0 <= w < before.len() && before[w] == spec.variant_tile_ids@[i];
                    assert(values@[w] == before[w]);
                }
                assert(values@[values@.len() - 1] == value);
            }
        }
        proof {
            assert(values@.contains(spec.variant_tile_ids@[index as int]));
        }
        index += 1;
    }
    proof {
        assert(spec.variant_tile_ids@.take(spec.variant_tile_ids@.len() as int)
            =~= spec.variant_tile_ids@);
    }
    values
}

/// The cell of the `n`-th tile, tiles being laid row by row.
pub open spec fn grid_cell(width: u32, n: int) -> (u32, u32) {
    ((n % (width as int)) as u32, (n / (width as int)) as u32)
}

/// `a - b`, or zero where `b` exceeds `a`.
pub open spec fn floor_sub(a: int, b: int) -> int {
    if a >= b {
        a - b
    } else {
        0
    }
}

/// The cell lies in the border margin, where only the base tile goes and
/// nothing is placed.
pub open spec fn on_border(spec: MapGenerationSpec, x: u32, y: u32) -> bool {
    let margin = spec.border_margin as int;
    ||| x < margin
    ||| y < margin
    ||| x >= floor_sub(spec.width as int, margin)
    ||| y >= floor_sub(spec.height as int, margin)
}

/// The `n`-th tile of the map: the base tile on the border, elsewhere a tile id
/// that the cell's hash picks among `variants`; orientation and height zero.
pub open spec fn spec_tile(spec: MapGenerationSpec, variants: Seq<u32>, n: int) -> MapTilePlan {
    let cell = grid_cell(spec.width, n);
    MapTilePlan {
        x: cell.0,
        y: cell.1,
        tile_id: if on_border(spec, cell.0, cell.1) {
            spec.base_tile_id
        } else {
            variants[((spec_coordinate_hash(spec.seed, cell.0, cell.1, TILE_SALT) as usize) as int)
                % (variants.len() as int)]
        },
        orientation: 0,
        height: 0,
    }
}

/// The cells off the border among the first `n` tiles, in tile order.
pub open spec fn buildable_upto(spec: MapGenerationSpec, n: int) -> Seq<(u32, u32)>
    decreases n,
{
    if n <= 0 {
        seq![]
    } else {
        let earlier = buildable_upto(spec, n - 1);
        let cell = grid_cell(spec.width, n - 1);
        if on_border(spec, cell.0, cell.1) {
            earlier
        } else {
            earlier.push(cell)
        }
    }
}

/// The cells where objects may go, in tile order.
pub open spec fn buildable_cells(spec: MapGenerationSpec) -> Seq<(u32, u32)> {
    buildable_upto(spec, spec.width * spec.height)
}

pub proof fn lemma_buildable_len(spec: MapGenerationSpec, n: int)
    requires
        n >= 0,
    ensures
        buildable_upto(spec, n).len() <= n,
    decreases n,
{
    if n > 0 {
        lemma_buildable_len(spec, n - 1);
    }
}

/// A buildable cell that the seed keeps free of objects.
pub open spec fn is_reserved(spec: MapGenerationSpec, cell: (u32, u32)) -> bool {
    spec_coordinate_hash(spec.seed, cell.0, cell.1, RESERVED_SALT) % 100 < spec.reserved_percent
}

/// How many of `cells` are reserved.
pub open spec fn count_reserved(spec: MapGenerationSpec, cells: Seq<(u32, u32)>) -> nat
    decreases cells.len(),
{
    if cells.len() == 0 {
        0
    } else {
        count_reserved(spec, cells.drop_last()) + if is_reserved(spec, cells.last()) {
            1nat
        } else {
            0nat
        }
    }
}

proof fn lemma_count_reserved_len(spec: MapGenerationSpec, cells: Seq<(u32, u32)>)
    ensures
        count_reserved(spec, cells) <= cells.len(),
    decreases cells.len(),
{
    if cells.len() > 0 {
        lemma_count_reserved_len(spec, cells.drop_last());
    }
}

/// The unreserved cells, each as its hash under `salt` and its position
/// among `cells`, in cell order.
pub open spec fn raw_candidates(spec: MapGenerationSpec, salt: u64, cells: Seq<(u32, u32)>) -> Seq<
    (u64, usize),
>
    decreases cells.len(),
{
    if cells.len() == 0 {
        seq![]
    } else {
        let earlier = raw_candidates(spec, salt, cells.drop_last());
        let cell = cells.last();
        if is_reserved(spec, cell) {
            earlier
        } else {
            earlier.push(
                (spec_coordinate_hash(spec.seed, cell.0, cell.1, salt), (cells.len() - 1) as usize),
            )
        }
    }
}

/// Inserts `item` after every element whose hash does not exceed its own.
pub open spec fn insert_by_hash(sorted: Seq<(u64, usize)>, item: (u64, usize)) -> Seq<(u64, usize)>
    decreases sorted.len(),
{
    if sorted.len() == 0 {
        seq![item]
    } else if item.0 < sorted.last().0 {
        insert_by_hash(sorted.drop_last(), item).push(sorted.last())
    } else {
        sorted.push(item)
    }
}

/// The stable sort of `items` by hash: items of equal hash keep their order.
pub open spec fn sort_by_hash(items: Seq<(u64, usize)>) -> Seq<(u64, usize)>
    decreases items.len(),
{
    if items.len() == 0 {
        seq![]
    } else {
        insert_by_hash(sort_by_hash(items.drop_last()), items.last())
    }
}

/// A placed object: the rule it follows, the template it uses, its number
/// within the rule (counted from one), its cell and its bearing in
/// thousandths of a radian.
#[derive(Debug, Clone, Copy, PartialEq, Eq)]
pub struct MapPlacementCell {
    pub rule_index: usize,
    pub template_index: usize,
    pub number: usize,
    pub x: u32,
    pub y: u32,
    pub bearing_millis: u32,
}

/// What the user is told about a generated map.
#[derive(Debug, Clone, Copy, PartialEq, Eq)]
pub enum MapWarning {
    /// The rule asks for objects but names no template; it was skipped.
    NoBlueprint { rule_index: usize },
    /// Spacing, reservations or the placement limit left the rule short.
    Shortfall { rule_index: usize, placed: usize, desired: usize },
    /// Variant tiles are chosen without checking the tileset's edges.
    VariantsUnverified,
    /// Every tile keeps orientation zero.
    OrientationFixed,
}

/// What one density rule works with.
pub struct RuleContext {
    pub seed: u64,
    pub rule_index: usize,
    pub salt: u64,
    pub desired: int,
    pub spacing_squared: int,
    pub template_count: int,
    pub cells: Seq<(u32, u32)>,
}

/// Where a rule stands part way through its candidates.
pub struct RuleProgress {
    pub placements: Seq<MapPlacementCell>,
    pub occupied: Seq<bool>,
    pub cells: Seq<(u32, u32)>,
}

/// Where the generator stands after some of the rules.
pub struct RulesOutcome {
    pub placements: Seq<MapPlacementCell>,
    pub occupied: Seq<bool>,
    pub warnings: Seq<MapWarning>,
}

/// The salt of rule `index`: its category's hash mixed with its position.
pub open spec fn rule_salt(hashes: Seq<u64>, index: int) -> u64 {
    hashes[index] ^ (index as u64)
}

/// How many objects a rule asks for: its density applied to the buildable
/// cells, rounded to the nearest.
pub open spec fn desired_count(buildable: int, per_hundred: u16) -> int {
    (buildable * per_hundred + 50) / 100
}

pub open spec fn rule_context(
    spec: MapGenerationSpec,
    hashes: Seq<u64>,
    cells: Seq<(u32, u32)>,
    index: int,
) -> RuleContext {
    let rule = spec.densities@[index];
    RuleContext {
        seed: spec.seed,
        rule_index: index as usize,
        salt: rule_salt(hashes, index),
        desired: desired_count(cells.len() as int, rule.per_hundred_tiles),
        spacing_squared: rule.min_spacing_tiles * rule.min_spacing_tiles,
        template_count: rule.template_resrefs@.len() as int,
        cells,
    }
}

/// The squared distance between a cell and `(x, y)`.
pub open spec fn squared_distance(cell: (u32, u32), x: u32, y: u32) -> int {
    (x - cell.0) * (x - cell.0) + (y - cell.1) * (y - cell.1)
}

/// Some cell of `cells` lies closer to `(x, y)` than the spacing allows.
pub open spec fn too_close(cells: Seq<(u32, u32)>, x: u32, y: u32, spacing_squared: int) -> bool {
    exists|i: int| 0 <= i < cells.len() && squared_distance(#[trigger] cells[i], x, y) < spacing_squared
}

/// One candidate of a rule: placed unless the placement limit or the rule's
/// count is reached, the cell is taken, or a placement of the same rule is
/// too near.
pub open spec fn place_candidate(ctx: RuleContext, progress: RuleProgress, candidate: (u64, usize)) -> RuleProgress {
    let index = candidate.1 as int;
    let cell = ctx.cells[index];
    if progress.placements.len() >= MAP_MAX_PLACEMENTS || progress.cells.len() >= ctx.desired
        || progress.occupied[index] || (ctx.spacing_squared > 0 && too_close(
        progress.cells,
        cell.0,
        cell.1,
        ctx.spacing_squared,
    )) {
        progress
    } else {
        let hash = spec_coordinate_hash(ctx.seed, cell.0, cell.1, ctx.salt ^ PLACEMENT_SALT);
        let placed = MapPlacementCell {
            rule_index: ctx.rule_index,
            template_index: (((hash as usize) as int) % ctx.template_count) as usize,
            number: (progress.cells.len() + 1) as usize,
            x: cell.0,
            y: cell.1,
            bearing_millis: ((hash >> 24u64) % 6284) as u32,
        };
        RuleProgress {
            placements: progress.placements.push(placed),
            occupied: progress.occupied.update(index, true),
            cells: progress.cells.push(cell),
        }
    }
}

/// The candidates of a rule taken one after the other.
pub open spec fn run_candidates(ctx: RuleContext, candidates: Seq<(u64, usize)>, start: RuleProgress) -> RuleProgress
    decreases candidates.len(),
{
    if candidates.len() == 0 {
        start
    } else {
        place_candidate(ctx, run_candidates(ctx, candidates.drop_last(), start), candidates.last())
    }
}

/// One density rule: skipped when it asks for nothing, skipped with a warning
/// when it names no template, else run over its candidates (the unreserved
/// buildable cells sorted by their hash under the rule's salt), with a warning
/// when it falls short.
pub open spec fn apply_rule(
    spec: MapGenerationSpec,
    hashes: Seq<u64>,
    cells: Seq<(u32, u32)>,
    outcome: RulesOutcome,
    index: int,
) -> RulesOutcome {
    let rule = spec.densities@[index];
    if rule.per_hundred_tiles == 0 {
        outcome
    } else if rule.template_resrefs@.len() == 0 {
        RulesOutcome {
            placements: outcome.placements,
            occupied: outcome.occupied,
            warnings: outcome.warnings.push(MapWarning::NoBlueprint { rule_index: index as usize }),
        }
    } else {
        let ctx = rule_context(spec, hashes, cells, index);
        let run = run_candidates(
            ctx,
            sort_by_hash(raw_candidates(spec, ctx.salt, cells)),
            RuleProgress { placements: outcome.placements, occupied: outcome.occupied, cells: seq![] },
        );
        RulesOutcome {
            placements: run.placements,
            occupied: run.occupied,
            warnings: if run.cells.len() < ctx.desired {
                outcome.warnings.push(
                    MapWarning::Shortfall {
                        rule_index: index as usize,
                        placed: run.cells.len() as usize,
                        desired: ctx.desired as usize,
                    },
                )
            } else {
                outcome.warnings
            },
        }
    }
}

/// The first `count` density rules applied in order.
pub open spec fn apply_rules(
    spec: MapGenerationSpec,
    hashes: Seq<u64>,
    cells: Seq<(u32, u32)>,
    count: int,
) -> RulesOutcome
    decreases count,
{
    if count <= 0 {
        RulesOutcome {
            placements: seq![],
            occupied: Seq::new(cells.len(), |i: int| false),
            warnings: seq![],
        }
    } else {
        apply_rule(spec, hashes, cells, apply_rules(spec, hashes, cells, count - 1), count - 1)
    }
}

/// The share of buildable cells that received an object, in percent, at most 100.
pub open spec fn occupied_percent(placed: int, buildable: int) -> u8 {
    if buildable <= 0 {
        0
    } else if placed * 100 / buildable > 100 {
        100
    } else {
        (placed * 100 / buildable) as u8
    }
}

/// The warnings of a map: those of its rules, then a note on variant tiles
/// when there are any, then the note on orientations.
pub open spec fn layout_warnings(spec: MapGenerationSpec, rule_warnings: Seq<MapWarning>) -> Seq<
    MapWarning,
> {
    rule_warnings + (if spec.variant_tile_ids@.len() > 0 {
        seq![MapWarning::VariantsUnverified]
    } else {
        seq![]
    }) + seq![MapWarning::OrientationFixed]
}

/// A generated map, without the floating-point placement coordinates that its
/// cells determine.
#[derive(Debug, Clone, PartialEq, Eq)]
pub struct MapLayout {
    pub tiles: Vec<MapTilePlan>,
    pub placements: Vec<MapPlacementCell>,
    pub metrics: MapGenerationMetrics,
    pub compatibility: MapCompatibilityReport,
    pub warnings: Vec<MapWarning>,
}

/// The layout that the generator gives for `spec`, the category hashes of its
/// rules and the compatibility report it is handed.
pub open spec fn layout_matches(
    spec: MapGenerationSpec,
    hashes: Seq<u64>,
    compatibility: MapCompatibilityReport,
    layout: MapLayout,
) -> bool {
    let variants = spec_normalized_tile_ids(spec.base_tile_id, spec.variant_tile_ids@);
    let cells = buildable_cells(spec);
    let outcome = apply_rules(spec, hashes, cells, spec.densities@.len() as int);
    &&& layout.tiles@.len() == spec.width * spec.height
    &&& forall|n: int|
        0 <= n < layout.tiles@.len() ==> #[trigger] layout.tiles@[n] == spec_tile(spec, variants, n)
    &&& layout.placements@ == outcome.placements
    &&& layout.warnings@ == layout_warnings(spec, outcome.warnings)
    &&& layout.metrics == MapGenerationMetrics {
        total_tiles: (spec.width * spec.height) as usize,
        buildable_tiles: cells.len() as usize,
        reserved_tiles: count_reserved(spec, cells) as usize,
        placement_count: outcome.placements.len() as usize,
        occupied_percent: occupied_percent(outcome.placements.len() as int, cells.len() as int),
    }
    &&& layout.compatibility == compatibility
}

/// The hashes of the categories of the map's density rules.
pub open spec fn category_hashes(spec: MapGenerationSpec) -> Seq<u64> {
    Seq::new(spec.densities@.len(), |i: int| spec_text_hash(spec.densities@[i].category@))
}

/// The tiles of the map and its buildable cells.
fn lay_tiles(spec: &MapGenerationSpec, variants: &Vec<u32>) -> (result: (Vec<MapTilePlan>, Vec<(u32, u32)>))
    requires
        0 < spec.width <= MAP_MAX_WIDTH,
        0 < spec.height <= MAP_MAX_HEIGHT,
        variants@.len() >= 1,
    ensures
        result.0@.len() == spec.width * spec.height,
        forall|n: int|
            0 <= n < result.0@.len() ==> #[trigger] result.0@[n] == spec_tile(*spec, variants@, n),
        result.1@ == buildable_cells(*spec),
{
    assert(spec.width * spec.height <= 1024) by (nonlinear_arith)
        requires
            0 < spec.width <= 32,
            0 < spec.height <= 32,
    ;
    let total: u32 = spec.width * spec.height;
    let margin: u32 = spec.border_margin as u32;
    let right: u32 = spec.width.saturating_sub(margin);
    let bottom: u32 = spec.height.saturating_sub(margin);
    let mut tiles: Vec<MapTilePlan> = Vec::new();
    let mut cells: Vec<(u32, u32)> = Vec::new();
    let mut n: u32 = 0;
    while n < total
        invariant
            0 < spec.width <= MAP_MAX_WIDTH,
            0 < spec.height <= MAP_MAX_HEIGHT,
            total == spec.width * spec.height,
            margin == spec.border_margin,
            right == floor_sub(spec.width as int, margin as int),
            bottom == floor_sub(spec.height as int, margin as int),
            variants@.len() >= 1,
            n <= total,
            tiles@.len() == n,
            forall|i: int| 0 <= i < n ==> #[trigger] tiles@[i] == spec_tile(*spec, variants@, i),
            cells@ == buildable_upto(*spec, n as int),
        decreases total - n,
    {
        let x: u32 = n % spec.width;
        let y: u32 = n / spec.width;
        let border = x < margin || y < margin || x >= right || y >= bottom;
        let tile_id = if border {
            spec.base_tile_id
        } else {
            let tile_hash = coordinate_hash(spec.seed, x, y, TILE_SALT);
            variants[(tile_hash as usize) % variants.len()]
        };
        tiles.push(MapTilePlan { x, y, tile_id, orientation: 0, height: 0 });
        if !border {
            cells.push((x, y));
        }
        proof {
            assert(grid_cell(spec.width, n as int) == (x, y));
            assert(tiles@[n as int] == spec_tile(*spec, variants@, n as int));
        }
        n += 1;
    }
    (tiles, cells)
}

/// Which buildable cells are reserved, and how many.
fn reserve_cells(spec: &MapGenerationSpec, cells: &Vec<(u32, u32)>) -> (result: (Vec<bool>, usize))
    ensures
        result.0@.len() == cells@.len(),
        forall|j: int| 0 <= j < cells@.len() ==> #[trigger] result.0@[j] == is_reserved(*spec, cells@[j]),
        result.1 == count_reserved(*spec, cells@),
{
    let mut flags: Vec<bool> = Vec::new();
    let mut count: usize = 0;
    let mut j: usize = 0;
    while j < cells.len()
        invariant
            j <= cells@.len(),
            flags@.len() == j,
            forall|i: int| 0 <= i < j ==> #[trigger] flags@[i] == is_reserved(*spec, cells@[i]),
            count == count_reserved(*spec, cells@.take(j as int)),
            count <= j,
        decreases cells@.len() - j,
    {
        let (x, y) = cells[j];
        let reserved = coordinate_hash(spec.seed, x, y, RESERVED_SALT) % 100 < spec.reserved_percent as u64;
        proof {
            assert(cells@.take(j + 1).drop_last() =~= cells@.take(j as int));
            assert(cells@.take(j + 1).last() == cells@[j as int]);
        }
        flags.push(reserved);
        if reserved {
            count += 1;
        }
        j += 1;
    }
    proof {
        assert(cells@.take(cells@.len() as int) =~= cells@);
    }
    (flags, count)
}

proof fn lemma_raw_candidates_bounded(spec: MapGenerationSpec, salt: u64, cells: Seq<(u32, u32)>)
    ensures
        raw_candidates(spec, salt, cells).len() <= cells.len(),
        forall|i: int|
            0 <= i < raw_candidates(spec, salt, cells).len() ==> (#[trigger] raw_candidates(
                spec,
                salt,
                cells,
            )[i]).1 < cells.len(),
    decreases cells.len(),
{
    if cells.len() > 0 {
        lemma_raw_candidates_bounded(spec, salt, cells.drop_last());
    }
}

/// The unreserved cells with their hashes under `salt`.
fn build_candidates(spec: &MapGenerationSpec, salt: u64, cells: &Vec<(u32, u32)>, reserved: &Vec<bool>) -> (candidates: Vec<(u64, usize)>)
    requires
        reserved@.len() == cells@.len(),
        forall|j: int| 0 <= j < cells@.len() ==> #[trigger] reserved@[j] == is_reserved(*spec, cells@[j]),
    ensures
        candidates@ == raw_candidates(*spec, salt, cells@),
{
    let mut candidates: Vec<(u64, usize)> = Vec::new();
    let mut j: usize = 0;
    while j < cells.len()
        invariant
            j <= cells@.len(),
            reserved@.len() == cells@.len(),
            forall|i: int| 0 <= i < cells@.len() ==> #[trigger] reserved@[i] == is_reserved(*spec, cells@[i]),
            candidates@ == raw_candidates(*spec, salt, cells@.take(j as int)),
        decreases cells@.len() - j,
    {
        let ghost next = cells@.take(j + 1);
        proof {
            assert(next.drop_last() =~= cells@.take(j as int));
            assert(next.last() == cells@[j as int]);
        }
        if !reserved[j] {
            let (x, y) = cells[j];
            candidates.push((coordinate_hash(spec.seed, x, y, salt), j));
        }
        j += 1;
    }
    proof {
        assert(cells@.take(cells@.len() as int) =~= cells@);
    }
    candidates
}

/// Inserting at the position after the last element whose hash does not
/// exceed the item's is `insert_by_hash`.
proof fn lemma_insert_by_hash_at(sorted: Seq<(u64, usize)>, item: (u64, usize), position: int)
    requires
        0 <= position <= sorted.len(),
        position == 0 || sorted[position - 1].0 <= item.0,
        forall|i: int| position <= i < sorted.len() ==> item.0 < (#[trigger] sorted[i]).0,
    ensures
        insert_by_hash(sorted, item) == sorted.insert(position, item),
    decreases sorted.len(),
{
    if sorted.len() == 0 {
        assert(sorted.insert(position, item) =~= seq![item]);
    } else if item.0 < sorted.last().0 {
        let shorter = sorted.drop_last();
        lemma_insert_by_hash_at(shorter, item, position);
        assert(shorter.insert(position, item).push(sorted.last()) =~= sorted.insert(position, item));
    } else {
        assert(sorted.insert(position, item) =~= sorted.push(item));
    }
}

proof fn lemma_insert_by_hash_members(sorted: Seq<(u64, usize)>, item: (u64, usize))
    ensures
        insert_by_hash(sorted, item).len() == sorted.len() + 1,
        forall|x: (u64, usize)|
            #[trigger] insert_by_hash(sorted, item).contains(x) ==> sorted.contains(x) || x == item,
    decreases sorted.len(),
{
    if sorted.len() > 0 && item.0 < sorted.last().0 {
        let shorter = sorted.drop_last();
        lemma_insert_by_hash_members(shorter, item);
        assert forall|x: (u64, usize)| #[trigger] insert_by_hash(sorted, item).contains(x) implies sorted.contains(x) || x == item by {
            let r = insert_by_hash(shorter, item);
            let w = choose|w: int| 0 <= w < r.push(sorted.last()).len() && r.push(sorted.last())[w] == x;
            if w < r.len() {
                assert(r.contains(x));
                if shorter.contains(x) {
                    let v = choose|v: int| 0 <= v < shorter.len() && shorter[v] == x;
                    assert(sorted[v] == x);
                }
            } else {
                assert(sorted[sorted.len() - 1] == x);
            }
        }
    } else if sorted.len() > 0 {
        assert forall|x: (u64, usize)| #[trigger] insert_by_hash(sorted, item).contains(x) implies sorted.contains(x) || x == item by {
            let r = sorted.push(item);
            let w = choose|w: int| 0 <= w < r.len() && r[w] == x;
            if w < sorted.len() {
                assert(sorted[w] == x);
            }
        }
    }
}

/// Sorting keeps the number of items and takes no item from elsewhere.
pub proof fn lemma_sort_by_hash_members(items: Seq<(u64, usize)>)
    ensures
        sort_by_hash(items).len() == items.len(),
        forall|x: (u64, usize)| #[trigger] sort_by_hash(items).contains(x) ==> items.contains(x),
    decreases items.len(),
{
    if items.len() > 0 {
        let shorter = items.drop_last();
        lemma_sort_by_hash_members(shorter);
        lemma_insert_by_hash_members(sort_by_hash(shorter), items.last());
        assert forall|x: (u64, usize)| #[trigger] sort_by_hash(items).contains(x) implies items.contains(x) by {
            if sort_by_hash(shorter).contains(x) {
                assert(shorter.contains(x));
                let v = choose|v: int| 0 <= v < shorter.len() && shorter[v] == x;
                assert(items[v] == x);
            } else {
                assert(items[items.len() - 1] == x);
            }
        }
    }
}

/// The candidates in the order in which a rule considers them.
fn sort_candidates(items: &Vec<(u64, usize)>) -> (sorted: Vec<(u64, usize)>)
    ensures
        sorted@ == sort_by_hash(items@),
{
    let mut sorted: Vec<(u64, usize)> = Vec::new();
    let mut index: usize = 0;
    while index < items.len()
        invariant
            index <= items@.len(),
            sorted@ == sort_by_hash(items@.take(index as int)),
        decreases items@.len() - index,
    {
        let item = items[index];
        let mut position: usize = sorted.len();
        while position > 0 && item.0 < sorted[position - 1].0
            invariant
                position <= sorted@.len(),
                forall|i: int| position <= i < sorted@.len() ==> item.0 < (#[trigger] sorted@[i]).0,
            decreases position,
        {
            position -= 1;
        }
        proof {
            lemma_insert_by_hash_at(sorted@, item, position as int);
            let next = items@.take(index + 1);
            assert(next.drop_last() =~= items@.take(index as int));
            assert(next.last() == item);
        }
        sorted.insert(position, item);
        index += 1;
    }
    proof {
        assert(items@.take(items@.len() as int) =~= items@);
    }
    sorted
}

/// Whether some cell of `cells` is closer to `(x, y)` than the spacing allows.
fn too_close_to(cells: &Vec<(u32, u32)>, x: u32, y: u32, spacing_squared: u32) -> (close: bool)
    requires
        forall|i: int| 0 <= i < cells@.len() ==> (#[trigger] cells@[i]).0 < 32 && cells@[i].1 < 32,
        x < 32,
        y < 32,
    ensures
        close == too_close(cells@, x, y, spacing_squared as int),
{
    let mut i: usize = 0;
    while i < cells.len()
        invariant
            i <= cells@.len(),
            forall|k: int| 0 <= k < cells@.len() ==> (#[trigger] cells@[k]).0 < 32 && cells@[k].1 < 32,
            x < 32,
            y < 32,
            forall|k: int|
                0 <= k < i ==> squared_distance(#[trigger] cells@[k], x, y) >= spacing_squared,
        decreases cells@.len() - i,
    {
        let (other_x, other_y) = cells[i];
        let dx: u32 = if x > other_x {
            x - other_x
        } else {
            other_x - x
        };
        let dy: u32 = if y > other_y {
            y - other_y
        } else {
            other_y - y
        };
        assert(dx * dx + dy * dy == squared_distance(cells@[i as int], x, y)
            && dx * dx + dy * dy < 2048) by (nonlinear_arith)
            requires
                dx < 32,
                dy < 32,
                dx == x - other_x || dx == other_x - x,
                dy == y - other_y || dy == other_y - y,
                cells@[i as int] == (other_x, other_y),
        ;
        if dx * dx + dy * dy < spacing_squared {
            return true;
        }
        i += 1;
    }
    false
}

/// Every cell lies on the grid.
pub open spec fn cells_on_grid(cells: Seq<(u32, u32)>) -> bool {
    forall|i: int| 0 <= i < cells.len() ==> (#[trigger] cells[i]).0 < 32 && cells[i].1 < 32
}

proof fn lemma_buildable_on_grid(spec: MapGenerationSpec, n: int)
    requires
        0 < spec.width <= MAP_MAX_WIDTH,
        0 < spec.height <= MAP_MAX_HEIGHT,
        0 <= n <= spec.width * spec.height,
    ensures
        cells_on_grid(buildable_upto(spec, n)),
    decreases n,
{
    if n > 0 {
        lemma_buildable_on_grid(spec, n - 1);
        let w = spec.width as int;
        assert((n - 1) / w < 32 && (n - 1) % w < 32) by (nonlinear_arith)
            requires
                0 < w <= 32,
                0 <= n - 1 < w * spec.height,
                spec.height <= 32,
        ;
    }
}

/// Runs one rule over its sorted candidates; returns how many objects it placed.
fn run_rule(
    spec: &MapGenerationSpec,
    hashes: &[u64],
    cells: &Vec<(u32, u32)>,
    index: usize,
    candidates: &Vec<(u64, usize)>,
    placements: &mut Vec<MapPlacementCell>,
    occupied: &mut Vec<bool>,
) -> (placed: usize)
    requires
        index < spec.densities@.len(),
        hashes@.len() == spec.densities@.len(),
        spec.densities@[index as int].template_resrefs@.len() > 0,
        spec.densities@[index as int].min_spacing_tiles <= 64,
        spec.densities@[index as int].per_hundred_tiles <= 100,
        cells@.len() <= MAP_MAX_TILES,
        cells_on_grid(cells@),
        old(occupied)@.len() == cells@.len(),
        old(placements)@.len() <= MAP_MAX_PLACEMENTS,
        forall|i: int| 0 <= i < candidates@.len() ==> (#[trigger] candidates@[i]).1 < cells@.len(),
    ensures
        final(placements)@.len() <= MAP_MAX_PLACEMENTS,
        final(occupied)@.len() == cells@.len(),
        placed <= desired_count(cells@.len() as int, spec.densities@[index as int].per_hundred_tiles),
        ({
            let run = run_candidates(
                rule_context(*spec, hashes@, cells@, index as int),
                candidates@,
                RuleProgress { placements: old(placements)@, occupied: old(occupied)@, cells: seq![] },
            );
            &&& final(placements)@ == run.placements
            &&& final(occupied)@ == run.occupied
            &&& placed == run.cells.len()
        }),
{
    let ghost ctx = rule_context(*spec, hashes@, cells@, index as int);
    let ghost start = RuleProgress { placements: placements@, occupied: occupied@, cells: seq![] };
    let rule = &spec.densities[index];
    let salt: u64 = hashes[index] ^ (index as u64);
    let buildable: u64 = cells.len() as u64;
    let per_hundred: u64 = rule.per_hundred_tiles as u64;
    assert(buildable * per_hundred <= 1024 * 100) by (nonlinear_arith)
        requires
            buildable <= 1024,
            per_hundred <= 100,
    ;
    let desired: u64 = (buildable * per_hundred + 50) / 100;
    let spacing: u32 = rule.min_spacing_tiles as u32;
    assert(spacing * spacing <= 64 * 64) by (nonlinear_arith)
        requires
            spacing <= 64,
    ;
    let spacing_squared: u32 = spacing * spacing;
    let template_count: usize = rule.template_resrefs.len();
    let mut chosen: Vec<(u32, u32)> = Vec::new();
    let mut k: usize = 0;
    assert(desired == ctx.desired);
    assert(spacing_squared == ctx.spacing_squared);
    while k < candidates.len()
        invariant
            k <= candidates@.len(),
            ctx == rule_context(*spec, hashes@, cells@, index as int),
            salt == ctx.salt,
            desired == ctx.desired,
            desired <= 1025,
            spacing_squared == ctx.spacing_squared,
            template_count == ctx.template_count,
            template_count > 0,
            cells@ == ctx.cells,
            cells_on_grid(cells@),
            spec.seed == ctx.seed,
            index == ctx.rule_index,
            forall|i: int| 0 <= i < candidates@.len() ==> (#[trigger] candidates@[i]).1 < cells@.len(),
            occupied@.len() == cells@.len(),
            placements@.len() <= MAP_MAX_PLACEMENTS,
            cells_on_grid(chosen@),
            chosen@.len() <= desired,
            ({
                let run = run_candidates(ctx, candidates@.take(k as int), start);
                &&& placements@ == run.placements
                &&& occupied@ == run.occupied
                &&& chosen@ == run.cells
            }),
        decreases candidates@.len() - k,
    {
        let (_, j) = candidates[k];
        let (x, y) = cells[j];
        proof {
            let next = candidates@.take(k + 1);
            assert(next.drop_last() =~= candidates@.take(k as int));
            assert(next.last() == candidates@[k as int]);
        }
        if placements.len() < MAP_MAX_PLACEMENTS && (chosen.len() as u64) < desired && !occupied[j]
            && !(spacing_squared > 0 && too_close_to(&chosen, x, y, spacing_squared)) {
            let placement_hash = coordinate_hash(spec.seed, x, y, salt ^ PLACEMENT_SALT);
            let placed = MapPlacementCell {
                rule_index: index,
                template_index: (placement_hash as usize) % template_count,
                number: chosen.len() + 1,
                x,
                y,
                bearing_millis: ((placement_hash >> 24u64) % 6284) as u32,
            };
            placements.push(placed);
            occupied.set(j, true);
            chosen.push((x, y));
            proof {
                assert(cells_on_grid(chosen@)) by {
                    assert(chosen@.last() == cells@[j as int]);
                }
            }
        }
        k += 1;
    }
    proof {
        assert(candidates@.take(candidates@.len() as int) =~= candidates@);
    }
    chosen.len()
}

/// Rules that pass validation are supported, bounded and have valid templates.
proof fn lemma_density_rules_valid(rules: Seq<MapDensityRule>, count: int, index: int)
    requires
        0 <= index < count <= rules.len(),
        density_rules_error(rules, count) is None,
    ensures
        !density_rule_invalid(rules, index),
        templates_valid(rules[index]),
    decreases count,
{
    if index < count - 1 {
        lemma_density_rules_valid(rules, count - 1, index);
    }
}

/// Runs every density rule in order.
fn place_objects(
    spec: &MapGenerationSpec,
    hashes: &[u64],
    cells: &Vec<(u32, u32)>,
    reserved: &Vec<bool>,
) -> (result: (Vec<MapPlacementCell>, Vec<MapWarning>))
    requires
        valid_map_spec(*spec),
        hashes@.len() == spec.densities@.len(),
        cells@.len() <= MAP_MAX_TILES,
        cells_on_grid(cells@),
        reserved@.len() == cells@.len(),
        forall|j: int| 0 <= j < cells@.len() ==> #[trigger] reserved@[j] == is_reserved(*spec, cells@[j]),
    ensures
        ({
            let outcome = apply_rules(*spec, hashes@, cells@, spec.densities@.len() as int);
            &&& result.0@ == outcome.placements
            &&& result.1@ == outcome.warnings
        }),
        result.0@.len() <= MAP_MAX_PLACEMENTS,
{
    let mut placements: Vec<MapPlacementCell> = Vec::new();
    let mut occupied: Vec<bool> = Vec::new();
    let mut warnings: Vec<MapWarning> = Vec::new();
    let mut j: usize = 0;
    while j < cells.len()
        invariant
            j <= cells@.len(),
            occupied@ == Seq::new(j as nat, |i: int| false),
        decreases cells@.len() - j,
    {
        occupied.push(false);
        proof {
            assert(occupied@ =~= Seq::new((j + 1) as nat, |i: int| false));
        }
        j += 1;
    }
    let mut index: usize = 0;
    while index < spec.densities.len()
        invariant
            valid_map_spec(*spec),
            index <= spec.densities@.len(),
            hashes@.len() == spec.densities@.len(),
            cells@.len() <= MAP_MAX_TILES,
            cells_on_grid(cells@),
            reserved@.len() == cells@.len(),
            forall|j: int| 0 <= j < cells@.len() ==> #[trigger] reserved@[j] == is_reserved(*spec, cells@[j]),
            occupied@.len() == cells@.len(),
            placements@.len() <= MAP_MAX_PLACEMENTS,
            ({
                let outcome = apply_rules(*spec, hashes@, cells@, index as int);
                &&& placements@ == outcome.placements
                &&& occupied@ == outcome.occupied
                &&& warnings@ == outcome.warnings
            }),
        decreases spec.densities@.len() - index,
    {
        proof {
            lemma_density_rules_valid(spec.densities@, spec.densities@.len() as int, index as int);
        }
        let rule = &spec.densities[index];
        if rule.per_hundred_tiles == 0 {
        } else if rule.template_resrefs.len() == 0 {
            warnings.push(MapWarning::NoBlueprint { rule_index: index });
        } else {
            let salt: u64 = hashes[index] ^ (index as u64);
            let raw = build_candidates(spec, salt, cells, reserved);
            let sorted = sort_candidates(&raw);
            proof {
                lemma_raw_candidates_bounded(*spec, salt, cells@);
                lemma_sort_by_hash_members(raw@);
                assert forall|i: int| 0 <= i < sorted@.len() implies (#[trigger] sorted@[i]).1 < cells@.len() by {
                    assert(sorted@.contains(sorted@[i]));
                    let v = choose|v: int| 0 <= v < raw@.len() && raw@[v] == sorted@[i];
                }
            }
            let placed = run_rule(spec, hashes, cells, index, &sorted, &mut placements, &mut occupied);
            let buildable: u64 = cells.len() as u64;
            let per_hundred: u64 = rule.per_hundred_tiles as u64;
            assert(buildable * per_hundred <= 1024 * 100) by (nonlinear_arith)
                requires
                    buildable <= 1024,
                    per_hundred <= 100,
            ;
            let desired: u64 = (buildable * per_hundred + 50) / 100;
            if (placed as u64) < desired {
                warnings.push(
                    MapWarning::Shortfall { rule_index: index, placed, desired: desired as usize },
                );
            }
        }
        index += 1;
    }
    (placements, warnings)
}

/// The layout of a map whose description has been validated, given the hashes
/// of its rules' categories.
pub fn plan_layout(
    spec: &MapGenerationSpec,
    category_hashes: &[u64],
    compatibility: MapCompatibilityReport,
) -> (layout: MapLayout)
    requires
        valid_map_spec(*spec),
        category_hashes@.len() == spec.densities@.len(),
    ensures
        layout_matches(*spec, category_hashes@, compatibility, layout),
{
    let variants = normalized_tile_ids(spec);
    let (tiles, cells) = lay_tiles(spec, &variants);
    proof {
        assert(spec.width * spec.height <= 1024) by (nonlinear_arith)
            requires
                0 < spec.width <= 32,
                0 < spec.height <= 32,
        ;
        lemma_buildable_len(*spec, spec.width * spec.height);
        lemma_buildable_on_grid(*spec, spec.width * spec.height);
    }
    let (reserved, reserved_count) = reserve_cells(spec, &cells);
    let (placements, mut warnings) = place_objects(spec, category_hashes, &cells, &reserved);
    let count: usize = placements.len();
    let buildable: usize = cells.len();
    let occupied_percent: u8 = if buildable == 0 {
        0
    } else {
        let share: usize = count * 100 / buildable;
        if share > 100 {
            100
        } else {
            share as u8
        }
    };
    let ghost rule_warnings = warnings@;
    if spec.variant_tile_ids.len() > 0 {
        warnings.push(MapWarning::VariantsUnverified);
    }
    warnings.push(MapWarning::OrientationFixed);
    proof {
        assert(warnings@ =~= layout_warnings(*spec, rule_warnings));
    }
    let total: usize = (spec.width * spec.height) as usize;
    MapLayout {
        tiles,
        placements,
        metrics: MapGenerationMetrics {
            total_tiles: total,
            buildable_tiles: buildable,
            reserved_tiles: reserved_count,
            placement_count: count,
            occupied_percent,
        },
        compatibility,
        warnings,
    }
}

/// Generates the layout of a map: validates the description, hashes the
/// categories of its rules, and lays tiles and objects.
pub fn generate_map_layout(spec: &MapGenerationSpec, compatibility: MapCompatibilityReport) -> (result: Result<MapLayout, EditError>)
    ensures
        result is Ok == valid_map_spec(*spec),
        result matches Err(error) ==> spec_validate_map(*spec) == Err::<(), EditError>(error),
        result matches Ok(layout) ==> layout_matches(*spec, category_hashes(*spec), compatibility, layout),
{
    match validate_map_spec(spec) {
        Err(error) => {
            return Err(error);
        },
        Ok(()) => {},
    }
    let mut hashes: Vec<u64> = Vec::new();
    let mut index: usize = 0;
    while index < spec.densities.len()
        invariant
            index <= spec.densities@.len(),
            hashes@ == category_hashes(*spec).take(index as int),
        decreases spec.densities@.len() - index,
    {
        hashes.push(text_hash(spec.densities[index].category.as_str()));
        proof {
            assert(hashes@ =~= category_hashes(*spec).take(index + 1));
        }
        index += 1;
    }
    proof {
        assert(hashes@ =~= category_hashes(*spec));
    }
    Ok(plan_layout(spec, hashes.as_slice(), compatibility))
}

proof fn lemma_short_category_ascii(category: Seq<char>)
    ensures
        is_ascii_chars(spec_short_category(category)),
{
    reveal_strlit("cre");
    reveal_strlit("door");
    reveal_strlit("enc");
    reveal_strlit("item");
    reveal_strlit("plc");
    reveal_strlit("snd");
    reveal_strlit("store");
    reveal_strlit("trg");
    reveal_strlit("wp");
    reveal_strlit("obj");
}

/// The tag of the `number`-th object placed for `category`: the category's
/// short prefix, an underscore and the number in decimal.
pub fn placement_tag(category: &str, number: usize) -> (tag: String)
    ensures
        tag@ == spec_short_category(category@) + seq!['_'] + ascii_chars(decimal_digits(number as nat)),
{
    let short = short_category(category);
    let mut bytes: Vec<u8> = Vec::new();
    let prefix = short.as_bytes();
    let mut index: usize = 0;
    proof {
        lemma_short_category_ascii(category@);
        vstd::utf8::is_ascii_chars_encode_utf8(short@);
    }
    while index < prefix.len()
        invariant
            index <= prefix@.len(),
            prefix@ == text_bytes(short@),
            is_ascii_chars(short@),
            prefix@.len() == short@.len(),
            forall|i: int| 0 <= i < prefix@.len() ==> #[trigger] prefix@[i] == short@[i] as u8,
            bytes@ == prefix@.take(index as int),
        decreases prefix@.len() - index,
    {
        bytes.push(prefix[index]);
        proof {
            assert(bytes@ =~= prefix@.take(index + 1));
        }
        index += 1;
    }
    bytes.push(95);
    let ghost before_digits = bytes@;
    push_decimal(&mut bytes, number);
    proof {
        lemma_decimal_digits_ascii(number as nat);
        assert(prefix@.take(prefix@.len() as int) =~= prefix@);
        assert(all_ascii(bytes@)) by {
            assert forall|i: int| 0 <= i < bytes@.len() implies #[trigger] bytes@[i] < 128 by {
                if i < prefix@.len() {
                    assert(bytes@[i] == prefix@[i]);
                    assert('\0' <= short@[i] <= '\u{7f}');
                } else if i > prefix@.len() {
                    assert(bytes@[i] == decimal_digits(number as nat)[i - prefix@.len() - 1]);
                }
            }
        }
        let digits = decimal_digits(number as nat);
        assert(ascii_chars(bytes@) =~= short@ + seq!['_'] + ascii_chars(digits)) by {
            assert forall|i: int| 0 <= i < bytes@.len() implies #[trigger] ascii_chars(bytes@)[i] == (short@ + seq!['_'] + ascii_chars(digits))[i] by {
                if i < prefix@.len() {
                    assert(bytes@[i] == prefix@[i]);
                    assert('\0' <= short@[i] <= '\u{7f}');
                    assert((short@[i] as u8) as char == short@[i]);
                } else if i == prefix@.len() {
                } else {
                    assert(bytes@[i] == digits[i - prefix@.len() - 1]);
                }
            }
        }
    }
    ascii_string(bytes)
}

} // verus!
