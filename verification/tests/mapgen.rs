use aurora_forge::error::EditError;
use aurora_forge::mapgen::{
    coordinate_hash, generate_map_layout, normalized_tile_ids, placement_tag, plan_layout,
    short_category, category_label, text_hash, validate_map_spec, MapCompatibilityReport,
    MapDensityRule, MapGenerationSpec, MapWarning, MAP_GENERATION_SCHEMA_VERSION, MAP_MAX_WIDTH,
};

fn fixture() -> MapGenerationSpec {
    MapGenerationSpec {
        schema_version: MAP_GENERATION_SCHEMA_VERSION,
        brief: "Une place de village lisible".to_owned(),
        resref: "village".to_owned(),
        name: "Village".to_owned(),
        tileset: "tno01".to_owned(),
        width: 10,
        height: 8,
        seed: 42,
        base_tile_id: 0,
        variant_tile_ids: vec![1, 2],
        border_margin: 1,
        reserved_percent: 20,
        densities: vec![
            MapDensityRule {
                category: "placeable".to_owned(),
                per_hundred_tiles: 25,
                min_spacing_tiles: 1,
                template_resrefs: vec!["plc_table".to_owned(), "plc_chair".to_owned()],
            },
            MapDensityRule {
                category: "creature".to_owned(),
                per_hundred_tiles: 10,
                min_spacing_tiles: 2,
                template_resrefs: vec!["villager".to_owned()],
            },
        ],
    }
}

#[test]
fn identical_specs_produce_identical_maps() {
    let first = generate_map_layout(&fixture(), MapCompatibilityReport::default()).expect("first map plan");
    let second = generate_map_layout(&fixture(), MapCompatibilityReport::default()).expect("second map plan");
    assert_eq!(first, second);
    assert_eq!(first.tiles.len(), 80);
    assert!(!first.placements.is_empty());
}

#[test]
fn seed_changes_the_layout_without_changing_the_contract() {
    let first = generate_map_layout(&fixture(), MapCompatibilityReport::default()).expect("first map plan");
    let mut changed = fixture();
    changed.seed = 43;
    let second = generate_map_layout(&changed, MapCompatibilityReport::default()).expect("second map plan");
    assert_ne!(first.placements, second.placements);
    assert_eq!(first.metrics.total_tiles, second.metrics.total_tiles);
}

#[test]
fn borders_and_reserved_space_bound_density() {
    let plan = generate_map_layout(&fixture(), MapCompatibilityReport::default()).expect("map plan");
    assert_eq!(plan.metrics.buildable_tiles, 48);
    assert!(plan.metrics.reserved_tiles <= plan.metrics.buildable_tiles);
    assert!(plan.metrics.occupied_percent <= 100);
    // A placement stands at the centre of its cell: x * 10 + 5 metres.
    assert!(plan.placements.iter().all(|placement| {
        let x = f64::from(placement.x) * 10.0 + 5.0;
        let y = f64::from(placement.y) * 10.0 + 5.0;
        x >= 15.0 && y >= 15.0 && x <= 85.0 && y <= 65.0
    }));
}

#[test]
fn rejects_invalid_density_and_margin() {
    let mut invalid = fixture();
    invalid.border_margin = 4;
    assert!(generate_map_layout(&invalid, MapCompatibilityReport::default()).is_err());
    invalid.border_margin = 1;
    invalid.densities[0].per_hundred_tiles = 101;
    assert!(generate_map_layout(&invalid, MapCompatibilityReport::default()).is_err());

    let mut oversized = fixture();
    oversized.width = MAP_MAX_WIDTH + 1;
    assert!(generate_map_layout(&oversized, MapCompatibilityReport::default()).is_err());
}

#[test]
fn validation_reports_the_first_broken_rule() {
    let mut spec = fixture();
    spec.schema_version = 2;
    assert_eq!(validate_map_spec(&spec), Err(EditError::MapSchemaUnsupported));
    let mut spec = fixture();
    spec.tileset = "Bad Name".to_owned();
    assert_eq!(validate_map_spec(&spec), Err(EditError::ResrefInvalid));
    let mut spec = fixture();
    spec.name = "   ".to_owned();
    assert_eq!(validate_map_spec(&spec), Err(EditError::MapIdentityInvalid));
    let mut spec = fixture();
    spec.height = 0;
    assert_eq!(validate_map_spec(&spec), Err(EditError::MapDimensionsInvalid));
    let mut spec = fixture();
    spec.border_margin = 4;
    assert_eq!(validate_map_spec(&spec), Err(EditError::MapMarginInvalid));
    let mut spec = fixture();
    spec.seed = u64::from(u32::MAX) + 1;
    assert_eq!(validate_map_spec(&spec), Err(EditError::MapLimitExceeded));
    let mut spec = fixture();
    spec.densities[1].category = "placeable".to_owned();
    assert_eq!(validate_map_spec(&spec), Err(EditError::MapDensityInvalid));
    let mut spec = fixture();
    spec.densities[0].category = "dragon".to_owned();
    assert_eq!(validate_map_spec(&spec), Err(EditError::MapDensityInvalid));
    let mut spec = fixture();
    spec.densities[1].template_resrefs = vec!["Villager".to_owned()];
    assert_eq!(validate_map_spec(&spec), Err(EditError::ResrefInvalid));
    assert_eq!(validate_map_spec(&fixture()), Ok(()));
}

#[test]
fn borders_get_the_base_tile_and_tiles_come_row_by_row() {
    let plan = generate_map_layout(&fixture(), MapCompatibilityReport::default()).expect("map plan");
    for (n, tile) in plan.tiles.iter().enumerate() {
        assert_eq!(tile.x as usize, n % 10);
        assert_eq!(tile.y as usize, n / 10);
        assert_eq!(tile.orientation, 0);
        assert_eq!(tile.height, 0);
        let border = tile.x < 1 || tile.y < 1 || tile.x >= 9 || tile.y >= 7;
        if border {
            assert_eq!(tile.tile_id, 0);
        } else {
            assert!(tile.tile_id <= 2);
        }
    }
}

#[test]
fn placements_never_share_a_cell_and_stay_off_the_border() {
    let plan = generate_map_layout(&fixture(), MapCompatibilityReport::default()).expect("map plan");
    for (i, a) in plan.placements.iter().enumerate() {
        assert!(a.x >= 1 && a.x <= 8 && a.y >= 1 && a.y <= 6);
        for b in plan.placements.iter().skip(i + 1) {
            assert!(a.x != b.x || a.y != b.y);
        }
    }
    assert_eq!(plan.metrics.placement_count, plan.placements.len());
}

#[test]
fn placements_respect_their_rule_spacing() {
    let plan = generate_map_layout(&fixture(), MapCompatibilityReport::default()).expect("map plan");
    let creatures: Vec<_> = plan.placements.iter().filter(|p| p.rule_index == 1).collect();
    for (i, a) in creatures.iter().enumerate() {
        for b in creatures.iter().skip(i + 1) {
            let dx = i64::from(a.x) - i64::from(b.x);
            let dy = i64::from(a.y) - i64::from(b.y);
            assert!(dx * dx + dy * dy >= 4);
        }
    }
    for (k, p) in creatures.iter().enumerate() {
        assert_eq!(p.number, k + 1);
        assert_eq!(p.template_index, 0);
        assert!(p.bearing_millis < 6284);
    }
}

#[test]
fn warnings_end_with_the_variant_and_orientation_notes() {
    let plan = generate_map_layout(&fixture(), MapCompatibilityReport::default()).expect("map plan");
    let n = plan.warnings.len();
    assert!(n >= 2);
    assert_eq!(plan.warnings[n - 2], MapWarning::VariantsUnverified);
    assert_eq!(plan.warnings[n - 1], MapWarning::OrientationFixed);
    let mut spec = fixture();
    spec.variant_tile_ids.clear();
    spec.densities[0].template_resrefs.clear();
    let plan = generate_map_layout(&spec, MapCompatibilityReport::default()).expect("map plan");
    assert_eq!(plan.warnings[0], MapWarning::NoBlueprint { rule_index: 0 });
    assert_eq!(*plan.warnings.last().unwrap(), MapWarning::OrientationFixed);
    assert!(!plan.warnings.contains(&MapWarning::VariantsUnverified));
    assert!(plan.placements.iter().all(|p| p.rule_index == 1));
}

#[test]
fn plan_layout_follows_the_category_hashes_it_is_given() {
    let spec = fixture();
    let hashes = vec![text_hash("placeable"), text_hash("creature")];
    let from_hashes = plan_layout(&spec, &hashes, MapCompatibilityReport::default());
    let generated = generate_map_layout(&spec, MapCompatibilityReport::default()).expect("map plan");
    assert_eq!(from_hashes, generated);
    let other = plan_layout(&spec, &[0, 0], MapCompatibilityReport::default());
    assert_eq!(other.tiles, generated.tiles);
    assert_eq!(other.metrics.reserved_tiles, generated.metrics.reserved_tiles);
}

#[test]
fn text_hash_reads_the_digest_prefix_little_endian() {
    // SHA-256("") begins e3 b0 c4 42 98 fc 1c 14.
    assert_eq!(text_hash(""), 0x141c_fc98_42c4_b0e3);
    assert_ne!(text_hash("placeable"), text_hash("creature"));
}

#[test]
fn coordinate_hash_matches_the_splitmix_finaliser() {
    assert_eq!(coordinate_hash(0, 0, 0, 0), 0);
    let a = coordinate_hash(42, 3, 4, 0x5449_4c45);
    let b = coordinate_hash(42, 4, 3, 0x5449_4c45);
    assert_ne!(a, b);
    let mut value: u64 = 1;
    value ^= value >> 30;
    value = value.wrapping_mul(0xBF58_476D_1CE4_E5B9);
    value ^= value >> 27;
    value = value.wrapping_mul(0x94D0_49BB_1331_11EB);
    assert_eq!(coordinate_hash(1, 0, 0, 0), value ^ (value >> 31));
}

#[test]
fn normalized_tiles_keep_the_base_first_and_drop_repeats() {
    let mut spec = fixture();
    spec.base_tile_id = 7;
    spec.variant_tile_ids = vec![3, 7, 3, 9];
    assert_eq!(normalized_tile_ids(&spec), vec![7, 3, 9]);
}

#[test]
fn tags_labels_and_prefixes_follow_the_category() {
    assert_eq!(short_category("creature"), "cre");
    assert_eq!(short_category("placeable"), "plc");
    assert_eq!(short_category("unknown"), "obj");
    assert_eq!(category_label("waypoint"), "Points de passage");
    assert_eq!(category_label("other"), "Éléments");
    assert_eq!(placement_tag("placeable", 12), "plc_12");
    assert_eq!(placement_tag("door", 1), "door_1");
    assert_eq!(placement_tag("x", 2048), "obj_2048");
}
