//! What holds of every generated map: objects stand on free cells of the
//! interior, never two on one cell, and never more than the placement limit.
use crate::mapgen::{
    apply_rules, buildable_cells, buildable_upto, count_reserved, grid_cell, is_reserved,
    layout_matches, MapCompatibilityReport, MapLayout,
    lemma_buildable_len, lemma_sort_by_hash_members, on_border, place_candidate, raw_candidates,
    rule_context, run_candidates, sort_by_hash, valid_map_spec, MapGenerationSpec,
    MapPlacementCell, RuleContext, RuleProgress, MAP_MAX_HEIGHT, MAP_MAX_PLACEMENTS,
    MAP_MAX_TILES, MAP_MAX_WIDTH,
};
use vstd::prelude::*;

verus! {

/// The position of a cell in tile order.
pub open spec fn tile_order(width: u32, cell: (u32, u32)) -> int {
    cell.1 * width + cell.0
}

/// The cell that a placement occupies.
pub open spec fn placement_cell(placement: MapPlacementCell) -> (u32, u32) {
    (placement.x, placement.y)
}

proof fn lemma_grid_cell_order(width: u32, n: int)
    requires
        0 < width <= 32,
        0 <= n < 1024,
    ensures
        tile_order(width, grid_cell(width, n)) == n,
        grid_cell(width, n).0 < width,
{
    let w = width as int;
    assert((n / w) * w + n % w == n && 0 <= n % w < w && 0 <= n / w <= n) by (nonlinear_arith)
        requires
            0 < w,
            0 <= n,
    ;
}

/// The buildable cells come in strictly increasing tile order, lie inside the
/// grid and off its border.
proof fn lemma_buildable_shape(spec: MapGenerationSpec, n: int)
    requires
        0 < spec.width <= MAP_MAX_WIDTH,
        0 < spec.height <= MAP_MAX_HEIGHT,
        0 <= n <= spec.width * spec.height,
    ensures
        ({
            let cells = buildable_upto(spec, n);
            &&& forall|i: int|
                0 <= i < cells.len() ==> {
                    &&& 0 <= tile_order(spec.width, #[trigger] cells[i]) < n
                    &&& cells[i].0 < spec.width
                    &&& cells[i].1 < spec.height
                    &&& !on_border(spec, cells[i].0, cells[i].1)
                }
            &&& forall|i: int, k: int|
                0 <= i < k < cells.len() ==> tile_order(spec.width, #[trigger] cells[i])
                    < tile_order(spec.width, #[trigger] cells[k])
        }),
    decreases n,
{
    assert(spec.width * spec.height <= 1024) by (nonlinear_arith)
        requires
            0 < spec.width <= 32,
            0 < spec.height <= 32,
    ;
    if n > 0 {
        lemma_buildable_shape(spec, n - 1);
        lemma_grid_cell_order(spec.width, n - 1);
        let cell = grid_cell(spec.width, n - 1);
        let w = spec.width as int;
        assert(cell.1 < spec.height) by (nonlinear_arith)
            requires
                cell.1 == (n - 1) / w,
                0 < w,
                0 <= n - 1 < w * spec.height,
        ;
        let earlier = buildable_upto(spec, n - 1);
        let cells = buildable_upto(spec, n);
        if !on_border(spec, cell.0, cell.1) {
            assert(cells == earlier.push(cell));
            assert forall|i: int| 0 <= i < cells.len() implies {
                &&& 0 <= tile_order(spec.width, #[trigger] cells[i]) < n
                &&& cells[i].0 < spec.width
                &&& cells[i].1 < spec.height
                &&& !on_border(spec, cells[i].0, cells[i].1)
            } by {
                if i < earlier.len() {
                    assert(cells[i] == earlier[i]);
                }
            }
            assert forall|i: int, k: int| 0 <= i < k < cells.len() implies tile_order(
                spec.width,
                #[trigger] cells[i],
            ) < tile_order(spec.width, #[trigger] cells[k]) by {
                assert(cells[i] == earlier[i]);
                if k < earlier.len() {
                    assert(cells[k] == earlier[k]);
                }
            }
        }
    }
}

proof fn lemma_buildable_distinct(spec: MapGenerationSpec)
    requires
        valid_map_spec(spec),
    ensures
        buildable_cells(spec).no_duplicates(),
        forall|i: int|
            0 <= i < buildable_cells(spec).len() ==> {
                &&& (#[trigger] buildable_cells(spec)[i]).0 < spec.width
                &&& buildable_cells(spec)[i].1 < spec.height
                &&& !on_border(spec, buildable_cells(spec)[i].0, buildable_cells(spec)[i].1)
            },
{
    lemma_buildable_shape(spec, spec.width * spec.height);
    let cells = buildable_cells(spec);
    assert forall|i: int, k: int| 0 <= i < cells.len() && 0 <= k < cells.len() && i != k implies cells[i]
        != cells[k] by {
        if i < k {
            assert(tile_order(spec.width, cells[i]) < tile_order(spec.width, cells[k]));
        } else {
            assert(tile_order(spec.width, cells[k]) < tile_order(spec.width, cells[i]));
        }
    }
}

/// A candidate of a rule: a position among the cells, whose cell is not reserved.
pub open spec fn free_candidate(spec: MapGenerationSpec, cells: Seq<(u32, u32)>, candidate: (u64, usize)) -> bool {
    candidate.1 < cells.len() && !is_reserved(spec, cells[candidate.1 as int])
}

proof fn lemma_raw_candidates_free(spec: MapGenerationSpec, salt: u64, cells: Seq<(u32, u32)>)
    requires
        cells.len() <= MAP_MAX_TILES,
    ensures
        forall|i: int|
            0 <= i < raw_candidates(spec, salt, cells).len() ==> free_candidate(
                spec,
                cells,
                #[trigger] raw_candidates(spec, salt, cells)[i],
            ),
    decreases cells.len(),
{
    if cells.len() > 0 {
        let shorter = cells.drop_last();
        lemma_raw_candidates_free(spec, salt, shorter);
        assert forall|i: int| 0 <= i < raw_candidates(spec, salt, cells).len() implies free_candidate(
            spec,
            cells,
            #[trigger] raw_candidates(spec, salt, cells)[i],
        ) by {
            let earlier = raw_candidates(spec, salt, shorter);
            if i < earlier.len() {
                assert(raw_candidates(spec, salt, cells)[i] == earlier[i]);
                assert(free_candidate(spec, shorter, earlier[i]));
                assert(cells[earlier[i].1 as int] == shorter[earlier[i].1 as int]);
            } else {
                assert(!is_reserved(spec, cells.last()));
                assert(raw_candidates(spec, salt, cells)[i].1 == cells.len() - 1);
            }
        }
    }
}

proof fn lemma_sorted_candidates_free(spec: MapGenerationSpec, salt: u64, cells: Seq<(u32, u32)>)
    requires
        cells.len() <= MAP_MAX_TILES,
    ensures
        forall|i: int|
            0 <= i < sort_by_hash(raw_candidates(spec, salt, cells)).len() ==> free_candidate(
                spec,
                cells,
                #[trigger] sort_by_hash(raw_candidates(spec, salt, cells))[i],
            ),
{
    let raw = raw_candidates(spec, salt, cells);
    lemma_raw_candidates_free(spec, salt, cells);
    lemma_sort_by_hash_members(raw);
    assert forall|i: int| 0 <= i < sort_by_hash(raw).len() implies free_candidate(
        spec,
        cells,
        #[trigger] sort_by_hash(raw)[i],
    ) by {
        assert(sort_by_hash(raw).contains(sort_by_hash(raw)[i]));
        let v = choose|v: int| 0 <= v < raw.len() && raw[v] == sort_by_hash(raw)[i];
        assert(free_candidate(spec, cells, raw[v]));
    }
}

/// The placements so far stand on free cells, each marked occupied, no two
/// on one cell, and within the placement limit.
pub open spec fn placements_sound(
    spec: MapGenerationSpec,
    cells: Seq<(u32, u32)>,
    placements: Seq<MapPlacementCell>,
    occupied: Seq<bool>,
) -> bool {
    &&& occupied.len() == cells.len()
    &&& placements.len() <= MAP_MAX_PLACEMENTS
    &&& forall|i: int|
        0 <= i < placements.len() ==> cells.contains(placement_cell(#[trigger] placements[i]))
            && !is_reserved(spec, placement_cell(placements[i]))
    &&& forall|i: int, j: int|
        0 <= i < placements.len() && 0 <= j < cells.len() && cells[j] == placement_cell(
            #[trigger] placements[i],
        ) ==> #[trigger] occupied[j]
    &&& forall|i: int, k: int|
        0 <= i < k < placements.len() ==> placement_cell(#[trigger] placements[i])
            != placement_cell(#[trigger] placements[k])
}

proof fn lemma_place_candidate_sound(
    spec: MapGenerationSpec,
    ctx: RuleContext,
    progress: RuleProgress,
    candidate: (u64, usize),
)
    requires
        ctx.cells.no_duplicates(),
        free_candidate(spec, ctx.cells, candidate),
        placements_sound(spec, ctx.cells, progress.placements, progress.occupied),
    ensures
        placements_sound(
            spec,
            ctx.cells,
            place_candidate(ctx, progress, candidate).placements,
            place_candidate(ctx, progress, candidate).occupied,
        ),
{
    let next = place_candidate(ctx, progress, candidate);
    let index = candidate.1 as int;
    let cells = ctx.cells;
    if next.placements.len() != progress.placements.len() {
        let old_placements = progress.placements;
        let placements = next.placements;
        let occupied = next.occupied;
        assert(placements.len() == old_placements.len() + 1);
        assert(placement_cell(placements.last()) == cells[index]);
        assert(!progress.occupied[index]);
        assert forall|i: int| 0 <= i < placements.len() implies cells.contains(
            placement_cell(#[trigger] placements[i]),
        ) && !is_reserved(spec, placement_cell(placements[i])) by {
            if i < old_placements.len() {
                assert(placements[i] == old_placements[i]);
            } else {
                assert(cells[index] == placement_cell(placements[i]));
            }
        }
        assert forall|i: int, j: int|
            0 <= i < placements.len() && 0 <= j < cells.len() && cells[j] == placement_cell(
                #[trigger] placements[i],
            ) implies #[trigger] occupied[j] by {
            if i < old_placements.len() {
                assert(placements[i] == old_placements[i]);
                assert(progress.occupied[j]);
            } else {
                assert(cells[j] == cells[index]);
                assert(j == index);
            }
        }
        assert forall|i: int, k: int| 0 <= i < k < placements.len() implies placement_cell(
            #[trigger] placements[i],
        ) != placement_cell(#[trigger] placements[k]) by {
            if k < old_placements.len() {
                assert(placements[i] == old_placements[i]);
                assert(placements[k] == old_placements[k]);
            } else {
                assert(placements[i] == old_placements[i]);
                if placement_cell(placements[i]) == cells[index] {
                    assert(progress.occupied[index]);
                }
            }
        }
    }
}

proof fn lemma_run_candidates_sound(
    spec: MapGenerationSpec,
    ctx: RuleContext,
    candidates: Seq<(u64, usize)>,
    start: RuleProgress,
)
    requires
        ctx.cells.no_duplicates(),
        forall|i: int| 0 <= i < candidates.len() ==> free_candidate(spec, ctx.cells, #[trigger] candidates[i]),
        placements_sound(spec, ctx.cells, start.placements, start.occupied),
    ensures
        placements_sound(
            spec,
            ctx.cells,
            run_candidates(ctx, candidates, start).placements,
            run_candidates(ctx, candidates, start).occupied,
        ),
    decreases candidates.len(),
{
    if candidates.len() > 0 {
        let shorter = candidates.drop_last();
        assert forall|i: int| 0 <= i < shorter.len() implies free_candidate(spec, ctx.cells, #[trigger] shorter[i]) by {
            assert(shorter[i] == candidates[i]);
        }
        lemma_run_candidates_sound(spec, ctx, shorter, start);
        assert(free_candidate(spec, ctx.cells, candidates[candidates.len() - 1]));
        lemma_place_candidate_sound(spec, ctx, run_candidates(ctx, shorter, start), candidates.last());
    }
}

proof fn lemma_apply_rules_sound(
    spec: MapGenerationSpec,
    hashes: Seq<u64>,
    cells: Seq<(u32, u32)>,
    count: int,
)
    requires
        cells.no_duplicates(),
        cells.len() <= MAP_MAX_TILES,
        0 <= count <= spec.densities@.len(),
        hashes.len() == spec.densities@.len(),
    ensures
        placements_sound(
            spec,
            cells,
            apply_rules(spec, hashes, cells, count).placements,
            apply_rules(spec, hashes, cells, count).occupied,
        ),
    decreases count,
{
    if count > 0 {
        lemma_apply_rules_sound(spec, hashes, cells, count - 1);
        let before = apply_rules(spec, hashes, cells, count - 1);
        let index = count - 1;
        let rule = spec.densities@[index];
        if rule.per_hundred_tiles != 0 && rule.template_resrefs@.len() != 0 {
            let ctx = rule_context(spec, hashes, cells, index);
            lemma_sorted_candidates_free(spec, ctx.salt, cells);
            lemma_run_candidates_sound(
                spec,
                ctx,
                sort_by_hash(raw_candidates(spec, ctx.salt, cells)),
                RuleProgress { placements: before.placements, occupied: before.occupied, cells: seq![] },
            );
        }
    }
}

/// Every object of a generated map stands on a cell of the interior (inside
/// the grid, off the border) that is not reserved; no two objects share a
/// cell; and a map holds at most `MAP_MAX_PLACEMENTS` objects.
pub proof fn law_placements_on_free_interior_cells(spec: MapGenerationSpec, hashes: Seq<u64>)
    requires
        valid_map_spec(spec),
        hashes.len() == spec.densities@.len(),
    ensures
        ({
            let placements = apply_rules(
                spec,
                hashes,
                buildable_cells(spec),
                spec.densities@.len() as int,
            ).placements;
            &&& placements.len() <= MAP_MAX_PLACEMENTS
            &&& forall|i: int|
                0 <= i < placements.len() ==> {
                    &&& (#[trigger] placements[i]).x < spec.width
                    &&& placements[i].y < spec.height
                    &&& !on_border(spec, placements[i].x, placements[i].y)
                    &&& !is_reserved(spec, placement_cell(placements[i]))
                }
            &&& forall|i: int, k: int|
                0 <= i < k < placements.len() ==> placement_cell(#[trigger] placements[i])
                    != placement_cell(#[trigger] placements[k])
        }),
{
    let cells = buildable_cells(spec);
    lemma_buildable_distinct(spec);
    assert(spec.width * spec.height <= 1024) by (nonlinear_arith)
        requires
            0 < spec.width <= 32,
            0 < spec.height <= 32,
    ;
    lemma_buildable_len(spec, spec.width * spec.height);
    lemma_apply_rules_sound(spec, hashes, cells, spec.densities@.len() as int);
    let placements = apply_rules(spec, hashes, cells, spec.densities@.len() as int).placements;
    assert forall|i: int| 0 <= i < placements.len() implies {
        &&& (#[trigger] placements[i]).x < spec.width
        &&& placements[i].y < spec.height
        &&& !on_border(spec, placements[i].x, placements[i].y)
        &&& !is_reserved(spec, placement_cell(placements[i]))
    } by {
        assert(cells.contains(placement_cell(placements[i])));
        let j = choose|j: int| 0 <= j < cells.len() && cells[j] == placement_cell(placements[i]);
        assert(cells[j].0 < spec.width);
    }
}

/// Two descriptions that differ at most in their seed have the same
/// buildable cells.
proof fn lemma_buildable_ignores_seed(spec: MapGenerationSpec, other: MapGenerationSpec, n: int)
    requires
        spec.width == other.width,
        spec.height == other.height,
        spec.border_margin == other.border_margin,
    ensures
        buildable_upto(spec, n) == buildable_upto(other, n),
    decreases n,
{
    if n > 0 {
        lemma_buildable_ignores_seed(spec, other, n - 1);
    }
}

proof fn lemma_reserved_bounded(spec: MapGenerationSpec, cells: Seq<(u32, u32)>)
    ensures
        count_reserved(spec, cells) <= cells.len(),
    decreases cells.len(),
{
    if cells.len() > 0 {
        lemma_reserved_bounded(spec, cells.drop_last());
    }
}

/// A map's layout follows from its description: two layouts of the same
/// description (with the same category hashes and compatibility report) are
/// the same layout.
pub proof fn law_identical_descriptions_identical_layouts(
    spec: MapGenerationSpec,
    hashes: Seq<u64>,
    compatibility: MapCompatibilityReport,
    first: MapLayout,
    second: MapLayout,
)
    requires
        layout_matches(spec, hashes, compatibility, first),
        layout_matches(spec, hashes, compatibility, second),
    ensures
        first.tiles@ == second.tiles@,
        first.placements@ == second.placements@,
        first.warnings@ == second.warnings@,
        first.metrics == second.metrics,
        first.compatibility == second.compatibility,
{
    assert(first.tiles@ =~= second.tiles@);
}

/// The seed changes where things go, not what a map is: layouts of two
/// descriptions that differ at most in their seed have as many tiles and as
/// many buildable tiles; and in any layout the reserved tiles are some of
/// the buildable ones and the occupancy is at most 100 percent.
pub proof fn law_seed_keeps_the_map_counts(
    spec: MapGenerationSpec,
    reseeded: MapGenerationSpec,
    hashes: Seq<u64>,
    compatibility: MapCompatibilityReport,
    layout: MapLayout,
    reseeded_layout: MapLayout,
)
    requires
        reseeded.width == spec.width,
        reseeded.height == spec.height,
        reseeded.border_margin == spec.border_margin,
        spec.width * spec.height <= usize::MAX,
        layout_matches(spec, hashes, compatibility, layout),
        layout_matches(reseeded, hashes, compatibility, reseeded_layout),
    ensures
        layout.metrics.total_tiles == reseeded_layout.metrics.total_tiles,
        layout.metrics.buildable_tiles == reseeded_layout.metrics.buildable_tiles,
        layout.metrics.reserved_tiles <= layout.metrics.buildable_tiles,
        layout.metrics.occupied_percent <= 100,
{
    lemma_buildable_ignores_seed(spec, reseeded, spec.width * spec.height);
    lemma_reserved_bounded(spec, buildable_cells(spec));
    lemma_buildable_len(spec, spec.width * spec.height);
    let cells = buildable_cells(spec);
    let placed = layout.placements@.len() as int;
    let buildable = cells.len() as int;
    assert(buildable > 0 ==> placed * 100 / buildable >= 0) by (nonlinear_arith)
        requires
            placed >= 0,
    ;
}

} // verus!
