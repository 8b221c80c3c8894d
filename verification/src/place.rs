//! The placement engine: it instantiates the tiles of a composition plan,
//! applies the plan's alignment sequence to them, and freezes the result.

use vstd::prelude::*;
use crate::align::{lemma_run_extend, models, run, run_directives, step, unplaced_tiles};
use crate::align::{Directive, Footprint, Tile, TileModel};
use crate::error::ConfigurationError;
use crate::geometry::{bounding_box, is_bounding_box, regions_of, Rect, Region, Span};
use crate::grid::{is_lattice_aligned, lemma_scaled_overlaps, scaled, Grid};
use crate::plan::{is_guard_block, is_plan_directives, is_plan_footprints};
use crate::plan::{is_row_block, left_region, lemma_row_bottom_monotone, placed_tile};
use crate::plan::{placed_tiles, plan_fits, plan_regions, right_region, rows_positive};
use crate::plan::{CompositionPlan, RowPlan};

verus! {

/// Tile `t` of a plan once the top `k` rows are placed, and after them the
/// guard tiles where `k` is one more than the number of rows.
spec fn partial_tile(rows: Seq<RowPlan>, guard_height: int, k: int, t: int) -> TileModel {
    let n = rows.len() as int;
    let placed = placed_tile(rows, guard_height, t);
    if (t < 2 * n && t / 2 >= n - k) || (t >= 2 * n && k > n) {
        placed
    } else {
        TileModel { x: None, y: None, ..placed }
    }
}

spec fn partial_tiles(rows: Seq<RowPlan>, guard_height: int, k: int) -> Seq<TileModel> {
    Seq::new((2 * rows.len() + 2) as nat, |t: int| partial_tile(rows, guard_height, k, t))
}

/// The four directives of one row take the tiles from the state with `s` rows
/// placed to the state with one row more.
proof fn lemma_row_block_runs(
    rows: Seq<RowPlan>,
    guard_height: int,
    directives: Seq<Directive>,
    s: int,
)
    requires
        rows.len() > 0,
        rows_positive(rows),
        guard_height > 0,
        plan_fits(rows, guard_height),
        is_plan_directives(directives, rows.len() as int),
        0 <= s < rows.len(),
    ensures
        ({
            let s0 = partial_tiles(rows, guard_height, s);
            let d = directives;
            &&& step(s0, d[4 * s]) is Ok
            &&& step(step(s0, d[4 * s])->Ok_0, d[4 * s + 1]) is Ok
            &&& step(step(step(s0, d[4 * s])->Ok_0, d[4 * s + 1])->Ok_0, d[4 * s + 2]) is Ok
            &&& step(
                step(step(step(s0, d[4 * s])->Ok_0, d[4 * s + 1])->Ok_0, d[4 * s + 2])->Ok_0,
                d[4 * s + 3],
            ) == Ok::<Seq<TileModel>, ConfigurationError>(
                partial_tiles(rows, guard_height, s + 1),
            )
        }),
{
    let n = rows.len() as int;
    let j = n - 1 - s;
    let s0 = partial_tiles(rows, guard_height, s);
    assert(is_row_block(directives, n, s));
    lemma_row_bottom_monotone(rows, 0, j);
    lemma_row_bottom_monotone(rows, j, j);
    if s > 0 {
        lemma_row_bottom_monotone(rows, j, j + 1);
        assert((2 * j + 2) / 2 == j + 1);
    }
    assert((2 * j) / 2 == j);
    assert((2 * j + 1) / 2 == j);
    assert(rows[j].footprint.width > 0 && rows[j].footprint.height > 0);
    assert(2 * rows[j].footprint.width <= i64::MAX);
    let r1 = step(s0, directives[4 * s]);
    assert(r1 is Ok);
    let s1 = r1->Ok_0;
    let r2 = step(s1, directives[4 * s + 1]);
    assert(r2 is Ok);
    let s2 = r2->Ok_0;
    assert(s2[2 * j] == placed_tile(rows, guard_height, 2 * j));
    let r3 = step(s2, directives[4 * s + 2]);
    assert(r3 is Ok);
    let s3 = r3->Ok_0;
    let r4 = step(s3, directives[4 * s + 3]);
    assert(r4 is Ok);
    let s4 = r4->Ok_0;
    assert(s4[2 * j + 1] == placed_tile(rows, guard_height, 2 * j + 1));
    assert(s4 =~= partial_tiles(rows, guard_height, s + 1)) by {
        assert forall|t: int| 0 <= t < 2 * n + 2 implies s4[t] == partial_tile(
            rows,
            guard_height,
            s + 1,
            t,
        ) by {
            if t != 2 * j && t != 2 * j + 1 {
                assert(s4[t] == s0[t]);
            }
        }
    }
}

/// The four directives of the guard tiles take the tiles from the state with
/// all rows placed to the state with everything placed.
proof fn lemma_guard_block_runs(rows: Seq<RowPlan>, guard_height: int, directives: Seq<Directive>)
    requires
        rows.len() > 0,
        rows_positive(rows),
        guard_height > 0,
        plan_fits(rows, guard_height),
        is_plan_directives(directives, rows.len() as int),
    ensures
        ({
            let n = rows.len() as int;
            let s0 = partial_tiles(rows, guard_height, n);
            let d = directives;
            &&& step(s0, d[4 * n]) is Ok
            &&& step(step(s0, d[4 * n])->Ok_0, d[4 * n + 1]) is Ok
            &&& step(step(step(s0, d[4 * n])->Ok_0, d[4 * n + 1])->Ok_0, d[4 * n + 2]) is Ok
            &&& step(
                step(step(step(s0, d[4 * n])->Ok_0, d[4 * n + 1])->Ok_0, d[4 * n + 2])->Ok_0,
                d[4 * n + 3],
            ) == Ok::<Seq<TileModel>, ConfigurationError>(
                partial_tiles(rows, guard_height, n + 1),
            )
        }),
{
    let n = rows.len() as int;
    let s0 = partial_tiles(rows, guard_height, n);
    assert(is_guard_block(directives, n));
    lemma_row_bottom_monotone(rows, 0, 0);
    assert(0int / 2 == 0);
    assert(rows[0].footprint.width > 0 && rows[0].footprint.height > 0);
    assert(2 * rows[0].footprint.width <= i64::MAX);
    assert(s0[0] == placed_tile(rows, guard_height, 0));
    let r1 = step(s0, directives[4 * n]);
    assert(r1 is Ok);
    let s1 = r1->Ok_0;
    let r2 = step(s1, directives[4 * n + 1]);
    assert(r2 is Ok);
    let s2 = r2->Ok_0;
    assert(s2[2 * n] == placed_tile(rows, guard_height, 2 * n));
    let r3 = step(s2, directives[4 * n + 2]);
    assert(r3 is Ok);
    let s3 = r3->Ok_0;
    let r4 = step(s3, directives[4 * n + 3]);
    assert(r4 is Ok);
    let s4 = r4->Ok_0;
    assert(s4[2 * n + 1] == placed_tile(rows, guard_height, 2 * n + 1));
    assert(s4 =~= partial_tiles(rows, guard_height, n + 1)) by {
        assert forall|t: int| 0 <= t < 2 * n + 2 implies s4[t] == partial_tile(
            rows,
            guard_height,
            n + 1,
            t,
        ) by {
            if t < 2 * n {
                assert(s4[t] == s0[t]);
            }
        }
    }
}

/// The first `4 * k` directives of a plan place its top `k` rows, and all of
/// them place the guard tiles too.
proof fn lemma_plan_prefix_runs(
    rows: Seq<RowPlan>,
    guard_height: int,
    footprints: Seq<Footprint>,
    directives: Seq<Directive>,
    k: int,
)
    requires
        rows.len() > 0,
        rows_positive(rows),
        guard_height > 0,
        plan_fits(rows, guard_height),
        is_plan_footprints(footprints, rows, guard_height),
        is_plan_directives(directives, rows.len() as int),
        0 <= k <= rows.len() + 1,
    ensures
        run(unplaced_tiles(footprints), directives.take(4 * k)) == Ok::<
            Seq<TileModel>,
            ConfigurationError,
        >(partial_tiles(rows, guard_height, k)),
    decreases k,
{
    let n = rows.len() as int;
    let start = unplaced_tiles(footprints);
    if k == 0 {
        assert(directives.take(0) =~= Seq::<Directive>::empty());
        assert(start =~= partial_tiles(rows, guard_height, 0)) by {
            assert forall|t: int| 0 <= t < 2 * n + 2 implies start[t] == partial_tile(
                rows,
                guard_height,
                0,
                t,
            ) by {
                if t < 2 * n {
                    assert(footprints[t] == rows[t / 2].footprint);
                }
            }
        }
    } else {
        let s = k - 1;
        lemma_plan_prefix_runs(rows, guard_height, footprints, directives, s);
        if s < n {
            lemma_row_block_runs(rows, guard_height, directives, s);
        } else {
            lemma_guard_block_runs(rows, guard_height, directives);
        }
        lemma_run_extend(start, directives, 4 * s);
        lemma_run_extend(start, directives, 4 * s + 1);
        lemma_run_extend(start, directives, 4 * s + 2);
        lemma_run_extend(start, directives, 4 * s + 3);
    }
}

/// Running the alignment sequence of a plan on its tiles places every tile
/// where the plan's closed form says.
pub proof fn lemma_plan_runs(
    rows: Seq<RowPlan>,
    guard_height: int,
    footprints: Seq<Footprint>,
    directives: Seq<Directive>,
)
    requires
        rows.len() > 0,
        rows_positive(rows),
        guard_height > 0,
        plan_fits(rows, guard_height),
        is_plan_footprints(footprints, rows, guard_height),
        is_plan_directives(directives, rows.len() as int),
    ensures
        run(unplaced_tiles(footprints), directives) == Ok::<Seq<TileModel>, ConfigurationError>(
            placed_tiles(rows, guard_height),
        ),
{
    let n = rows.len() as int;
    lemma_plan_prefix_runs(rows, guard_height, footprints, directives, n + 1);
    assert(directives.take(4 * (n + 1)) =~= directives);
    assert(partial_tiles(rows, guard_height, n + 1) =~= placed_tiles(rows, guard_height));
}

/// What a frozen placement holds: the rows of the plan, the bounding box of
/// every tile in lattice units, and the bounding box of the whole cell. Tiles
/// `2 * j` and `2 * j + 1` are the left and the right tile of row `j`, counted
/// from the lowest row; the last two tiles are the guard tiles.
pub ghost struct Placement {
    pub rows: Seq<RowPlan>,
    pub tiles: Seq<Region>,
    pub bounds: Region,
}

impl Placement {
    /// There is a row, and there are two tiles for each row and two guard
    /// tiles.
    pub open spec fn wf(self) -> bool {
        &&& self.rows.len() > 0
        &&& self.tiles.len() == 2 * self.rows.len() + 2
    }

    /// The number of device tiles.
    pub open spec fn device_count(self) -> int {
        2 * (self.rows.len() as int)
    }

    /// The left tile of row `j`.
    pub open spec fn left(self, j: int) -> Region {
        self.tiles[2 * j]
    }

    /// The right tile of row `j`.
    pub open spec fn right(self, j: int) -> Region {
        self.tiles[2 * j + 1]
    }

    /// The guard tile directly beneath the lowest row.
    pub open spec fn first_guard(self) -> Region {
        self.tiles[self.device_count()]
    }

    /// The guard tile beneath the first guard tile.
    pub open spec fn second_guard(self) -> Region {
        self.tiles[self.device_count() + 1]
    }

    /// No two tiles, device or guard, share a part of positive area.
    pub open spec fn no_overlap(self) -> bool {
        forall|t: int, u: int|
            0 <= t < u < self.tiles.len() ==> !(#[trigger] self.tiles[t]).overlaps(
                #[trigger] self.tiles[u],
            )
    }

    /// In every row the right tile begins where the left tile ends, and both
    /// stand on the same bottom line.
    pub open spec fn rows_abut(self) -> bool {
        forall|j: int|
            0 <= j < self.rows.len() ==> (#[trigger] self.right(j)).left == self.left(j).right
                && self.right(j).bot == self.left(j).bot
    }

    /// The bounding box of the two tiles of row `j`.
    pub open spec fn row_bounds(self, j: int) -> Region {
        self.left(j).union(self.right(j))
    }

    /// Every row but the top row hangs from the row above it: its left tile
    /// begins at the left edge of the bounding box of that row, and ends
    /// where that bounding box begins.
    pub open spec fn rows_stack(self) -> bool {
        forall|j: int|
            0 <= j < self.rows.len() - 1 ==> (#[trigger] self.left(j)).left == self.row_bounds(
                j + 1,
            ).left && self.left(j).top == self.row_bounds(j + 1).bot
    }

    /// The placement is that of the plan: the rows are the plan's, every tile
    /// stands where the plan's closed form says, and the bounds are the
    /// bounding box of all tiles.
    pub open spec fn is_placement_of(self, rows: Seq<RowPlan>, guard_height: int) -> bool {
        &&& self.wf()
        &&& self.rows == rows
        &&& self.tiles == plan_regions(rows, guard_height)
        &&& is_bounding_box(self.bounds, self.tiles)
    }
}

/// The tiles of a plan in their closed form do not overlap, abut within each
/// row, and stack from row to row.
pub proof fn lemma_placement_laws(p: Placement, rows: Seq<RowPlan>, guard_height: int)
    requires
        rows_positive(rows),
        guard_height > 0,
        p.is_placement_of(rows, guard_height),
    ensures
        p.no_overlap(),
        p.rows_abut(),
        p.rows_stack(),
{
    let n = rows.len() as int;
    assert forall|t: int, u: int| 0 <= t < u < p.tiles.len() implies !(#[trigger] p.tiles[t]).overlaps(
        #[trigger] p.tiles[u],
    ) by {
        lemma_row_bottom_monotone(rows, 0, 0);
        if u < 2 * n {
            lemma_row_bottom_monotone(rows, t / 2, u / 2);
            assert(rows[t / 2].footprint.width > 0);
        } else if t < 2 * n {
            lemma_row_bottom_monotone(rows, 0, t / 2);
        }
    }
    assert forall|j: int| 0 <= j < n implies (#[trigger] p.right(j)).left == p.left(j).right
        && p.right(j).bot == p.left(j).bot by {
        lemma_plan_regions_by_row(rows, guard_height, j);
    }
    assert forall|j: int| 0 <= j < n - 1 implies (#[trigger] p.left(j)).left == p.row_bounds(
        j + 1,
    ).left && p.left(j).top == p.row_bounds(j + 1).bot by {
        lemma_plan_regions_by_row(rows, guard_height, j);
        lemma_plan_regions_by_row(rows, guard_height, j + 1);
        assert(rows[j + 1].footprint.width > 0);
    }
}

/// On a lattice of any pitch, no two tiles of a placement of a plan have
/// physical bounding boxes that share a part of positive area.
pub proof fn lemma_physical_no_overlap(
    p: Placement,
    rows: Seq<RowPlan>,
    guard_height: int,
    pitch: int,
    t: int,
    u: int,
)
    requires
        rows_positive(rows),
        guard_height > 0,
        p.is_placement_of(rows, guard_height),
        pitch > 0,
        0 <= t < p.tiles.len(),
        0 <= u < p.tiles.len(),
        t != u,
    ensures
        !scaled(p.tiles[t], pitch).overlaps(scaled(p.tiles[u], pitch)),
{
    lemma_placement_laws(p, rows, guard_height);
    lemma_scaled_overlaps(p.tiles[t], p.tiles[u], pitch);
    if t < u {
        assert(!p.tiles[t].overlaps(p.tiles[u]));
    } else {
        assert(!p.tiles[u].overlaps(p.tiles[t]));
    }
}

/// The two tiles of row `j` of a plan, by their numbers.
pub proof fn lemma_plan_regions_by_row(rows: Seq<RowPlan>, guard_height: int, j: int)
    requires
        0 <= j < rows.len(),
    ensures
        plan_regions(rows, guard_height)[2 * j] == left_region(rows, j),
        plan_regions(rows, guard_height)[2 * j + 1] == right_region(rows, j),
{
    assert((2 * j) / 2 == j);
    assert((2 * j + 1) / 2 == j);
}

/// The row of the plan together with the lattice rectangles of its two
/// placed tiles.
#[derive(Clone, Copy, Debug, PartialEq, Eq, Structural)]
pub struct PlacedRow {
    pub plan: RowPlan,
    pub left: Rect,
    pub right: Rect,
}

/// The frozen result of placement. It offers no way to move a tile.
#[derive(Debug)]
pub struct PlacedTileSet {
    rows: Vec<RowPlan>,
    tiles: Vec<Rect>,
    bounds: Rect,
}

impl View for PlacedTileSet {
    type V = Placement;

    closed spec fn view(&self) -> Placement {
        Placement { rows: self.rows@, tiles: regions_of(self.tiles@), bounds: self.bounds@ }
    }
}

impl PlacedTileSet {
    #[verifier::type_invariant]
    spec fn inv(&self) -> bool {
        &&& self.rows@.len() > 0
        &&& self.tiles@.len() == 2 * self.rows@.len() + 2
    }

    /// The number of rows, which is at least one.
    pub fn row_count(&self) -> (n: usize)
        ensures
            n == self@.rows.len(),
            self@.wf(),
    {
        proof {
            use_type_invariant(self);
        }
        self.rows.len()
    }

    /// The number of device tiles: two for each row.
    pub fn device_count(&self) -> (n: usize)
        ensures
            n == self@.device_count(),
            self@.wf(),
    {
        proof {
            use_type_invariant(self);
        }
        self.tiles.len() - 2
    }

    /// Row `j`, counted from the lowest row, with its two placed tiles.
    pub fn row(&self, j: usize) -> (r: Option<PlacedRow>)
        ensures
            self@.wf(),
            match r {
                Some(row) => {
                    &&& j < self@.rows.len()
                    &&& row.plan == self@.rows[j as int]
                    &&& row.left@ == self@.left(j as int)
                    &&& row.right@ == self@.right(j as int)
                },
                None => j >= self@.rows.len(),
            },
    {
        proof {
            use_type_invariant(self);
        }
        let count: usize = self.tiles.len();
        if j < self.rows.len() {
            assert(2 * j + 1 < count);
            Some(
                PlacedRow {
                    plan: self.rows[j],
                    left: self.tiles[2 * j],
                    right: self.tiles[2 * j + 1],
                },
            )
        } else {
            None
        }
    }

    /// The guard tile directly beneath the lowest row.
    pub fn first_guard(&self) -> (r: Rect)
        ensures
            self@.wf(),
            r@ == self@.first_guard(),
    {
        proof {
            use_type_invariant(self);
        }
        self.tiles[self.tiles.len() - 2]
    }

    /// The horizontal extent of the cell that every track runs across: that
    /// of the first guard tile, in lattice units.
    pub fn track_span(&self) -> (s: Span)
        ensures
            self@.wf(),
            s.start == self@.first_guard().left,
            s.stop == self@.first_guard().right,
    {
        self.first_guard().hspan()
    }

    /// The guard tile beneath the first guard tile.
    pub fn second_guard(&self) -> (r: Rect)
        ensures
            self@.wf(),
            r@ == self@.second_guard(),
    {
        proof {
            use_type_invariant(self);
        }
        self.tiles[self.tiles.len() - 1]
    }

    /// The bounding box of tile `t` in physical units on the given lattice.
    /// Every side of it is a multiple of the pitch. There is no result where
    /// the cell has no such tile, and where a side leaves the 64-bit range.
    pub fn physical_tile(&self, t: usize, grid: &Grid) -> (r: Option<Rect>)
        ensures
            match r {
                Some(b) => {
                    &&& t < self@.tiles.len()
                    &&& b@ == scaled(self@.tiles[t as int], grid.spec_pitch())
                    &&& is_lattice_aligned(b@, grid.spec_pitch())
                },
                None => t >= self@.tiles.len() || !scaled(
                    self@.tiles[t as int],
                    grid.spec_pitch(),
                ).fits(),
            },
    {
        if t < self.tiles.len() {
            grid.lattice_to_physical(&self.tiles[t])
        } else {
            None
        }
    }

    /// The bounding box of the whole cell, in lattice units.
    pub fn bounds(&self) -> (r: Rect)
        ensures
            r@ == self@.bounds,
    {
        self.bounds
    }
}

/// Places the tiles of a plan.
///
/// One tile is instantiated for each footprint of the plan, without a
/// position. The plan's alignment sequence is then applied: the left tile of
/// the top row goes to the origin, every row hangs beneath the row above it,
/// the right tile of a row stands to the right of the left tile, and the two
/// guard tiles hang beneath the lowest row, one beneath the other. Then the
/// tiles are frozen.
///
/// It fails, before anything is frozen, exactly where
/// [`CompositionPlan::validate`] fails, and with the same error.
pub fn place(plan: &CompositionPlan) -> (r: Result<PlacedTileSet, ConfigurationError>)
    ensures
        match r {
            Ok(placed) => {
                &&& plan.spec_validate() is Ok
                &&& placed@.is_placement_of(plan.rows@, plan.guard_height as int)
                &&& placed@.no_overlap()
                &&& placed@.rows_abut()
                &&& placed@.rows_stack()
            },
            Err(e) => plan.spec_validate() == Err::<(), ConfigurationError>(e),
        },
{
    let footprints: Vec<Footprint> = match plan.footprints() {
        Ok(f) => f,
        Err(e) => {
            return Err(e);
        },
    };
    let directives: Vec<Directive> = match plan.directives() {
        Ok(d) => d,
        Err(e) => {
            return Err(e);
        },
    };
    let ghost rows = plan.rows@;
    let ghost gh = plan.guard_height as int;
    let ghost n = rows.len() as int;
    proof {
        lemma_plan_runs(rows, gh, footprints@, directives@);
        assert forall|t: int| 0 <= t < footprints@.len() implies (#[trigger] footprints@[t]).width
            > 0 && footprints@[t].height > 0 by {
            if t < 2 * n {
                assert(footprints@[t] == rows[t / 2].footprint);
                assert(rows[t / 2].footprint.width > 0);
            } else {
                assert(rows[0].footprint.width > 0);
            }
        }
    }
    let tiles: Vec<Tile> = match run_directives(&footprints, &directives) {
        Ok(t) => t,
        Err(e) => {
            return Err(e);
        },
    };
    assert(models(tiles@) == placed_tiles(rows, gh));
    assert(models(tiles@).len() == tiles@.len());
    assert(placed_tiles(rows, gh).len() == 2 * n + 2);
    let mut rects: Vec<Rect> = Vec::new();
    let mut t: usize = 0;
    while t < tiles.len()
        invariant
            t <= tiles@.len(),
            tiles@.len() == 2 * n + 2,
            n == rows.len(),
            models(tiles@) == placed_tiles(rows, gh),
            crate::align::all_wf(models(tiles@)),
            rects@.len() == t,
            forall|i: int|
                0 <= i < t ==> (#[trigger] rects@[i])@ == placed_tile(rows, gh, i).bounds(),
        decreases tiles@.len() - t,
    {
        assert(models(tiles@)[t as int] == tiles@[t as int]@);
        assert(placed_tiles(rows, gh)[t as int] == placed_tile(rows, gh, t as int));
        match tiles[t].bounds() {
            Some(b) => {
                rects.push(b);
            },
            None => {
                assert(false);
            },
        }
        t = t + 1;
    }
    let bounds: Rect = match bounding_box(&rects) {
        Some(b) => b,
        None => {
            return Err(ConfigurationError::EmptyPlan);
        },
    };
    let mut kept: Vec<RowPlan> = Vec::new();
    let mut j: usize = 0;
    while j < plan.rows.len()
        invariant
            j <= plan.rows@.len(),
            kept@ == plan.rows@.take(j as int),
        decreases plan.rows@.len() - j,
    {
        kept.push(plan.rows[j]);
        assert(kept@ =~= plan.rows@.take(j as int + 1));
        j = j + 1;
    }
    assert(kept@ =~= plan.rows@);
    let placed = PlacedTileSet { rows: kept, tiles: rects, bounds };
    proof {
        let p = placed@;
        assert(p.tiles =~= plan_regions(rows, gh));
        lemma_placement_laws(p, rows, gh);
    }
    Ok(placed)
}

} // verus!
