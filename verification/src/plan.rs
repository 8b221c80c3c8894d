//! The composition plan of a cell: its rows of device tiles, its guard tiles,
//! and the alignment sequence that stacks them.

use vstd::prelude::*;
use crate::align::{AlignMode, Directive, Footprint, Reference, TileModel};
use crate::error::ConfigurationError;
use crate::geometry::{Rect, Region};
use crate::tile::TwoFingerMosTile;

verus! {

/// By how many lattice units a guard tile is narrower than a row of two tiles
/// of the first row's width. The value belongs to the process.
pub const GUARD_INSET: i64 = 1;

/// One row of the cell: two tiles of the same device side by side.
#[derive(Clone, Copy, Debug, PartialEq, Eq, Structural)]
pub struct RowPlan {
    /// The parameters of both tiles of the row.
    pub device: TwoFingerMosTile,
    /// The footprint of each of the two tiles, in lattice units.
    pub footprint: Footprint,
    /// A tile's gate port, in physical units, relative to the lower left
    /// corner of the tile.
    pub gate: Rect,
    /// Whether the gates of the row carry two independent signals that leave
    /// the cell.
    pub exposes_pair: bool,
}

/// The rows of a cell from the lowest upwards, and the height of its two
/// guard tiles in lattice units.
#[derive(Debug)]
pub struct CompositionPlan {
    pub rows: Vec<RowPlan>,
    pub guard_height: i64,
}

/// The width of a guard tile beneath a first row of tiles of width `w`.
pub open spec fn guard_width(w: int) -> int {
    2 * w - GUARD_INSET
}

/// The width of a guard tile beneath a first row of tiles of width `w`, in
/// lattice units. It fails where that width is not positive, and where it
/// leaves the 64-bit range.
pub fn guard_tile_width(w: i64) -> (r: Result<i64, ConfigurationError>)
    ensures
        match r {
            Ok(g) => g == guard_width(w as int) && g > 0,
            Err(ConfigurationError::NonPositiveDimension) => guard_width(w as int) <= 0,
            Err(ConfigurationError::OutOfRange) => guard_width(w as int) > i64::MAX,
            Err(_) => false,
        },
{
    if w <= 0 {
        return Err(ConfigurationError::NonPositiveDimension);
    }
    // 2 * w - 1 is taken as 2 * (w - 1) + 1, which overflows only where the
    // result does.
    match (w - 1).checked_mul(2) {
        Some(d) => match d.checked_add(2 - GUARD_INSET) {
            Some(g) => Ok(g),
            None => Err(ConfigurationError::OutOfRange),
        },
        None => Err(ConfigurationError::OutOfRange),
    }
}

/// Every row has a footprint wider and taller than zero.
pub open spec fn rows_positive(rows: Seq<RowPlan>) -> bool {
    forall|j: int|
        0 <= j < rows.len() ==> (#[trigger] rows[j]).footprint.width > 0
            && rows[j].footprint.height > 0
}

/// The lattice coordinate of the bottom edge of row `j`. The top row stands
/// on the line 0, and every other row hangs beneath the row above it.
pub open spec fn row_bottom(rows: Seq<RowPlan>, j: int) -> int
    decreases rows.len() - j,
{
    if j >= rows.len() - 1 {
        0
    } else {
        row_bottom(rows, j + 1) - rows[j].footprint.height
    }
}

/// The plan can be placed within the machine's limits: the tiles can be
/// numbered, and every edge of every placed tile lies in the 64-bit range.
pub open spec fn plan_fits(rows: Seq<RowPlan>, guard_height: int) -> bool {
    &&& 4 * rows.len() + 4 <= usize::MAX
    &&& forall|j: int| 0 <= j < rows.len() ==> 2 * (#[trigger] rows[j]).footprint.width <= i64::MAX
    &&& row_bottom(rows, 0) - 2 * guard_height >= i64::MIN
}

/// Where the left tile of row `j` is placed.
pub open spec fn left_region(rows: Seq<RowPlan>, j: int) -> Region {
    Region {
        left: 0,
        bot: row_bottom(rows, j),
        right: rows[j].footprint.width as int,
        top: row_bottom(rows, j) + rows[j].footprint.height,
    }
}

/// Where the right tile of row `j` is placed.
pub open spec fn right_region(rows: Seq<RowPlan>, j: int) -> Region {
    Region {
        left: rows[j].footprint.width as int,
        bot: row_bottom(rows, j),
        right: 2 * rows[j].footprint.width,
        top: row_bottom(rows, j) + rows[j].footprint.height,
    }
}

/// Where the first guard tile is placed: beneath the lowest row.
pub open spec fn first_guard_region(rows: Seq<RowPlan>, guard_height: int) -> Region {
    Region {
        left: 0,
        bot: row_bottom(rows, 0) - guard_height,
        right: guard_width(rows[0].footprint.width as int),
        top: row_bottom(rows, 0),
    }
}

/// Where the second guard tile is placed: beneath the first.
pub open spec fn second_guard_region(rows: Seq<RowPlan>, guard_height: int) -> Region {
    Region {
        left: 0,
        bot: row_bottom(rows, 0) - 2 * guard_height,
        right: guard_width(rows[0].footprint.width as int),
        top: row_bottom(rows, 0) - guard_height,
    }
}

/// Where every tile of a plan is placed: tiles `2 * j` and `2 * j + 1` are the
/// left and the right tile of row `j`, and the last two are the first and the
/// second guard tile.
pub open spec fn plan_regions(rows: Seq<RowPlan>, guard_height: int) -> Seq<Region> {
    let n = rows.len() as int;
    Seq::new(
        (2 * n + 2) as nat,
        |t: int|
            if t < 2 * n {
                if t % 2 == 0 {
                    left_region(rows, t / 2)
                } else {
                    right_region(rows, t / 2)
                }
            } else if t == 2 * n {
                first_guard_region(rows, guard_height)
            } else {
                second_guard_region(rows, guard_height)
            },
    )
}

/// What validation of a plan of these rows and this guard height returns.
pub open spec fn validate_rows(rows: Seq<RowPlan>, guard_height: int) -> Result<
    (),
    ConfigurationError,
> {
    if rows.len() == 0 {
        Err(ConfigurationError::EmptyPlan)
    } else if !(rows_positive(rows) && guard_height > 0) {
        Err(ConfigurationError::NonPositiveDimension)
    } else if !plan_fits(rows, guard_height) {
        Err(ConfigurationError::OutOfRange)
    } else {
        Ok(())
    }
}

/// The footprints of the tiles of a plan of `rows`: tiles `2 * j` and
/// `2 * j + 1` are the left and the right tile of row `j`, and the last two
/// are the guard tiles.
pub open spec fn is_plan_footprints(
    footprints: Seq<Footprint>,
    rows: Seq<RowPlan>,
    guard_height: int,
) -> bool {
    let n = rows.len() as int;
    &&& footprints.len() == 2 * n + 2
    &&& forall|t: int| 0 <= t < 2 * n ==> #[trigger] footprints[t] == rows[t / 2].footprint
    &&& footprints[2 * n].width == guard_width(rows[0].footprint.width as int)
    &&& footprints[2 * n].height == guard_height
    &&& footprints[2 * n + 1] == footprints[2 * n]
}

/// The directive aligns `tile` to the tile `reference` with no offset.
pub open spec fn aligns_to_tile(d: Directive, tile: int, reference: int, mode: AlignMode) -> bool {
    &&& d.tile == tile
    &&& d.reference matches Reference::Tile(r) && r == reference
    &&& d.mode == mode
    &&& d.offset == 0
}

/// The directive aligns `tile` to the origin with no offset.
pub open spec fn aligns_to_origin(d: Directive, tile: int, mode: AlignMode) -> bool {
    &&& d.tile == tile
    &&& d.reference == Reference::Rect(Rect { left: 0, bot: 0, right: 0, top: 0 })
    &&& d.mode == mode
    &&& d.offset == 0
}

/// The four directives from `4 * s` on place the row that is `s` rows beneath
/// the top row of `n` rows. The left tile of the top row goes to the origin,
/// that of every other row to the left edge of the row above and beneath it.
/// The right tile goes to the right of the left tile, on the same bottom
/// line.
pub open spec fn is_row_block(directives: Seq<Directive>, n: int, s: int) -> bool {
    let j = n - 1 - s;
    &&& if s == 0 {
        &&& aligns_to_origin(directives[4 * s], 2 * j, AlignMode::Left)
        &&& aligns_to_origin(directives[4 * s + 1], 2 * j, AlignMode::Bottom)
    } else {
        &&& aligns_to_tile(directives[4 * s], 2 * j, 2 * j + 2, AlignMode::Left)
        &&& aligns_to_tile(directives[4 * s + 1], 2 * j, 2 * j + 2, AlignMode::Beneath)
    }
    &&& aligns_to_tile(directives[4 * s + 2], 2 * j + 1, 2 * j, AlignMode::Bottom)
    &&& aligns_to_tile(directives[4 * s + 3], 2 * j + 1, 2 * j, AlignMode::ToTheRight)
}

/// The last four directives place the guard tiles: the first beneath the left
/// tile of the lowest row, the second beneath the first, both at the left
/// edge of the cell.
pub open spec fn is_guard_block(directives: Seq<Directive>, n: int) -> bool {
    &&& aligns_to_tile(directives[4 * n], 2 * n, 0, AlignMode::Left)
    &&& aligns_to_tile(directives[4 * n + 1], 2 * n, 0, AlignMode::Beneath)
    &&& aligns_to_tile(directives[4 * n + 2], 2 * n + 1, 2 * n, AlignMode::Left)
    &&& aligns_to_tile(directives[4 * n + 3], 2 * n + 1, 2 * n, AlignMode::Beneath)
}

/// The alignment sequence of a plan of `n` rows: the rows from the top row
/// downwards, then the guard tiles.
pub open spec fn is_plan_directives(directives: Seq<Directive>, n: int) -> bool {
    &&& directives.len() == 4 * n + 4
    &&& forall|s: int| 0 <= s < n ==> #[trigger] is_row_block(directives, n, s)
    &&& is_guard_block(directives, n)
}

/// Tile `t` of a plan as it stands once all directives are applied.
pub open spec fn placed_tile(rows: Seq<RowPlan>, guard_height: int, t: int) -> TileModel {
    let n = rows.len() as int;
    if t < 2 * n {
        let j = t / 2;
        TileModel {
            width: rows[j].footprint.width as int,
            height: rows[j].footprint.height as int,
            x: Some(if t % 2 == 0 { 0 } else { rows[j].footprint.width as int }),
            y: Some(row_bottom(rows, j)),
        }
    } else {
        TileModel {
            width: guard_width(rows[0].footprint.width as int),
            height: guard_height,
            x: Some(0),
            y: Some(
                if t == 2 * n {
                    row_bottom(rows, 0) - guard_height
                } else {
                    row_bottom(rows, 0) - 2 * guard_height
                },
            ),
        }
    }
}

/// The tiles of a plan as they stand once all directives are applied.
pub open spec fn placed_tiles(rows: Seq<RowPlan>, guard_height: int) -> Seq<TileModel> {
    Seq::new((2 * rows.len() + 2) as nat, |t: int| placed_tile(rows, guard_height, t))
}

impl CompositionPlan {
    /// The footprints of the tiles of the plan, the two tiles of each row
    /// from the lowest row upwards and then the two guard tiles. It fails as
    /// [`CompositionPlan::validate`] does.
    pub fn footprints(&self) -> (r: Result<Vec<Footprint>, ConfigurationError>)
        ensures
            match r {
                Ok(f) => {
                    &&& self.spec_validate() is Ok
                    &&& is_plan_footprints(f@, self.rows@, self.guard_height as int)
                },
                Err(e) => self.spec_validate() == Err::<(), ConfigurationError>(e),
            },
    {
        match self.validate() {
            Ok(()) => {},
            Err(e) => {
                return Err(e);
            },
        }
        let n: usize = self.rows.len();
        let mut out: Vec<Footprint> = Vec::new();
        let mut j: usize = 0;
        while j < n
            invariant
                j <= n,
                n == self.rows@.len(),
                out@.len() == 2 * j,
                forall|t: int| 0 <= t < 2 * j ==> #[trigger] out@[t] == self.rows@[t / 2].footprint,
            decreases n - j,
        {
            out.push(self.rows[j].footprint);
            out.push(self.rows[j].footprint);
            j = j + 1;
        }
        let width: i64 = match guard_tile_width(self.rows[0].footprint.width) {
            Ok(w) => w,
            Err(e) => {
                assert(2 * (#[trigger] self.rows@[0]).footprint.width <= i64::MAX);
                return Err(e);
            },
        };
        let guard: Footprint = Footprint { width, height: self.guard_height };
        out.push(guard);
        out.push(guard);
        Ok(out)
    }

    /// The alignment sequence of the plan: for each row from the top row
    /// downwards the four directives that place its two tiles, then the four
    /// that place the guard tiles. It fails as [`CompositionPlan::validate`]
    /// does.
    pub fn directives(&self) -> (r: Result<Vec<Directive>, ConfigurationError>)
        ensures
            match r {
                Ok(d) => {
                    &&& self.spec_validate() is Ok
                    &&& is_plan_directives(d@, self.rows@.len() as int)
                },
                Err(e) => self.spec_validate() == Err::<(), ConfigurationError>(e),
            },
    {
        match self.validate() {
            Ok(()) => {},
            Err(e) => {
                return Err(e);
            },
        }
        let n: usize = self.rows.len();
        let origin: Reference = Reference::Rect(Rect { left: 0, bot: 0, right: 0, top: 0 });
        let mut out: Vec<Directive> = Vec::new();
        let mut s: usize = 0;
        while s < n
            invariant
                s <= n,
                n == self.rows@.len(),
                4 * n + 4 <= usize::MAX,
                origin == Reference::Rect(Rect { left: 0, bot: 0, right: 0, top: 0 }),
                out@.len() == 4 * s,
                forall|i: int| 0 <= i < s ==> #[trigger] is_row_block(out@, n as int, i),
            decreases n - s,
        {
            let j: usize = n - 1 - s;
            let left: usize = 2 * j;
            let right: usize = 2 * j + 1;
            let ghost before = out@;
            if s == 0 {
                out.push(Directive::new(left, origin, AlignMode::Left));
                out.push(Directive::new(left, origin, AlignMode::Bottom));
            } else {
                let above: Reference = Reference::Tile(2 * j + 2);
                out.push(Directive::new(left, above, AlignMode::Left));
                out.push(Directive::new(left, above, AlignMode::Beneath));
            }
            out.push(Directive::new(right, Reference::Tile(left), AlignMode::Bottom));
            out.push(Directive::new(right, Reference::Tile(left), AlignMode::ToTheRight));
            proof {
                assert forall|i: int| 0 <= i < s + 1 implies #[trigger] is_row_block(
                    out@,
                    n as int,
                    i,
                ) by {
                    if i < s {
                        assert(is_row_block(before, n as int, i));
                        assert(out@[4 * i] == before[4 * i]);
                        assert(out@[4 * i + 1] == before[4 * i + 1]);
                        assert(out@[4 * i + 2] == before[4 * i + 2]);
                        assert(out@[4 * i + 3] == before[4 * i + 3]);
                    }
                }
            }
            s = s + 1;
        }
        let first: usize = 2 * n;
        let second: usize = 2 * n + 1;
        let ghost before = out@;
        out.push(Directive::new(first, Reference::Tile(0), AlignMode::Left));
        out.push(Directive::new(first, Reference::Tile(0), AlignMode::Beneath));
        out.push(Directive::new(second, Reference::Tile(first), AlignMode::Left));
        out.push(Directive::new(second, Reference::Tile(first), AlignMode::Beneath));
        proof {
            assert forall|i: int| 0 <= i < n implies #[trigger] is_row_block(out@, n as int, i) by {
                assert(is_row_block(before, n as int, i));
                assert(out@[4 * i] == before[4 * i]);
                assert(out@[4 * i + 1] == before[4 * i + 1]);
                assert(out@[4 * i + 2] == before[4 * i + 2]);
                assert(out@[4 * i + 3] == before[4 * i + 3]);
            }
        }
        Ok(out)
    }

    /// What [`CompositionPlan::validate`] returns.
    pub open spec fn spec_validate(&self) -> Result<(), ConfigurationError> {
        validate_rows(self.rows@, self.guard_height as int)
    }

    /// Checks that the plan can be placed. A plan without rows is an
    /// `EmptyPlan`; one with a footprint or a guard height that is not
    /// positive has a `NonPositiveDimension`; one whose tiles cannot be
    /// numbered, or would leave the 64-bit range, is `OutOfRange`.
    pub fn validate(&self) -> (r: Result<(), ConfigurationError>)
        ensures
            r == self.spec_validate(),
    {
        let n: usize = self.rows.len();
        if n == 0 {
            return Err(ConfigurationError::EmptyPlan);
        }
        if self.guard_height <= 0 {
            return Err(ConfigurationError::NonPositiveDimension);
        }
        let mut j: usize = 0;
        while j < n
            invariant
                j <= n,
                n == self.rows@.len(),
                forall|i: int|
                    0 <= i < j ==> (#[trigger] self.rows@[i]).footprint.width > 0
                        && self.rows@[i].footprint.height > 0,
            decreases n - j,
        {
            if self.rows[j].footprint.width <= 0 || self.rows[j].footprint.height <= 0 {
                assert(!((#[trigger] self.rows@[j as int]).footprint.width > 0
                    && self.rows@[j as int].footprint.height > 0));
                return Err(ConfigurationError::NonPositiveDimension);
            }
            j = j + 1;
        }
        if n > (usize::MAX - 4) / 4 {
            return Err(ConfigurationError::OutOfRange);
        }
        let mut j: usize = 0;
        while j < n
            invariant
                j <= n,
                n == self.rows@.len(),
                n > 0,
                rows_positive(self.rows@),
                self.guard_height > 0,
                forall|i: int|
                    0 <= i < j ==> 2 * (#[trigger] self.rows@[i]).footprint.width <= i64::MAX,
            decreases n - j,
        {
            if self.rows[j].footprint.width > i64::MAX / 2 {
                assert(!(2 * (#[trigger] self.rows@[j as int]).footprint.width <= i64::MAX));
                return Err(ConfigurationError::OutOfRange);
            }
            j = j + 1;
        }
        // The depth of the stack beneath the line 0, summed from the top row
        // downwards in 128 bits and given up as soon as it is too deep.
        let floor: i128 = i64::MIN as i128 + 2 * (self.guard_height as i128);
        if floor > 0 {
            proof {
                lemma_row_bottom_monotone(self.rows@, 0, 0);
            }
            return Err(ConfigurationError::OutOfRange);
        }
        let mut y: i128 = 0;
        let mut j: usize = n - 1;
        while j > 0
            invariant
                j < n,
                n == self.rows@.len(),
                4 * n + 4 <= usize::MAX,
                rows_positive(self.rows@),
                self.guard_height > 0,
                forall|i: int|
                    0 <= i < n ==> 2 * (#[trigger] self.rows@[i]).footprint.width <= i64::MAX,
                y == row_bottom(self.rows@, j as int),
                floor == i64::MIN + 2 * self.guard_height,
                floor <= y <= 0,
            decreases j,
        {
            j = j - 1;
            assert(self.rows@[j as int].footprint.height > 0);
            y = y - self.rows[j].footprint.height as i128;
            if y < floor {
                proof {
                    lemma_row_bottom_monotone(self.rows@, 0, j as int);
                }
                return Err(ConfigurationError::OutOfRange);
            }
        }
        Ok(())
    }
}

/// Rows stack downwards: a lower row ends where the next row begins, or
/// beneath that.
pub proof fn lemma_row_bottom_monotone(rows: Seq<RowPlan>, i: int, j: int)
    requires
        rows_positive(rows),
        0 <= i <= j < rows.len(),
    ensures
        row_bottom(rows, i) <= row_bottom(rows, j) <= 0,
        i < j ==> row_bottom(rows, i) + rows[i].footprint.height <= row_bottom(rows, j),
    decreases rows.len() - i,
{
    if j < rows.len() - 1 {
        lemma_row_bottom_monotone(rows, j + 1, j + 1);
        assert(rows[j].footprint.height > 0);
    }
    if i < j {
        lemma_row_bottom_monotone(rows, i + 1, j);
        assert(rows[i].footprint.height > 0);
    }
}

} // verus!
