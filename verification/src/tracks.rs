//! Track assignment: which lattice row each signal of the cell runs on, and
//! the port shape that is drawn for it.

use vstd::prelude::*;
use crate::error::{ConfigurationError, LatticeError, LayoutError};
use crate::geometry::{fits, Rect, Region, Span};
use crate::grid::{expanded, scaled, shrunk, Grid};
use crate::place::{PlacedRow, PlacedTileSet};
use crate::arith::{ceil_div, floor_div};
use crate::grid::{lemma_round_extremal, lemma_scaled_round_trip};
use crate::plan::{lemma_row_bottom_monotone, plan_regions, row_bottom, rows_positive, RowPlan};
use crate::tile::Net;

verus! {

/// By how much a port shape reaches beneath and above the line of its track,
/// in physical units. The value belongs to the process.
pub const PORT_CLEARANCE: i64 = 130;

/// By how much a port shape is moved upwards from the line of its track, in
/// physical units. The value belongs to the process.
pub const PORT_OFFSET: i64 = 130;

/// The number of the routing layer that tracks run on and port shapes are
/// drawn on. The value belongs to the process.
pub const TRACK_LAYER: usize = 1;

/// The rectangle over 64-bit coordinates that stands for a region whose sides
/// lie in the 64-bit range.
pub open spec fn rect_of(r: Region) -> Rect {
    Rect { left: r.left as i64, bot: r.bot as i64, right: r.right as i64, top: r.top as i64 }
}

/// Where a gate port of the left tile of row `j` lies, in physical units,
/// once the row is placed, if that lies in the 64-bit range.
pub open spec fn gate_position(
    rows: Seq<RowPlan>,
    tiles: Seq<Region>,
    j: int,
    pitch: int,
) -> Option<Region> {
    let dx = tiles[2 * j].left * pitch;
    let dy = tiles[2 * j].bot * pitch;
    let moved = rows[j].gate@.translate(dx, dy);
    if fits(dx) && fits(dy) && moved.fits() {
        Some(moved)
    } else {
        None
    }
}

/// The tracks that row `j` gives.
///
/// The lowest row gives one track: the bottom line of its gate port shrunk to
/// the lattice, so that the track lies within the drawn port. A row above it
/// that exposes a pair of signals gives two neighbouring tracks, from the
/// bottom line of its gate port expanded to the lattice. Any other row gives
/// none.
pub open spec fn row_tracks(rows: Seq<RowPlan>, tiles: Seq<Region>, j: int, pitch: int) -> Result<
    Seq<int>,
    LayoutError,
> {
    if j > 0 && !rows[j].exposes_pair {
        Ok(Seq::empty())
    } else {
        match gate_position(rows, tiles, j, pitch) {
            None => Err(LayoutError::Configuration(ConfigurationError::OutOfRange)),
            Some(g) => if j == 0 {
                match shrunk(g, pitch) {
                    Some(s) => Ok(seq![s.bot]),
                    None => Err(LayoutError::Lattice(LatticeError { rect: rect_of(g) })),
                }
            } else {
                let t = expanded(g, pitch).bot;
                if fits(t + 1) {
                    Ok(seq![t, t + 1])
                } else {
                    Err(LayoutError::Configuration(ConfigurationError::OutOfRange))
                }
            },
        }
    }
}

/// The tracks that the lowest `k` rows give, from the lowest row upwards, or
/// the failure of the lowest row that gives none where it should.
pub open spec fn tracks_upto(rows: Seq<RowPlan>, tiles: Seq<Region>, k: int, pitch: int) -> Result<
    Seq<int>,
    LayoutError,
>
    decreases k,
{
    if k <= 0 {
        Ok(Seq::empty())
    } else {
        match tracks_upto(rows, tiles, k - 1, pitch) {
            Err(e) => Err(e),
            Ok(below) => match row_tracks(rows, tiles, k - 1, pitch) {
                Err(e) => Err(e),
                Ok(here) => Ok(below + here),
            },
        }
    }
}

/// Each number of the sequence is less than all that follow it.
pub open spec fn strictly_increasing(s: Seq<int>) -> bool {
    forall|i: int, j: int| 0 <= i < j < s.len() ==> s[i] < s[j]
}

/// The tracks as unbounded integers.
pub open spec fn ints(tracks: Seq<i64>) -> Seq<int> {
    Seq::new(tracks.len(), |i: int| tracks[i] as int)
}

/// The grid point of a track: the line of the track across the horizontal
/// extent of the guard tile, in lattice units.
pub open spec fn grid_point(guard: Region, track: int) -> Region {
    Region { left: guard.left, bot: track, right: guard.right, top: track }
}

/// The port shape of a grid point: its physical extent, grown by the
/// clearance downwards and upwards and then moved up by the offset. There is
/// none where one of these three leaves the 64-bit range.
pub open spec fn port_shape(point: Region, pitch: int) -> Option<Region> {
    let physical = scaled(point, pitch);
    let grown = physical.grow_vert(PORT_CLEARANCE as int);
    let moved = grown.translate(0, PORT_OFFSET as int);
    if physical.fits() && grown.fits() && moved.fits() {
        Some(moved)
    } else {
        None
    }
}

/// The port shape of the grid point of a track.
pub open spec fn port_of_track(guard: Region, track: int, pitch: int) -> Option<Region> {
    port_shape(grid_point(guard, track), pitch)
}

/// Every track of the sequence has a port shape.
pub open spec fn all_ports_fit(guard: Region, tracks: Seq<int>, pitch: int) -> bool {
    forall|i: int| 0 <= i < tracks.len() ==> port_of_track(guard, #[trigger] tracks[i], pitch) is Some
}

/// The tracks that the signals take, or the failure of track assignment.
///
/// Assignment fails as the tracks of the rows fail; then with
/// `SignalTrackMismatch` where the signals are not as many as the tracks or
/// the tracks do not strictly increase; then with `OutOfRange` where the port
/// shape of a track leaves the 64-bit range.
pub open spec fn assigned_tracks(
    rows: Seq<RowPlan>,
    tiles: Seq<Region>,
    pitch: int,
    signals: Seq<Net>,
) -> Result<Seq<int>, LayoutError> {
    match tracks_upto(rows, tiles, rows.len() as int, pitch) {
        Err(e) => Err(e),
        Ok(tracks) => if tracks.len() != signals.len() || !strictly_increasing(tracks) {
            Err(LayoutError::Configuration(ConfigurationError::SignalTrackMismatch))
        } else if !all_ports_fit(tiles[2 * (rows.len() as int)], tracks, pitch) {
            Err(LayoutError::Configuration(ConfigurationError::OutOfRange))
        } else {
            Ok(tracks)
        },
    }
}

/// What track assignment gives one signal.
#[derive(Clone, Copy, Debug, PartialEq, Eq, Structural)]
pub struct TrackAssignment {
    pub signal: Net,
    /// The lattice row that the signal runs on.
    pub track: i64,
    /// What the router is told: the line of the track across the cell, in
    /// lattice units.
    pub grid_point: Rect,
    /// What is drawn as the port of the signal, in physical units.
    pub port: Rect,
    /// The routing layer of the grid point and of the port.
    pub layer: usize,
}

/// The assignments give the signals, in their order, the tracks, in theirs,
/// each with the grid point and the port shape of its track.
pub open spec fn is_assignment(
    out: Seq<TrackAssignment>,
    signals: Seq<Net>,
    tracks: Seq<int>,
    guard: Region,
    pitch: int,
) -> bool {
    &&& out.len() == signals.len()
    &&& out.len() == tracks.len()
    &&& forall|i: int|
        0 <= i < out.len() ==> {
            &&& (#[trigger] out[i]).signal == signals[i]
            &&& out[i].track == tracks[i]
            &&& out[i].grid_point@ == grid_point(guard, tracks[i])
            &&& port_of_track(guard, tracks[i], pitch) == Some(out[i].port@)
            &&& out[i].layer == TRACK_LAYER
        }
}

/// Where a gate port of the left tile of a placed row lies, in physical
/// units. There is no result where it leaves the 64-bit range.
pub fn gate_of_row(row: &PlacedRow, grid: &Grid) -> (r: Option<Rect>)
    ensures
        ({
            let dx = row.left.left * grid.spec_pitch();
            let dy = row.left.bot * grid.spec_pitch();
            let moved = row.plan.gate@.translate(dx, dy);
            match r {
                Some(g) => fits(dx) && fits(dy) && moved.fits() && g@ == moved,
                None => !(fits(dx) && fits(dy) && moved.fits()),
            }
        }),
{
    let pitch: i64 = grid.pitch();
    let dx: i64 = match row.left.left.checked_mul(pitch) {
        Some(v) => v,
        None => {
            return None;
        },
    };
    let dy: i64 = match row.left.bot.checked_mul(pitch) {
        Some(v) => v,
        None => {
            return None;
        },
    };
    row.plan.gate.translate(dx, dy)
}

/// The port shape that is drawn for a grid point. There is no result where
/// it leaves the 64-bit range.
pub fn port_shape_of(point: &Rect, grid: &Grid) -> (r: Option<Rect>)
    ensures
        match r {
            Some(s) => port_shape(point@, grid.spec_pitch()) == Some(s@),
            None => port_shape(point@, grid.spec_pitch()) is None,
        },
{
    let physical: Rect = match grid.lattice_to_physical(point) {
        Some(v) => v,
        None => {
            return None;
        },
    };
    let grown: Rect = match physical.expand_vert(PORT_CLEARANCE) {
        Some(v) => v,
        None => {
            return None;
        },
    };
    grown.translate(0, PORT_OFFSET)
}

/// The tracks of a placed cell, from the lowest upwards: one from the lowest
/// row, and two from every row above it that exposes a pair of signals.
///
/// It fails with a `LatticeError` where a gate port of the lowest row holds
/// no lattice rectangle, and with `OutOfRange` where a gate port or a track
/// leaves the 64-bit range; of several failures it reports that of the lowest
/// row.
pub fn track_rows(placed: &PlacedTileSet, grid: &Grid) -> (r: Result<Vec<i64>, LayoutError>)
    ensures
        match tracks_upto(
            placed@.rows,
            placed@.tiles,
            placed@.rows.len() as int,
            grid.spec_pitch(),
        ) {
            Ok(tracks) => r is Ok && ints(r->Ok_0@) == tracks,
            Err(e) => r is Err && r->Err_0 == e,
        },
{
    let n: usize = placed.row_count();
    let pitch: i64 = grid.pitch();
    let mut tracks: Vec<i64> = Vec::new();
    assert(ints(tracks@) =~= Seq::<int>::empty());
    let mut j: usize = 0;
    while j < n
        invariant
            j <= n,
            n == placed@.rows.len(),
            placed@.wf(),
            pitch == grid.spec_pitch(),
            tracks_upto(placed@.rows, placed@.tiles, j as int, pitch as int) == Ok::<
                Seq<int>,
                LayoutError,
            >(ints(tracks@)),
        decreases n - j,
    {
        let ghost below = ints(tracks@);
        let row: PlacedRow = match placed.row(j) {
            Some(row) => row,
            None => {
                assert(false);
                return Err(LayoutError::Configuration(ConfigurationError::UnknownTile));
            },
        };
        if j == 0 || row.plan.exposes_pair {
            let gate: Rect = match gate_of_row(&row, grid) {
                Some(g) => g,
                None => {
                    proof {
                        lemma_tracks_fail_on(
                            placed@.rows,
                            placed@.tiles,
                            j as int + 1,
                            n as int,
                            pitch as int,
                        );
                    }
                    return Err(LayoutError::Configuration(ConfigurationError::OutOfRange));
                },
            };
            assert(gate_position(placed@.rows, placed@.tiles, j as int, pitch as int) == Some(gate@));
            if j == 0 {
                match grid.shrink_to_lattice(&gate) {
                    Some(s) => {
                        tracks.push(s.bot);
                        assert(ints(tracks@) =~= below + seq![s.bot as int]);
                    },
                    None => {
                        proof {
                            assert(rect_of(gate@) == gate);
                            lemma_tracks_fail_on(
                            placed@.rows,
                            placed@.tiles,
                            j as int + 1,
                            n as int,
                            pitch as int,
                        );
                        }
                        return Err(LayoutError::Lattice(LatticeError { rect: gate }));
                    },
                }
            } else {
                let t: i64 = grid.expand_to_lattice(&gate).bot;
                match t.checked_add(1) {
                    Some(u) => {
                        tracks.push(t);
                        tracks.push(u);
                        assert(ints(tracks@) =~= below + seq![t as int, t as int + 1]);
                    },
                    None => {
                        proof {
                            lemma_tracks_fail_on(
                            placed@.rows,
                            placed@.tiles,
                            j as int + 1,
                            n as int,
                            pitch as int,
                        );
                        }
                        return Err(LayoutError::Configuration(ConfigurationError::OutOfRange));
                    },
                }
            }
        } else {
            assert(ints(tracks@) =~= below + Seq::<int>::empty());
        }
        j = j + 1;
    }
    Ok(tracks)
}

/// Where the tracks of the lowest `k` rows fail, those of more rows fail in
/// the same way.
pub proof fn lemma_tracks_fail_on(
    rows: Seq<RowPlan>,
    tiles: Seq<Region>,
    k: int,
    n: int,
    pitch: int,
)
    requires
        0 <= k <= n,
        tracks_upto(rows, tiles, k, pitch) is Err,
    ensures
        tracks_upto(rows, tiles, n, pitch) == tracks_upto(rows, tiles, k, pitch),
    decreases n - k,
{
    if k < n {
        lemma_tracks_fail_on(rows, tiles, k, n - 1, pitch);
    }
}

/// Whether each track is less than all that follow it.
pub fn is_strictly_increasing(tracks: &Vec<i64>) -> (b: bool)
    ensures
        b == strictly_increasing(ints(tracks@)),
{
    let n: usize = tracks.len();
    if n < 2 {
        return true;
    }
    let ghost s = ints(tracks@);
    let mut i: usize = 0;
    while i + 1 < n
        invariant
            i < n,
            n == tracks@.len(),
            s == ints(tracks@),
            forall|a: int, b: int| 0 <= a < b <= i ==> s[a] < s[b],
        decreases n - i,
    {
        if tracks[i] >= tracks[i + 1] {
            assert(!(s[i as int] < s[i as int + 1]));
            return false;
        }
        assert forall|a: int, b: int| 0 <= a < b <= i + 1 implies s[a] < s[b] by {
            if b == i + 1 && a < i {
                assert(s[a] < s[i as int]);
            }
        }
        i = i + 1;
    }
    true
}

/// Assigns a track to each signal of a placed cell.
///
/// The tracks of the cell are those of [`track_rows`]. The signals take them
/// in order: the first signal the lowest track. Each signal gets the grid
/// point of its track, which spans the horizontal extent of the first guard
/// tile, and the port shape of that grid point.
///
/// It fails as [`track_rows`] does; then with `SignalTrackMismatch` where the
/// signals are not as many as the tracks or the tracks do not strictly
/// increase; then with `OutOfRange` where a port shape leaves the 64-bit
/// range. Nothing is returned for any signal unless every signal has its
/// track.
pub fn assign_tracks(placed: &PlacedTileSet, grid: &Grid, signals: &Vec<Net>) -> (r: Result<
    Vec<TrackAssignment>,
    LayoutError,
>)
    ensures
        match assigned_tracks(placed@.rows, placed@.tiles, grid.spec_pitch(), signals@) {
            Err(e) => r is Err && r->Err_0 == e,
            Ok(tracks) => r is Ok && is_assignment(
                r->Ok_0@,
                signals@,
                tracks,
                placed@.first_guard(),
                grid.spec_pitch(),
            ),
        },
        r matches Ok(out) ==> forall|i: int, j: int|
            0 <= i < j < out@.len() ==> (#[trigger] out@[i]).track < (#[trigger] out@[j]).track,
        r matches Ok(out) ==> forall|i: int, j: int|
            0 <= i < out@.len() && 0 <= j < out@.len() && i != j ==> (#[trigger] out@[i]).track != (
            #[trigger] out@[j]).track,
{
    let tracks: Vec<i64> = match track_rows(placed, grid) {
        Ok(t) => t,
        Err(e) => {
            return Err(e);
        },
    };
    let ghost models = ints(tracks@);
    if tracks.len() != signals.len() || !is_strictly_increasing(&tracks) {
        return Err(LayoutError::Configuration(ConfigurationError::SignalTrackMismatch));
    }
    let guard: Rect = placed.first_guard();
    let hspan: Span = placed.track_span();
    let mut out: Vec<TrackAssignment> = Vec::new();
    let mut i: usize = 0;
    while i < tracks.len()
        invariant
            i <= tracks@.len(),
            tracks@.len() == signals@.len(),
            models == ints(tracks@),
            tracks_upto(
                placed@.rows,
                placed@.tiles,
                placed@.rows.len() as int,
                grid.spec_pitch(),
            ) == Ok::<Seq<int>, LayoutError>(models),
            strictly_increasing(models),
            guard@ == placed@.first_guard(),
            hspan == (Span { start: guard.left, stop: guard.right }),
            out@.len() == i,
            forall|k: int|
                0 <= k < i ==> {
                    &&& (#[trigger] out@[k]).signal == signals@[k]
                    &&& out@[k].track == models[k]
                    &&& out@[k].grid_point@ == grid_point(guard@, models[k])
                    &&& port_of_track(guard@, models[k], grid.spec_pitch()) == Some(out@[k].port@)
                    &&& out@[k].layer == TRACK_LAYER
                },
        decreases tracks@.len() - i,
    {
        let track: i64 = tracks[i];
        assert(models[i as int] == track);
        let point: Rect = Rect::from_spans(hspan, Span::from_point(track));
        let port: Rect = match port_shape_of(&point, grid) {
            Some(p) => p,
            None => {
                assert(port_of_track(guard@, models[i as int], grid.spec_pitch()) is None);
                return Err(LayoutError::Configuration(ConfigurationError::OutOfRange));
            },
        };
        out.push(
            TrackAssignment { signal: signals[i], track, grid_point: point, port, layer: TRACK_LAYER },
        );
        i = i + 1;
    }
    proof {
        assert forall|k: int| 0 <= k < models.len() implies port_of_track(
            guard@,
            #[trigger] models[k],
            grid.spec_pitch(),
        ) is Some by {
            assert(out@[k].track == models[k]);
        }
        assert forall|a: int, b: int| 0 <= a < b < out@.len() implies (#[trigger] out@[a]).track < (
        #[trigger] out@[b]).track by {
            assert(models[a] < models[b]);
        }
        assert forall|a: int, b: int|
            0 <= a < out@.len() && 0 <= b < out@.len() && a != b implies (#[trigger] out@[a]).track
            != (#[trigger] out@[b]).track by {
            if a < b {
                assert(models[a] < models[b]);
            } else {
                assert(models[b] < models[a]);
            }
        }
    }
    Ok(out)
}

/// A row's gate port lies within the height of its tile, and is higher than
/// zero.
pub open spec fn gate_within_tile(row: RowPlan, pitch: int) -> bool {
    0 <= row.gate.bot < row.gate.top <= row.footprint.height * pitch
}

/// Every row has its gate port within the height of its tile.
pub open spec fn gates_within_tiles(rows: Seq<RowPlan>, pitch: int) -> bool {
    forall|j: int| 0 <= j < rows.len() ==> gate_within_tile(#[trigger] rows[j], pitch)
}

/// Of two neighbouring rows above the lowest, at most one exposes a pair of
/// signals.
pub open spec fn pairs_apart(rows: Seq<RowPlan>) -> bool {
    forall|i: int, j: int|
        1 <= i && j == i + 1 && j < rows.len() ==> !((#[trigger] rows[i]).exposes_pair && (
        #[trigger] rows[j]).exposes_pair)
}

/// The highest lattice line that a track of the lowest `k` rows can lie on,
/// where every gate port lies within its tile: the top line of row `k - 1`
/// where that row exposes a pair of signals, and the line beneath it
/// otherwise.
pub open spec fn track_ceiling(rows: Seq<RowPlan>, k: int) -> int {
    let top = row_bottom(rows, k - 1) + rows[k - 1].footprint.height;
    if k - 1 >= 1 && rows[k - 1].exposes_pair {
        top
    } else {
        top - 1
    }
}

/// Where a port lies within the height of a tile that stands on the lattice
/// line `y`, the lattice lines at and within the port lie within the tile.
proof fn lemma_track_within_tile(bot: int, top: int, y: int, h: int, p: int)
    requires
        p > 0,
        h > 0,
        0 <= bot < top <= h * p,
    ensures
        y <= floor_div(bot + y * p, p) <= y + h - 1,
        y <= ceil_div(bot + y * p, p),
        floor_div(top + y * p, p) <= y + h,
{
    let b = bot + y * p;
    let t = top + y * p;
    assert((y + h) * p == y * p + h * p) by (nonlinear_arith);
    assert((y - 1) * p == y * p - p) by (nonlinear_arith);
    assert((y + h + 1) * p == y * p + h * p + p) by (nonlinear_arith);
    lemma_round_extremal(b, p, y);
    lemma_round_extremal(b, p, y + h);
    lemma_round_extremal(b, p, y - 1);
    lemma_round_extremal(t, p, y + h + 1);
}

/// Where a gate port of row `j` lies within its tile, the tracks that the
/// row gives lie within the tile: at or above its bottom line, and beneath
/// its top line but for the second track of a pair, which may lie on it.
proof fn lemma_row_tracks_within_tile(rows: Seq<RowPlan>, guard_height: int, pitch: int, j: int)
    requires
        pitch > 0,
        rows_positive(rows),
        0 <= j < rows.len(),
        gate_within_tile(rows[j], pitch),
        row_tracks(rows, plan_regions(rows, guard_height), j, pitch) is Ok,
    ensures
        ({
            let here = row_tracks(rows, plan_regions(rows, guard_height), j, pitch)->Ok_0;
            let y = row_bottom(rows, j);
            let top = y + rows[j].footprint.height;
            if j == 0 {
                here.len() == 1 && y <= here[0] <= top - 1
            } else if rows[j].exposes_pair {
                here.len() == 2 && y <= here[0] <= top - 1 && here[1] == here[0] + 1
            } else {
                here.len() == 0
            }
        }),
{
    let tiles = plan_regions(rows, guard_height);
    let y = row_bottom(rows, j);
    let h = rows[j].footprint.height as int;
    assert(rows[j].footprint.height > 0);
    assert((2 * j) / 2 == j);
    assert(tiles[2 * j].left == 0 && tiles[2 * j].bot == y);
    assert(0 * pitch == 0);
    lemma_track_within_tile(rows[j].gate.bot as int, rows[j].gate.top as int, y, h, pitch);
}

/// Where every gate port lies within its tile and rows that expose pairs are
/// apart, the tracks of the lowest `k` rows of a placed plan strictly
/// increase, and lie between the bottom line of the lowest row and the
/// ceiling of row `k - 1`.
pub proof fn lemma_tracks_increase(rows: Seq<RowPlan>, guard_height: int, pitch: int, k: int)
    requires
        pitch > 0,
        rows_positive(rows),
        gates_within_tiles(rows, pitch),
        pairs_apart(rows),
        1 <= k <= rows.len(),
        tracks_upto(rows, plan_regions(rows, guard_height), k, pitch) is Ok,
    ensures
        ({
            let s = tracks_upto(rows, plan_regions(rows, guard_height), k, pitch)->Ok_0;
            &&& s.len() >= 1
            &&& strictly_increasing(s)
            &&& forall|i: int|
                0 <= i < s.len() ==> row_bottom(rows, 0) <= #[trigger] s[i] <= track_ceiling(
                    rows,
                    k,
                )
        }),
    decreases k,
{
    let tiles = plan_regions(rows, guard_height);
    let j = k - 1;
    let s = tracks_upto(rows, tiles, k, pitch)->Ok_0;
    let here = row_tracks(rows, tiles, j, pitch)->Ok_0;
    assert(gate_within_tile(rows[j], pitch));
    lemma_row_tracks_within_tile(rows, guard_height, pitch, j);
    lemma_row_bottom_monotone(rows, 0, j);
    if k == 1 {
        assert(tracks_upto(rows, tiles, 0, pitch) == Ok::<Seq<int>, LayoutError>(Seq::empty()));
        assert(s =~= here);
    } else {
        let below = tracks_upto(rows, tiles, k - 1, pitch)->Ok_0;
        assert(s == below + here);
        lemma_tracks_increase(rows, guard_height, pitch, k - 1);
        lemma_row_bottom_monotone(rows, j - 1, j);
        assert(rows[j - 1].footprint.height > 0);
        if j - 1 >= 1 {
            assert(!(rows[j - 1].exposes_pair && rows[j].exposes_pair));
        }
        let low = row_bottom(rows, 0);
        let before = track_ceiling(rows, k - 1);
        let after = track_ceiling(rows, k);
        assert(low <= below[0] <= before);
        assert(before <= after);
        assert(here.len() > 0 ==> before < here[0]);
        lemma_append_increasing(below, here, low, before, after);
    }
}

/// Appending an increasing sequence to one that ends beneath where it begins
/// gives an increasing sequence, and keeps the bounds of both.
proof fn lemma_append_increasing(below: Seq<int>, here: Seq<int>, low: int, before: int, after: int)
    requires
        strictly_increasing(below),
        strictly_increasing(here),
        forall|i: int| 0 <= i < below.len() ==> low <= #[trigger] below[i] <= before,
        forall|i: int| 0 <= i < here.len() ==> before < #[trigger] here[i] <= after,
        low <= before <= after,
    ensures
        strictly_increasing(below + here),
        forall|i: int| 0 <= i < (below + here).len() ==> low <= #[trigger] (below + here)[i] <= after,
{
    let s = below + here;
    assert forall|a: int, b: int| 0 <= a < b < s.len() implies s[a] < s[b] by {
        if b < below.len() {
            assert(s[a] == below[a] && s[b] == below[b]);
        } else if a < below.len() {
            assert(s[a] == below[a]);
            assert(s[b] == here[b - below.len()]);
        } else {
            assert(s[a] == here[a - below.len()]);
            assert(s[b] == here[b - below.len()]);
        }
    }
    assert forall|i: int| 0 <= i < s.len() implies low <= #[trigger] s[i] <= after by {
        if i < below.len() {
            assert(s[i] == below[i]);
        } else {
            assert(s[i] == here[i - below.len()]);
        }
    }
}

/// The tracks of rows fail only with a `LatticeError` or with `OutOfRange`.
pub proof fn lemma_track_failures(rows: Seq<RowPlan>, tiles: Seq<Region>, k: int, pitch: int)
    requires
        tracks_upto(rows, tiles, k, pitch) is Err,
    ensures
        tracks_upto(rows, tiles, k, pitch)->Err_0 is Lattice || tracks_upto(
            rows,
            tiles,
            k,
            pitch,
        )->Err_0 == LayoutError::Configuration(ConfigurationError::OutOfRange),
    decreases k,
{
    if k > 0 && tracks_upto(rows, tiles, k - 1, pitch) is Err {
        lemma_track_failures(rows, tiles, k - 1, pitch);
    }
}

/// How many tracks the lowest `k` rows give: one for the lowest row, and two
/// for every row above it that exposes a pair of signals.
pub open spec fn track_count(rows: Seq<RowPlan>, k: int) -> int
    decreases k,
{
    if k <= 0 {
        0
    } else {
        track_count(rows, k - 1) + if k == 1 {
            1int
        } else if rows[k - 1].exposes_pair {
            2int
        } else {
            0int
        }
    }
}

/// Where the lowest `k` rows give their tracks, they give `track_count`
/// tracks.
pub proof fn lemma_track_count(rows: Seq<RowPlan>, tiles: Seq<Region>, k: int, pitch: int)
    requires
        tracks_upto(rows, tiles, k, pitch) is Ok,
    ensures
        tracks_upto(rows, tiles, k, pitch)->Ok_0.len() == track_count(rows, k),
    decreases k,
{
    if k > 0 {
        lemma_track_count(rows, tiles, k - 1, pitch);
    }
}

/// Where the port shape of row `j` is the whole of its tile, the tracks of the
/// row begin on the bottom line of the row, and the lowest row does not fail
/// with a `LatticeError`.
pub proof fn lemma_tracks_of_whole_tile(rows: Seq<RowPlan>, guard_height: int, pitch: int, j: int)
    requires
        pitch > 0,
        rows_positive(rows),
        0 <= j < rows.len(),
        rows[j].gate@ == scaled(
            Region {
                left: 0,
                bot: 0,
                right: rows[j].footprint.width as int,
                top: rows[j].footprint.height as int,
            },
            pitch,
        ),
    ensures
        match row_tracks(rows, plan_regions(rows, guard_height), j, pitch) {
            Ok(here) => here.len() > 0 ==> here[0] == row_bottom(rows, j),
            Err(e) => e == LayoutError::Configuration(ConfigurationError::OutOfRange),
        },
{
    let tiles = plan_regions(rows, guard_height);
    let y = row_bottom(rows, j);
    let w = rows[j].footprint.width as int;
    let h = rows[j].footprint.height as int;
    let tile = Region { left: 0, bot: y, right: w, top: y + h };
    assert(rows[j].footprint.width > 0 && rows[j].footprint.height > 0);
    assert((2 * j) / 2 == j);
    assert(tiles[2 * j].left == 0 && tiles[2 * j].bot == y);
    assert(0 * pitch == 0);
    assert((y + h) * pitch == y * pitch + h * pitch) by (nonlinear_arith);
    assert(rows[j].gate@.translate(0, y * pitch) == scaled(tile, pitch));
    lemma_scaled_round_trip(tile, pitch);
}

} // verus!
