//! The clocked differential latch comparator: its ports, its transistors and
//! their nets, and the composition plan of its tiled layout.

use vstd::prelude::*;
use crate::align::Footprint;
use crate::error::LayoutError;
use crate::geometry::Rect;
use crate::grid::Grid;
use crate::place::{place, PlacedTileSet};
use crate::error::ConfigurationError;
use crate::plan::{plan_regions, rows_positive, validate_rows, CompositionPlan, RowPlan};
use crate::tile::{MosLength, MosTileKind, Net, TwoFingerMosTile, TwoFingerMosTileIo};
use crate::tracks::{assign_tracks, assigned_tracks, gates_within_tiles, is_assignment};
use crate::tracks::{lemma_track_count, lemma_track_failures, lemma_tracks_increase, pairs_apart};
use crate::tracks::{strictly_increasing, track_count, tracks_upto, TrackAssignment};

verus! {

/// The two nets of a differential signal.
#[derive(Clone, Copy, Debug, PartialEq, Eq, Structural)]
pub struct DiffPair {
    pub p: Net,
    pub n: Net,
}

/// The net on each port of the comparator.
#[derive(Clone, Copy, Debug, PartialEq, Eq, Structural)]
pub struct ClockedDiffComparatorIo {
    pub input: DiffPair,
    pub output: DiffPair,
    pub clock: Net,
    pub vdd: Net,
    pub vss: Net,
}

impl ClockedDiffComparatorIo {
    /// Every port on the net that is named after it.
    pub open spec fn named() -> ClockedDiffComparatorIo {
        ClockedDiffComparatorIo {
            input: DiffPair { p: Net::InputP, n: Net::InputN },
            output: DiffPair { p: Net::OutputP, n: Net::OutputN },
            clock: Net::Clock,
            vdd: Net::Vdd,
            vss: Net::Vss,
        }
    }
}

impl Default for ClockedDiffComparatorIo {
    fn default() -> (io: Self)
        ensures
            io == ClockedDiffComparatorIo::named(),
    {
        ClockedDiffComparatorIo {
            input: DiffPair { p: Net::InputP, n: Net::InputN },
            output: DiffPair { p: Net::OutputP, n: Net::OutputN },
            clock: Net::Clock,
            vdd: Net::Vdd,
            vss: Net::Vss,
        }
    }
}

/// The size of a transistor: channel width and length, and the number of
/// fingers.
#[derive(Clone, Copy, Debug, Hash, PartialEq, Eq, Structural)]
pub struct MosParams {
    pub w: i64,
    pub l: i64,
    pub nf: i64,
}

/// The net on each terminal of a transistor.
#[derive(Clone, Copy, Debug, PartialEq, Eq, Structural)]
pub struct MosIo {
    pub d: Net,
    pub g: Net,
    pub s: Net,
    pub b: Net,
}

/// One transistor of a schematic.
#[derive(Clone, Copy, Debug, PartialEq, Eq, Structural)]
pub struct MosInstance {
    pub kind: MosTileKind,
    pub params: MosParams,
    pub io: MosIo,
}

/// The comparator as a schematic of eleven transistors.
#[derive(Clone, Copy, Debug, Hash, PartialEq, Eq, Structural)]
pub struct StrongArmInstance {
    pub tail: MosParams,
    pub input_pair: MosParams,
    pub inv_nmos: MosParams,
    pub inv_pmos: MosParams,
    pub precharge: MosParams,
}

impl StrongArmInstance {
    /// The transistors of the comparator.
    pub open spec fn spec_devices(&self, io: ClockedDiffComparatorIo) -> Seq<MosInstance> {
        let n = MosTileKind::Nmos;
        let p = MosTileKind::Pmos;
        seq![
            MosInstance {
                kind: n,
                params: self.tail,
                io: MosIo { d: Net::Tail, g: io.clock, s: io.vss, b: io.vss },
            },
            MosInstance {
                kind: n,
                params: self.input_pair,
                io: MosIo { d: Net::Intn, g: io.input.p, s: Net::Tail, b: io.vss },
            },
            MosInstance {
                kind: n,
                params: self.input_pair,
                io: MosIo { d: Net::Intp, g: io.input.n, s: Net::Tail, b: io.vss },
            },
            MosInstance {
                kind: n,
                params: self.inv_nmos,
                io: MosIo { d: io.output.n, g: io.output.p, s: Net::Intn, b: io.vss },
            },
            MosInstance {
                kind: n,
                params: self.inv_nmos,
                io: MosIo { d: io.output.p, g: io.output.n, s: Net::Intp, b: io.vss },
            },
            MosInstance {
                kind: p,
                params: self.inv_pmos,
                io: MosIo { d: io.output.n, g: io.output.p, s: io.vdd, b: io.vdd },
            },
            MosInstance {
                kind: p,
                params: self.inv_pmos,
                io: MosIo { d: io.output.p, g: io.output.n, s: io.vdd, b: io.vdd },
            },
            MosInstance {
                kind: p,
                params: self.precharge,
                io: MosIo { d: io.output.n, g: io.clock, s: io.vdd, b: io.vdd },
            },
            MosInstance {
                kind: p,
                params: self.precharge,
                io: MosIo { d: io.output.p, g: io.clock, s: io.vdd, b: io.vdd },
            },
            MosInstance {
                kind: p,
                params: self.precharge,
                io: MosIo { d: Net::Intn, g: io.clock, s: io.vdd, b: io.vdd },
            },
            MosInstance {
                kind: p,
                params: self.precharge,
                io: MosIo { d: Net::Intp, g: io.clock, s: io.vdd, b: io.vdd },
            },
        ]
    }

    /// The transistors of the comparator with the net on each terminal: the
    /// tail, the input pair, the two cross-coupled inverters, and the four
    /// precharge switches on the outputs and on the drains of the input pair.
    pub fn schematic(&self, io: &ClockedDiffComparatorIo) -> (devices: Vec<MosInstance>)
        ensures
            devices@ == self.spec_devices(*io),
    {
        let n = MosTileKind::Nmos;
        let p = MosTileKind::Pmos;
        let mut out: Vec<MosInstance> = Vec::new();
        out.push(
            MosInstance {
                kind: n,
                params: self.tail,
                io: MosIo { d: Net::Tail, g: io.clock, s: io.vss, b: io.vss },
            },
        );
        out.push(
            MosInstance {
                kind: n,
                params: self.input_pair,
                io: MosIo { d: Net::Intn, g: io.input.p, s: Net::Tail, b: io.vss },
            },
        );
        out.push(
            MosInstance {
                kind: n,
                params: self.input_pair,
                io: MosIo { d: Net::Intp, g: io.input.n, s: Net::Tail, b: io.vss },
            },
        );
        out.push(
            MosInstance {
                kind: n,
                params: self.inv_nmos,
                io: MosIo { d: io.output.n, g: io.output.p, s: Net::Intn, b: io.vss },
            },
        );
        out.push(
            MosInstance {
                kind: n,
                params: self.inv_nmos,
                io: MosIo { d: io.output.p, g: io.output.n, s: Net::Intp, b: io.vss },
            },
        );
        out.push(
            MosInstance {
                kind: p,
                params: self.inv_pmos,
                io: MosIo { d: io.output.n, g: io.output.p, s: io.vdd, b: io.vdd },
            },
        );
        out.push(
            MosInstance {
                kind: p,
                params: self.inv_pmos,
                io: MosIo { d: io.output.p, g: io.output.n, s: io.vdd, b: io.vdd },
            },
        );
        out.push(
            MosInstance {
                kind: p,
                params: self.precharge,
                io: MosIo { d: io.output.n, g: io.clock, s: io.vdd, b: io.vdd },
            },
        );
        out.push(
            MosInstance {
                kind: p,
                params: self.precharge,
                io: MosIo { d: io.output.p, g: io.clock, s: io.vdd, b: io.vdd },
            },
        );
        out.push(
            MosInstance {
                kind: p,
                params: self.precharge,
                io: MosIo { d: Net::Intn, g: io.clock, s: io.vdd, b: io.vdd },
            },
        );
        out.push(
            MosInstance {
                kind: p,
                params: self.precharge,
                io: MosIo { d: Net::Intp, g: io.clock, s: io.vdd, b: io.vdd },
            },
        );
        assert(out@ =~= self.spec_devices(*io));
        out
    }
}

/// What the tile generator gives for one device: the footprint of the tile in
/// lattice units, and its gate port in physical units relative to the lower
/// left corner of the tile.
#[derive(Clone, Copy, Debug, PartialEq, Eq, Structural)]
pub struct TileShape {
    pub footprint: Footprint,
    pub gate: Rect,
}

/// The shapes of the five devices of the tiled comparator, and the height of
/// its guard tiles in lattice units.
#[derive(Clone, Copy, Debug, PartialEq, Eq, Structural)]
pub struct ComparatorShapes {
    pub half_tail: TileShape,
    pub input_pair: TileShape,
    pub inv_nmos: TileShape,
    pub inv_pmos: TileShape,
    pub precharge: TileShape,
    pub guard_height: i64,
}

/// The comparator as six rows of two-finger tiles between guard tiles, given
/// by the channel widths of its five devices.
#[derive(Clone, Copy, Debug, Hash, PartialEq, Eq, Structural)]
pub struct AtollStrongArmInstance {
    pub half_tail_w: i64,
    pub input_pair_w: i64,
    pub inv_nmos_w: i64,
    pub inv_pmos_w: i64,
    pub precharge_w: i64,
}

/// The number of rows of the tiled comparator.
pub const ROWS: usize = 6;

/// A row of a plan for one device of the comparator.
pub open spec fn row_of(device: TwoFingerMosTile, shape: TileShape, exposes_pair: bool) -> RowPlan {
    RowPlan { device, footprint: shape.footprint, gate: shape.gate, exposes_pair }
}

impl AtollStrongArmInstance {
    /// The rows of the comparator from the lowest upwards: the tail, the
    /// input pair, the n-channel and the p-channel half of the inverters, and
    /// two rows of precharge switches. The input pair and the p-channel
    /// inverter row each expose a pair of signals.
    pub open spec fn spec_rows(&self, shapes: ComparatorShapes) -> Seq<RowPlan> {
        let l = MosLength::L150;
        let n = MosTileKind::Nmos;
        let p = MosTileKind::Pmos;
        seq![
            row_of(TwoFingerMosTile { w: self.half_tail_w, l, kind: n }, shapes.half_tail, false),
            row_of(TwoFingerMosTile { w: self.input_pair_w, l, kind: n }, shapes.input_pair, true),
            row_of(TwoFingerMosTile { w: self.inv_nmos_w, l, kind: n }, shapes.inv_nmos, false),
            row_of(TwoFingerMosTile { w: self.inv_pmos_w, l, kind: p }, shapes.inv_pmos, true),
            row_of(TwoFingerMosTile { w: self.precharge_w, l, kind: p }, shapes.precharge, false),
            row_of(TwoFingerMosTile { w: self.precharge_w, l, kind: p }, shapes.precharge, false),
        ]
    }

    /// The composition plan of the comparator for the given shapes of its
    /// tiles.
    pub fn plan(&self, shapes: &ComparatorShapes) -> (plan: CompositionPlan)
        ensures
            plan.rows@ == self.spec_rows(*shapes),
            plan.rows@.len() == ROWS,
            plan.guard_height == shapes.guard_height,
    {
        let l = MosLength::L150;
        let half_tail = TwoFingerMosTile::nmos(self.half_tail_w, l);
        let input_pair = TwoFingerMosTile::nmos(self.input_pair_w, l);
        let inv_nmos = TwoFingerMosTile::nmos(self.inv_nmos_w, l);
        let inv_pmos = TwoFingerMosTile::pmos(self.inv_pmos_w, l);
        let precharge = TwoFingerMosTile::pmos(self.precharge_w, l);
        let mut rows: Vec<RowPlan> = Vec::new();
        rows.push(
            RowPlan {
                device: half_tail,
                footprint: shapes.half_tail.footprint,
                gate: shapes.half_tail.gate,
                exposes_pair: false,
            },
        );
        rows.push(
            RowPlan {
                device: input_pair,
                footprint: shapes.input_pair.footprint,
                gate: shapes.input_pair.gate,
                exposes_pair: true,
            },
        );
        rows.push(
            RowPlan {
                device: inv_nmos,
                footprint: shapes.inv_nmos.footprint,
                gate: shapes.inv_nmos.gate,
                exposes_pair: false,
            },
        );
        rows.push(
            RowPlan {
                device: inv_pmos,
                footprint: shapes.inv_pmos.footprint,
                gate: shapes.inv_pmos.gate,
                exposes_pair: true,
            },
        );
        rows.push(
            RowPlan {
                device: precharge,
                footprint: shapes.precharge.footprint,
                gate: shapes.precharge.gate,
                exposes_pair: false,
            },
        );
        rows.push(
            RowPlan {
                device: precharge,
                footprint: shapes.precharge.footprint,
                gate: shapes.precharge.gate,
                exposes_pair: false,
            },
        );
        assert(rows@ =~= self.spec_rows(*shapes));
        CompositionPlan { rows, guard_height: shapes.guard_height }
    }

    /// The nets of tile `t` of the comparator, where tiles `2 * j` and
    /// `2 * j + 1` are the left and the right tile of row `j`. Every tile is
    /// one transistor; the two tiles of the tail row are the two halves of
    /// the tail.
    pub open spec fn spec_connections(io: ClockedDiffComparatorIo) -> Seq<TwoFingerMosTileIo> {
        seq![
            dgsb(Net::Tail, io.clock, io.vss, io.vss),
            dgsb(Net::Tail, io.clock, io.vss, io.vss),
            dgsb(Net::Intn, io.input.p, Net::Tail, io.vss),
            dgsb(Net::Intp, io.input.n, Net::Tail, io.vss),
            dgsb(io.output.n, io.output.p, Net::Intn, io.vss),
            dgsb(io.output.p, io.output.n, Net::Intp, io.vss),
            dgsb(io.output.n, io.output.p, io.vdd, io.vdd),
            dgsb(io.output.p, io.output.n, io.vdd, io.vdd),
            dgsb(Net::Intn, io.clock, io.vdd, io.vdd),
            dgsb(Net::Intp, io.clock, io.vdd, io.vdd),
            dgsb(io.output.n, io.clock, io.vdd, io.vdd),
            dgsb(io.output.p, io.clock, io.vdd, io.vdd),
        ]
    }

    /// The nets of every tile of the comparator, in the order of the tiles.
    pub fn connections(io: &ClockedDiffComparatorIo) -> (nets: Vec<TwoFingerMosTileIo>)
        ensures
            nets@ == Self::spec_connections(*io),
            nets@.len() == 2 * ROWS,
    {
        let mut out: Vec<TwoFingerMosTileIo> = Vec::new();
        out.push(TwoFingerMosTileIo::dgsb(Net::Tail, io.clock, io.vss, io.vss));
        out.push(TwoFingerMosTileIo::dgsb(Net::Tail, io.clock, io.vss, io.vss));
        out.push(TwoFingerMosTileIo::dgsb(Net::Intn, io.input.p, Net::Tail, io.vss));
        out.push(TwoFingerMosTileIo::dgsb(Net::Intp, io.input.n, Net::Tail, io.vss));
        out.push(TwoFingerMosTileIo::dgsb(io.output.n, io.output.p, Net::Intn, io.vss));
        out.push(TwoFingerMosTileIo::dgsb(io.output.p, io.output.n, Net::Intp, io.vss));
        out.push(TwoFingerMosTileIo::dgsb(io.output.n, io.output.p, io.vdd, io.vdd));
        out.push(TwoFingerMosTileIo::dgsb(io.output.p, io.output.n, io.vdd, io.vdd));
        out.push(TwoFingerMosTileIo::dgsb(Net::Intn, io.clock, io.vdd, io.vdd));
        out.push(TwoFingerMosTileIo::dgsb(Net::Intp, io.clock, io.vdd, io.vdd));
        out.push(TwoFingerMosTileIo::dgsb(io.output.n, io.clock, io.vdd, io.vdd));
        out.push(TwoFingerMosTileIo::dgsb(io.output.p, io.clock, io.vdd, io.vdd));
        assert(out@ =~= Self::spec_connections(*io));
        out
    }

    /// The signals that get a track, in the order in which they take the
    /// tracks from the lowest upwards.
    pub open spec fn spec_signals(io: ClockedDiffComparatorIo) -> Seq<Net> {
        seq![io.clock, io.input.p, io.input.n, io.output.p, io.output.n]
    }

    /// The signals that get a track: the clock, the two inputs and the two
    /// outputs, in this order.
    pub fn signals(io: &ClockedDiffComparatorIo) -> (s: Vec<Net>)
        ensures
            s@ == Self::spec_signals(*io),
    {
        let mut out: Vec<Net> = Vec::new();
        out.push(io.clock);
        out.push(io.input.p);
        out.push(io.input.n);
        out.push(io.output.p);
        out.push(io.output.n);
        assert(out@ =~= Self::spec_signals(*io));
        out
    }
}

/// The layout of the tiled comparator, as far as it is decided before
/// routing: where every tile stands, which nets are on its ports, which nets
/// the two guard tiles tie their wells to, and the track of every signal.
#[derive(Debug)]
pub struct ComparatorLayout {
    pub placed: PlacedTileSet,
    pub connections: Vec<TwoFingerMosTileIo>,
    /// The net of the first guard tile, which taps the well of the n-channel
    /// rows.
    pub first_guard_net: Net,
    /// The net of the second guard tile, which taps the well of the p-channel
    /// rows.
    pub second_guard_net: Net,
    pub tracks: Vec<TrackAssignment>,
}

impl AtollStrongArmInstance {
    /// Lays the comparator out on a lattice: makes its composition plan,
    /// places the tiles, and assigns a track to each of its five signals.
    ///
    /// It fails as validation of the plan fails, and then as track assignment
    /// fails. Where it fails, nothing is returned: no tile is frozen and no
    /// signal has a track.
    pub fn tile(&self, io: &ClockedDiffComparatorIo, shapes: &ComparatorShapes, grid: &Grid) -> (r:
        Result<ComparatorLayout, LayoutError>)
        ensures
            ({
                let rows = self.spec_rows(*shapes);
                let gh = shapes.guard_height as int;
                let tiles = plan_regions(rows, gh);
                let pitch = grid.spec_pitch();
                let signals = Self::spec_signals(*io);
                match validate_rows(rows, gh) {
                    Err(e) => r is Err && r->Err_0 == LayoutError::Configuration(e),
                    Ok(_) => match assigned_tracks(rows, tiles, pitch, signals) {
                        Err(e) => r is Err && r->Err_0 == e,
                        Ok(tracks) => {
                            &&& r is Ok
                            &&& r->Ok_0.placed@.is_placement_of(rows, gh)
                            &&& r->Ok_0.placed@.no_overlap()
                            &&& r->Ok_0.placed@.rows_abut()
                            &&& r->Ok_0.placed@.rows_stack()
                            &&& r->Ok_0.connections@ == Self::spec_connections(*io)
                            &&& r->Ok_0.first_guard_net == io.vss
                            &&& r->Ok_0.second_guard_net == io.vdd
                            &&& is_assignment(
                                r->Ok_0.tracks@,
                                signals,
                                tracks,
                                tiles[2 * ROWS as int],
                                pitch,
                            )
                        },
                    },
                }
            }),
            r matches Ok(layout) ==> forall|i: int, j: int|
                0 <= i < j < layout.tracks@.len() ==> (#[trigger] layout.tracks@[i]).track < (
                #[trigger] layout.tracks@[j]).track,
    {
        let plan: CompositionPlan = self.plan(shapes);
        let placed: PlacedTileSet = match place(&plan) {
            Ok(p) => p,
            Err(e) => {
                return Err(LayoutError::Configuration(e));
            },
        };
        let signals: Vec<Net> = Self::signals(io);
        let tracks: Vec<TrackAssignment> = match assign_tracks(&placed, grid, &signals) {
            Ok(t) => t,
            Err(e) => {
                return Err(e);
            },
        };
        Ok(
            ComparatorLayout {
                placed,
                connections: Self::connections(io),
                first_guard_net: io.vss,
                second_guard_net: io.vdd,
                tracks,
            },
        )
    }
}

/// Where every gate port of the comparator lies within its tile, the rows
/// give five tracks that strictly increase: the track of the clock lies
/// beneath those of the inputs, and those beneath the tracks of the outputs.
/// Track assignment then never fails with `SignalTrackMismatch`.
pub proof fn lemma_comparator_tracks(
    block: AtollStrongArmInstance,
    io: ClockedDiffComparatorIo,
    shapes: ComparatorShapes,
    pitch: int,
)
    requires
        pitch > 0,
        rows_positive(block.spec_rows(shapes)),
        gates_within_tiles(block.spec_rows(shapes), pitch),
    ensures
        ({
            let rows = block.spec_rows(shapes);
            let tiles = plan_regions(rows, shapes.guard_height as int);
            let signals = AtollStrongArmInstance::spec_signals(io);
            &&& tracks_upto(rows, tiles, ROWS as int, pitch) matches Ok(tracks) ==> tracks.len()
                == 5 && strictly_increasing(tracks)
            &&& assigned_tracks(rows, tiles, pitch, signals) != Err::<Seq<int>, LayoutError>(
                LayoutError::Configuration(ConfigurationError::SignalTrackMismatch),
            )
        }),
{
    let rows = block.spec_rows(shapes);
    let gh = shapes.guard_height as int;
    let tiles = plan_regions(rows, gh);
    assert(rows.len() == 6);
    if tracks_upto(rows, tiles, 6, pitch) is Ok {
        assert(pairs_apart(rows));
        lemma_tracks_increase(rows, gh, pitch, 6);
        lemma_track_count(rows, tiles, 6, pitch);
        assert(track_count(rows, 6) == 5) by {
            reveal_with_fuel(track_count, 7);
        }
    } else {
        lemma_track_failures(rows, tiles, 6, pitch);
    }
}

/// The nets of a tile used as one transistor.
pub open spec fn dgsb(d: Net, g: Net, s: Net, b: Net) -> TwoFingerMosTileIo {
    TwoFingerMosTileIo { sd0: s, sd1: d, sd2: s, g, b }
}

} // verus!
