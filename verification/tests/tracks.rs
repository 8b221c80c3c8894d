use strongarm::align::Footprint;
use strongarm::error::{ConfigurationError, LatticeError, LayoutError};
use strongarm::geometry::Rect;
use strongarm::grid::Grid;
use strongarm::place::{place, PlacedRow};
use strongarm::plan::{CompositionPlan, RowPlan};
use strongarm::tile::{MosLength, Net, TwoFingerMosTile};
use strongarm::tracks::{assign_tracks, gate_of_row, is_strictly_increasing, port_shape_of};
use strongarm::tracks::{track_rows, TrackAssignment, PORT_CLEARANCE, PORT_OFFSET, TRACK_LAYER};

const PITCH: i64 = 7820;

fn row(width: i64, height: i64, gate: Rect, exposes_pair: bool) -> RowPlan {
    RowPlan {
        device: TwoFingerMosTile::nmos(width, MosLength::L150),
        footprint: Footprint { width, height },
        gate,
        exposes_pair,
    }
}

/// A gate port that holds the second and third lattice unit of its tile.
fn tall_gate() -> Rect {
    Rect { left: 0, bot: PITCH, right: 2 * PITCH, top: 3 * PITCH }
}

/// A gate port lower than one lattice unit, within the second unit of its
/// tile.
fn low_gate() -> Rect {
    Rect { left: 100, bot: PITCH + 50, right: 500, top: PITCH + 300 }
}

fn comparator_plan() -> CompositionPlan {
    CompositionPlan {
        rows: vec![
            row(1250, 4, tall_gate(), false),
            row(4000, 4, low_gate(), true),
            row(2000, 4, low_gate(), false),
            row(1000, 4, low_gate(), true),
            row(1000, 4, low_gate(), false),
            row(1000, 4, low_gate(), false),
        ],
        guard_height: 2,
    }
}

fn signals() -> Vec<Net> {
    vec![Net::Clock, Net::InputP, Net::InputN, Net::OutputP, Net::OutputN]
}

#[test]
fn port_constants() {
    assert_eq!(PORT_CLEARANCE, 130);
    assert_eq!(PORT_OFFSET, 130);
    assert_eq!(TRACK_LAYER, 1);
}

#[test]
fn gate_moves_with_its_tile() {
    let grid = Grid::new(PITCH).unwrap();
    let placed = place(&comparator_plan()).unwrap();
    let tail = placed.row(0).unwrap();
    assert_eq!(tail.left, Rect { left: 0, bot: -20, right: 1250, top: -16 });
    assert_eq!(
        gate_of_row(&tail, &grid),
        Some(Rect { left: 0, bot: -19 * PITCH, right: 2 * PITCH, top: -17 * PITCH })
    );
    let shifted = PlacedRow {
        plan: tail.plan,
        left: Rect { left: 3, bot: 2, right: 1253, top: 6 },
        right: tail.right,
    };
    assert_eq!(
        gate_of_row(&shifted, &grid),
        Some(Rect { left: 3 * PITCH, bot: 3 * PITCH, right: 5 * PITCH, top: 5 * PITCH })
    );
    let far = PlacedRow {
        plan: tail.plan,
        left: Rect { left: 0, bot: i64::MAX / 2, right: 1, top: i64::MAX / 2 },
        right: tail.right,
    };
    assert_eq!(gate_of_row(&far, &grid), None);
}

#[test]
fn port_shape_is_the_track_line_grown_and_moved_up() {
    let grid = Grid::new(PITCH).unwrap();
    let point = Rect { left: 0, bot: -19, right: 2499, top: -19 };
    assert_eq!(
        port_shape_of(&point, &grid),
        Some(Rect { left: 0, bot: -148580, right: 19542180, top: -148320 })
    );
    let unit = Grid::new(1).unwrap();
    assert_eq!(
        port_shape_of(&Rect { left: -2, bot: 0, right: 5, top: 0 }, &unit),
        Some(Rect { left: -2, bot: 0, right: 5, top: 260 })
    );
    assert_eq!(port_shape_of(&Rect { left: 0, bot: 0, right: i64::MAX, top: 0 }, &grid), None);
    assert_eq!(
        port_shape_of(&Rect { left: 0, bot: i64::MAX - 200, right: 1, top: i64::MAX - 200 }, &unit),
        None
    );
    // The shape itself would fit, but not the shape before it is moved up.
    assert_eq!(
        port_shape_of(&Rect { left: 0, bot: i64::MIN + 100, right: 1, top: i64::MIN + 100 }, &unit),
        None
    );
}

#[test]
fn comparator_has_five_tracks_in_rising_order() {
    let grid = Grid::new(PITCH).unwrap();
    let placed = place(&comparator_plan()).unwrap();
    assert_eq!(track_rows(&placed, &grid), Ok(vec![-19, -15, -14, -7, -6]));
}

#[test]
fn five_signals_on_five_tracks() {
    let grid = Grid::new(PITCH).unwrap();
    let placed = place(&comparator_plan()).unwrap();
    let out = assign_tracks(&placed, &grid, &signals()).unwrap();
    assert_eq!(out.len(), 5);
    let tracks: Vec<i64> = out.iter().map(|a| a.track).collect();
    assert_eq!(tracks, vec![-19, -15, -14, -7, -6]);
    let names: Vec<Net> = out.iter().map(|a| a.signal).collect();
    assert_eq!(names, signals());
    for i in 0..4 {
        assert!(out[i].track < out[i + 1].track);
    }
    // The clock runs beneath the inputs, and the inputs beneath the outputs.
    assert!(out[0].track < out[1].track && out[0].track < out[2].track);
    assert!(out[1].track < out[3].track && out[2].track < out[3].track);
    assert!(out[1].track < out[4].track && out[2].track < out[4].track);
}

#[test]
fn assignment_of_the_clock() {
    let grid = Grid::new(PITCH).unwrap();
    let placed = place(&comparator_plan()).unwrap();
    let out = assign_tracks(&placed, &grid, &signals()).unwrap();
    assert_eq!(
        out[0],
        TrackAssignment {
            signal: Net::Clock,
            track: -19,
            grid_point: Rect { left: 0, bot: -19, right: 2499, top: -19 },
            port: Rect { left: 0, bot: -148580, right: 19542180, top: -148320 },
            layer: 1,
        }
    );
    assert_eq!(
        out[4],
        TrackAssignment {
            signal: Net::OutputN,
            track: -6,
            grid_point: Rect { left: 0, bot: -6, right: 2499, top: -6 },
            port: Rect { left: 0, bot: -46920, right: 19542180, top: -46660 },
            layer: 1,
        }
    );
}

#[test]
fn grid_points_span_the_guard_tile() {
    let grid = Grid::new(PITCH).unwrap();
    let placed = place(&comparator_plan()).unwrap();
    let guard = placed.first_guard();
    for a in assign_tracks(&placed, &grid, &signals()).unwrap() {
        assert_eq!(a.grid_point.hspan(), guard.hspan());
        assert_eq!(a.grid_point.hspan(), placed.track_span());
        assert_eq!(a.layer, TRACK_LAYER);
        assert_eq!(a.grid_point.bot, a.track);
        assert_eq!(a.grid_point.top, a.track);
        assert_eq!(a.port.left, guard.left * PITCH);
        assert_eq!(a.port.right, guard.right * PITCH);
        assert_eq!(a.port.bot, a.track * PITCH);
        assert_eq!(a.port.top, a.track * PITCH + 260);
    }
}

#[test]
fn seed_gate_smaller_than_the_lattice_is_a_lattice_error() {
    let grid = Grid::new(PITCH).unwrap();
    let mut plan = comparator_plan();
    plan.rows[0].gate = low_gate();
    let placed = place(&plan).unwrap();
    let moved = Rect { left: 100, bot: -19 * PITCH + 50, right: 500, top: -19 * PITCH + 300 };
    let expected = LayoutError::Lattice(LatticeError { rect: moved });
    assert_eq!(track_rows(&placed, &grid), Err(expected));
    assert_eq!(assign_tracks(&placed, &grid, &signals()), Err(expected));
}

#[test]
fn signal_count_must_match_track_count() {
    let grid = Grid::new(PITCH).unwrap();
    let placed = place(&comparator_plan()).unwrap();
    let mismatch = Err(LayoutError::Configuration(ConfigurationError::SignalTrackMismatch));
    let mut six = signals();
    six.push(Net::Vdd);
    assert_eq!(assign_tracks(&placed, &grid, &six), mismatch);
    let four = vec![Net::Clock, Net::InputP, Net::InputN, Net::OutputP];
    assert_eq!(assign_tracks(&placed, &grid, &four), mismatch);
    assert_eq!(assign_tracks(&placed, &grid, &vec![]), mismatch);
}

#[test]
fn tracks_that_collide_are_a_mismatch() {
    let grid = Grid::new(PITCH).unwrap();
    // The pair of row 1 starts in the top unit of its tile, the pair of row 2
    // in the bottom unit of the tile above: the second track of the one is
    // the first track of the other.
    let top_unit = Rect { left: 0, bot: 3 * PITCH + 10, right: 10, top: 3 * PITCH + 20 };
    let bottom_unit = Rect { left: 0, bot: 10, right: 10, top: 20 };
    let plan = CompositionPlan {
        rows: vec![
            row(1250, 4, tall_gate(), false),
            row(4000, 4, top_unit, true),
            row(2000, 4, bottom_unit, true),
        ],
        guard_height: 2,
    };
    let placed = place(&plan).unwrap();
    assert_eq!(track_rows(&placed, &grid), Ok(vec![-7, -1, 0, 0, 1]));
    assert_eq!(
        assign_tracks(&placed, &grid, &signals()),
        Err(LayoutError::Configuration(ConfigurationError::SignalTrackMismatch))
    );
}

#[test]
fn only_the_lowest_row_and_pair_rows_give_tracks() {
    let grid = Grid::new(PITCH).unwrap();
    let plan = CompositionPlan {
        rows: vec![row(1250, 4, tall_gate(), true), row(4000, 4, low_gate(), false)],
        guard_height: 2,
    };
    let placed = place(&plan).unwrap();
    assert_eq!(track_rows(&placed, &grid), Ok(vec![-3]));
    let out = assign_tracks(&placed, &grid, &vec![Net::Clock]).unwrap();
    assert_eq!(out.len(), 1);
    assert_eq!(out[0].track, -3);
}

#[test]
fn gate_beyond_the_range() {
    let grid = Grid::new(PITCH).unwrap();
    let mut plan = comparator_plan();
    plan.rows[1].gate = Rect { left: 0, bot: i64::MIN, right: 1, top: i64::MIN + 1 };
    let placed = place(&plan).unwrap();
    assert_eq!(
        assign_tracks(&placed, &grid, &signals()),
        Err(LayoutError::Configuration(ConfigurationError::OutOfRange))
    );
}

#[test]
fn port_beyond_the_range() {
    let grid = Grid::new(1 << 52).unwrap();
    let plan = CompositionPlan {
        rows: vec![row(2000, 4, Rect { left: 0, bot: 0, right: 1 << 53, top: 1 << 53 }, false)],
        guard_height: 2,
    };
    let placed = place(&plan).unwrap();
    assert_eq!(track_rows(&placed, &grid), Ok(vec![0]));
    assert_eq!(
        assign_tracks(&placed, &grid, &vec![Net::Clock]),
        Err(LayoutError::Configuration(ConfigurationError::OutOfRange))
    );
}

#[test]
fn the_failure_of_the_lowest_row_is_reported() {
    let grid = Grid::new(PITCH).unwrap();
    let mut plan = comparator_plan();
    plan.rows[0].gate = low_gate();
    plan.rows[1].gate = Rect { left: 0, bot: i64::MIN, right: 1, top: i64::MIN + 1 };
    let placed = place(&plan).unwrap();
    assert!(matches!(track_rows(&placed, &grid), Err(LayoutError::Lattice(_))));
}

#[test]
fn strictly_increasing_sequences() {
    assert!(is_strictly_increasing(&vec![]));
    assert!(is_strictly_increasing(&vec![4]));
    assert!(is_strictly_increasing(&vec![-19, -15, -14, -7, -6]));
    assert!(!is_strictly_increasing(&vec![-19, -15, -15, -7]));
    assert!(!is_strictly_increasing(&vec![1, 3, 2]));
    assert!(!is_strictly_increasing(&vec![2, 1]));
}

#[test]
fn port_shapes_that_fill_their_tiles_give_the_bottom_lines_of_the_rows() {
    let grid = Grid::new(PITCH).unwrap();
    let whole = |width: i64, height: i64| Rect {
        left: 0,
        bot: 0,
        right: width * PITCH,
        top: height * PITCH,
    };
    let plan = CompositionPlan {
        rows: vec![
            row(1250, 4, whole(1250, 4), false),
            row(4000, 3, whole(4000, 3), true),
            row(2000, 2, whole(2000, 2), false),
            row(1000, 5, whole(1000, 5), true),
        ],
        guard_height: 2,
    };
    let placed = place(&plan).unwrap();
    let bottoms: Vec<i64> = (0..4).map(|j| placed.row(j).unwrap().left.bot).collect();
    assert_eq!(bottoms, vec![-9, -5, -2, 0]);
    assert_eq!(track_rows(&placed, &grid), Ok(vec![-9, -5, -4, 0, 1]));
}
