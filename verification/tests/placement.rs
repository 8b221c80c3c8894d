use strongarm::align::{AlignMode, Directive, Footprint, Reference};
use strongarm::error::ConfigurationError;
use strongarm::geometry::Rect;
use strongarm::grid::Grid;
use strongarm::place::place;
use strongarm::plan::{guard_tile_width, CompositionPlan, RowPlan, GUARD_INSET};
use strongarm::tile::{MosLength, TwoFingerMosTile};

fn row(width: i64, height: i64) -> RowPlan {
    RowPlan {
        device: TwoFingerMosTile::nmos(width, MosLength::L150),
        footprint: Footprint { width, height },
        gate: Rect { left: 0, bot: 0, right: 1, top: 1 },
        exposes_pair: false,
    }
}

fn comparator_plan() -> CompositionPlan {
    CompositionPlan {
        rows: vec![row(1250, 4), row(4000, 5), row(2000, 3), row(1000, 3), row(1000, 2), row(1000, 2)],
        guard_height: 2,
    }
}

#[test]
fn guard_width_is_twice_the_tile_width_less_one() {
    assert_eq!(GUARD_INSET, 1);
    assert_eq!(guard_tile_width(1250), Ok(2499));
    assert_eq!(guard_tile_width(1), Ok(1));
    assert_eq!(guard_tile_width(3), Ok(5));
}

#[test]
fn guard_width_that_is_not_positive() {
    assert_eq!(guard_tile_width(0), Err(ConfigurationError::NonPositiveDimension));
    assert_eq!(guard_tile_width(-7), Err(ConfigurationError::NonPositiveDimension));
}

#[test]
fn guard_width_beyond_the_range() {
    assert_eq!(guard_tile_width(1 << 62), Ok(i64::MAX));
    assert_eq!(guard_tile_width((1 << 62) + 1), Err(ConfigurationError::OutOfRange));
    assert_eq!(guard_tile_width(i64::MAX), Err(ConfigurationError::OutOfRange));
}

#[test]
fn plan_gives_two_tiles_per_row_and_two_guards() {
    let plan = comparator_plan();
    let footprints = plan.footprints().unwrap();
    assert_eq!(footprints.len(), 14);
    assert_eq!(footprints[0], Footprint { width: 1250, height: 4 });
    assert_eq!(footprints[1], Footprint { width: 1250, height: 4 });
    assert_eq!(footprints[2], Footprint { width: 4000, height: 5 });
    assert_eq!(footprints[11], Footprint { width: 1000, height: 2 });
    assert_eq!(footprints[12], Footprint { width: 2499, height: 2 });
    assert_eq!(footprints[13], Footprint { width: 2499, height: 2 });
}

#[test]
fn plan_directives_go_from_the_top_row_down() {
    let plan = CompositionPlan { rows: vec![row(3, 4), row(5, 6)], guard_height: 2 };
    let origin = Reference::Rect(Rect { left: 0, bot: 0, right: 0, top: 0 });
    let d = plan.directives().unwrap();
    let expected = vec![
        Directive::new(2, origin, AlignMode::Left),
        Directive::new(2, origin, AlignMode::Bottom),
        Directive::new(3, Reference::Tile(2), AlignMode::Bottom),
        Directive::new(3, Reference::Tile(2), AlignMode::ToTheRight),
        Directive::new(0, Reference::Tile(2), AlignMode::Left),
        Directive::new(0, Reference::Tile(2), AlignMode::Beneath),
        Directive::new(1, Reference::Tile(0), AlignMode::Bottom),
        Directive::new(1, Reference::Tile(0), AlignMode::ToTheRight),
        Directive::new(4, Reference::Tile(0), AlignMode::Left),
        Directive::new(4, Reference::Tile(0), AlignMode::Beneath),
        Directive::new(5, Reference::Tile(4), AlignMode::Left),
        Directive::new(5, Reference::Tile(4), AlignMode::Beneath),
    ];
    assert_eq!(d, expected);
}

#[test]
fn placement_of_the_comparator_plan() {
    let placed = place(&comparator_plan()).unwrap();
    assert_eq!(placed.row_count(), 6);
    assert_eq!(placed.device_count(), 12);
    // The top row stands on the line 0; every other row hangs beneath.
    let bottoms = [-17, -13, -8, -5, -2, 0];
    let heights = [4, 5, 3, 3, 2, 2];
    let widths = [1250, 4000, 2000, 1000, 1000, 1000];
    for j in 0..6 {
        let r = placed.row(j).unwrap();
        let (w, y, h) = (widths[j], bottoms[j], heights[j]);
        assert_eq!(r.left, Rect { left: 0, bot: y, right: w, top: y + h });
        assert_eq!(r.right, Rect { left: w, bot: y, right: 2 * w, top: y + h });
        assert_eq!(r.plan, comparator_plan().rows[j]);
    }
    assert!(placed.row(6).is_none());
    assert_eq!(placed.first_guard(), Rect { left: 0, bot: -19, right: 2499, top: -17 });
    assert_eq!(placed.second_guard(), Rect { left: 0, bot: -21, right: 2499, top: -19 });
    assert_eq!(placed.bounds(), Rect { left: 0, bot: -21, right: 8000, top: 2 });
}

#[test]
fn placed_comparator_has_twelve_device_tiles_and_two_guards_without_overlap() {
    let placed = place(&comparator_plan()).unwrap();
    let grid = Grid::new(7820).unwrap();
    let mut lattice: Vec<Rect> = Vec::new();
    for j in 0..placed.row_count() {
        let r = placed.row(j).unwrap();
        lattice.push(r.left);
        lattice.push(r.right);
    }
    assert_eq!(lattice.len(), 12);
    lattice.push(placed.first_guard());
    lattice.push(placed.second_guard());
    assert_eq!(lattice.len(), 14);
    let mut physical: Vec<Rect> = Vec::new();
    for t in 0..14 {
        let b = placed.physical_tile(t, &grid).unwrap();
        assert_eq!(Some(b), grid.lattice_to_physical(&lattice[t]));
        physical.push(b);
    }
    assert!(placed.physical_tile(14, &grid).is_none());
    for t in 0..14 {
        for u in 0..14 {
            if t != u {
                assert!(!lattice[t].overlaps(&lattice[u]));
                assert!(!physical[t].overlaps(&physical[u]));
            }
        }
    }
}

#[test]
fn placed_tiles_are_lattice_aligned() {
    let placed = place(&comparator_plan()).unwrap();
    let grid = Grid::new(7820).unwrap();
    for t in 0..14 {
        let b = placed.physical_tile(t, &grid).unwrap();
        assert_eq!(b.left % 7820, 0);
        assert_eq!(b.bot % 7820, 0);
    }
    assert_eq!(
        placed.physical_tile(1, &grid),
        Some(Rect { left: 9775000, bot: -132940, right: 19550000, top: -101660 })
    );
}

#[test]
fn rows_abut_and_stack() {
    let placed = place(&comparator_plan()).unwrap();
    for j in 0..6 {
        let r = placed.row(j).unwrap();
        assert_eq!(r.right.left, r.left.right);
        assert_eq!(r.right.bot, r.left.bot);
        if j + 1 < 6 {
            let above = placed.row(j + 1).unwrap();
            assert_eq!(r.left.left, above.left.left);
            assert_eq!(r.left.top, above.left.bot);
        }
    }
}

#[test]
fn guard_tile_spans_2499_lattice_units() {
    let placed = place(&comparator_plan()).unwrap();
    let guard = placed.first_guard();
    assert_eq!(guard.right - guard.left, 2499);
    let second = placed.second_guard();
    assert_eq!(second.right - second.left, 2499);
    assert_eq!(guard.top, placed.row(0).unwrap().left.bot);
    assert_eq!(second.top, guard.bot);
}

#[test]
fn plan_of_one_row() {
    let plan = CompositionPlan { rows: vec![row(3, 4)], guard_height: 1 };
    let placed = place(&plan).unwrap();
    assert_eq!(placed.row_count(), 1);
    assert_eq!(placed.row(0).unwrap().left, Rect { left: 0, bot: 0, right: 3, top: 4 });
    assert_eq!(placed.row(0).unwrap().right, Rect { left: 3, bot: 0, right: 6, top: 4 });
    assert_eq!(placed.first_guard(), Rect { left: 0, bot: -1, right: 5, top: 0 });
    assert_eq!(placed.second_guard(), Rect { left: 0, bot: -2, right: 5, top: -1 });
    assert_eq!(placed.bounds(), Rect { left: 0, bot: -2, right: 6, top: 4 });
}

#[test]
fn plan_without_rows() {
    let plan = CompositionPlan { rows: vec![], guard_height: 2 };
    assert_eq!(plan.validate(), Err(ConfigurationError::EmptyPlan));
    assert_eq!(place(&plan).err(), Some(ConfigurationError::EmptyPlan));
    assert_eq!(plan.footprints().err(), Some(ConfigurationError::EmptyPlan));
    assert_eq!(plan.directives().err(), Some(ConfigurationError::EmptyPlan));
}

#[test]
fn plan_with_a_dimension_that_is_not_positive() {
    for plan in [
        CompositionPlan { rows: vec![row(3, 4), row(0, 6)], guard_height: 2 },
        CompositionPlan { rows: vec![row(3, -4), row(5, 6)], guard_height: 2 },
        CompositionPlan { rows: vec![row(3, 4), row(5, 6)], guard_height: 0 },
    ] {
        assert_eq!(plan.validate(), Err(ConfigurationError::NonPositiveDimension));
        assert_eq!(place(&plan).err(), Some(ConfigurationError::NonPositiveDimension));
    }
}

#[test]
fn plan_that_leaves_the_range() {
    let wide = CompositionPlan { rows: vec![row(3, 4), row(i64::MAX / 2 + 1, 6)], guard_height: 2 };
    assert_eq!(place(&wide).err(), Some(ConfigurationError::OutOfRange));
    let deep = CompositionPlan {
        rows: vec![row(3, i64::MAX), row(3, i64::MAX), row(3, 1)],
        guard_height: 2,
    };
    assert_eq!(place(&deep).err(), Some(ConfigurationError::OutOfRange));
    let guard = CompositionPlan { rows: vec![row(3, 4)], guard_height: i64::MAX };
    assert_eq!(place(&guard).err(), Some(ConfigurationError::OutOfRange));
}

#[test]
fn plan_that_just_fits_the_range() {
    let widest = CompositionPlan { rows: vec![row(i64::MAX / 2, 4)], guard_height: 2 };
    let placed = place(&widest).unwrap();
    assert_eq!(placed.row(0).unwrap().right.right, i64::MAX - 1);
    // The lowest edge comes to lie on the least 64-bit number.
    let deepest = CompositionPlan {
        rows: vec![row(3, i64::MAX - 1), row(3, 7)],
        guard_height: 1,
    };
    let placed = place(&deepest).unwrap();
    assert_eq!(placed.second_guard().bot, i64::MIN);
    let too_deep = CompositionPlan { rows: vec![row(3, i64::MAX), row(3, 7)], guard_height: 1 };
    assert_eq!(place(&too_deep).err(), Some(ConfigurationError::OutOfRange));
}

#[test]
fn non_positive_dimension_comes_before_the_range() {
    let plan = CompositionPlan { rows: vec![row(i64::MAX, 4), row(0, 6)], guard_height: 2 };
    assert_eq!(place(&plan).err(), Some(ConfigurationError::NonPositiveDimension));
}
