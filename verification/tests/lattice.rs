use strongarm::arith::{div_ceil, div_floor, gcd_i64};
use strongarm::error::ConfigurationError;
use strongarm::geometry::Rect;
use strongarm::grid::{Grid, LayerStack};

fn rect(left: i64, bot: i64, right: i64, top: i64) -> Rect {
    Rect::new(left, bot, right, top).unwrap()
}

#[test]
fn floor_and_ceiling_division_round_towards_the_infinities() {
    assert_eq!(div_floor(7, 2), 3);
    assert_eq!(div_floor(-7, 2), -4);
    assert_eq!(div_floor(-8, 2), -4);
    assert_eq!(div_floor(0, 5), 0);
    assert_eq!(div_ceil(7, 2), 4);
    assert_eq!(div_ceil(-7, 2), -3);
    assert_eq!(div_ceil(8, 2), 4);
    assert_eq!(div_ceil(0, 5), 0);
    assert_eq!(div_floor(i64::MIN, 1), i64::MIN);
    assert_eq!(div_ceil(i64::MAX, 1), i64::MAX);
    assert_eq!(div_ceil(i64::MAX, 2), 4611686018427387904);
    assert_eq!(div_floor(i64::MIN, 3), -3074457345618258603);
}

#[test]
fn gcd_of_machine_integers() {
    assert_eq!(gcd_i64(340, 460), 20);
    assert_eq!(gcd_i64(17, 0), 17);
    assert_eq!(gcd_i64(12, 18), 6);
    assert_eq!(gcd_i64(7, 13), 1);
}

#[test]
fn coarse_pitch_is_the_least_common_multiple() {
    let stack = LayerStack { pitches: vec![340, 460, 680] };
    assert_eq!(stack.coarse_pitch(0), Ok(340));
    assert_eq!(stack.coarse_pitch(1), Ok(7820));
    assert_eq!(stack.coarse_pitch(2), Ok(15640));
}

#[test]
fn coarse_pitch_of_equal_pitches_is_that_pitch() {
    let stack = LayerStack { pitches: vec![170, 170, 170] };
    assert_eq!(stack.coarse_pitch(2), Ok(170));
}

#[test]
fn coarse_pitch_rejects_an_unknown_layer() {
    let stack = LayerStack { pitches: vec![340, 460] };
    assert_eq!(stack.coarse_pitch(2), Err(ConfigurationError::UnknownLayer));
    let empty = LayerStack { pitches: vec![] };
    assert_eq!(empty.coarse_pitch(0), Err(ConfigurationError::UnknownLayer));
}

#[test]
fn coarse_pitch_rejects_a_pitch_that_is_not_positive() {
    let stack = LayerStack { pitches: vec![340, 0, 680] };
    assert_eq!(stack.coarse_pitch(0), Ok(340));
    assert_eq!(stack.coarse_pitch(1), Err(ConfigurationError::NonPositiveDimension));
    assert_eq!(stack.coarse_pitch(2), Err(ConfigurationError::NonPositiveDimension));
    let negative = LayerStack { pitches: vec![-5] };
    assert_eq!(negative.coarse_pitch(0), Err(ConfigurationError::NonPositiveDimension));
}

#[test]
fn coarse_pitch_reports_a_multiple_beyond_the_range() {
    // Two primes near 2^32: their product is beyond 2^63.
    let stack = LayerStack { pitches: vec![4294967291, 4294967279] };
    assert_eq!(stack.coarse_pitch(0), Ok(4294967291));
    assert_eq!(stack.coarse_pitch(1), Err(ConfigurationError::OutOfRange));
}

#[test]
fn non_positive_pitch_comes_before_overflow() {
    let stack = LayerStack { pitches: vec![4294967291, 4294967279, 0] };
    assert_eq!(stack.coarse_pitch(2), Err(ConfigurationError::NonPositiveDimension));
}

#[test]
fn grid_needs_a_positive_pitch() {
    assert_eq!(Grid::new(10).unwrap().pitch(), 10);
    assert_eq!(Grid::new(0).err(), Some(ConfigurationError::NonPositiveDimension));
    assert_eq!(Grid::new(-3).err(), Some(ConfigurationError::NonPositiveDimension));
}

#[test]
fn grid_from_stack_takes_the_coarse_pitch() {
    let stack = LayerStack { pitches: vec![340, 460] };
    assert_eq!(Grid::from_stack(&stack, 1).unwrap().pitch(), 7820);
    assert_eq!(Grid::from_stack(&stack, 0).unwrap().pitch(), 340);
    assert_eq!(Grid::from_stack(&stack, 5).err(), Some(ConfigurationError::UnknownLayer));
}

#[test]
fn expand_rounds_outwards() {
    let grid = Grid::new(10).unwrap();
    assert_eq!(grid.expand_to_lattice(&rect(-5, 3, 15, 20)), rect(-1, 0, 2, 2));
    assert_eq!(grid.expand_to_lattice(&rect(1, 1, 2, 2)), rect(0, 0, 1, 1));
    assert_eq!(grid.expand_to_lattice(&rect(-20, -10, 0, 10)), rect(-2, -1, 0, 1));
}

#[test]
fn expansion_contains_the_rectangle() {
    let grid = Grid::new(7).unwrap();
    let r = rect(-13, 5, 22, 36);
    let e = grid.expand_to_lattice(&r);
    let back = grid.lattice_to_physical(&e).unwrap();
    assert!(back.contains(&r));
    assert_eq!(e, rect(-2, 0, 4, 6));
}

#[test]
fn shrink_rounds_inwards() {
    let grid = Grid::new(10).unwrap();
    assert_eq!(grid.shrink_to_lattice(&rect(-5, 3, 25, 40)), Some(rect(0, 1, 2, 4)));
    assert_eq!(grid.shrink_to_lattice(&rect(-20, -10, 0, 10)), Some(rect(-2, -1, 0, 1)));
}

#[test]
fn shrinking_less_than_one_lattice_unit_gives_nothing() {
    let grid = Grid::new(10).unwrap();
    // Narrower and lower than one unit.
    assert_eq!(grid.shrink_to_lattice(&rect(1, 1, 9, 9)), None);
    // Wide enough, but lower than one unit.
    assert_eq!(grid.shrink_to_lattice(&rect(0, 0, 30, 9)), None);
    // Holds one lattice line, but no lattice rectangle of positive area.
    assert_eq!(grid.shrink_to_lattice(&rect(-1, -1, 1, 1)), None);
    // As large as one unit, but across a lattice line.
    assert_eq!(grid.shrink_to_lattice(&rect(5, 5, 15, 15)), None);
    // Of no size at all.
    assert_eq!(grid.shrink_to_lattice(&rect(10, 10, 10, 10)), None);
}

#[test]
fn shrinking_exactly_one_aligned_unit_gives_that_unit() {
    let grid = Grid::new(10).unwrap();
    assert_eq!(grid.shrink_to_lattice(&rect(10, 20, 20, 30)), Some(rect(1, 2, 2, 3)));
}

#[test]
fn lattice_to_physical_scales_by_the_pitch() {
    let grid = Grid::new(7820).unwrap();
    assert_eq!(
        grid.lattice_to_physical(&rect(0, -19, 2499, -19)),
        Some(rect(0, -148580, 19542180, -148580))
    );
    assert_eq!(grid.lattice_to_physical(&rect(i64::MAX / 2, 0, i64::MAX / 2, 0)), None);
}

#[test]
fn physical_extent_of_a_lattice_rectangle_is_aligned() {
    let grid = Grid::new(340).unwrap();
    let r = grid.lattice_to_physical(&rect(-3, 7, 11, 13)).unwrap();
    assert_eq!(r.left % 340, 0);
    assert_eq!(r.bot % 340, 0);
    assert_eq!(r.right % 340, 0);
    assert_eq!(r.top % 340, 0);
}

#[test]
fn expand_then_shrink_gives_the_expansion_back() {
    let grid = Grid::new(10).unwrap();
    for r in [rect(-5, 3, 15, 20), rect(1, 1, 2, 2), rect(-37, -41, -1, 0), rect(0, 0, 10, 10)] {
        let e = grid.expand_to_lattice(&r);
        let physical = grid.lattice_to_physical(&e).unwrap();
        let s = grid.shrink_to_lattice(&physical).unwrap();
        assert!(e.contains(&s));
        assert_eq!(s, e);
        assert_eq!(grid.expand_to_lattice(&physical), e);
    }
}

#[test]
fn expansion_of_a_rectangle_without_area_does_not_shrink() {
    let grid = Grid::new(10).unwrap();
    let r = rect(10, 0, 10, 30);
    let e = grid.expand_to_lattice(&r);
    assert_eq!(e, rect(1, 0, 1, 3));
    let physical = grid.lattice_to_physical(&e).unwrap();
    assert_eq!(grid.shrink_to_lattice(&physical), None);
}
