use strongarm::align::{apply, run_directives, AlignMode, Directive, Footprint, Reference, Tile};
use strongarm::error::ConfigurationError;
use strongarm::geometry::Rect;

fn origin() -> Reference {
    Reference::Rect(Rect { left: 0, bot: 0, right: 0, top: 0 })
}

fn anchor(tile: usize) -> Vec<Directive> {
    vec![
        Directive::new(tile, origin(), AlignMode::Left),
        Directive::new(tile, origin(), AlignMode::Bottom),
    ]
}

#[test]
fn new_directive_has_no_offset() {
    let d = Directive::new(3, Reference::Tile(1), AlignMode::Beneath);
    assert_eq!(d.tile, 3);
    assert_eq!(d.reference, Reference::Tile(1));
    assert_eq!(d.mode, AlignMode::Beneath);
    assert_eq!(d.offset, 0);
}

#[test]
fn horizontal_and_vertical_modes() {
    assert!(AlignMode::Left.is_horizontal());
    assert!(AlignMode::Right.is_horizontal());
    assert!(AlignMode::ToTheRight.is_horizontal());
    assert!(!AlignMode::Beneath.is_horizontal());
    assert!(!AlignMode::Above.is_horizontal());
    assert!(!AlignMode::Bottom.is_horizontal());
}

#[test]
fn tiles_start_without_a_position() {
    let tiles = run_directives(&vec![Footprint { width: 3, height: 4 }], &vec![]).unwrap();
    assert_eq!(tiles, vec![Tile { width: 3, height: 4, x: None, y: None }]);
    assert_eq!(tiles[0].bounds(), None);
}

#[test]
fn one_directive_sets_one_axis() {
    let footprints = vec![Footprint { width: 3, height: 4 }];
    let tiles =
        run_directives(&footprints, &vec![Directive::new(0, origin(), AlignMode::Left)]).unwrap();
    assert_eq!(tiles[0], Tile { width: 3, height: 4, x: Some(0), y: None });
    assert_eq!(tiles[0].bounds(), None);
    let tiles =
        run_directives(&footprints, &vec![Directive::new(0, origin(), AlignMode::Above)]).unwrap();
    assert_eq!(tiles[0], Tile { width: 3, height: 4, x: None, y: Some(0) });
}

#[test]
fn each_mode_makes_its_edges_meet() {
    let reference = Reference::Rect(Rect { left: 10, bot: 20, right: 50, top: 70 });
    let footprints = vec![Footprint { width: 3, height: 4 }];
    let cases = [
        (AlignMode::Left, Some(10), None),
        (AlignMode::Right, Some(47), None),
        (AlignMode::ToTheRight, Some(50), None),
        (AlignMode::Beneath, None, Some(16)),
        (AlignMode::Above, None, Some(70)),
        (AlignMode::Bottom, None, Some(20)),
    ];
    for (mode, x, y) in cases {
        let tiles = run_directives(&footprints, &vec![Directive::new(0, reference, mode)]).unwrap();
        assert_eq!(tiles[0], Tile { width: 3, height: 4, x, y });
    }
}

#[test]
fn offset_is_added_after_alignment() {
    let reference = Reference::Rect(Rect { left: 10, bot: 20, right: 50, top: 70 });
    let footprints = vec![Footprint { width: 3, height: 4 }];
    let d = Directive { tile: 0, reference, mode: AlignMode::Right, offset: -5 };
    let e = Directive { tile: 0, reference, mode: AlignMode::Beneath, offset: 2 };
    let tiles = run_directives(&footprints, &vec![d, e]).unwrap();
    assert_eq!(tiles[0].bounds(), Some(Rect { left: 42, bot: 18, right: 45, top: 22 }));
}

#[test]
fn pair_is_bottom_aligned_and_adjacent() {
    let footprints = vec![Footprint { width: 5, height: 2 }, Footprint { width: 7, height: 3 }];
    let mut directives = anchor(0);
    directives.push(Directive::new(1, Reference::Tile(0), AlignMode::Bottom));
    directives.push(Directive::new(1, Reference::Tile(0), AlignMode::ToTheRight));
    let tiles = run_directives(&footprints, &directives).unwrap();
    assert_eq!(tiles[0].bounds(), Some(Rect { left: 0, bot: 0, right: 5, top: 2 }));
    assert_eq!(tiles[1].bounds(), Some(Rect { left: 5, bot: 0, right: 12, top: 3 }));
}

#[test]
fn reference_to_unplaced_tile_is_a_configuration_error() {
    let footprints = vec![Footprint { width: 5, height: 2 }, Footprint { width: 7, height: 3 }];
    // Tile 1 is taken as a reference before any directive has placed it.
    let directives = vec![
        Directive::new(0, Reference::Tile(1), AlignMode::Left),
        Directive::new(1, origin(), AlignMode::Left),
        Directive::new(1, origin(), AlignMode::Bottom),
    ];
    assert_eq!(
        run_directives(&footprints, &directives),
        Err(ConfigurationError::UnplacedReference)
    );
}

#[test]
fn reference_placed_on_one_axis_only_is_not_placed() {
    let footprints = vec![Footprint { width: 5, height: 2 }, Footprint { width: 7, height: 3 }];
    let directives = vec![
        Directive::new(0, origin(), AlignMode::Left),
        Directive::new(1, Reference::Tile(0), AlignMode::Left),
    ];
    assert_eq!(
        run_directives(&footprints, &directives),
        Err(ConfigurationError::UnplacedReference)
    );
}

#[test]
fn directive_on_a_tile_that_is_not_there() {
    let footprints = vec![Footprint { width: 5, height: 2 }];
    assert_eq!(
        run_directives(&footprints, &vec![Directive::new(1, origin(), AlignMode::Left)]),
        Err(ConfigurationError::UnknownTile)
    );
    assert_eq!(
        run_directives(&footprints, &vec![Directive::new(0, Reference::Tile(4), AlignMode::Left)]),
        Err(ConfigurationError::UnknownTile)
    );
}

#[test]
fn footprint_that_is_not_positive() {
    let d = vec![Directive::new(0, origin(), AlignMode::Left)];
    assert_eq!(
        run_directives(&vec![Footprint { width: 0, height: 2 }], &d),
        Err(ConfigurationError::NonPositiveDimension)
    );
    assert_eq!(
        run_directives(&vec![Footprint { width: 3, height: -2 }], &d),
        Err(ConfigurationError::NonPositiveDimension)
    );
    // The footprints are looked at before the directives.
    assert_eq!(
        run_directives(
            &vec![Footprint { width: 3, height: -2 }],
            &vec![Directive::new(7, origin(), AlignMode::Left)]
        ),
        Err(ConfigurationError::NonPositiveDimension)
    );
}

#[test]
fn tile_that_leaves_the_range() {
    let far = Reference::Rect(Rect { left: 0, bot: 0, right: i64::MAX, top: i64::MAX });
    let footprints = vec![Footprint { width: 5, height: 2 }];
    assert_eq!(
        run_directives(&footprints, &vec![Directive::new(0, far, AlignMode::ToTheRight)]),
        Err(ConfigurationError::OutOfRange)
    );
    assert_eq!(
        run_directives(&footprints, &vec![Directive::new(0, far, AlignMode::Above)]),
        Err(ConfigurationError::OutOfRange)
    );
    let tiles = run_directives(&footprints, &vec![Directive::new(0, far, AlignMode::Right)]);
    assert_eq!(tiles.unwrap()[0].x, Some(i64::MAX - 5));
    let d = Directive { tile: 0, reference: origin(), mode: AlignMode::Beneath, offset: i64::MIN };
    assert_eq!(run_directives(&footprints, &vec![d]), Err(ConfigurationError::OutOfRange));
}

#[test]
fn the_first_failing_directive_decides() {
    let footprints = vec![Footprint { width: 5, height: 2 }, Footprint { width: 7, height: 3 }];
    let directives = vec![
        Directive::new(0, origin(), AlignMode::Left),
        Directive::new(9, origin(), AlignMode::Left),
        Directive::new(1, Reference::Tile(0), AlignMode::Left),
    ];
    assert_eq!(run_directives(&footprints, &directives), Err(ConfigurationError::UnknownTile));
}

#[test]
fn a_directive_applied_twice_changes_nothing() {
    let footprints = vec![Footprint { width: 5, height: 2 }, Footprint { width: 7, height: 3 }];
    let mut once = anchor(0);
    once.push(Directive { tile: 1, reference: Reference::Tile(0), mode: AlignMode::Above, offset: 3 });
    let mut twice = once.clone();
    twice.push(once[2]);
    assert_eq!(run_directives(&footprints, &once), run_directives(&footprints, &twice));
}

#[test]
fn directives_on_different_axes_commute() {
    let footprints = vec![Footprint { width: 5, height: 2 }, Footprint { width: 7, height: 3 }];
    let a = Directive::new(1, Reference::Tile(0), AlignMode::Bottom);
    let b = Directive::new(1, Reference::Tile(0), AlignMode::ToTheRight);
    let mut ab = anchor(0);
    ab.push(a);
    ab.push(b);
    let mut ba = anchor(0);
    ba.push(b);
    ba.push(a);
    assert_eq!(run_directives(&footprints, &ab), run_directives(&footprints, &ba));
}

#[test]
fn bounds_of_a_tile_whose_edge_leaves_the_range() {
    let tile = Tile { width: 5, height: 2, x: Some(i64::MAX - 1), y: Some(0) };
    assert_eq!(tile.bounds(), None);
    let tile = Tile { width: 5, height: 2, x: Some(i64::MAX - 5), y: Some(0) };
    assert_eq!(
        tile.bounds(),
        Some(Rect { left: i64::MAX - 5, bot: 0, right: i64::MAX, top: 2 })
    );
}

#[test]
fn on_one_axis_the_last_directive_decides() {
    let footprints = vec![Footprint { width: 5, height: 2 }];
    let reference = Reference::Rect(Rect { left: 10, bot: 20, right: 50, top: 70 });
    let directives = vec![
        Directive::new(0, reference, AlignMode::Left),
        Directive::new(0, reference, AlignMode::ToTheRight),
    ];
    assert_eq!(run_directives(&footprints, &directives).unwrap()[0].x, Some(50));
}

#[test]
fn apply_leaves_the_tiles_alone_when_it_fails() {
    let mut tiles = vec![Tile::new(Footprint { width: 5, height: 2 })];
    let before = tiles.clone();
    let bad = Directive::new(0, Reference::Tile(0), AlignMode::Left);
    assert_eq!(apply(&mut tiles, &bad), Err(ConfigurationError::UnplacedReference));
    assert_eq!(tiles, before);
    assert_eq!(apply(&mut tiles, &Directive::new(0, origin(), AlignMode::Left)), Ok(()));
    assert_eq!(tiles[0].x, Some(0));
}
