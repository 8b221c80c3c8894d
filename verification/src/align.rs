//! Alignment directives and the interpreter that applies them.
//!
//! A tile starts without a position. A directive gives a tile its position on
//! one axis, relative to another tile that already has a position on both
//! axes or to a rectangle written in the directive. All coordinates are in
//! lattice units.

use vstd::prelude::*;
use crate::error::ConfigurationError;
use crate::geometry::{fits, Rect, Region};

verus! {

/// Which edges an alignment makes coincide.
#[derive(Clone, Copy, Debug, PartialEq, Eq, Structural)]
pub enum AlignMode {
    /// The left edge of the tile meets the left edge of the reference.
    Left,
    /// The right edge of the tile meets the right edge of the reference.
    Right,
    /// The left edge of the tile meets the right edge of the reference.
    ToTheRight,
    /// The top edge of the tile meets the bottom edge of the reference.
    Beneath,
    /// The bottom edge of the tile meets the top edge of the reference.
    Above,
    /// The bottom edge of the tile meets the bottom edge of the reference.
    Bottom,
}

impl AlignMode {
    /// The alignment moves the tile along the horizontal axis. Every other
    /// alignment moves it along the vertical axis.
    pub open spec fn spec_is_horizontal(&self) -> bool {
        *self is Left || *self is Right || *self is ToTheRight
    }

    #[verifier::when_used_as_spec(spec_is_horizontal)]
    pub fn is_horizontal(&self) -> (b: bool)
        ensures
            b == self.spec_is_horizontal(),
    {
        match self {
            AlignMode::Left | AlignMode::Right | AlignMode::ToTheRight => true,
            AlignMode::Beneath | AlignMode::Above | AlignMode::Bottom => false,
        }
    }
}

/// What a directive aligns a tile to.
#[derive(Clone, Copy, Debug, PartialEq, Eq, Structural)]
pub enum Reference {
    /// The bounding box of the tile of this number.
    Tile(usize),
    /// This rectangle.
    Rect(Rect),
}

/// One alignment: move `tile` along one axis until the edges that `mode`
/// names coincide, then by `offset` more.
#[derive(Clone, Copy, Debug, PartialEq, Eq, Structural)]
pub struct Directive {
    pub tile: usize,
    pub reference: Reference,
    pub mode: AlignMode,
    pub offset: i64,
}

impl Directive {
    /// The directive that aligns `tile` to `reference` with no offset.
    pub fn new(tile: usize, reference: Reference, mode: AlignMode) -> (d: Directive)
        ensures
            d == (Directive { tile, reference, mode, offset: 0 }),
    {
        Directive { tile, reference, mode, offset: 0 }
    }
}

/// The width and height of a tile.
#[derive(Clone, Copy, Debug, PartialEq, Eq, Structural)]
pub struct Footprint {
    pub width: i64,
    pub height: i64,
}

/// A tile during placement: its footprint and, on each axis, the coordinate
/// of its lower left corner once a directive has set it.
#[derive(Clone, Copy, Debug, PartialEq, Eq, Structural)]
pub struct Tile {
    pub width: i64,
    pub height: i64,
    pub x: Option<i64>,
    pub y: Option<i64>,
}

/// A tile over the unbounded integers.
pub ghost struct TileModel {
    pub width: int,
    pub height: int,
    pub x: Option<int>,
    pub y: Option<int>,
}

impl TileModel {
    /// The tile has a position on both axes.
    pub open spec fn is_placed(self) -> bool {
        self.x is Some && self.y is Some
    }

    /// The bounding box of a tile that has a position on both axes.
    pub open spec fn bounds(self) -> Region {
        Region {
            left: self.x->0,
            bot: self.y->0,
            right: self.x->0 + self.width,
            top: self.y->0 + self.height,
        }
    }

    /// The footprint is positive and, on each axis that has a position, both
    /// edges of the tile lie in the 64-bit range.
    pub open spec fn wf(self) -> bool {
        &&& 0 < self.width <= i64::MAX
        &&& 0 < self.height <= i64::MAX
        &&& (self.x matches Some(x) ==> fits(x) && fits(x + self.width))
        &&& (self.y matches Some(y) ==> fits(y) && fits(y + self.height))
    }

    /// The tile of the given footprint that has no position yet.
    pub open spec fn unplaced(width: int, height: int) -> TileModel {
        TileModel { width, height, x: None, y: None }
    }
}

impl View for Tile {
    type V = TileModel;

    open spec fn view(&self) -> TileModel {
        TileModel {
            width: self.width as int,
            height: self.height as int,
            x: match self.x {
                Some(x) => Some(x as int),
                None => None,
            },
            y: match self.y {
                Some(y) => Some(y as int),
                None => None,
            },
        }
    }
}

/// The tiles of a sequence, each over the unbounded integers.
pub open spec fn models(tiles: Seq<Tile>) -> Seq<TileModel> {
    Seq::new(tiles.len(), |i: int| tiles[i]@)
}

/// Every tile of the sequence is well formed.
pub open spec fn all_wf(tiles: Seq<TileModel>) -> bool {
    forall|i: int| 0 <= i < tiles.len() ==> (#[trigger] tiles[i]).wf()
}

/// The tiles of the given footprints, none with a position.
pub open spec fn unplaced_tiles(footprints: Seq<Footprint>) -> Seq<TileModel> {
    Seq::new(
        footprints.len(),
        |i: int| TileModel::unplaced(footprints[i].width as int, footprints[i].height as int),
    )
}

/// Every footprint of the sequence is wider and taller than zero.
pub open spec fn all_footprints_positive(footprints: Seq<Footprint>) -> bool {
    forall|i: int|
        0 <= i < footprints.len() ==> (#[trigger] footprints[i]).width > 0 && footprints[i].height
            > 0
}

/// The coordinate that an alignment gives the lower left corner of a tile of
/// the given footprint, on the axis that the alignment moves it along.
pub open spec fn aligned_coordinate(
    mode: AlignMode,
    width: int,
    height: int,
    reference: Region,
    offset: int,
) -> int {
    match mode {
        AlignMode::Left => reference.left + offset,
        AlignMode::Right => reference.right - width + offset,
        AlignMode::ToTheRight => reference.right + offset,
        AlignMode::Beneath => reference.bot - height + offset,
        AlignMode::Above => reference.top + offset,
        AlignMode::Bottom => reference.bot + offset,
    }
}

/// The tile after an alignment has set its coordinate `c` on one axis.
pub open spec fn moved(tile: TileModel, mode: AlignMode, c: int) -> TileModel {
    if mode.is_horizontal() {
        TileModel { x: Some(c), ..tile }
    } else {
        TileModel { y: Some(c), ..tile }
    }
}

/// What one directive does to the tiles.
///
/// It fails where the directive names a tile that is not there, where its
/// reference is a tile without a position on both axes, and where the moved
/// tile would leave the 64-bit range. Otherwise it sets one coordinate of one
/// tile and leaves everything else as it is.
pub open spec fn step(tiles: Seq<TileModel>, d: Directive) -> Result<
    Seq<TileModel>,
    ConfigurationError,
> {
    if d.tile >= tiles.len() {
        Err(ConfigurationError::UnknownTile)
    } else if d.reference matches Reference::Tile(j) && j >= tiles.len() {
        Err(ConfigurationError::UnknownTile)
    } else if d.reference matches Reference::Tile(j) && !tiles[j as int].is_placed() {
        Err(ConfigurationError::UnplacedReference)
    } else {
        let reference = match d.reference {
            Reference::Tile(j) => tiles[j as int].bounds(),
            Reference::Rect(r) => r@,
        };
        let tile = tiles[d.tile as int];
        let c = aligned_coordinate(d.mode, tile.width, tile.height, reference, d.offset as int);
        let extent = if d.mode.is_horizontal() {
            tile.width
        } else {
            tile.height
        };
        if fits(c) && fits(c + extent) {
            Ok(tiles.update(d.tile as int, moved(tile, d.mode, c)))
        } else {
            Err(ConfigurationError::OutOfRange)
        }
    }
}

/// What a list of directives does to the tiles, applied in order. The first
/// directive that fails ends the run with its error.
pub open spec fn run(tiles: Seq<TileModel>, directives: Seq<Directive>) -> Result<
    Seq<TileModel>,
    ConfigurationError,
>
    decreases directives.len(),
{
    if directives.len() == 0 {
        Ok(tiles)
    } else {
        match run(tiles, directives.drop_last()) {
            Ok(before) => step(before, directives.last()),
            Err(e) => Err(e),
        }
    }
}

impl Tile {
    /// The tile of the given footprint that has no position yet.
    pub fn new(footprint: Footprint) -> (t: Tile)
        ensures
            t@ == TileModel::unplaced(footprint.width as int, footprint.height as int),
    {
        Tile { width: footprint.width, height: footprint.height, x: None, y: None }
    }

    /// The bounding box of the tile, once it has a position on both axes.
    /// There is none either where an edge of the tile leaves the 64-bit
    /// range, which no edge of a well-formed tile does.
    pub fn bounds(&self) -> (r: Option<Rect>)
        ensures
            match r {
                Some(b) => self@.is_placed() && b@ == self@.bounds(),
                None => !self@.is_placed() || !self@.bounds().fits(),
            },
            self@.wf() ==> (r is Some <==> self@.is_placed()),
    {
        match (self.x, self.y) {
            (Some(x), Some(y)) => match (x.checked_add(self.width), y.checked_add(self.height)) {
                (Some(right), Some(top)) => Some(Rect { left: x, bot: y, right, top }),
                _ => None,
            },
            _ => None,
        }
    }
}

/// Applies one directive to the tiles. On failure the tiles are unchanged.
pub fn apply(tiles: &mut Vec<Tile>, d: &Directive) -> (r: Result<(), ConfigurationError>)
    requires
        all_wf(models(old(tiles)@)),
    ensures
        match step(models(old(tiles)@), *d) {
            Ok(after) => r is Ok && models(final(tiles)@) == after,
            Err(e) => r == Err::<(), ConfigurationError>(e) && final(tiles)@ == old(tiles)@,
        },
        all_wf(models(final(tiles)@)),
{
    let n: usize = tiles.len();
    if d.tile >= n {
        return Err(ConfigurationError::UnknownTile);
    }
    let reference: Rect = match d.reference {
        Reference::Tile(j) => {
            if j >= n {
                return Err(ConfigurationError::UnknownTile);
            }
            assert(models(tiles@)[j as int] == tiles@[j as int]@);
            assert(models(tiles@)[j as int].wf());
            match tiles[j].bounds() {
                Some(b) => b,
                None => {
                    return Err(ConfigurationError::UnplacedReference);
                },
            }
        },
        Reference::Rect(r) => r,
    };
    let tile: Tile = tiles[d.tile];
    assert(models(tiles@)[d.tile as int] == tile@);
    assert(tile@.wf());
    let edge: i64 = match d.mode {
        AlignMode::Left => reference.left,
        AlignMode::Right => reference.right,
        AlignMode::ToTheRight => reference.right,
        AlignMode::Beneath => reference.bot,
        AlignMode::Above => reference.top,
        AlignMode::Bottom => reference.bot,
    };
    let back: i64 = match d.mode {
        AlignMode::Right => tile.width,
        AlignMode::Beneath => tile.height,
        _ => 0,
    };
    let extent: i64 = if d.mode.is_horizontal() {
        tile.width
    } else {
        tile.height
    };
    // The sum is taken in 128 bits, where it cannot overflow.
    let c: i128 = edge as i128 - back as i128 + d.offset as i128;
    assert(c == aligned_coordinate(d.mode, tile@.width, tile@.height, reference@, d.offset as int));
    if c < i64::MIN as i128 || c + extent as i128 > i64::MAX as i128 {
        return Err(ConfigurationError::OutOfRange);
    }
    let v: i64 = c as i64;
    let after: Tile = if d.mode.is_horizontal() {
        Tile { x: Some(v), ..tile }
    } else {
        Tile { y: Some(v), ..tile }
    };
    assert(after@ == moved(tile@, d.mode, c as int));
    let ghost before = tiles@;
    tiles.set(d.tile, after);
    proof {
        assert(models(tiles@) =~= models(before).update(d.tile as int, after@));
        assert forall|i: int| 0 <= i < tiles@.len() implies (#[trigger] models(tiles@)[i]).wf() by {
            if i != d.tile as int {
                assert(models(tiles@)[i] == models(before)[i]);
            }
        }
    }
    Ok(())
}

/// Instantiates one tile for each footprint, none with a position, and
/// applies the directives to them in order.
///
/// It fails with `NonPositiveDimension` where a footprint is not wider and
/// taller than zero, and otherwise with the error of the first directive that
/// fails. The tiles of a run that fails are dropped.
pub fn run_directives(footprints: &Vec<Footprint>, directives: &Vec<Directive>) -> (r: Result<
    Vec<Tile>,
    ConfigurationError,
>)
    ensures
        match r {
            Ok(tiles) => {
                &&& all_footprints_positive(footprints@)
                &&& run(unplaced_tiles(footprints@), directives@) == Ok::<
                    Seq<TileModel>,
                    ConfigurationError,
                >(models(tiles@))
                &&& all_wf(models(tiles@))
            },
            Err(e) => if all_footprints_positive(footprints@) {
                run(unplaced_tiles(footprints@), directives@) == Err::<
                    Seq<TileModel>,
                    ConfigurationError,
                >(e)
            } else {
                e == ConfigurationError::NonPositiveDimension
            },
        },
{
    let mut tiles: Vec<Tile> = Vec::new();
    let mut i: usize = 0;
    while i < footprints.len()
        invariant
            i <= footprints@.len(),
            tiles@.len() == i,
            forall|j: int| 0 <= j < i ==> (#[trigger] footprints@[j]).width > 0 && footprints@[j].height > 0,
            forall|j: int|
                0 <= j < i ==> (#[trigger] tiles@[j])@ == TileModel::unplaced(
                    footprints@[j].width as int,
                    footprints@[j].height as int,
                ),
        decreases footprints@.len() - i,
    {
        let f: Footprint = footprints[i];
        if f.width <= 0 || f.height <= 0 {
            assert(!((#[trigger] footprints@[i as int]).width > 0 && footprints@[i as int].height > 0));
            return Err(ConfigurationError::NonPositiveDimension);
        }
        tiles.push(Tile::new(f));
        i = i + 1;
    }
    assert(models(tiles@) =~= unplaced_tiles(footprints@));
    assert(directives@.take(0) =~= Seq::<Directive>::empty());
    let ghost start = unplaced_tiles(footprints@);
    let mut k: usize = 0;
    while k < directives.len()
        invariant
            k <= directives@.len(),
            all_footprints_positive(footprints@),
            start == unplaced_tiles(footprints@),
            all_wf(models(tiles@)),
            run(start, directives@.take(k as int)) == Ok::<Seq<TileModel>, ConfigurationError>(
                models(tiles@),
            ),
        decreases directives@.len() - k,
    {
        let ghost upto = directives@.take(k as int + 1);
        assert(upto.drop_last() =~= directives@.take(k as int));
        assert(upto.last() == directives@[k as int]);
        match apply(&mut tiles, &directives[k]) {
            Ok(()) => {},
            Err(e) => {
                proof {
                    lemma_run_fails_on(start, directives@, k as int + 1);
                }
                return Err(e);
            },
        }
        k = k + 1;
    }
    assert(directives@.take(k as int) =~= directives@);
    Ok(tiles)
}

/// A run that has failed on its first `k` directives fails with the same
/// error on the whole list.
pub proof fn lemma_run_fails_on(tiles: Seq<TileModel>, directives: Seq<Directive>, k: int)
    requires
        0 <= k <= directives.len(),
        run(tiles, directives.take(k)) is Err,
    ensures
        run(tiles, directives) == run(tiles, directives.take(k)),
    decreases directives.len() - k,
{
    if k == directives.len() {
        assert(directives.take(k) =~= directives);
    } else {
        let next = directives.take(k + 1);
        assert(next.drop_last() =~= directives.take(k));
        lemma_run_fails_on(tiles, directives, k + 1);
    }
}

/// Running one directive more is one step after the run so far.
pub proof fn lemma_run_extend(tiles: Seq<TileModel>, directives: Seq<Directive>, k: int)
    requires
        0 <= k < directives.len(),
    ensures
        run(tiles, directives.take(k + 1)) == match run(tiles, directives.take(k)) {
            Ok(before) => step(before, directives[k]),
            Err(e) => Err(e),
        },
{
    let next = directives.take(k + 1);
    assert(next.drop_last() =~= directives.take(k));
    assert(next.last() == directives[k]);
}

/// A directive whose reference is not the tile it moves does nothing when it
/// is applied a second time.
pub proof fn lemma_step_idempotent(tiles: Seq<TileModel>, d: Directive)
    requires
        !(d.reference matches Reference::Tile(j) && j == d.tile),
        step(tiles, d) is Ok,
    ensures
        step(step(tiles, d)->Ok_0, d) == step(tiles, d),
{
    let once = step(tiles, d)->Ok_0;
    assert(step(once, d)->Ok_0 =~= once);
}

/// Two directives that move the same tile along different axes, neither with
/// that tile as its reference, can be applied in either order.
pub proof fn lemma_steps_commute(tiles: Seq<TileModel>, a: Directive, b: Directive)
    requires
        a.tile == b.tile,
        a.mode.is_horizontal() != b.mode.is_horizontal(),
        !(a.reference matches Reference::Tile(j) && j == a.tile),
        !(b.reference matches Reference::Tile(j) && j == b.tile),
        step(tiles, a) is Ok,
        step(step(tiles, a)->Ok_0, b) is Ok,
    ensures
        step(tiles, b) is Ok,
        step(step(tiles, b)->Ok_0, a) == step(step(tiles, a)->Ok_0, b),
{
    let ab = step(step(tiles, a)->Ok_0, b)->Ok_0;
    let ba = step(step(tiles, b)->Ok_0, a)->Ok_0;
    assert(ba =~= ab);
}

} // verus!
