//! Axis-aligned spans and rectangles.
//!
//! [`Region`] is the mathematical rectangle over the unbounded integers that
//! contracts speak of. [`Rect`] is the rectangle over 64-bit coordinates that
//! the code computes with; its view is a `Region`. The same types serve for
//! physical coordinates and for lattice coordinates.

use vstd::prelude::*;

verus! {

/// The integer is a value of the 64-bit signed range.
pub open spec fn fits(x: int) -> bool {
    i64::MIN <= x <= i64::MAX
}

/// A rectangle over the unbounded integers, given by its four sides.
pub ghost struct Region {
    pub left: int,
    pub bot: int,
    pub right: int,
    pub top: int,
}

impl Region {
    /// No side lies beyond the opposite one. A region of zero width or height
    /// is well formed.
    pub open spec fn wf(self) -> bool {
        self.left <= self.right && self.bot <= self.top
    }

    /// The region is wider and taller than zero.
    pub open spec fn has_area(self) -> bool {
        self.left < self.right && self.bot < self.top
    }

    pub open spec fn width(self) -> int {
        self.right - self.left
    }

    pub open spec fn height(self) -> int {
        self.top - self.bot
    }

    /// All four sides are values of the 64-bit signed range.
    pub open spec fn fits(self) -> bool {
        fits(self.left) && fits(self.bot) && fits(self.right) && fits(self.top)
    }

    /// Every point of `other` is a point of `self`.
    pub open spec fn contains(self, other: Region) -> bool {
        &&& self.left <= other.left
        &&& other.right <= self.right
        &&& self.bot <= other.bot
        &&& other.top <= self.top
    }

    /// The two regions share a part of positive area. Regions that only touch
    /// along an edge or at a corner do not overlap.
    pub open spec fn overlaps(self, other: Region) -> bool {
        &&& self.left < other.right
        &&& other.left < self.right
        &&& self.bot < other.top
        &&& other.bot < self.top
    }

    /// The smallest region that contains both regions.
    pub open spec fn union(self, other: Region) -> Region {
        Region {
            left: if self.left <= other.left { self.left } else { other.left },
            bot: if self.bot <= other.bot { self.bot } else { other.bot },
            right: if self.right >= other.right { self.right } else { other.right },
            top: if self.top >= other.top { self.top } else { other.top },
        }
    }

    /// The region moved by `dx` to the right and by `dy` upwards.
    pub open spec fn translate(self, dx: int, dy: int) -> Region {
        Region {
            left: self.left + dx,
            bot: self.bot + dy,
            right: self.right + dx,
            top: self.top + dy,
        }
    }

    /// The region grown by `margin` downwards and by `margin` upwards.
    pub open spec fn grow_vert(self, margin: int) -> Region {
        Region { left: self.left, bot: self.bot - margin, right: self.right, top: self.top + margin }
    }
}

/// A closed interval `[start, stop]` on one axis.
#[derive(Clone, Copy, Debug, PartialEq, Eq, Structural)]
pub struct Span {
    pub start: i64,
    pub stop: i64,
}

impl Span {
    /// A span is well formed when it does not end before it starts.
    pub open spec fn wf(self) -> bool {
        self.start <= self.stop
    }

    /// The span from `start` to `stop`, where that is well formed.
    pub fn new(start: i64, stop: i64) -> (s: Option<Span>)
        ensures
            s == (if start <= stop {
                Some(Span { start, stop })
            } else {
                None
            }),
    {
        if start <= stop {
            Some(Span { start, stop })
        } else {
            None
        }
    }

    /// The span that holds the single coordinate `x`.
    pub fn from_point(x: i64) -> (s: Span)
        ensures
            s == (Span { start: x, stop: x }),
    {
        Span { start: x, stop: x }
    }
}

/// An axis-aligned rectangle over 64-bit coordinates, given by its four sides.
#[derive(Clone, Copy, Debug, PartialEq, Eq, Structural)]
pub struct Rect {
    pub left: i64,
    pub bot: i64,
    pub right: i64,
    pub top: i64,
}

impl View for Rect {
    type V = Region;

    open spec fn view(&self) -> Region {
        Region {
            left: self.left as int,
            bot: self.bot as int,
            right: self.right as int,
            top: self.top as int,
        }
    }
}

impl Rect {
    /// The rectangle with the given sides, where no side lies beyond the
    /// opposite one.
    pub fn new(left: i64, bot: i64, right: i64, top: i64) -> (r: Option<Rect>)
        ensures
            r == (if left <= right && bot <= top {
                Some(Rect { left, bot, right, top })
            } else {
                None
            }),
    {
        if left <= right && bot <= top {
            Some(Rect { left, bot, right, top })
        } else {
            None
        }
    }

    /// The rectangle over a horizontal and a vertical span.
    pub fn from_spans(h: Span, v: Span) -> (r: Rect)
        ensures
            r == (Rect { left: h.start, bot: v.start, right: h.stop, top: v.stop }),
    {
        Rect { left: h.start, bot: v.start, right: h.stop, top: v.stop }
    }

    /// The horizontal extent of the rectangle.
    pub fn hspan(&self) -> (s: Span)
        ensures
            s == (Span { start: self.left, stop: self.right }),
    {
        Span { start: self.left, stop: self.right }
    }

    /// The vertical extent of the rectangle.
    pub fn vspan(&self) -> (s: Span)
        ensures
            s == (Span { start: self.bot, stop: self.top }),
    {
        Span { start: self.bot, stop: self.top }
    }

    /// Whether every point of `other` is a point of `self`.
    pub fn contains(&self, other: &Rect) -> (b: bool)
        ensures
            b == self@.contains(other@),
    {
        self.left <= other.left && other.right <= self.right && self.bot <= other.bot
            && other.top <= self.top
    }

    /// Whether the two rectangles share a part of positive area.
    pub fn overlaps(&self, other: &Rect) -> (b: bool)
        ensures
            b == self@.overlaps(other@),
    {
        self.left < other.right && other.left < self.right && self.bot < other.top
            && other.bot < self.top
    }

    /// The smallest rectangle that contains both rectangles.
    pub fn union(&self, other: &Rect) -> (r: Rect)
        ensures
            r@ == self@.union(other@),
    {
        Rect {
            left: if self.left <= other.left { self.left } else { other.left },
            bot: if self.bot <= other.bot { self.bot } else { other.bot },
            right: if self.right >= other.right { self.right } else { other.right },
            top: if self.top >= other.top { self.top } else { other.top },
        }
    }

    /// Moves the rectangle by `dx` to the right and by `dy` upwards. There is
    /// no result when a side of the moved rectangle leaves the 64-bit range.
    pub fn translate(&self, dx: i64, dy: i64) -> (r: Option<Rect>)
        ensures
            match r {
                Some(m) => m@ == self@.translate(dx as int, dy as int),
                None => !self@.translate(dx as int, dy as int).fits(),
            },
    {
        let left: i64 = match self.left.checked_add(dx) {
            Some(v) => v,
            None => { return None; },
        };
        let right: i64 = match self.right.checked_add(dx) {
            Some(v) => v,
            None => { return None; },
        };
        let bot: i64 = match self.bot.checked_add(dy) {
            Some(v) => v,
            None => { return None; },
        };
        let top: i64 = match self.top.checked_add(dy) {
            Some(v) => v,
            None => { return None; },
        };
        Some(Rect { left, bot, right, top })
    }

    /// Grows the rectangle by `margin` downwards and by `margin` upwards.
    /// There is no result when a side of the grown rectangle leaves the
    /// 64-bit range.
    pub fn expand_vert(&self, margin: i64) -> (r: Option<Rect>)
        ensures
            match r {
                Some(m) => m@ == self@.grow_vert(margin as int),
                None => !self@.grow_vert(margin as int).fits(),
            },
    {
        let bot: i64 = match self.bot.checked_sub(margin) {
            Some(v) => v,
            None => { return None; },
        };
        let top: i64 = match self.top.checked_add(margin) {
            Some(v) => v,
            None => { return None; },
        };
        Some(Rect { left: self.left, bot, right: self.right, top })
    }
}

/// The regions that a sequence of rectangles stands for.
pub open spec fn regions_of(rects: Seq<Rect>) -> Seq<Region> {
    Seq::new(rects.len(), |i: int| rects[i]@)
}

/// `b` is the bounding box of the regions: it contains each of them, and it
/// lies within every region that contains each of them.
pub open spec fn is_bounding_box(b: Region, regions: Seq<Region>) -> bool {
    &&& forall|t: int| 0 <= t < regions.len() ==> b.contains(#[trigger] regions[t])
    &&& forall|c: Region|
        (forall|t: int| 0 <= t < regions.len() ==> c.contains(#[trigger] regions[t]))
            ==> #[trigger] c.contains(b)
}

/// The bounding box of the rectangles, where there is at least one.
pub fn bounding_box(rects: &Vec<Rect>) -> (r: Option<Rect>)
    ensures
        match r {
            Some(b) => rects@.len() > 0 && is_bounding_box(b@, regions_of(rects@)),
            None => rects@.len() == 0,
        },
{
    if rects.len() == 0 {
        return None;
    }
    let ghost regions = regions_of(rects@);
    let mut b: Rect = rects[0];
    let ghost mut wl: int = 0;
    let ghost mut wb: int = 0;
    let ghost mut wr: int = 0;
    let ghost mut wt: int = 0;
    let mut i: usize = 1;
    while i < rects.len()
        invariant
            1 <= i <= rects@.len(),
            regions == regions_of(rects@),
            forall|t: int| 0 <= t < i ==> b@.contains(#[trigger] regions[t]),
            0 <= wl < i && regions[wl].left == b.left,
            0 <= wb < i && regions[wb].bot == b.bot,
            0 <= wr < i && regions[wr].right == b.right,
            0 <= wt < i && regions[wt].top == b.top,
        decreases rects@.len() - i,
    {
        let r: Rect = rects[i];
        assert(regions[i as int] == r@);
        proof {
            if r.left < b.left {
                wl = i as int;
            }
            if r.bot < b.bot {
                wb = i as int;
            }
            if r.right > b.right {
                wr = i as int;
            }
            if r.top > b.top {
                wt = i as int;
            }
        }
        b = b.union(&r);
        i = i + 1;
    }
    proof {
        assert forall|c: Region|
            (forall|t: int| 0 <= t < regions.len() ==> c.contains(
                #[trigger] regions[t],
            )) implies #[trigger] c.contains(b@) by {
            assert(c.contains(regions[wl]));
            assert(c.contains(regions[wb]));
            assert(c.contains(regions[wr]));
            assert(c.contains(regions[wt]));
        }
    }
    Some(b)
}

} // verus!
