//! The manufacturing lattice: the pitch of each layer, the coarse pitch that is
//! legal on every layer up to a top layer, and the conversions between
//! physical and lattice coordinates.

use vstd::prelude::*;
use crate::arith::{ceil_div, floor_div, div_ceil, div_floor, gcd_i64, lcm2};
use crate::arith::{lemma_ceil_div_bracket, lemma_ceil_div_unique, lemma_floor_div_bracket};
use crate::arith::{lemma_floor_div_unique, lemma_scale_le, lemma_scale_lt};
use crate::arith::{lemma_lcm2_divides_common_multiples, lemma_lcm2_is_common_multiple};
use crate::arith::{lemma_multiple_mod, lemma_mod_zero_multiple, lemma_positive_multiple_ge};
use crate::arith::lemma_gcd_divides;
use crate::error::ConfigurationError;
use crate::geometry::{Rect, Region};

verus! {

/// The routing layers of a process, from the bottom layer upwards, each with
/// the pitch of its tracks in physical units.
#[derive(Debug)]
pub struct LayerStack {
    pub pitches: Vec<i64>,
}

/// Every pitch of the sequence is positive.
pub open spec fn all_positive(pitches: Seq<i64>) -> bool {
    forall|i: int| 0 <= i < pitches.len() ==> #[trigger] pitches[i] > 0
}

/// `m` is a multiple of every pitch of the sequence.
pub open spec fn is_common_multiple(m: int, pitches: Seq<i64>) -> bool {
    forall|i: int| 0 <= i < pitches.len() ==> m % (#[trigger] pitches[i] as int) == 0
}

/// `m` is the least positive number that is a multiple of every pitch of the
/// sequence.
pub open spec fn is_least_common_multiple(m: int, pitches: Seq<i64>) -> bool {
    &&& m > 0
    &&& is_common_multiple(m, pitches)
    &&& forall|c: int| c > 0 && #[trigger] is_common_multiple(c, pitches) ==> m <= c
}

/// `l` divides every common multiple of the pitches.
spec fn divides_common_multiples(l: int, pitches: Seq<i64>) -> bool {
    forall|c: int| #[trigger] is_common_multiple(c, pitches) ==> c % l == 0
}

/// Divisibility passes on: a multiple of `b` is a multiple of every positive
/// divisor of `b`.
proof fn lemma_divides_trans(a: int, b: int, n: int)
    requires
        a > 0,
        b > 0,
        b % a == 0,
        n % b == 0,
    ensures
        n % a == 0,
{
    lemma_mod_zero_multiple(b, a);
    lemma_mod_zero_multiple(n, b);
    let k = (n / b) * (b / a);
    assert(n == k * a) by (nonlinear_arith)
        requires
            n == (n / b) * b,
            b == (b / a) * a,
            k == (n / b) * (b / a),
    ;
    lemma_multiple_mod(k, a);
}

/// Taking in one more pitch `p` turns the least common multiple `l` of a
/// prefix into `lcm2(l, p)`.
proof fn lemma_lcm_step(pitches: Seq<i64>, k: int, l: int)
    requires
        0 < k < pitches.len(),
        all_positive(pitches),
        l > 0,
        is_common_multiple(l, pitches.take(k)),
        divides_common_multiples(l, pitches.take(k)),
    ensures
        lcm2(l, pitches[k] as int) > 0,
        is_common_multiple(lcm2(l, pitches[k] as int), pitches.take(k + 1)),
        divides_common_multiples(lcm2(l, pitches[k] as int), pitches.take(k + 1)),
{
    let p = pitches[k] as int;
    let m = lcm2(l, p);
    let before = pitches.take(k);
    let after = pitches.take(k + 1);
    lemma_lcm2_is_common_multiple(l, p);
    assert forall|i: int| 0 <= i < after.len() implies m % (#[trigger] after[i] as int) == 0 by {
        if i < k {
            assert(before[i] == after[i]);
            assert(pitches[i] > 0);
            lemma_divides_trans(before[i] as int, l, m);
        }
    }
    assert forall|c: int| #[trigger] is_common_multiple(c, after) implies c % m == 0 by {
        assert forall|i: int| 0 <= i < before.len() implies c % (#[trigger] before[i] as int)
            == 0 by {
            assert(before[i] == after[i]);
        }
        assert(is_common_multiple(c, before));
        assert(after[k] == pitches[k]);
        lemma_lcm2_divides_common_multiples(l, p, c);
    }
}

impl LayerStack {
    /// The coarse pitch up to `top_layer`: the least common multiple of the
    /// pitches of the layers `0..=top_layer`.
    ///
    /// There is no coarse pitch where the stack has no such layer, where one
    /// of those pitches is not positive, and where no common multiple of them
    /// lies in the 64-bit range.
    pub fn coarse_pitch(&self, top_layer: usize) -> (r: Result<i64, ConfigurationError>)
        ensures
            match r {
                Ok(m) => {
                    &&& top_layer < self.pitches@.len()
                    &&& all_positive(self.pitches@.take(top_layer + 1))
                    &&& is_least_common_multiple(m as int, self.pitches@.take(top_layer + 1))
                },
                Err(ConfigurationError::UnknownLayer) => top_layer >= self.pitches@.len(),
                Err(ConfigurationError::NonPositiveDimension) => {
                    &&& top_layer < self.pitches@.len()
                    &&& !all_positive(self.pitches@.take(top_layer + 1))
                },
                Err(ConfigurationError::OutOfRange) => {
                    &&& top_layer < self.pitches@.len()
                    &&& all_positive(self.pitches@.take(top_layer + 1))
                    &&& forall|c: int|
                        0 < c <= i64::MAX ==> !#[trigger] is_common_multiple(
                            c,
                            self.pitches@.take(top_layer + 1),
                        )
                },
                Err(_) => false,
            },
    {
        if top_layer >= self.pitches.len() {
            return Err(ConfigurationError::UnknownLayer);
        }
        let n: usize = top_layer + 1;
        let ghost layers = self.pitches@.take(n as int);
        let mut i: usize = 0;
        while i < n
            invariant
                i <= n,
                n == top_layer + 1,
                n <= self.pitches@.len(),
                layers == self.pitches@.take(n as int),
                forall|j: int| 0 <= j < i ==> #[trigger] layers[j] > 0,
            decreases n - i,
        {
            if self.pitches[i] <= 0 {
                assert(!(layers[i as int] > 0));
                assert(!all_positive(layers));
                return Err(ConfigurationError::NonPositiveDimension);
            }
            i = i + 1;
        }
        let mut l: i64 = self.pitches[0];
        proof {
            assert(layers[0] > 0);
            lemma_multiple_mod(1, l as int);
            assert forall|c: int| #[trigger] is_common_multiple(c, layers.take(1)) implies c % (
            l as int) == 0 by {
                assert(layers.take(1)[0] == layers[0]);
            }
        }
        let mut k: usize = 1;
        while k < n
            invariant
                1 <= k <= n,
                n == top_layer + 1,
                n <= self.pitches@.len(),
                layers == self.pitches@.take(n as int),
                all_positive(layers),
                l > 0,
                is_common_multiple(l as int, layers.take(k as int)),
                divides_common_multiples(l as int, layers.take(k as int)),
            decreases n - k,
        {
            let p: i64 = self.pitches[k];
            assert(layers[k as int] == p);
            let g: i64 = gcd_i64(l, p);
            proof {
                lemma_gcd_divides(l as nat, p as nat);
                lemma_lcm_step(layers, k as int, l as int);
                lemma_floor_div_bracket(l as int, g as int);
            }
            let q: i64 = l / g;
            match q.checked_mul(p) {
                Some(m) => {
                    l = m;
                },
                None => {
                    proof {
                        let m = lcm2(l as int, p as int);
                        assert(m > i64::MAX);
                        assert forall|c: int| 0 < c <= i64::MAX implies !#[trigger] is_common_multiple(
                            c,
                            layers,
                        ) by {
                            if is_common_multiple(c, layers) {
                                let part = layers.take(k as int + 1);
                                assert forall|j: int| 0 <= j < part.len() implies c % (
                                #[trigger] part[j] as int) == 0 by {
                                    assert(part[j] == layers[j]);
                                }
                                assert(is_common_multiple(c, part));
                                lemma_positive_multiple_ge(c, m);
                            }
                        }
                    }
                    return Err(ConfigurationError::OutOfRange);
                },
            }
            k = k + 1;
        }
        proof {
            assert(layers.take(n as int) =~= layers);
            assert forall|c: int| c > 0 && #[trigger] is_common_multiple(c, layers) implies l
                <= c by {
                lemma_positive_multiple_ge(c, l as int);
            }
        }
        Ok(l)
    }
}

/// A region whose sides are multiples of a common multiple of the pitches is
/// aligned to the pitch of every layer: what is legal on the coarse lattice
/// is legal on each layer.
pub proof fn lemma_coarse_alignment_holds_on_every_layer(
    r: Region,
    m: int,
    pitches: Seq<i64>,
    i: int,
)
    requires
        m > 0,
        all_positive(pitches),
        is_common_multiple(m, pitches),
        is_lattice_aligned(r, m),
        0 <= i < pitches.len(),
    ensures
        is_lattice_aligned(r, pitches[i] as int),
{
    let p = pitches[i] as int;
    assert(pitches[i] > 0);
    lemma_divides_trans(p, m, r.left);
    lemma_divides_trans(p, m, r.bot);
    lemma_divides_trans(p, m, r.right);
    lemma_divides_trans(p, m, r.top);
}

/// The smallest lattice region whose physical extent contains `r`, on a
/// lattice of pitch `p`: the lower sides rounded down, the upper sides rounded
/// up.
pub open spec fn expanded(r: Region, p: int) -> Region {
    Region {
        left: floor_div(r.left, p),
        bot: floor_div(r.bot, p),
        right: ceil_div(r.right, p),
        top: ceil_div(r.top, p),
    }
}

/// The lattice region between the lattice lines nearest inside `r`: the lower
/// sides rounded up, the upper sides rounded down. Its sides may cross.
pub open spec fn inner(r: Region, p: int) -> Region {
    Region {
        left: ceil_div(r.left, p),
        bot: ceil_div(r.bot, p),
        right: floor_div(r.right, p),
        top: floor_div(r.top, p),
    }
}

/// The largest lattice region of positive area whose physical extent lies
/// within `r`, where there is one.
pub open spec fn shrunk(r: Region, p: int) -> Option<Region> {
    if inner(r, p).has_area() {
        Some(inner(r, p))
    } else {
        None
    }
}

/// The physical extent of the lattice region `r`: every side times the pitch.
pub open spec fn scaled(r: Region, p: int) -> Region {
    Region { left: r.left * p, bot: r.bot * p, right: r.right * p, top: r.top * p }
}

/// Every side of the region is a multiple of the pitch.
pub open spec fn is_lattice_aligned(r: Region, p: int) -> bool {
    r.left % p == 0 && r.bot % p == 0 && r.right % p == 0 && r.top % p == 0
}

/// Rounding a multiple of the pitch, up or down, gives back the factor.
pub proof fn lemma_round_multiple(k: int, p: int)
    requires
        p > 0,
    ensures
        floor_div(k * p, p) == k,
        ceil_div(k * p, p) == k,
{
    lemma_floor_div_unique(k * p, p, k);
    lemma_ceil_div_unique(k * p, p, k);
}

/// `floor_div(x, p)` is the greatest `k` with `k * p <= x`, and
/// `ceil_div(x, p)` the least `k` with `x <= k * p`.
pub proof fn lemma_round_extremal(x: int, p: int, k: int)
    requires
        p > 0,
    ensures
        k * p <= x <==> k <= floor_div(x, p),
        x <= k * p <==> ceil_div(x, p) <= k,
{
    lemma_floor_div_bracket(x, p);
    lemma_ceil_div_bracket(x, p);
    let f = floor_div(x, p);
    let c = ceil_div(x, p);
    assert((f + 1) * p == f * p + p) by (nonlinear_arith);
    assert((c - 1) * p == c * p - p) by (nonlinear_arith);
    if k <= f {
        lemma_scale_le(k, f, p);
    } else {
        lemma_scale_le(f + 1, k, p);
    }
    if c <= k {
        lemma_scale_le(c, k, p);
    } else {
        lemma_scale_le(k, c - 1, p);
    }
}

/// The physical extent of the expansion of `r` contains `r`, and the
/// expansion lies within every lattice region `q` whose physical extent
/// contains `r`.
pub proof fn lemma_expanded_is_least(r: Region, p: int, q: Region)
    requires
        p > 0,
    ensures
        scaled(expanded(r, p), p).contains(r),
        r.wf() ==> expanded(r, p).wf(),
        r.has_area() ==> expanded(r, p).has_area(),
        scaled(q, p).contains(r) ==> q.contains(expanded(r, p)),
{
    lemma_floor_div_bracket(r.left, p);
    lemma_floor_div_bracket(r.bot, p);
    lemma_ceil_div_bracket(r.right, p);
    lemma_ceil_div_bracket(r.top, p);
    lemma_round_extremal(r.left, p, q.left);
    lemma_round_extremal(r.bot, p, q.bot);
    lemma_round_extremal(r.right, p, q.right);
    lemma_round_extremal(r.top, p, q.top);
    let e = expanded(r, p);
    if r.left <= r.right && e.left > e.right {
        lemma_scale_le(e.right + 1, e.left, p);
        assert((e.right + 1) * p == e.right * p + p) by (nonlinear_arith);
    }
    if r.bot <= r.top && e.bot > e.top {
        lemma_scale_le(e.top + 1, e.bot, p);
        assert((e.top + 1) * p == e.top * p + p) by (nonlinear_arith);
    }
    if r.left < r.right && e.left >= e.right {
        lemma_scale_le(e.right, e.left, p);
    }
    if r.bot < r.top && e.bot >= e.top {
        lemma_scale_le(e.top, e.bot, p);
    }
}

/// Where `r` shrinks to a lattice region, that region has area, its physical
/// extent lies within `r`, and it contains every lattice region `q` of which
/// the same holds. Where `r` does not shrink, there is no such `q`.
pub proof fn lemma_shrunk_is_greatest(r: Region, p: int, q: Region)
    requires
        p > 0,
    ensures
        match shrunk(r, p) {
            Some(s) => {
                &&& s.has_area()
                &&& r.contains(scaled(s, p))
                &&& (q.has_area() && r.contains(scaled(q, p)) ==> s.contains(q))
            },
            None => !(q.has_area() && r.contains(scaled(q, p))),
        },
{
    lemma_floor_div_bracket(r.right, p);
    lemma_floor_div_bracket(r.top, p);
    lemma_ceil_div_bracket(r.left, p);
    lemma_ceil_div_bracket(r.bot, p);
    lemma_round_extremal(r.left, p, q.left);
    lemma_round_extremal(r.bot, p, q.bot);
    lemma_round_extremal(r.right, p, q.right);
    lemma_round_extremal(r.top, p, q.top);
}

/// A region narrower or lower than one lattice unit does not shrink to a
/// lattice region.
pub proof fn lemma_shrunk_too_small(r: Region, p: int)
    requires
        p > 0,
        r.width() < p || r.height() < p,
    ensures
        shrunk(r, p) is None,
{
    let s = inner(r, p);
    lemma_floor_div_bracket(r.right, p);
    lemma_floor_div_bracket(r.top, p);
    lemma_ceil_div_bracket(r.left, p);
    lemma_ceil_div_bracket(r.bot, p);
    if s.left < s.right {
        lemma_scale_le(s.left + 1, s.right, p);
        assert((s.left + 1) * p == s.left * p + p) by (nonlinear_arith);
    }
    if s.bot < s.top {
        lemma_scale_le(s.bot + 1, s.top, p);
        assert((s.bot + 1) * p == s.bot * p + p) by (nonlinear_arith);
    }
}

/// The physical extent of a lattice region is lattice-aligned, and expanding
/// or shrinking it gives the lattice region back.
pub proof fn lemma_scaled_round_trip(q: Region, p: int)
    requires
        p > 0,
    ensures
        is_lattice_aligned(scaled(q, p), p),
        expanded(scaled(q, p), p) == q,
        inner(scaled(q, p), p) == q,
        q.has_area() ==> shrunk(scaled(q, p), p) == Some(q),
{
    lemma_round_multiple(q.left, p);
    lemma_round_multiple(q.bot, p);
    lemma_round_multiple(q.right, p);
    lemma_round_multiple(q.top, p);
    lemma_multiple_mod(q.left, p);
    lemma_multiple_mod(q.bot, p);
    lemma_multiple_mod(q.right, p);
    lemma_multiple_mod(q.top, p);
}

/// Expanding a region with area to the lattice and shrinking the physical
/// extent of the result gives a region that lies within the expansion: the
/// expansion itself, which is a fixed point of the pair.
pub proof fn lemma_expand_shrink_round_trip(r: Region, p: int)
    requires
        p > 0,
        r.has_area(),
    ensures
        shrunk(scaled(expanded(r, p), p), p) matches Some(s) && expanded(r, p).contains(s) && s
            == expanded(r, p),
{
    lemma_expanded_is_least(r, p, r);
    lemma_scaled_round_trip(expanded(r, p), p);
}

/// Lattice regions that do not overlap have physical extents that do not
/// overlap, and the other way round.
pub proof fn lemma_scaled_overlaps(a: Region, b: Region, p: int)
    requires
        p > 0,
    ensures
        scaled(a, p).overlaps(scaled(b, p)) == a.overlaps(b),
        scaled(a, p).contains(scaled(b, p)) == a.contains(b),
{
    lemma_scaled_order(a.left, b.right, p);
    lemma_scaled_order(b.left, a.right, p);
    lemma_scaled_order(a.bot, b.top, p);
    lemma_scaled_order(b.bot, a.top, p);
    lemma_scaled_order(a.left, b.left, p);
    lemma_scaled_order(b.right, a.right, p);
    lemma_scaled_order(a.bot, b.bot, p);
    lemma_scaled_order(b.top, a.top, p);
}

/// Scaling by a positive pitch keeps the order of two coordinates.
proof fn lemma_scaled_order(a: int, b: int, p: int)
    requires
        p > 0,
    ensures
        (a * p < b * p) == (a < b),
        (a * p <= b * p) == (a <= b),
{
    if a < b {
        lemma_scale_lt(a, b, p);
    } else if a == b {
    } else {
        lemma_scale_lt(b, a, p);
    }
}

/// A lattice: the coarse pitch, in physical units, at which lattice lines
/// repeat on both axes.
#[derive(Clone, Copy, Debug)]
pub struct Grid {
    pitch: i64,
}

impl Grid {
    #[verifier::type_invariant]
    spec fn positive(&self) -> bool {
        self.pitch > 0
    }

    /// The pitch of the lattice as an unbounded integer.
    pub closed spec fn spec_pitch(&self) -> int {
        self.pitch as int
    }

    /// The lattice of the given pitch, where the pitch is positive.
    pub fn new(pitch: i64) -> (r: Result<Grid, ConfigurationError>)
        ensures
            match r {
                Ok(g) => pitch > 0 && g.spec_pitch() == pitch,
                Err(e) => pitch <= 0 && e == ConfigurationError::NonPositiveDimension,
            },
    {
        if pitch > 0 {
            Ok(Grid { pitch })
        } else {
            Err(ConfigurationError::NonPositiveDimension)
        }
    }

    /// The lattice whose pitch is the coarse pitch of `stack` up to
    /// `top_layer`. It fails as [`LayerStack::coarse_pitch`] does.
    pub fn from_stack(stack: &LayerStack, top_layer: usize) -> (r: Result<
        Grid,
        ConfigurationError,
    >)
        ensures
            match r {
                Ok(g) => {
                    &&& top_layer < stack.pitches@.len()
                    &&& all_positive(stack.pitches@.take(top_layer + 1))
                    &&& is_least_common_multiple(
                        g.spec_pitch(),
                        stack.pitches@.take(top_layer + 1),
                    )
                },
                Err(ConfigurationError::UnknownLayer) => top_layer >= stack.pitches@.len(),
                Err(ConfigurationError::NonPositiveDimension) => {
                    &&& top_layer < stack.pitches@.len()
                    &&& !all_positive(stack.pitches@.take(top_layer + 1))
                },
                Err(ConfigurationError::OutOfRange) => {
                    &&& top_layer < stack.pitches@.len()
                    &&& all_positive(stack.pitches@.take(top_layer + 1))
                    &&& forall|c: int|
                        0 < c <= i64::MAX ==> !#[trigger] is_common_multiple(
                            c,
                            stack.pitches@.take(top_layer + 1),
                        )
                },
                Err(_) => false,
            },
    {
        match stack.coarse_pitch(top_layer) {
            Ok(pitch) => Ok(Grid { pitch }),
            Err(e) => Err(e),
        }
    }

    /// The pitch of the lattice, which is positive.
    pub fn pitch(&self) -> (p: i64)
        ensures
            p == self.spec_pitch(),
            p > 0,
    {
        proof {
            use_type_invariant(self);
        }
        self.pitch
    }

    /// The smallest lattice rectangle whose physical extent contains `rect`.
    pub fn expand_to_lattice(&self, rect: &Rect) -> (r: Rect)
        ensures
            r@ == expanded(rect@, self.spec_pitch()),
            scaled(r@, self.spec_pitch()).contains(rect@),
            forall|q: Region| #[trigger]
                scaled(q, self.spec_pitch()).contains(rect@) ==> q.contains(r@),
    {
        let p: i64 = self.pitch();
        proof {
            assert forall|q: Region| #[trigger]
                scaled(q, p as int).contains(rect@) implies q.contains(
                expanded(rect@, p as int),
            ) by {
                lemma_expanded_is_least(rect@, p as int, q);
            }
            lemma_expanded_is_least(rect@, p as int, rect@);
        }
        Rect {
            left: div_floor(rect.left, p),
            bot: div_floor(rect.bot, p),
            right: div_ceil(rect.right, p),
            top: div_ceil(rect.top, p),
        }
    }

    /// The largest lattice rectangle of positive area whose physical extent
    /// lies within `rect`. There is none where `rect` holds no such
    /// rectangle, as when it is narrower or lower than one lattice unit.
    pub fn shrink_to_lattice(&self, rect: &Rect) -> (r: Option<Rect>)
        ensures
            match r {
                Some(s) => {
                    &&& shrunk(rect@, self.spec_pitch()) == Some(s@)
                    &&& s@.has_area()
                    &&& rect@.contains(scaled(s@, self.spec_pitch()))
                    &&& forall|q: Region|
                        q.has_area() && rect@.contains(#[trigger] scaled(q, self.spec_pitch()))
                            ==> s@.contains(q)
                },
                None => {
                    &&& shrunk(rect@, self.spec_pitch()) is None
                    &&& forall|q: Region|
                        q.has_area() ==> !rect@.contains(#[trigger] scaled(q, self.spec_pitch()))
                },
            },
            rect@.width() < self.spec_pitch() || rect@.height() < self.spec_pitch() ==> r is None,
    {
        let p: i64 = self.pitch();
        let left: i64 = div_ceil(rect.left, p);
        let bot: i64 = div_ceil(rect.bot, p);
        let right: i64 = div_floor(rect.right, p);
        let top: i64 = div_floor(rect.top, p);
        proof {
            assert forall|q: Region| true implies match shrunk(rect@, p as int) {
                Some(s) => q.has_area() && rect@.contains(#[trigger] scaled(q, p as int))
                    ==> s.contains(q),
                None => !(q.has_area() && rect@.contains(scaled(q, p as int))),
            } by {
                lemma_shrunk_is_greatest(rect@, p as int, q);
            }
            lemma_shrunk_is_greatest(rect@, p as int, rect@);
            if rect@.width() < p || rect@.height() < p {
                lemma_shrunk_too_small(rect@, p as int);
            }
        }
        if left < right && bot < top {
            Some(Rect { left, bot, right, top })
        } else {
            None
        }
    }

    /// The physical extent of the lattice rectangle `rect`. There is no result
    /// when a side of it leaves the 64-bit range.
    pub fn lattice_to_physical(&self, rect: &Rect) -> (r: Option<Rect>)
        ensures
            match r {
                Some(m) => {
                    &&& m@ == scaled(rect@, self.spec_pitch())
                    &&& is_lattice_aligned(m@, self.spec_pitch())
                },
                None => !scaled(rect@, self.spec_pitch()).fits(),
            },
    {
        let p: i64 = self.pitch();
        proof {
            lemma_scaled_round_trip(rect@, p as int);
        }
        let left: i64 = match rect.left.checked_mul(p) {
            Some(v) => v,
            None => { return None; },
        };
        let bot: i64 = match rect.bot.checked_mul(p) {
            Some(v) => v,
            None => { return None; },
        };
        let right: i64 = match rect.right.checked_mul(p) {
            Some(v) => v,
            None => { return None; },
        };
        let top: i64 = match rect.top.checked_mul(p) {
            Some(v) => v,
            None => { return None; },
        };
        Some(Rect { left, bot, right, top })
    }
}

} // verus!
