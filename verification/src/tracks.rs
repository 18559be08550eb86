use vstd::prelude::*;

use crate::geometry::{Coordinate, Edge, EdgeOrientation, Polygon, Range};
use crate::transform::fits_i64;

verus! {

/// Rust's `/` for a positive divisor: the quotient rounded toward zero.
pub open spec fn tdiv(a: int, b: int) -> int {
    if a >= 0 {
        a / b
    } else {
        -((-a) / b)
    }
}

/// Rust's `%` for a positive divisor: the remainder has the sign of `a`.
pub open spec fn trem(a: int, b: int) -> int {
    a - b * tdiv(a, b)
}

/// Rust's `/` on signed integers for any non-zero divisor.
pub open spec fn trunc_div(a: int, b: int) -> int {
    if b > 0 {
        tdiv(a, b)
    } else {
        -tdiv(a, -b)
    }
}

/// Rust's `%` on signed integers for any non-zero divisor.
pub open spec fn trunc_rem(a: int, b: int) -> int {
    trem(a, if b > 0 { b } else { -b })
}

pub open spec fn abs(a: int) -> int {
    if a < 0 {
        -a
    } else {
        a
    }
}

/// `a / b` rounded down, for a positive `b`.
pub(crate) fn floor_div(a: i64, b: i64) -> (r: i64)
    requires
        b > 0,
    ensures
        r == (a as int) / (b as int),
{
    let (q, rem) = div_rem_pos(a, b);
    proof {
        lemma_quotient_bounded(a as int, b as int);
        let qi = q as int;
        let bi = b as int;
        assert(a == bi * qi + rem);
        if rem < 0 {
            assert(a == (qi - 1) * bi + (rem + bi)) by (nonlinear_arith)
                requires
                    a == bi * qi + rem,
            ;
            vstd::arithmetic::div_mod::lemma_fundamental_div_mod_converse(a as int, bi, qi - 1, rem + bi);
        } else {
            assert(a == qi * bi + rem) by (nonlinear_arith)
                requires
                    a == bi * qi + rem,
            ;
            vstd::arithmetic::div_mod::lemma_fundamental_div_mod_converse(a as int, bi, qi, rem as int);
        }
    }
    if rem < 0 {
        q - 1
    } else {
        q
    }
}

/// Quotient and remainder of `a / b` for `i64` with a positive divisor.
pub(crate) fn div_rem_pos(a: i64, b: i64) -> (r: (i64, i64))
    requires
        b > 0,
    ensures
        r.0 == tdiv(a as int, b as int),
        r.1 == trem(a as int, b as int),
        abs(r.1 as int) < b,
        r.1 >= 0 <==> a >= 0 || r.1 == 0,
{
    let q = a / b;
    let r = a % b;
    proof {
        let ai = a as int;
        let bi = b as int;
        if a >= 0 {
            assert(q == ai / bi);
            assert(r == ai % bi);
            vstd::arithmetic::div_mod::lemma_fundamental_div_mod(ai, bi);
            assert(trem(ai, bi) == ai - bi * (ai / bi));
        } else {
            assert(q == -((-ai) / bi));
            assert(r == -((-ai) % bi));
            vstd::arithmetic::div_mod::lemma_fundamental_div_mod(-ai, bi);
            assert(bi * (-((-ai) / bi)) == -(bi * ((-ai) / bi))) by (nonlinear_arith);
            assert(trem(ai, bi) == ai - bi * (-((-ai) / bi)));
        }
    }
    (q, r)
}

/// Orientation of routing tracks.
#[derive(Debug, Clone, Copy, PartialEq, Eq, Structural)]
pub enum TrackOrientation {
    Horizontal,
    Vertical,
}

impl TrackOrientation {
    /// Horizontal tracks serve north/south edges and vertical tracks serve
    /// east/west edges.
    pub open spec fn spec_compatible(self, e: EdgeOrientation) -> bool {
        match (self, e) {
            (TrackOrientation::Horizontal, EdgeOrientation::North) => true,
            (TrackOrientation::Horizontal, EdgeOrientation::South) => true,
            (TrackOrientation::Vertical, EdgeOrientation::East) => true,
            (TrackOrientation::Vertical, EdgeOrientation::West) => true,
            _ => false,
        }
    }

    /// Returns `true` when this track orientation can place pins on an edge
    /// with the supplied orientation.
    pub fn is_compatible_with_edge_orientation(&self, edge_orientation: &EdgeOrientation) -> (r:
        bool)
        ensures
            r == self.spec_compatible(*edge_orientation),
    {
        match (self, edge_orientation) {
            (TrackOrientation::Horizontal, EdgeOrientation::North) => true,
            (TrackOrientation::Horizontal, EdgeOrientation::South) => true,
            (TrackOrientation::Vertical, EdgeOrientation::East) => true,
            (TrackOrientation::Vertical, EdgeOrientation::West) => true,
            _ => false,
        }
    }
}

/// Definition of a routing track family on a named layer: tracks sit at
/// `offset + k * period` for every integer `k`.
#[derive(Clone)]
pub struct TrackDefinition {
    pub name: String,
    pub offset: i64,
    pub period: i64,
    pub orientation: TrackOrientation,
    pub pin_shape: Option<Polygon>,
    pub keepout_shape: Option<Polygon>,
}

impl TrackDefinition {
    /// The first track index whose coordinate is at least `c` (for a
    /// positive period): `(c - offset) / period` rounded up.
    pub open spec fn index_at_or_above(self, c: int) -> int {
        (c - self.offset + self.period - 1) / (self.period as int)
    }

    /// The last track index whose coordinate is at most `c` (for a positive
    /// period): `(c - offset) / period` rounded down.
    pub open spec fn index_at_or_below(self, c: int) -> int {
        (c - self.offset) / (self.period as int)
    }

    /// The coordinate of track index `i`.
    pub open spec fn position(self, i: int) -> int {
        self.offset + i * self.period
    }

    /// The index range that `range` quantizes to.
    pub open spec fn spec_coord_to_index(self, range: Range) -> Range {
        Range {
            min: match range.min {
                Some(m) => Some(self.index_at_or_above(m as int) as i64),
                None => None,
            },
            max: match range.max {
                Some(m) => Some(self.index_at_or_below(m as int) as i64),
                None => None,
            },
        }
    }

    /// The coordinate range that an index range covers.
    pub open spec fn spec_index_to_coord(self, range: Range) -> Range {
        Range {
            min: match range.min {
                Some(m) => Some(self.position(m as int) as i64),
                None => None,
            },
            max: match range.max {
                Some(m) => Some(self.position(m as int) as i64),
                None => None,
            },
        }
    }

    /// Quantizing `range` to indices can be computed in `i64`.
    pub open spec fn coord_to_index_fits(self, range: Range) -> bool {
        &&& (range.min matches Some(m) ==> fits_i64(m - self.offset) && fits_i64(
            m - self.offset + self.period,
        ) && fits_i64(m - self.offset + self.period - 1))
        &&& (range.max matches Some(m) ==> fits_i64(m - self.offset))
    }

    /// The coordinates of the indices in `range` can be computed in `i64`.
    pub open spec fn index_to_coord_fits(self, range: Range) -> bool {
        &&& (range.min matches Some(m) ==> fits_i64(m * self.period) && fits_i64(
            self.position(m as int),
        ))
        &&& (range.max matches Some(m) ==> fits_i64(m * self.period) && fits_i64(
            self.position(m as int),
        ))
    }

    /// Create a new track definition on layer `name` with tracks at
    /// `offset + k * period`.
    pub fn new(
        name: &str,
        offset: i64,
        period: i64,
        orientation: TrackOrientation,
        pin_shape: Option<Polygon>,
        keepout_shape: Option<Polygon>,
    ) -> (r: TrackDefinition)
        ensures
            r.name@ == name@,
            r.offset == offset,
            r.period == period,
            r.orientation == orientation,
            r.pin_shape == pin_shape,
            r.keepout_shape == keepout_shape,
    {
        TrackDefinition {
            name: String::from_str(name),
            offset,
            period,
            orientation,
            pin_shape,
            keepout_shape,
        }
    }

    /// Convert a coordinate range to track indices such that converting the
    /// quantized range back to coordinates will not exceed the original
    /// range: the lower bound rounds up to a track and the upper bound rounds
    /// down to one.
    pub fn convert_coord_range_to_index_range(&self, range: &Range) -> (r: Range)
        requires
            self.period > 0,
            self.coord_to_index_fits(*range),
        ensures
            r == self.spec_coord_to_index(*range),
    {
        let min = match range.min {
            Some(min) => Some(floor_div(min - self.offset + self.period - 1, self.period)),
            None => None,
        };
        let max = match range.max {
            Some(max) => Some(floor_div(max - self.offset, self.period)),
            None => None,
        };
        Range { min, max }
    }

    /// Convert a track index range to a coordinate range.
    pub fn convert_index_range_to_coord_range(&self, range: &Range) -> (r: Range)
        requires
            self.index_to_coord_fits(*range),
        ensures
            r == self.spec_index_to_coord(*range),
    {
        let min = match range.min {
            Some(min) => Some(self.offset + (min * self.period)),
            None => None,
        };
        let max = match range.max {
            Some(max) => Some(self.offset + (max * self.period)),
            None => None,
        };
        Range { min, max }
    }

    /// The nearest track index to `coordinate` as computed with truncating
    /// division: the quotient moves one step away from zero when the
    /// remainder is at least half a period.
    pub open spec fn spec_nearest_track_index(self, coordinate: int) -> int {
        let n = coordinate - self.offset;
        let p = self.period as int;
        let q = trunc_div(n, p);
        let r = trunc_rem(n, p);
        if 2 * abs(r) >= abs(p) {
            q + if n >= 0 { 1int } else { -1int }
        } else {
            q
        }
    }

    /// Returns the nearest track index (in track coordinates, before
    /// edge-relative normalization) to the provided coordinate.
    pub fn nearest_track_index(&self, coordinate: i64) -> (r: i64)
        requires
            self.period != 0,
            self.period != i64::MIN,
            fits_i64(coordinate - self.offset),
            !(coordinate - self.offset == i64::MIN && self.period == -1),
            fits_i64(2 * abs(trunc_rem(coordinate - self.offset, self.period as int))),
        ensures
            r == self.spec_nearest_track_index(coordinate as int),
    {
        let n = coordinate - self.offset;
        let p = self.period;
        let p_abs = if p < 0 { -p } else { p };
        let (q_abs, r) = div_rem_pos(n, p_abs);
        proof {
            lemma_quotient_bounded(n as int, p_abs as int);
        }
        let mut q = if p < 0 { -q_abs } else { q_abs };
        let r_abs = if r < 0 { -r } else { r };
        if 2 * r_abs >= p_abs {
            proof {
                lemma_adjusted_quotient_fits(n as int, p_abs as int);
            }
            q += if n >= 0 { 1 } else { -1 };
        }
        q
    }

    /// Convert a track index to a coordinate.
    pub fn index_to_position(&self, index: i64) -> (r: i64)
        requires
            fits_i64(index * self.period),
            fits_i64(self.position(index as int)),
        ensures
            r == self.position(index as int),
    {
        self.offset + (index * self.period)
    }
}

impl Edge {
    /// The coordinate range of this edge that tracks of `track` cross, if the
    /// track orientation serves this edge.
    pub open spec fn spec_track_coord_range(self, track: TrackDefinition) -> Option<Range> {
        match (track.orientation, self.spec_orientation()) {
            (TrackOrientation::Horizontal, Some(EdgeOrientation::North)) => Some(
                Range::spec_new(self.a.y, self.b.y),
            ),
            (TrackOrientation::Horizontal, Some(EdgeOrientation::South)) => Some(
                Range::spec_new(self.a.y, self.b.y),
            ),
            (TrackOrientation::Vertical, Some(EdgeOrientation::East)) => Some(
                Range::spec_new(self.a.x, self.b.x),
            ),
            (TrackOrientation::Vertical, Some(EdgeOrientation::West)) => Some(
                Range::spec_new(self.a.x, self.b.x),
            ),
            _ => None,
        }
    }

    /// The track indices usable on this edge.
    pub open spec fn spec_index_range(self, track: TrackDefinition) -> Option<Range> {
        match self.spec_track_coord_range(track) {
            Some(cr) => Some(track.spec_coord_to_index(cr)),
            None => None,
        }
    }

    /// The index range of `track` on this edge, and the coordinates it maps
    /// back to, can be computed in `i64`.
    pub open spec fn index_range_ok(self, track: TrackDefinition) -> bool {
        track.period > 0 && match self.spec_track_coord_range(track) {
            Some(cr) => {
                &&& track.coord_to_index_fits(cr)
                &&& track.index_to_coord_fits(track.spec_coord_to_index(cr))
            },
            None => true,
        }
    }

    /// Returns the usable track index range for the given track definition,
    /// if the track orientation is compatible with this edge.
    pub fn get_index_range(&self, track: &TrackDefinition) -> (r: Option<Range>)
        requires
            self.index_range_ok(*track),
        ensures
            r == self.spec_index_range(*track),
    {
        let edge_orientation = self.orientation()?;
        let coord_range = match (&track.orientation, edge_orientation) {
            (TrackOrientation::Horizontal, EdgeOrientation::North) => self.get_y_range(),
            (TrackOrientation::Horizontal, EdgeOrientation::South) => self.get_y_range(),
            (TrackOrientation::Vertical, EdgeOrientation::East) => self.get_x_range(),
            (TrackOrientation::Vertical, EdgeOrientation::West) => self.get_x_range(),
            _ => return None,
        };
        let track_range = track.convert_coord_range_to_index_range(&coord_range);
        // converting the track indices back to coordinates stays within the
        // original coordinate range
        let round_trip_coord_range: Range = track.convert_index_range_to_coord_range(&track_range);
        proof {
            lemma_quantized_range_within(*track, coord_range);
        }
        assert(round_trip_coord_range.spec_is_subset_of(coord_range));
        Some(track_range)
    }

    /// The position of the `k`-th usable track of this edge can be computed.
    pub open spec fn position_on_edge_ok(self, track: TrackDefinition, k: int) -> bool {
        &&& self.index_range_ok(track)
        &&& self.spec_index_range(track) matches Some(ir)
        &&& ir.min matches Some(lo)
        &&& fits_i64(k)
        &&& fits_i64(lo + k)
        &&& fits_i64((lo + k) * track.period)
        &&& fits_i64(track.position(lo + k))
    }

    /// The coordinate along the edge's axis of the `k`-th usable track.
    pub open spec fn spec_position_on_edge(self, track: TrackDefinition, k: int) -> int {
        track.position(self.spec_index_range(track)->0.min->0 + k)
    }

    /// Returns the absolute coordinate value (in the edge's axis) of
    /// `track_index_on_edge`, counted from the first usable track.
    pub fn get_position_on_edge(&self, track: &TrackDefinition, track_index_on_edge: usize) -> (r:
        i64)
        requires
            self.position_on_edge_ok(*track, track_index_on_edge as int),
        ensures
            r == self.spec_position_on_edge(*track, track_index_on_edge as int),
    {
        let start_stop = self.get_index_range(track).unwrap();
        let start_index = start_stop.min.unwrap();
        let k = track_index_on_edge as i64;
        let index = start_index + k;
        track.index_to_position(index)
    }

    /// Returns the point where the `k`-th usable track crosses this edge.
    pub fn get_coordinate_on_edge(&self, track: &TrackDefinition, track_index_on_edge: usize) -> (r:
        Coordinate)
        requires
            self.position_on_edge_ok(*track, track_index_on_edge as int),
        ensures
            track.orientation == TrackOrientation::Horizontal ==> r == (Coordinate {
                x: self.a.x,
                y: self.spec_position_on_edge(*track, track_index_on_edge as int) as i64,
            }),
            track.orientation == TrackOrientation::Vertical ==> r == (Coordinate {
                x: self.spec_position_on_edge(*track, track_index_on_edge as int) as i64,
                y: self.a.y,
            }),
    {
        let position = self.get_position_on_edge(track, track_index_on_edge);
        match track.orientation {
            TrackOrientation::Horizontal => Coordinate { x: self.a.x, y: position },
            TrackOrientation::Vertical => Coordinate { x: position, y: self.a.y },
        }
    }
}

/// Quantizing a coordinate range to track indices and mapping the indices
/// back gives a range inside the original one, whenever both conversions
/// fit in `i64`.
pub proof fn lemma_quantized_range_within(track: TrackDefinition, range: Range)
    requires
        track.period > 0,
        track.coord_to_index_fits(range),
        track.index_to_coord_fits(track.spec_coord_to_index(range)),
    ensures
        track.spec_index_to_coord(track.spec_coord_to_index(range)).spec_is_subset_of(range),
{
    let p = track.period as int;
    let back = track.spec_index_to_coord(track.spec_coord_to_index(range));
    if let Some(m) = range.min {
        let y = m - track.offset + p - 1;
        let q = track.index_at_or_above(m as int);
        vstd::arithmetic::div_mod::lemma_fundamental_div_mod(y, p);
        vstd::arithmetic::div_mod::lemma_mod_bound(y, p);
        assert(q * p == p * q) by (nonlinear_arith);
        lemma_floor_quotient_bounded(y, p);
        assert(track.position(q) >= m);
        assert(back.min == Some(track.position(q) as i64));
        assert(back.low() >= range.low());
    }
    if let Some(m) = range.max {
        let x = m - track.offset;
        let q = track.index_at_or_below(m as int);
        vstd::arithmetic::div_mod::lemma_fundamental_div_mod(x, p);
        vstd::arithmetic::div_mod::lemma_mod_bound(x, p);
        assert(q * p == p * q) by (nonlinear_arith);
        lemma_floor_quotient_bounded(x, p);
        assert(track.position(q) <= m);
        assert(back.max == Some(track.position(q) as i64));
        assert(back.high() <= range.high());
    }
}

/// The rounded-down quotient by `p >= 1` lies between zero and `y`.
proof fn lemma_floor_quotient_bounded(y: int, p: int)
    requires
        p >= 1,
    ensures
        y >= 0 ==> 0 <= y / p <= y,
        y < 0 ==> y <= y / p < 0,
{
    let q = y / p;
    let r = y % p;
    vstd::arithmetic::div_mod::lemma_fundamental_div_mod(y, p);
    vstd::arithmetic::div_mod::lemma_mod_bound(y, p);
    assert(y >= 0 ==> 0 <= q <= y) by (nonlinear_arith)
        requires
            y == p * q + r,
            0 <= r < p,
            p >= 1,
    ;
    assert(y < 0 ==> y <= q < 0) by (nonlinear_arith)
        requires
            y == p * q + r,
            0 <= r < p,
            p >= 1,
    ;
}

/// The truncated quotient by `p >= 1` is no larger in size than `n`, and is
/// `i64::MIN` only when `n` is and `p` is one.
proof fn lemma_quotient_bounded(n: int, p: int)
    requires
        p >= 1,
        fits_i64(n),
    ensures
        fits_i64(tdiv(n, p)),
        tdiv(n, p) == i64::MIN ==> n == i64::MIN && p == 1,
{
    let m = abs(n);
    vstd::arithmetic::div_mod::lemma_div_basics(m);
    vstd::arithmetic::div_mod::lemma_div_is_ordered_by_denominator(m, 1, p);
    vstd::arithmetic::div_mod::lemma_div_pos_is_pos(m, p);
    if p >= 2 {
        vstd::arithmetic::div_mod::lemma_div_is_ordered_by_denominator(m, 2, p);
    }
}

/// When the remainder is at least half of `p >= 1`, the quotient is at most
/// half of `n` in size, so moving it by one step does not overflow.
proof fn lemma_adjusted_quotient_fits(n: int, p: int)
    requires
        p >= 1,
        fits_i64(n),
        fits_i64(p),
        2 * abs(trem(n, p)) >= p,
    ensures
        abs(tdiv(n, p)) < i64::MAX,
{
    let m = abs(n);
    vstd::arithmetic::div_mod::lemma_fundamental_div_mod(m, p);
    if p == 1 {
        vstd::arithmetic::div_mod::lemma_div_basics(n);
        vstd::arithmetic::div_mod::lemma_div_basics(-n);
        if n >= 0 {
            assert(trem(n, p) == n - 1 * (n / 1));
        } else {
            assert(trem(n, p) == n - 1 * (-((-n) / 1)));
        }
        assert(false);
    } else {
        vstd::arithmetic::div_mod::lemma_div_is_ordered_by_denominator(m, 2, p);
        vstd::arithmetic::div_mod::lemma_div_pos_is_pos(m, p);
    }
}

/// With a positive period, the index computed for a coordinate is one of
/// the nearest tracks: it lies at most half a period away.
pub proof fn lemma_nearest_track_is_nearest(t: TrackDefinition, coordinate: int)
    requires
        t.period > 0,
    ensures
        2 * abs(coordinate - t.position(t.spec_nearest_track_index(coordinate))) <= t.period,
{
    let n = coordinate - t.offset;
    let p = t.period as int;
    let q = tdiv(n, p);
    let r = trem(n, p);
    let res = t.spec_nearest_track_index(coordinate);
    assert(trunc_div(n, p) == q && trunc_rem(n, p) == r);
    if n >= 0 {
        vstd::arithmetic::div_mod::lemma_fundamental_div_mod(n, p);
        assert(0 <= r < p);
    } else {
        vstd::arithmetic::div_mod::lemma_fundamental_div_mod(-n, p);
        assert(p * (-((-n) / p)) == -(p * ((-n) / p))) by (nonlinear_arith);
        assert(-p < r <= 0);
    }
    assert(coordinate - t.position(q) == r) by {
        assert(t.position(q) == t.offset + q * p);
        assert(q * p == p * q) by (nonlinear_arith);
    }
    if 2 * abs(r) >= p {
        let d = if n >= 0 { 1int } else { -1int };
        assert(res == q + d);
        assert(t.position(q + d) == t.position(q) + d * p) by {
            assert((q + d) * p == q * p + d * p) by (nonlinear_arith);
        }
        assert(coordinate - t.position(res) == r - d * p);
        if n >= 0 {
            assert(d * p == p) by (nonlinear_arith)
                requires
                    d == 1,
            ;
            assert(2 * abs(r - p) <= p);
        } else {
            assert(d * p == -p) by (nonlinear_arith)
                requires
                    d == -1,
            ;
            assert(2 * abs(r + p) <= p);
        }
        assert(2 * abs(coordinate - t.position(res)) <= p);
    } else {
        assert(res == q);
        assert(coordinate - t.position(res) == r);
        assert(2 * abs(coordinate - t.position(res)) <= p);
    }
}

/// With a positive period, the nearest track to the position of track `i`
/// is track `i` itself.
pub proof fn lemma_nearest_track_round_trip(t: TrackDefinition, i: int)
    requires
        t.period > 0,
    ensures
        t.spec_nearest_track_index(t.position(i)) == i,
{
    let p = t.period as int;
    let n = t.position(i) - t.offset;
    assert(n == p * i) by (nonlinear_arith)
        requires
            n == i * p,
    ;
    if i >= 0 {
        assert(n >= 0) by (nonlinear_arith)
            requires
                n == p * i,
                p > 0,
                i >= 0,
        ;
        vstd::arithmetic::div_mod::lemma_div_multiples_vanish(i, p);
        assert(tdiv(n, p) == i);
    } else {
        assert(n < 0) by (nonlinear_arith)
            requires
                n == p * i,
                p > 0,
                i < 0,
        ;
        assert(-n == p * (-i)) by (nonlinear_arith)
            requires
                n == p * i,
        ;
        vstd::arithmetic::div_mod::lemma_div_multiples_vanish(-i, p);
        assert(tdiv(n, p) == i);
    }
    assert(trunc_rem(n, p) == n - p * i);
}

/// With a positive period, the index computed for a coordinate is a
/// nearest one over all indices; where two tracks are equally near, it is
/// the one farther from the offset (the larger in size).
pub proof fn lemma_nearest_track_minimal(t: TrackDefinition, coordinate: int, k: int)
    requires
        t.period > 0,
    ensures
        ({
            let res = t.spec_nearest_track_index(coordinate);
            &&& abs(coordinate - t.position(res)) <= abs(coordinate - t.position(k))
            &&& (abs(coordinate - t.position(k)) == abs(coordinate - t.position(res)) ==> abs(k) <= abs(res))
        }),
{
    let n = coordinate - t.offset;
    let p = t.period as int;
    let q = tdiv(n, p);
    let r = trem(n, p);
    let res = t.spec_nearest_track_index(coordinate);
    lemma_nearest_track_is_nearest(t, coordinate);
    assert(trunc_div(n, p) == q && trunc_rem(n, p) == r);
    if n >= 0 {
        vstd::arithmetic::div_mod::lemma_fundamental_div_mod(n, p);
        vstd::arithmetic::div_mod::lemma_div_pos_is_pos(n, p);
        assert(0 <= r < p);
        assert(q >= 0);
    } else {
        vstd::arithmetic::div_mod::lemma_fundamental_div_mod(-n, p);
        vstd::arithmetic::div_mod::lemma_div_pos_is_pos(-n, p);
        assert(p * (-((-n) / p)) == -(p * ((-n) / p))) by (nonlinear_arith);
        assert(-p < r <= 0);
        assert(q <= 0);
    }
    let d = coordinate - t.position(res);
    let m = res - k;
    assert(coordinate - t.position(k) == d + m * p) by {
        assert(k * p == res * p - m * p) by (nonlinear_arith)
            requires
                k == res - m,
        ;
    }
    assert(2 * abs(d) <= p);
    if m != 0 {
        assert(abs(m * p) >= p) by (nonlinear_arith)
            requires
                m != 0,
                p > 0,
        ;
        assert(abs(d + m * p) >= abs(m * p) - abs(d));
        if abs(d + m * p) == abs(d) {
            assert(abs(m * p) == p);
            assert(m == 1 || m == -1) by (nonlinear_arith)
                requires
                    abs(m * p) == p,
                    p > 0,
            ;
            assert(2 * abs(d) == p);
            assert(coordinate - t.position(q) == r) by {
                assert(q * p == p * q) by (nonlinear_arith);
            }
            if 2 * abs(r) >= p {
                let s = if n >= 0 { 1int } else { -1int };
                assert(res == q + s);
                assert(t.position(q + s) == t.position(q) + s * p) by {
                    assert((q + s) * p == q * p + s * p) by (nonlinear_arith);
                }
                if n >= 0 {
                    assert(s * p == p) by (nonlinear_arith)
                        requires
                            s == 1,
                    ;
                    assert(d == r - p);
                    if m == -1 {
                        assert(m * p == -p) by (nonlinear_arith)
                            requires
                                m == -1,
                        ;
                    } else {
                        assert(k == q);
                    }
                } else {
                    assert(s * p == -p) by (nonlinear_arith)
                        requires
                            s == -1,
                    ;
                    assert(d == r + p);
                    if m == 1 {
                        assert(m * p == p) by (nonlinear_arith)
                            requires
                                m == 1,
                        ;
                    } else {
                        assert(k == q);
                    }
                }
            } else {
                assert(res == q);
            }
        }
    }
}

/// An edge has usable tracks exactly when the track orientation serves the
/// edge's orientation; the usable indices are then exactly those whose
/// tracks lie within the edge's span.
pub proof fn lemma_index_range_tracks_on_edge(e: Edge, t: TrackDefinition, k: int)
    requires
        e.index_range_ok(t),
    ensures
        (e.spec_index_range(t) is Some) <==> (e.spec_orientation() matches Some(o) && t.orientation.spec_compatible(o)),
        e.spec_index_range(t) matches Some(ir) ==> {
            let cr = e.spec_track_coord_range(t)->0;
            &&& ir.min is Some && ir.max is Some
            &&& cr.min is Some && cr.max is Some
            &&& (ir.low() <= k <= ir.high() <==> cr.low() <= t.position(k) <= cr.high())
        },
{
    if let Some(cr) = e.spec_track_coord_range(t) {
        let p = t.period as int;
        let m = cr.min->0 as int;
        let mx = cr.max->0 as int;
        let y = m - t.offset + p - 1;
        let x = mx - t.offset;
        let lo = y / p;
        let hi = x / p;
        vstd::arithmetic::div_mod::lemma_fundamental_div_mod(y, p);
        vstd::arithmetic::div_mod::lemma_mod_bound(y, p);
        vstd::arithmetic::div_mod::lemma_fundamental_div_mod(x, p);
        vstd::arithmetic::div_mod::lemma_mod_bound(x, p);
        lemma_floor_quotient_bounded(y, p);
        lemma_floor_quotient_bounded(x, p);
        assert(t.index_at_or_above(m) == lo);
        assert(t.index_at_or_below(mx) == hi);
        let ir = e.spec_index_range(t)->0;
        assert(ir.low() == lo);
        assert(ir.high() == hi);
        let ry = y % p;
        let rx = x % p;
        if lo <= k {
            assert(k * p >= lo * p) by (nonlinear_arith)
                requires
                    lo <= k,
                    p > 0,
            ;
        } else {
            assert(k * p <= (lo - 1) * p) by (nonlinear_arith)
                requires
                    k <= lo - 1,
                    p > 0,
            ;
            assert((lo - 1) * p == p * lo - p) by (nonlinear_arith);
        }
        if k <= hi {
            assert(k * p <= hi * p) by (nonlinear_arith)
                requires
                    k <= hi,
                    p > 0,
            ;
        } else {
            assert(k * p >= (hi + 1) * p) by (nonlinear_arith)
                requires
                    k >= hi + 1,
                    p > 0,
            ;
            assert((hi + 1) * p == p * hi + p) by (nonlinear_arith);
        }
        assert(lo * p == p * lo && hi * p == p * hi) by (nonlinear_arith);
    }
}

} // verus!
