use vstd::prelude::*;

use crate::text::{int_decimal, push_i64, push_str};
use crate::transform::{fits_i64, times, Mat3, Orientation};

verus! {

/// A point in the integer floorplanning grid.
#[derive(Debug, Clone, Copy, PartialEq, Eq, Structural)]
pub struct Coordinate {
    pub x: i64,
    pub y: i64,
}

impl From<(i64, i64)> for Coordinate {
    fn from(value: (i64, i64)) -> (r: Coordinate) {
        Coordinate { x: value.0, y: value.1 }
    }
}

impl vstd::std_specs::convert::FromSpecImpl<(i64, i64)> for Coordinate {
    open spec fn obeys_from_spec() -> bool {
        true
    }

    open spec fn from_spec(value: (i64, i64)) -> Coordinate {
        Coordinate { x: value.0, y: value.1 }
    }
}

/// An optionally bounded inclusive interval along an edge or a track.
#[derive(Debug, Clone, Copy, PartialEq, Eq, Structural)]
pub struct Range {
    pub min: Option<i64>,
    pub max: Option<i64>,
}

impl Default for Range {
    /// The unbounded range.
    fn default() -> (r: Range)
        ensures
            r == (Range { min: None, max: None }),
    {
        Range { min: None, max: None }
    }
}

impl Range {
    /// `[min, max]`, with `...` for a missing bound (`[...]` when both are
    /// missing).
    pub open spec fn text(self) -> Seq<char> {
        match (self.min, self.max) {
            (Some(a), Some(b)) => "["@ + int_decimal(a as int) + ", "@ + int_decimal(b as int) + "]"@,
            (Some(a), None) => "["@ + int_decimal(a as int) + ", ...]"@,
            (None, Some(b)) => "[..., "@ + int_decimal(b as int) + "]"@,
            (None, None) => "[...]"@,
        }
    }

    /// Appends the text of the range.
    pub fn write_to(&self, s: &mut String)
        ensures
            final(s)@ == old(s)@ + self.text(),
    {
        match (self.min, self.max) {
            (Some(a), Some(b)) => {
                push_str(s, "[");
                push_i64(s, a);
                push_str(s, ", ");
                push_i64(s, b);
                push_str(s, "]");
            },
            (Some(a), None) => {
                push_str(s, "[");
                push_i64(s, a);
                push_str(s, ", ...]");
            },
            (None, Some(b)) => {
                push_str(s, "[..., ");
                push_i64(s, b);
                push_str(s, "]");
            },
            (None, None) => {
                push_str(s, "[...]");
            },
        }
    }

    /// The text of the range.
    pub fn to_string(&self) -> (r: String)
        ensures
            r@ == self.text(),
    {
        let mut s = String::new();
        self.write_to(&mut s);
        s
    }
}

/// The smaller of two integers.
pub open spec fn min_int(a: int, b: int) -> int {
    if a <= b { a } else { b }
}

/// The larger of two integers.
pub open spec fn max_int(a: int, b: int) -> int {
    if a >= b { a } else { b }
}

impl Range {
    /// `v` lies inside the inclusive bounds; a missing bound does not limit.
    pub open spec fn spec_contains(self, v: int) -> bool {
        &&& (self.min matches Some(lo) ==> lo <= v)
        &&& (self.max matches Some(hi) ==> v <= hi)
    }

    /// The least `i64` value that the range admits (`i64::MIN` without a
    /// lower bound).
    pub open spec fn low(self) -> int {
        match self.min {
            Some(a) => a as int,
            None => i64::MIN as int,
        }
    }

    /// The greatest `i64` value that the range admits (`i64::MAX` without an
    /// upper bound).
    pub open spec fn high(self) -> int {
        match self.max {
            Some(a) => a as int,
            None => i64::MAX as int,
        }
    }

    /// Every `i64` value of `self` is a value of `other`: `self` holds no
    /// value, or its least and greatest values lie within `other`'s.
    pub open spec fn spec_is_subset_of(self, other: Range) -> bool {
        self.low() > self.high() || (other.low() <= self.low() && self.high() <= other.high())
    }

    /// Each bound of `self` that is present is a value of `other`.
    pub open spec fn spec_bounds_within(self, other: Range) -> bool {
        &&& (self.min matches Some(a) ==> other.spec_contains(a as int))
        &&& (self.max matches Some(a) ==> other.spec_contains(a as int))
    }

    /// The range spanning the inclusive bounds of `a` and `b` in order.
    pub open spec fn spec_new(a: i64, b: i64) -> Range {
        Range {
            min: Some(if a <= b { a } else { b }),
            max: Some(if a <= b { b } else { a }),
        }
    }

    /// Creates a range spanning the inclusive bounds of `a` and `b`,
    /// ordering them if necessary.
    pub fn new(a: i64, b: i64) -> (r: Range)
        ensures
            r == Range::spec_new(a, b),
    {
        if a <= b {
            Range { min: Some(a), max: Some(b) }
        } else {
            Range { min: Some(b), max: Some(a) }
        }
    }

    /// Creates a semi-infinite range beginning at `min` and extending upward.
    pub fn from_min(min: i64) -> (r: Range)
        ensures
            r == (Range { min: Some(min), max: None }),
    {
        Range { min: Some(min), max: None }
    }

    /// Creates a semi-infinite range ending at `max` and extending downward.
    pub fn from_max(max: i64) -> (r: Range)
        ensures
            r == (Range { min: None, max: Some(max) }),
    {
        Range { min: None, max: Some(max) }
    }

    /// Creates a fully unbounded range.
    pub fn any() -> (r: Range)
        ensures
            r == (Range { min: None, max: None }),
    {
        Range { min: None, max: None }
    }

    /// Returns `true` if `value` lies inside the inclusive bounds of this range.
    pub fn contains(&self, value: i64) -> (r: bool)
        ensures
            r == self.spec_contains(value as int),
    {
        let above_min = match self.min {
            Some(min) => value >= min,
            None => true,
        };
        let below_max = match self.max {
            Some(max) => value <= max,
            None => true,
        };
        above_min && below_max
    }

    /// Returns `true` if every value in `self` is also contained within
    /// `other` (an empty `self` is contained in any range).
    pub fn is_subset_of(&self, other: &Range) -> (r: bool)
        ensures
            r == self.spec_is_subset_of(*other),
    {
        let self_low = match self.min {
            Some(v) => v,
            None => i64::MIN,
        };
        let self_high = match self.max {
            Some(v) => v,
            None => i64::MAX,
        };
        let other_low = match other.min {
            Some(v) => v,
            None => i64::MIN,
        };
        let other_high = match other.max {
            Some(v) => v,
            None => i64::MAX,
        };
        self_low > self_high || (other_low <= self_low && self_high <= other_high)
    }

    /// Returns `true` if each bound that `self` has is a value of `other`.
    pub fn bounds_within(&self, other: &Range) -> (r: bool)
        ensures
            r == self.spec_bounds_within(*other),
    {
        let min_ok = match self.min {
            Some(v) => other.contains(v),
            None => true,
        };
        let max_ok = match self.max {
            Some(v) => other.contains(v),
            None => true,
        };
        min_ok && max_ok
    }

    /// The lower bound of an intersection: the larger of the present bounds.
    pub open spec fn join_lower(a: Option<i64>, b: Option<i64>) -> Option<i64> {
        match (a, b) {
            (Some(x), Some(y)) => Some(if x >= y { x } else { y }),
            (Some(x), None) => Some(x),
            (None, Some(y)) => Some(y),
            (None, None) => None,
        }
    }

    /// The upper bound of an intersection: the smaller of the present bounds.
    pub open spec fn meet_upper(a: Option<i64>, b: Option<i64>) -> Option<i64> {
        match (a, b) {
            (Some(x), Some(y)) => Some(if x <= y { x } else { y }),
            (Some(x), None) => Some(x),
            (None, Some(y)) => Some(y),
            (None, None) => None,
        }
    }

    /// The overlap of two ranges, or `None` when both combined bounds exist
    /// and cross.
    pub open spec fn spec_intersection(self, other: Range) -> Option<Range> {
        let min = Range::join_lower(self.min, other.min);
        let max = Range::meet_upper(self.max, other.max);
        if min matches Some(lo) && max matches Some(hi) && lo > hi {
            None
        } else {
            Some(Range { min, max })
        }
    }

    /// Computes the overlapping portion of two ranges, if any.
    pub fn intersection(&self, other: &Range) -> (r: Option<Range>)
        ensures
            r == self.spec_intersection(*other),
    {
        let min = match (self.min, other.min) {
            (Some(a), Some(b)) => Some(if a >= b { a } else { b }),
            (Some(a), None) => Some(a),
            (None, Some(b)) => Some(b),
            (None, None) => None,
        };
        let max = match (self.max, other.max) {
            (Some(a), Some(b)) => Some(if a <= b { a } else { b }),
            (Some(a), None) => Some(a),
            (None, Some(b)) => Some(b),
            (None, None) => None,
        };
        match (min, max) {
            (Some(min_val), Some(max_val)) => {
                if min_val > max_val {
                    None
                } else {
                    Some(Range { min, max })
                }
            },
            _ => Some(Range { min, max }),
        }
    }
}

/// An intersection holds exactly the values that both ranges hold, and it is
/// absent exactly when no value lies in both.
pub proof fn lemma_intersection_is_common_part(a: Range, b: Range, v: int)
    ensures
        match a.spec_intersection(b) {
            Some(r) => r.spec_contains(v) <==> (a.spec_contains(v) && b.spec_contains(v)),
            None => !(a.spec_contains(v) && b.spec_contains(v)),
        },
{
}

/// Intersection is commutative.
pub proof fn lemma_intersection_commutes(a: Range, b: Range)
    ensures
        a.spec_intersection(b) == b.spec_intersection(a),
{
}

/// `a.is_subset_of(b)` holds exactly when every `i64` value of `a` is a
/// value of `b`.
pub proof fn lemma_subset_means_containment(a: Range, b: Range)
    ensures
        a.spec_is_subset_of(b) <==> (forall|v: int|
            i64::MIN <= v <= i64::MAX && a.spec_contains(v) ==> b.spec_contains(v)),
{
    if !a.spec_is_subset_of(b) {
        assert(a.spec_contains(a.low()) && a.spec_contains(a.high()));
        if !(b.low() <= a.low()) {
            assert(!b.spec_contains(a.low()));
        } else {
            assert(!b.spec_contains(a.high()));
        }
    }
}

/// A range made from two values holds exactly the values between them.
pub proof fn lemma_new_contains(a: i64, b: i64, v: int)
    ensures
        Range::spec_new(a, b).spec_contains(v) <==> min_int(a as int, b as int) <= v <= max_int(a as int, b as int),
{
}

/// A directed segment of a polygon boundary from `a` to `b`.
pub struct Edge {
    pub a: Coordinate,
    pub b: Coordinate,
}

/// The axis-aligned direction of an edge.
#[derive(Debug, Clone, Copy, PartialEq, Eq, Structural)]
pub enum EdgeOrientation {
    North,
    South,
    East,
    West,
}

impl Edge {
    /// The direction of travel from `a` to `b`, if the edge is axis-aligned.
    /// A horizontal edge that does not move east counts as west, and a
    /// vertical one that does not move north counts as south.
    pub open spec fn spec_orientation(self) -> Option<EdgeOrientation> {
        if self.a.y == self.b.y {
            if self.a.x < self.b.x {
                Some(EdgeOrientation::East)
            } else {
                Some(EdgeOrientation::West)
            }
        } else if self.a.x == self.b.x {
            if self.a.y < self.b.y {
                Some(EdgeOrientation::North)
            } else {
                Some(EdgeOrientation::South)
            }
        } else {
            None
        }
    }

    /// The range along the edge's own axis, if it is axis-aligned.
    pub open spec fn spec_coord_range(self) -> Option<Range> {
        match self.spec_orientation() {
            Some(EdgeOrientation::North) | Some(EdgeOrientation::South) => Some(
                Range::spec_new(self.a.y, self.b.y),
            ),
            Some(EdgeOrientation::East) | Some(EdgeOrientation::West) => Some(
                Range::spec_new(self.a.x, self.b.x),
            ),
            None => None,
        }
    }

    /// Returns the orientation of the edge, or `None` if it is not axis-aligned.
    pub fn orientation(&self) -> (r: Option<EdgeOrientation>)
        ensures
            r == self.spec_orientation(),
    {
        if self.a.y == self.b.y {
            if self.a.x < self.b.x {
                Some(EdgeOrientation::East)
            } else {
                Some(EdgeOrientation::West)
            }
        } else if self.a.x == self.b.x {
            if self.a.y < self.b.y {
                Some(EdgeOrientation::North)
            } else {
                Some(EdgeOrientation::South)
            }
        } else {
            None
        }
    }

    /// Returns the inclusive range spanned by the edge along the X axis.
    pub fn get_x_range(&self) -> (r: Range)
        ensures
            r == Range::spec_new(self.a.x, self.b.x),
    {
        Range::new(self.a.x, self.b.x)
    }

    /// Returns the inclusive range spanned by the edge along the Y axis.
    pub fn get_y_range(&self) -> (r: Range)
        ensures
            r == Range::spec_new(self.a.y, self.b.y),
    {
        Range::new(self.a.y, self.b.y)
    }

    /// Returns the edge-parallel coordinate range for axis-aligned edges.
    pub fn get_coord_range(&self) -> (r: Option<Range>)
        ensures
            r == self.spec_coord_range(),
    {
        let edge_orientation = self.orientation()?;
        match edge_orientation {
            EdgeOrientation::North | EdgeOrientation::South => Some(self.get_y_range()),
            EdgeOrientation::East | EdgeOrientation::West => Some(self.get_x_range()),
        }
    }
}

/// An axis-aligned box given by its extreme coordinates.
pub struct BoundingBox {
    pub min_x: i64,
    pub max_x: i64,
    pub min_y: i64,
    pub max_y: i64,
}

impl BoundingBox {
    /// Horizontal extent, `max_x - min_x`.
    pub fn get_width(&self) -> (r: i64)
        requires
            fits_i64(self.max_x - self.min_x),
        ensures
            r == self.max_x - self.min_x,
    {
        self.max_x - self.min_x
    }

    /// Vertical extent, `max_y - min_y`.
    pub fn get_height(&self) -> (r: i64)
        requires
            fits_i64(self.max_y - self.min_y),
        ensures
            r == self.max_y - self.min_y,
    {
        self.max_y - self.min_y
    }

    /// Width and height together.
    pub fn get_width_height(&self) -> (r: (i64, i64))
        requires
            fits_i64(self.max_x - self.min_x),
            fits_i64(self.max_y - self.min_y),
        ensures
            r.0 == self.max_x - self.min_x,
            r.1 == self.max_y - self.min_y,
    {
        (self.get_width(), self.get_height())
    }

    /// The smallest box containing both boxes.
    pub fn union(&self, other: &BoundingBox) -> (r: BoundingBox)
        ensures
            r.min_x == min_int(self.min_x as int, other.min_x as int),
            r.max_x == max_int(self.max_x as int, other.max_x as int),
            r.min_y == min_int(self.min_y as int, other.min_y as int),
            r.max_y == max_int(self.max_y as int, other.max_y as int),
    {
        BoundingBox {
            min_x: if self.min_x <= other.min_x { self.min_x } else { other.min_x },
            max_x: if self.max_x >= other.max_x { self.max_x } else { other.max_x },
            min_y: if self.min_y <= other.min_y { self.min_y } else { other.min_y },
            max_y: if self.max_y >= other.max_y { self.max_y } else { other.max_y },
        }
    }
}

/// A polygon given by its vertices in order; the last vertex connects back
/// to the first.
#[derive(Debug)]
pub struct Polygon(pub Vec<Coordinate>);

impl Clone for Polygon {
    /// A polygon with the same vertices in the same order.
    fn clone(&self) -> (r: Polygon)
        ensures
            r.pts() == self.pts(),
    {
        let mut v: Vec<Coordinate> = Vec::new();
        for i in 0..self.0.len()
            invariant
                v@ == self.pts().take(i as int),
        {
            v.push(self.0[i]);
            assert(self.pts().take(i + 1) =~= self.pts().take(i as int).push(self.pts()[i as int]));
        }
        assert(self.pts().take(self.pts().len() as int) =~= self.pts());
        Polygon(v)
    }
}

/// The corners of a box, starting at the lower-left corner and going up the
/// left side, which is clockwise.
pub open spec fn bbox_corners(min_x: i64, min_y: i64, max_x: i64, max_y: i64) -> Seq<Coordinate> {
    seq![
        Coordinate { x: min_x, y: min_y },
        Coordinate { x: min_x, y: max_y },
        Coordinate { x: max_x, y: max_y },
        Coordinate { x: max_x, y: min_y },
    ]
}

/// The extreme coordinates of a sequence of points, folded from the front;
/// an empty sequence gives the inverted box from `i64::MAX` down to `i64::MIN`.
pub open spec fn spec_bbox(pts: Seq<Coordinate>) -> BoundingBox
    decreases pts.len(),
{
    if pts.len() == 0 {
        BoundingBox { min_x: i64::MAX, max_x: i64::MIN, min_y: i64::MAX, max_y: i64::MIN }
    } else {
        let r = spec_bbox(pts.drop_last());
        let p = pts.last();
        BoundingBox {
            min_x: if p.x < r.min_x { p.x } else { r.min_x },
            max_x: if p.x > r.max_x { p.x } else { r.max_x },
            min_y: if p.y < r.min_y { p.y } else { r.min_y },
            max_y: if p.y > r.max_y { p.y } else { r.max_y },
        }
    }
}

/// The bounding box holds every point and each of its sides touches one.
pub proof fn lemma_bbox_is_tight(pts: Seq<Coordinate>)
    ensures
        forall|i: int|
            0 <= i < pts.len() ==> spec_bbox(pts).min_x <= #[trigger] pts[i].x <= spec_bbox(pts).max_x
                && spec_bbox(pts).min_y <= pts[i].y <= spec_bbox(pts).max_y,
        pts.len() > 0 ==> {
            &&& exists|i: int| 0 <= i < pts.len() && #[trigger] pts[i].x == spec_bbox(pts).min_x
            &&& exists|i: int| 0 <= i < pts.len() && #[trigger] pts[i].x == spec_bbox(pts).max_x
            &&& exists|i: int| 0 <= i < pts.len() && #[trigger] pts[i].y == spec_bbox(pts).min_y
            &&& exists|i: int| 0 <= i < pts.len() && #[trigger] pts[i].y == spec_bbox(pts).max_y
        },
    decreases pts.len(),
{
    if pts.len() > 0 {
        let q = pts.drop_last();
        lemma_bbox_is_tight(q);
        assert(forall|i: int| 0 <= i < q.len() ==> #[trigger] q[i] == pts[i]);
        let r = spec_bbox(q);
        let b = spec_bbox(pts);
        let n = pts.len() - 1;
        assert forall|i: int| 0 <= i < pts.len() implies b.min_x <= #[trigger] pts[i].x <= b.max_x
            && b.min_y <= pts[i].y <= b.max_y by {
            if i < n {
                assert(q[i] == pts[i]);
            }
        }
        if q.len() > 0 {
            let i0 = choose|i: int| 0 <= i < q.len() && #[trigger] q[i].x == r.min_x;
            let i1 = choose|i: int| 0 <= i < q.len() && #[trigger] q[i].x == r.max_x;
            let i2 = choose|i: int| 0 <= i < q.len() && #[trigger] q[i].y == r.min_y;
            let i3 = choose|i: int| 0 <= i < q.len() && #[trigger] q[i].y == r.max_y;
            assert(pts[i0].x == r.min_x && pts[i1].x == r.max_x && pts[i2].y == r.min_y && pts[i3].y
                == r.max_y);
            if b.min_x == pts[n].x {} else { assert(pts[i0].x == b.min_x); }
            if b.max_x == pts[n].x {} else { assert(pts[i1].x == b.max_x); }
            if b.min_y == pts[n].y {} else { assert(pts[i2].y == b.min_y); }
            if b.max_y == pts[n].y {} else { assert(pts[i3].y == b.max_y); }
        } else {
            assert(pts[n].x == b.min_x && pts[n].x == b.max_x && pts[n].y == b.min_y && pts[n].y
                == b.max_y);
        }
    }
}

/// The box of a box's own corners is that box, when its sides are ordered.
pub proof fn lemma_bbox_of_corners(b: BoundingBox)
    requires
        b.min_x <= b.max_x,
        b.min_y <= b.max_y,
    ensures
        spec_bbox(bbox_corners(b.min_x, b.min_y, b.max_x, b.max_y)) == b,
{
    let c = bbox_corners(b.min_x, b.min_y, b.max_x, b.max_y);
    assert(c.drop_last().drop_last().drop_last().drop_last() == Seq::<Coordinate>::empty());
    reveal_with_fuel(spec_bbox, 5);
}

/// A rectangle with positive sides is a valid outline: every edge is
/// axis-aligned and non-degenerate, it runs clockwise, and it starts with its
/// lowest leftmost vertical edge.
pub proof fn lemma_rectangle_is_valid_outline(width: i64, height: i64)
    requires
        width > 0,
        height > 0,
    ensures
        forall|i: int| 0 <= i < 4 ==> #[trigger] edge_is_rectilinear(bbox_corners(0, 0, width, height), i),
        shoelace_prefix(bbox_corners(0, 0, width, height), 4) < 0,
        bbox_corners(0, 0, width, height)[0].x == bbox_corners(0, 0, width, height)[1].x,
        forall|idx: int| 1 <= idx < 4 ==> #[trigger] not_left_of_first(bbox_corners(0, 0, width, height), idx),
{
    let c = bbox_corners(0, 0, width, height);
    assert(c.len() == 4);
    assert(next_vertex(c, 0) == c[1]);
    assert(next_vertex(c, 1) == c[2]);
    assert(next_vertex(c, 2) == c[3]);
    assert(next_vertex(c, 3) == c[0]);
    assert(edge_is_rectilinear(c, 0) && edge_is_rectilinear(c, 1) && edge_is_rectilinear(c, 2)
        && edge_is_rectilinear(c, 3));
    assert(not_left_of_first(c, 1) && not_left_of_first(c, 2) && not_left_of_first(c, 3));
    assert(times(0, height as int) == 0 && times(0, 0) == 0 && times(width as int, 0) == 0);
    assert(times(0, height as int) - times(width as int, height as int) < 0) by (nonlinear_arith)
        requires
            width > 0,
            height > 0,
    ;
    reveal_with_fuel(shoelace_prefix, 5);
    assert(shoelace_term(c, 0) == 0);
    assert(shoelace_term(c, 3) == 0);
    assert(shoelace_term(c, 1) == shoelace_term(c, 2));
}

/// The vertex that follows vertex `i`, wrapping around at the end.
pub open spec fn next_vertex(pts: Seq<Coordinate>, i: int) -> Coordinate {
    pts[(i + 1) % (pts.len() as int)]
}

/// Twice the signed area contribution of the edge leaving vertex `i`.
pub open spec fn shoelace_term(pts: Seq<Coordinate>, i: int) -> int {
    times(pts[i].x as int, next_vertex(pts, i).y as int) - times(
        next_vertex(pts, i).x as int,
        pts[i].y as int,
    )
}

/// The sum of the first `k` shoelace terms.
pub open spec fn shoelace_prefix(pts: Seq<Coordinate>, k: int) -> int
    decreases k,
{
    if k <= 0 {
        0
    } else {
        shoelace_prefix(pts, k - 1) + shoelace_term(pts, k - 1)
    }
}

/// `x` is representable as an `i128`.
pub open spec fn fits_i128(x: int) -> bool {
    i128::MIN <= x <= i128::MAX
}

/// The edge leaving vertex `i` is axis-aligned and has non-zero length.
pub open spec fn edge_is_rectilinear(pts: Seq<Coordinate>, i: int) -> bool {
    let a = pts[i];
    let b = next_vertex(pts, i);
    &&& (a.x == b.x || a.y == b.y)
    &&& !(a.x == b.x && a.y == b.y)
}

/// The edge leaving vertex `idx` does not beat the first edge (vertices 0 and
/// 1) for being the lowest leftmost vertical edge.
pub open spec fn not_left_of_first(pts: Seq<Coordinate>, idx: int) -> bool {
    let p = pts[idx];
    let q = next_vertex(pts, idx);
    let first_x = pts[0].x;
    let first_y = min_int(pts[0].y as int, pts[1].y as int);
    p.x == q.x ==> (p.x >= first_x && (p.x == first_x ==> min_int(p.y as int, q.y as int)
        >= first_y))
}

/// `b` is `a` read from some starting vertex onward.
pub open spec fn is_rotation_of(a: Seq<Coordinate>, b: Seq<Coordinate>) -> bool {
    &&& a.len() == b.len()
    &&& (a.len() == 0 || exists|start: int|
        0 <= start < b.len() && #[trigger] rotation_matches(a, b, start))
}

/// The position `i` steps after `start` in a cycle of length `n`, for
/// `start` and `i` below `n`.
pub open spec fn rot_index(start: int, i: int, n: int) -> int {
    if start + i < n {
        start + i
    } else {
        start + i - n
    }
}

/// Reading `b` from `start` gives `a`.
pub open spec fn rotation_matches(a: Seq<Coordinate>, b: Seq<Coordinate>, start: int) -> bool {
    forall|i: int| 0 <= i < a.len() ==> #[trigger] a[i] == b[rot_index(start, i, b.len() as int)]
}

/// The image of `p` under `m` can be computed in `i64` left to right.
pub open spec fn transform_point_fits(m: Mat3, p: Coordinate) -> bool {
    &&& fits_i64(times(m.m00 as int, p.x as int))
                &&& fits_i64(times(m.m01 as int, p.y as int))
                &&& fits_i64(times(m.m00 as int, p.x as int) + times(m.m01 as int, p.y as int))
                &&& fits_i64(
                    times(m.m00 as int, p.x as int) + times(m.m01 as int, p.y as int) + times(
                        m.m02 as int,
                        1,
                    ),
                )
                &&& fits_i64(times(m.m10 as int, p.x as int))
                &&& fits_i64(times(m.m11 as int, p.y as int))
                &&& fits_i64(times(m.m10 as int, p.x as int) + times(m.m11 as int, p.y as int))
                &&& fits_i64(
                    times(m.m10 as int, p.x as int) + times(m.m11 as int, p.y as int) + times(
                        m.m12 as int,
                        1,
                    ),
                )
}

impl Polygon {
    pub open spec fn pts(self) -> Seq<Coordinate> {
        self.0@
    }

    /// Every transformed vertex can be computed in `i64`.
    pub open spec fn transform_fits(self, m: Mat3) -> bool {
        forall|i: int| 0 <= i < self.pts().len() ==> #[trigger] transform_point_fits(m, self.pts()[i])
    }

    /// The image of a point under `m`, acting on `(x, y, 1)`.
    pub open spec fn spec_transform_point(m: Mat3, p: Coordinate) -> Coordinate {
        Coordinate {
            x: (times(m.m00 as int, p.x as int) + times(m.m01 as int, p.y as int) + times(
                m.m02 as int,
                1,
            )) as i64,
            y: (times(m.m10 as int, p.x as int) + times(m.m11 as int, p.y as int) + times(
                m.m12 as int,
                1,
            )) as i64,
        }
    }

    pub fn new(points: Vec<Coordinate>) -> (r: Polygon)
        ensures
            r.pts() == points@,
    {
        Polygon(points)
    }

    /// Returns the `i`th edge, wrapping around for the closing segment.
    pub fn get_edge(&self, i: usize) -> (e: Edge)
        requires
            i < self.pts().len(),
        ensures
            e.a == self.pts()[i as int],
            e.b == next_vertex(self.pts(), i as int),
    {
        let n = self.0.len();
        let a = self.0[i];
        let b = self.0[(i + 1) % n];
        Edge { a, b }
    }

    /// The rectangle with corners `(0, 0)` and `(width, height)`.
    pub fn from_width_height(width: i64, height: i64) -> (r: Polygon)
        ensures
            r.pts() == bbox_corners(0, 0, width, height),
    {
        Self::from_bbox(&BoundingBox { min_x: 0, min_y: 0, max_x: width, max_y: height })
    }

    /// The four corners of a box, clockwise from the lower-left corner.
    pub fn from_bbox(bbox: &BoundingBox) -> (r: Polygon)
        ensures
            r.pts() == bbox_corners(bbox.min_x, bbox.min_y, bbox.max_x, bbox.max_y),
    {
        let mut v: Vec<Coordinate> = Vec::new();
        v.push(Coordinate { x: bbox.min_x, y: bbox.min_y });
        v.push(Coordinate { x: bbox.min_x, y: bbox.max_y });
        v.push(Coordinate { x: bbox.max_x, y: bbox.max_y });
        v.push(Coordinate { x: bbox.max_x, y: bbox.min_y });
        assert(v@ == bbox_corners(bbox.min_x, bbox.min_y, bbox.max_x, bbox.max_y));
        Self::new(v)
    }

    /// The polygon with every vertex mapped by `m`.
    pub fn apply_transform(&self, m: &Mat3) -> (r: Polygon)
        requires
            self.transform_fits(*m),
        ensures
            r.pts().len() == self.pts().len(),
            forall|i: int|
                0 <= i < self.pts().len() ==> #[trigger] r.pts()[i]
                    == Polygon::spec_transform_point(*m, self.pts()[i]),
    {
        let mut pts: Vec<Coordinate> = Vec::new();
        let n = self.0.len();
        for i in 0..n
            invariant
                n == self.pts().len(),
                self.transform_fits(*m),
                pts@.len() == i,
                forall|j: int|
                    0 <= j < i ==> #[trigger] pts@[j] == Polygon::spec_transform_point(
                        *m,
                        self.pts()[j],
                    ),
        {
            let p = self.0[i];
            let ghost gp = self.pts()[i as int];
            assert(gp == p);
            assert(transform_point_fits(*m, gp));
            let x = m.m00 * p.x + m.m01 * p.y + m.m02 * 1;
            let y = m.m10 * p.x + m.m11 * p.y + m.m12 * 1;
            pts.push(Coordinate { x, y });
        }
        Polygon(pts)
    }

    /// The smallest box containing every vertex; an empty polygon gives the
    /// inverted box from `i64::MAX` down to `i64::MIN`.
    pub fn bbox(&self) -> (r: BoundingBox)
        ensures
            r == spec_bbox(self.pts()),
    {
        let mut min_x = i64::MAX;
        let mut max_x = i64::MIN;
        let mut min_y = i64::MAX;
        let mut max_y = i64::MIN;
        let n = self.0.len();
        for k in 0..n
            invariant
                n == self.pts().len(),
                (BoundingBox { min_x, max_x, min_y, max_y }) == spec_bbox(self.pts().take(k as int)),
        {
            assert(self.pts().take(k + 1).drop_last() == self.pts().take(k as int));
            let p = self.0[k];
            if p.x < min_x {
                min_x = p.x;
            }
            if p.x > max_x {
                max_x = p.x;
            }
            if p.y < min_y {
                min_y = p.y;
            }
            if p.y > max_y {
                max_y = p.y;
            }
            assert(self.pts()[k as int] == p);
        }
        assert(self.pts().take(n as int) == self.pts());
        BoundingBox { min_x, max_x, min_y, max_y }
    }

    /// Returns true if all edges are axis-aligned and non-degenerate.
    pub fn is_rectilinear(&self) -> (r: bool)
        ensures
            r == (forall|i: int| 0 <= i < self.pts().len() ==> #[trigger] edge_is_rectilinear(self.pts(), i)),
    {
        let points = &self.0;
        let n = points.len();
        for i in 0..n
            invariant
                n == self.pts().len(),
                points@ == self.pts(),
                forall|j: int| 0 <= j < i ==> #[trigger] edge_is_rectilinear(self.pts(), j),
        {
            let a = points[i];
            let b = points[(i + 1) % n];
            if !(a.x == b.x || a.y == b.y) {
                assert(!edge_is_rectilinear(self.pts(), i as int));
                return false;
            }
            if a.x == b.x && a.y == b.y {
                assert(!edge_is_rectilinear(self.pts(), i as int));
                return false;
            }
            assert(edge_is_rectilinear(self.pts(), i as int));
        }
        true
    }

    /// Returns true if the polygon is defined clockwise: twice its signed
    /// area, by the shoelace formula, is negative.
    pub fn is_clockwise(&self) -> (r: bool)
        requires
            self.pts().len() >= 3,
            forall|k: int| 0 <= k <= self.pts().len() ==> fits_i128(#[trigger] shoelace_prefix(self.pts(), k)),
        ensures
            r == (shoelace_prefix(self.pts(), self.pts().len() as int) < 0),
            r == spec_is_clockwise(self.pts()),
    {
        let points = &self.0;
        let n = points.len();
        let mut twice_area: i128 = 0;
        for idx in 0..n
            invariant
                n == self.pts().len(),
                n >= 3,
                points@ == self.pts(),
                forall|k: int| 0 <= k <= n ==> fits_i128(#[trigger] shoelace_prefix(self.pts(), k)),
                twice_area == shoelace_prefix(self.pts(), idx as int),
        {
            let point = points[idx];
            let point_next = points[(idx + 1) % n];
            let x = point.x as i128;
            let y = point.y as i128;
            let x_next = point_next.x as i128;
            let y_next = point_next.y as i128;
            proof {
                lemma_i64_product_fits_i128(x as int, y_next as int);
                lemma_i64_product_fits_i128(x_next as int, y as int);
                assert(shoelace_prefix(self.pts(), idx + 1) == shoelace_prefix(self.pts(), idx as int)
                    + shoelace_term(self.pts(), idx as int));
                assert(fits_i128(shoelace_prefix(self.pts(), idx + 1)));
            }
            twice_area += (x * y_next) - (x_next * y);
        }
        twice_area < 0
    }

    /// Returns true if the polygon starts with the leftmost vertical edge,
    /// and, among leftmost vertical edges, with the lowest one.
    pub fn starts_with_leftmost_vertical_edge(&self) -> (r: bool)
        requires
            self.pts().len() >= 2,
        ensures
            r == (self.pts()[0].x == self.pts()[1].x && forall|idx: int|
                1 <= idx < self.pts().len() ==> #[trigger] not_left_of_first(self.pts(), idx)),
    {
        let points = &self.0;
        let n = points.len();
        if points[0].x != points[1].x {
            return false;
        }
        let first_x = points[0].x;
        let first_y = if points[0].y <= points[1].y { points[0].y } else { points[1].y };
        for idx in 1..n
            invariant
                n == self.pts().len(),
                n >= 2,
                points@ == self.pts(),
                self.pts()[0].x == self.pts()[1].x,
                first_x == self.pts()[0].x,
                first_y == min_int(self.pts()[0].y as int, self.pts()[1].y as int),
                forall|j: int| 1 <= j < idx ==> #[trigger] not_left_of_first(self.pts(), j),
        {
            let point = points[idx];
            let point_next = points[(idx + 1) % n];
            let low = if point.y <= point_next.y { point.y } else { point_next.y };
            if point.x != point_next.x {
            } else if point.x > first_x {
            } else if point.x < first_x {
                assert(!not_left_of_first(self.pts(), idx as int));
                return false;
            } else if low < first_y {
                assert(!not_left_of_first(self.pts(), idx as int));
                return false;
            }
            assert(not_left_of_first(self.pts(), idx as int));
        }
        true
    }

    pub fn num_vertices(&self) -> (r: usize)
        ensures
            r == self.pts().len(),
    {
        self.0.len()
    }

    pub fn num_edges(&self) -> (r: usize)
        ensures
            r == self.pts().len(),
    {
        self.0.len()
    }
}

impl PartialEq for Polygon {
    /// Polygons are equal when they have the same vertices in the same cyclic
    /// order, whichever vertex each starts from.
    fn eq(&self, other: &Self) -> (r: bool) {
        let a = &self.0;
        let b = &other.0;
        if a.len() != b.len() {
            return false;
        }
        if a.len() == 0 {
            return true;
        }
        let n = b.len();
        for start in 0..n
            invariant
                n == b@.len(),
                n == a@.len(),
                n > 0,
                a@ == self.pts(),
                b@ == other.pts(),
                forall|s: int| 0 <= s < start ==> !#[trigger] rotation_matches(a@, b@, s),
        {
            let mut all_match = true;
            for i in 0..n
                invariant
                    n == b@.len(),
                    n == a@.len(),
                    start < n,
                    all_match ==> forall|k: int| 0 <= k < i ==> #[trigger] a@[k] == b@[rot_index(start as int, k, n as int)],
                    !all_match ==> !rotation_matches(a@, b@, start as int),
            {
                let j = if i < n - start { start + i } else { i - (n - start) };
                if all_match && a[i] != b[j] {
                    all_match = false;
                }
            }
            if all_match {
                assert(rotation_matches(a@, b@, start as int));
                return true;
            }
        }
        false
    }
}

impl vstd::std_specs::cmp::PartialEqSpecImpl for Polygon {
    open spec fn obeys_eq_spec() -> bool {
        true
    }

    open spec fn eq_spec(&self, other: &Polygon) -> bool {
        is_rotation_of(self.pts(), other.pts())
    }
}

impl Eq for Polygon {

}

/// A polygon equals itself, and equality of polygons is symmetric.
pub proof fn lemma_rotation_equality_symmetric(a: Seq<Coordinate>, b: Seq<Coordinate>)
    ensures
        is_rotation_of(a, a),
        is_rotation_of(a, b) ==> is_rotation_of(b, a),
{
    let n = a.len() as int;
    if n > 0 {
        assert(rotation_matches(a, a, 0));
    }
    if is_rotation_of(a, b) && n > 0 {
        let s = choose|s: int| 0 <= s < b.len() && #[trigger] rotation_matches(a, b, s);
        let t = if s == 0 { 0 } else { n - s };
        assert(rotation_matches(b, a, t)) by {
            assert forall|i: int| 0 <= i < b.len() implies #[trigger] b[i] == a[rot_index(t, i, n)] by {
                let k = rot_index(t, i, n);
                assert(0 <= k < n);
                assert(a[k] == b[rot_index(s, k, n)]);
                assert(rot_index(s, k, n) == i);
            }
        }
    }
}

/// A placement of an instance: where its origin goes and how it is turned.
#[derive(Debug, Clone, Copy)]
pub struct Placement {
    pub coordinate: Coordinate,
    pub orientation: Orientation,
}

impl Default for Placement {
    fn default() -> (r: Placement)
        ensures
            r == (Placement { coordinate: Coordinate { x: 0, y: 0 }, orientation: Orientation::R0 }),
    {
        Placement { coordinate: Coordinate { x: 0, y: 0 }, orientation: Orientation::R0 }
    }
}

/// A physical pin: its layer, its position and its shape relative to the
/// position.
#[derive(Debug, Clone)]
pub struct PhysicalPin {
    pub layer: String,
    pub position: Coordinate,
    pub polygon: Polygon,
}

impl BoundingBox {
    /// The bounding box of this box's corners after transforming them by `m`.
    pub fn apply_transform(&self, m: &Mat3) -> (r: BoundingBox)
        requires
            forall|i: int|
                0 <= i < 4 ==> #[trigger] transform_point_fits(
                    *m,
                    bbox_corners(self.min_x, self.min_y, self.max_x, self.max_y)[i],
                ),
        ensures
            r == spec_bbox(
                bbox_corners(self.min_x, self.min_y, self.max_x, self.max_y).map_values(
                    |p: Coordinate| Polygon::spec_transform_point(*m, p),
                ),
            ),
    {
        let poly = Polygon::from_bbox(self);
        let moved = poly.apply_transform(m);
        let ghost c = bbox_corners(self.min_x, self.min_y, self.max_x, self.max_y);
        assert(moved.pts() == c.map_values(|p: Coordinate| Polygon::spec_transform_point(*m, p)));
        moved.bbox()
    }
}

/// The product of two `i64` values lies within `[-2^126 + 2^63, 2^126]`, so
/// the difference of two such products fits in an `i128`.
pub proof fn lemma_i64_product_fits_i128(a: int, b: int)
    requires
        fits_i64(a),
        fits_i64(b),
    ensures
        -0x3fff_ffff_ffff_ffff_8000_0000_0000_0000 <= a * b <= 0x4000_0000_0000_0000_0000_0000_0000_0000,
        times(a, b) == a * b,
{
    assert(-0x3fff_ffff_ffff_ffff_8000_0000_0000_0000 <= a * b <= 0x4000_0000_0000_0000_0000_0000_0000_0000) by (nonlinear_arith)
        requires
            -0x8000_0000_0000_0000 <= a <= 0x7fff_ffff_ffff_ffff,
            -0x8000_0000_0000_0000 <= b <= 0x7fff_ffff_ffff_ffff,
    {
        if a >= 0 && b >= 0 {
            assert(a * b <= 0x7fff_ffff_ffff_ffff * b);
            assert(0x7fff_ffff_ffff_ffff * b <= 0x7fff_ffff_ffff_ffff * 0x7fff_ffff_ffff_ffff);
        } else if a < 0 && b < 0 {
            assert(a * b == (-a) * (-b));
            assert((-a) * (-b) <= 0x8000_0000_0000_0000 * (-b));
            assert(0x8000_0000_0000_0000 * (-b) <= 0x8000_0000_0000_0000 * 0x8000_0000_0000_0000);
        } else if a < 0 {
            assert(a * b == -((-a) * b));
            assert((-a) * b <= 0x8000_0000_0000_0000 * b);
            assert(0x8000_0000_0000_0000 * b <= 0x8000_0000_0000_0000 * 0x7fff_ffff_ffff_ffff);
        } else {
            assert(a * b == -(a * (-b)));
            assert(a * (-b) <= 0x7fff_ffff_ffff_ffff * (-b));
            assert(0x7fff_ffff_ffff_ffff * (-b) <= 0x7fff_ffff_ffff_ffff * 0x8000_0000_0000_0000);
        }
    }
}

/// The first `k` shoelace terms of the reversed vertices sum to minus the
/// terms `n - 1 - k` up to `n - 2` of the vertices.
proof fn lemma_reversed_shoelace_prefix(pts: Seq<Coordinate>, k: int)
    requires
        pts.len() >= 2,
        0 <= k <= pts.len() - 1,
    ensures
        shoelace_prefix(pts.reverse(), k) == -(shoelace_prefix(pts, pts.len() - 1) - shoelace_prefix(
            pts,
            pts.len() - 1 - k,
        )),
    decreases k,
{
    let n = pts.len() as int;
    if k > 0 {
        lemma_reversed_shoelace_prefix(pts, k - 1);
        let r = pts.reverse();
        let i = k - 1;
        let j = n - 2 - i;
        assert(r[i] == pts[n - 1 - i]);
        assert((i + 1) % n == i + 1) by {
            vstd::arithmetic::div_mod::lemma_small_mod((i + 1) as nat, n as nat);
        }
        assert(next_vertex(r, i) == pts[j]);
        assert((j + 1) % n == j + 1) by {
            vstd::arithmetic::div_mod::lemma_small_mod((j + 1) as nat, n as nat);
        }
        assert(next_vertex(pts, j) == pts[n - 1 - i]);
        assert(shoelace_term(r, i) == -shoelace_term(pts, j));
        assert(shoelace_prefix(pts, n - 1 - i) == shoelace_prefix(pts, j) + shoelace_term(pts, j));
    }
}

/// Listing the vertices of a polygon backwards negates twice its signed
/// area, so the reversed outline of a counter-clockwise polygon (positive
/// area) runs clockwise, and the other way round.
pub proof fn lemma_reversal_negates_area(pts: Seq<Coordinate>)
    requires
        pts.len() >= 2,
    ensures
        shoelace_prefix(pts.reverse(), pts.len() as int) == -shoelace_prefix(pts, pts.len() as int),
{
    let n = pts.len() as int;
    let r = pts.reverse();
    lemma_reversed_shoelace_prefix(pts, n - 1);
    assert(r[n - 1] == pts[0]);
    assert(n % n == 0) by {
        vstd::arithmetic::div_mod::lemma_mod_self_0(n);
    }
    assert(next_vertex(r, n - 1) == pts[n - 1]);
    assert(((n - 1) + 1) % n == 0);
    assert(next_vertex(pts, n - 1) == pts[0]);
    assert(shoelace_term(r, n - 1) == -shoelace_term(pts, n - 1));
}

/// Whether the vertices run clockwise: twice the signed area, by the
/// shoelace formula, is negative. `Polygon::is_clockwise` computes it.
pub open spec fn spec_is_clockwise(pts: Seq<Coordinate>) -> bool {
    shoelace_prefix(pts, pts.len() as int) < 0
}

/// Reversing the vertices of a polygon of non-zero area flips its
/// orientation: a clockwise outline becomes counter-clockwise and the other
/// way round.
pub proof fn lemma_reversal_flips_orientation(pts: Seq<Coordinate>)
    requires
        pts.len() >= 3,
        shoelace_prefix(pts, pts.len() as int) != 0,
    ensures
        spec_is_clockwise(pts.reverse()) <==> !spec_is_clockwise(pts),
{
    lemma_reversal_negates_area(pts);
}

} // verus!
