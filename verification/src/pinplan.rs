use vstd::prelude::*;

use crate::geometry::{
    edge_is_rectilinear, fits_i128, lemma_bbox_is_tight, next_vertex, not_left_of_first,
    shoelace_prefix, shoelace_term, spec_bbox, bbox_corners, lemma_rectangle_is_valid_outline, Coordinate, Edge, EdgeOrientation, PhysicalPin,
    Polygon, Range, transform_point_fits,
};
use crate::occupancy::{
    any_set, bitset_bits, bitset_contains, clip_max, clip_min, PinPlacementError, TrackOccupancy,
};
use crate::tracks::{div_rem_pos, tdiv, TrackDefinition, TrackOrientation};
use crate::text::{nat_decimal, push_str, push_usize};
use crate::transform::{fits_i64, lemma_times_unit, Mat3, Orientation};

verus! {

/// Track definitions keyed by layer name, in the order they were added.
pub struct TrackDefinitions(pub Vec<TrackDefinition>);

/// The position of the track on layer `name` among `tracks`, if any.
pub open spec fn find_track(tracks: Seq<TrackDefinition>, name: Seq<char>) -> Option<int>
    decreases tracks.len(),
{
    if tracks.len() == 0 {
        None
    } else {
        match find_track(tracks.drop_last(), name) {
            Some(i) => Some(i),
            None => if tracks.last().name@ == name {
                Some(tracks.len() - 1)
            } else {
                None
            },
        }
    }
}

/// `find_track` gives the first track with that name, or says none has it.
pub proof fn lemma_find_track(tracks: Seq<TrackDefinition>, name: Seq<char>)
    ensures
        find_track(tracks, name) matches Some(i) ==> 0 <= i < tracks.len() && tracks[i].name@
            == name && forall|j: int| 0 <= j < i ==> tracks[j].name@ != name,
        find_track(tracks, name) is None ==> forall|j: int|
            0 <= j < tracks.len() ==> tracks[j].name@ != name,
    decreases tracks.len(),
{
    if tracks.len() > 0 {
        let init = tracks.drop_last();
        lemma_find_track(init, name);
        assert forall|j: int| 0 <= j < tracks.len() - 1 implies #[trigger] tracks[j] == init[j] by {}
        match find_track(init, name) {
            Some(i) => {
                assert(tracks[i] == init[i]);
            },
            None => {
                assert forall|j: int| 0 <= j < tracks.len() - 1 implies #[trigger] tracks[j].name@
                    != name by {
                    assert(tracks[j] == init[j]);
                }
            },
        }
    }
}

/// Looks up the position of the track on layer `name`.
fn position_of_track(tracks: &Vec<TrackDefinition>, name: &str) -> (r: Option<usize>)
    ensures
        match find_track(tracks@, name@) {
            Some(i) => r == Some(i as usize),
            None => r is None,
        },
        r matches Some(p) ==> p < tracks@.len() && find_track(tracks@, name@) == Some(p as int),
{
    let key = name.to_owned();
    proof {
        lemma_find_track(tracks@, name@);
    }
    for i in 0..tracks.len()
        invariant
            key@ == name@,
            forall|j: int| 0 <= j < i ==> tracks@[j].name@ != name@,
    {
        if tracks[i].name == key {
            assert(tracks@[i as int].name@ == name@);
            proof {
                lemma_find_track(tracks@, name@);
            }
            return Some(i);
        }
    }
    proof {
        lemma_find_track(tracks@, name@);
    }
    None
}

impl TrackDefinitions {
    /// The definitions, in order.
    pub open spec fn defs(self) -> Seq<TrackDefinition> {
        self.0@
    }

    /// No two definitions share a layer name.
    pub open spec fn wf(self) -> bool {
        forall|i: int, j: int|
            0 <= i < j < self.defs().len() ==> self.defs()[i].name@ != self.defs()[j].name@
    }

    /// An empty collection.
    pub fn new() -> (r: TrackDefinitions)
        ensures
            r.defs() == Seq::<TrackDefinition>::empty(),
    {
        TrackDefinitions(Vec::new())
    }

    /// Adds `track`, replacing the definition already held for its layer,
    /// which keeps its place.
    pub fn add_track(&mut self, track: TrackDefinition)
        requires
            old(self).wf(),
        ensures
            final(self).wf(),
            match find_track(old(self).defs(), track.name@) {
                Some(i) => final(self).defs() == old(self).defs().update(i, track),
                None => final(self).defs() == old(self).defs().push(track),
            },
    {
        proof {
            lemma_find_track(self.defs(), track.name@);
        }
        match position_of_track(&self.0, track.name.as_str()) {
            Some(i) => {
                self.0.set(i, track);
            },
            None => {
                self.0.push(track);
            },
        }
    }

    /// The definition for layer `name`, if any.
    pub fn get_track(&self, name: &str) -> (r: Option<&TrackDefinition>)
        ensures
            match find_track(self.defs(), name@) {
                Some(i) => r == Some(&self.defs()[i]),
                None => r is None,
            },
    {
        match position_of_track(&self.0, name) {
            Some(i) => Some(&self.0[i]),
            None => None,
        }
    }
}

impl Default for TrackDefinitions {
    fn default() -> (r: TrackDefinitions)
        ensures
            r.defs() == Seq::<TrackDefinition>::empty(),
    {
        TrackDefinitions::new()
    }
}

/// Why an outline cannot be the shape of a module.
#[derive(Clone, Copy, Debug, PartialEq, Eq, Structural)]
pub enum ShapeError {
    /// Some edge is not axis-aligned, or has no length.
    NotRectilinear,
    /// The vertices do not go round clockwise.
    NotClockwise,
    /// The outline does not start with its lowest leftmost vertical edge.
    NotStartingWithLeftmostVerticalEdge,
}

/// Whether `shape` may be a module outline, checked in order: rectilinear,
/// clockwise, starting with its lowest leftmost vertical edge.
pub open spec fn spec_shape_check(shape: Polygon) -> Result<(), ShapeError> {
    let pts = shape.pts();
    let n = pts.len() as int;
    if !(forall|i: int| 0 <= i < n ==> #[trigger] edge_is_rectilinear(pts, i)) {
        Err(ShapeError::NotRectilinear)
    } else if !(shoelace_prefix(pts, n) < 0) {
        Err(ShapeError::NotClockwise)
    } else if !(pts[0].x == pts[1].x && forall|idx: int|
        1 <= idx < n ==> #[trigger] not_left_of_first(pts, idx)) {
        Err(ShapeError::NotStartingWithLeftmostVerticalEdge)
    } else {
        Ok(())
    }
}

/// Twice the signed area can be summed in `i128`.
pub open spec fn area_fits(shape: Polygon) -> bool {
    forall|k: int| 0 <= k <= shape.pts().len() ==> fits_i128(#[trigger] shoelace_prefix(shape.pts(), k))
}

/// Edge `e` of `shape`, from vertex `e` to the next.
pub open spec fn spec_edge(shape: Polygon, e: int) -> Edge {
    Edge { a: shape.pts()[e], b: next_vertex(shape.pts(), e) }
}

/// The number of tracks of `track` on `edge`, when the edge has any.
pub open spec fn occupancy_len(edge: Edge, track: TrackDefinition) -> int {
    let r = edge.spec_index_range(track)->0;
    r.max->0 - r.min->0 + 1
}

/// Every track definition can be laid on every edge: its period is
/// positive, its index range on the edge can be computed, and the number
/// of tracks it gives is a valid length.
pub open spec fn tracks_fit(shape: Polygon, defs: Seq<TrackDefinition>) -> bool {
    &&& forall|t: int| 0 <= t < defs.len() ==> #[trigger] defs[t].period > 0
    &&& forall|e: int, t: int|
        #![trigger spec_edge(shape, e), defs[t]]
        0 <= e < shape.pts().len() && 0 <= t < defs.len() ==> {
            &&& defs[t].period > 0
            &&& spec_edge(shape, e).index_range_ok(defs[t])
            &&& (spec_edge(shape, e).spec_index_range(defs[t]) is Some ==> {
                &&& spec_edge(shape, e).spec_index_range(defs[t])->0.max->0
                    - spec_edge(shape, e).spec_index_range(defs[t])->0.min->0 <= i64::MAX - 1
                &&& 0 <= occupancy_len(spec_edge(shape, e), defs[t]) <= usize::MAX
                &&& forall|k: int|
                    0 <= k < occupancy_len(spec_edge(shape, e), defs[t]) ==> #[trigger] spec_edge(
                        shape,
                        e,
                    ).position_on_edge_ok(defs[t], k)
            })
        }
}

/// The occupancy kept for `track` on `edge`: present exactly when the
/// track has an index range there, well formed, and one entry per track.
pub open spec fn occupancy_matches(o: Option<TrackOccupancy>, edge: Edge, track: TrackDefinition) -> bool {
    match edge.spec_index_range(track) {
        Some(_) => o matches Some(x) && x.wf() && x.num_tracks() == occupancy_len(edge, track),
        None => o is None,
    }
}

/// A pin placed on a bit of a port.
#[derive(Debug, Clone)]
pub struct PlacedPin {
    pub port: String,
    pub bit: usize,
    pub pin: PhysicalPin,
}

/// The physical side of a module: its outline, the routing tracks on its
/// layers, which tracks of each edge are taken, and the pins placed so far.
/// `occupancies[e][t]` is the occupancy of the `t`-th track definition on
/// edge `e`.
pub struct PinPlan {
    pub shape: Polygon,
    pub tracks: TrackDefinitions,
    pub occupancies: Vec<Vec<Option<TrackOccupancy>>>,
    pub pins: Vec<PlacedPin>,
}

impl PinPlan {
    /// The number of edges of the outline.
    pub open spec fn num_edges(self) -> int {
        self.shape.pts().len() as int
    }

    /// The track definitions.
    pub open spec fn defs(self) -> Seq<TrackDefinition> {
        self.tracks.defs()
    }

    /// The occupancy of the `t`-th track definition on edge `e`.
    pub open spec fn occ(self, e: int, t: int) -> Option<TrackOccupancy> {
        self.occupancies@[e]@[t]
    }

    /// The occupancy table has one row per edge and one column per track
    /// definition.
    pub open spec fn table_shaped(self) -> bool {
        &&& self.occupancies@.len() == self.num_edges()
        &&& forall|e: int|
            0 <= e < self.num_edges() ==> (#[trigger] self.occupancies@[e])@.len()
                == self.defs().len()
    }

    /// A valid outline, distinct layers whose tracks fit every edge, and an
    /// occupancy for exactly the edges and layers that have tracks.
    pub open spec fn wf(self) -> bool {
        &&& spec_shape_check(self.shape) is Ok
        &&& self.tracks.wf()
        &&& tracks_fit(self.shape, self.defs())
        &&& self.table_shaped()
        &&& forall|e: int, t: int|
            0 <= e < self.num_edges() && 0 <= t < self.defs().len() ==> occupancy_matches(
                #[trigger] self.occ(e, t),
                spec_edge(self.shape, e),
                self.defs()[t],
            )
    }

    /// Starts the physical view of a module with outline `shape`, which
    /// must be rectilinear, clockwise, and start with its lowest leftmost
    /// vertical edge. No tracks are defined and no pins placed yet.
    pub fn new(shape: Polygon) -> (r: Result<PinPlan, ShapeError>)
        requires
            area_fits(shape),
        ensures
            match r {
                Ok(p) => spec_shape_check(shape) is Ok && p.wf() && p.shape == shape
                    && p.defs().len() == 0 && p.pins@.len() == 0,
                Err(e) => spec_shape_check(shape) == Err::<(), ShapeError>(e),
            },
    {
        let n = shape.num_vertices();
        if !shape.is_rectilinear() {
            return Err(ShapeError::NotRectilinear);
        }
        if n < 3 {
            proof {
                let pts = shape.pts();
                if n == 2 {
                    reveal_with_fuel(shoelace_prefix, 3);
                    assert(edge_is_rectilinear(pts, 0));
                    assert((0 + 1) % 2 == 1int && (1 + 1) % 2 == 0int);
                    assert(shoelace_prefix(pts, 1) == shoelace_term(pts, 0));
                    assert(shoelace_prefix(pts, 2) == shoelace_term(pts, 0) + shoelace_term(pts, 1));
                    assert(shoelace_prefix(pts, 2) == 0);
                } else if n == 1 {
                    assert(edge_is_rectilinear(pts, 0));
                }
            }
            return Err(ShapeError::NotClockwise);
        }
        if !shape.is_clockwise() {
            return Err(ShapeError::NotClockwise);
        }
        if !shape.starts_with_leftmost_vertical_edge() {
            return Err(ShapeError::NotStartingWithLeftmostVerticalEdge);
        }
        let mut occupancies: Vec<Vec<Option<TrackOccupancy>>> = Vec::new();
        for e in 0..n
            invariant
                occupancies@.len() == e,
                forall|j: int| 0 <= j < e ==> (#[trigger] occupancies@[j])@.len() == 0,
        {
            occupancies.push(Vec::new());
        }
        let p = PinPlan { shape, tracks: TrackDefinitions::new(), occupancies, pins: Vec::new() };
        Ok(p)
    }

    /// Starts the physical view of a rectangular module with corners
    /// `(0, 0)` and `(width, height)`.
    pub fn from_width_height(width: i64, height: i64) -> (r: PinPlan)
        requires
            width > 0,
            height > 0,
        ensures
            r.wf(),
            r.shape.pts() == bbox_corners(0, 0, width, height),
            r.defs().len() == 0,
            r.pins@.len() == 0,
    {
        let shape = Polygon::from_width_height(width, height);
        proof {
            lemma_rectangle_is_valid_outline(width, height);
        }
        let mut occupancies: Vec<Vec<Option<TrackOccupancy>>> = Vec::new();
        for e in 0..4usize
            invariant
                occupancies@.len() == e,
                forall|j: int| 0 <= j < e ==> (#[trigger] occupancies@[j])@.len() == 0,
        {
            occupancies.push(Vec::new());
        }
        PinPlan { shape, tracks: TrackDefinitions::new(), occupancies, pins: Vec::new() }
    }

    /// Whether the outline is a rectangle; it is rectilinear, so four
    /// vertices make one.
    pub fn shape_is_rectangular(&self) -> (r: bool)
        ensures
            r == (self.num_edges() == 4),
    {
        self.shape.num_vertices() == 4
    }

    /// Replaces the track definitions, and with them every occupancy: each
    /// edge gets a free occupancy for each layer whose tracks cross it.
    pub fn set_track_definitions(&mut self, defs: TrackDefinitions)
        requires
            old(self).wf(),
            defs.wf(),
            tracks_fit(old(self).shape, defs.defs()),
        ensures
            final(self).wf(),
            final(self).shape == old(self).shape,
            final(self).defs() == defs.defs(),
            final(self).pins == old(self).pins,
            forall|e: int, t: int|
                0 <= e < final(self).num_edges() && 0 <= t < final(self).defs().len() ==> (
                #[trigger] final(self).occ(e, t) matches Some(o) ==> o.pins() == Seq::new(
                    o.num_tracks(),
                    |i: int| false,
                ) && o.keepouts() == Seq::new(o.num_tracks(), |i: int| false)),
    {
        let n = self.shape.num_edges();
        let m = defs.0.len();
        let mut table: Vec<Vec<Option<TrackOccupancy>>> = Vec::new();
        for e in 0..n
            invariant
                n == self.shape.pts().len(),
                m == defs.defs().len(),
                tracks_fit(self.shape, defs.defs()),
                table@.len() == e,
                forall|j: int| 0 <= j < e ==> (#[trigger] table@[j])@.len() == m,
                forall|j: int, t: int|
                    0 <= j < e && 0 <= t < m ==> occupancy_matches(
                        #[trigger] table@[j]@[t],
                        spec_edge(self.shape, j),
                        defs.defs()[t],
                    ),
                forall|j: int, t: int|
                    0 <= j < e && 0 <= t < m ==> (#[trigger] table@[j]@[t] matches Some(o) ==> o.pins()
                        == Seq::new(o.num_tracks(), |i: int| false) && o.keepouts() == Seq::new(
                        o.num_tracks(),
                        |i: int| false,
                    )),
        {
            let edge = self.shape.get_edge(e);
            assert(edge == spec_edge(self.shape, e as int));
            let mut row: Vec<Option<TrackOccupancy>> = Vec::new();
            for t in 0..m
                invariant
                    n == self.shape.pts().len(),
                    e < n,
                    m == defs.defs().len(),
                    edge == spec_edge(self.shape, e as int),
                    tracks_fit(self.shape, defs.defs()),
                    row@.len() == t,
                    forall|u: int|
                        0 <= u < t ==> occupancy_matches(
                            #[trigger] row@[u],
                            edge,
                            defs.defs()[u],
                        ),
                    forall|u: int|
                        0 <= u < t ==> (#[trigger] row@[u] matches Some(o) ==> o.pins() == Seq::new(
                            o.num_tracks(),
                            |i: int| false,
                        ) && o.keepouts() == Seq::new(o.num_tracks(), |i: int| false)),
            {
                let track = &defs.0[t];
                let ghost te = defs.defs()[t as int];
                let ghost ee = spec_edge(self.shape, e as int);
                assert(te.period > 0 && ee.index_range_ok(te));
                match edge.get_index_range(track) {
                    Some(range) => {
                        assert(range == ee.spec_index_range(te)->0);
                        assert(0 <= occupancy_len(ee, te));
                        let lo = range.min.unwrap();
                        let hi = range.max.unwrap();
                        let len = (hi - lo + 1) as usize;
                        let occ = TrackOccupancy::new(len);
                        assert(occ.num_tracks() == occupancy_len(ee, te));
                        row.push(Some(occ));
                    },
                    None => {
                        row.push(None);
                    },
                }
            }
            table.push(row);
        }
        self.occupancies = table;
        self.tracks = defs;
    }
}


/// Quotients rounded toward zero keep the order of their dividends.
proof fn lemma_tdiv_monotone(a: int, b: int, p: int)
    requires
        a <= b,
        p > 0,
    ensures
        tdiv(a, p) <= tdiv(b, p),
{
    if a >= 0 {
        vstd::arithmetic::div_mod::lemma_div_is_ordered(a, b, p);
    } else if b >= 0 {
        vstd::arithmetic::div_mod::lemma_div_pos_is_pos(-a, p);
        vstd::arithmetic::div_mod::lemma_div_pos_is_pos(b, p);
    } else {
        vstd::arithmetic::div_mod::lemma_div_is_ordered(-b, -a, p);
    }
}

/// The extent of `polygon` across the tracks of `track`, placed on track
/// `track_index`: the track indices of its lowest and highest points,
/// offsets rounded toward zero.
pub open spec fn spec_polygon_span(track: TrackDefinition, track_index: int, polygon: Seq<Coordinate>) -> (
    int,
    int,
) {
    let b = spec_bbox(polygon);
    let (lo, hi) = match track.orientation {
        TrackOrientation::Horizontal => (b.min_y, b.max_y),
        TrackOrientation::Vertical => (b.min_x, b.max_x),
    };
    (
        track_index + tdiv(lo as int, track.period as int),
        track_index + tdiv(hi as int, track.period as int),
    )
}

/// The span of a non-empty polygon can be computed in `i64`.
pub open spec fn polygon_span_ok(track: TrackDefinition, track_index: int, polygon: Seq<Coordinate>) -> bool {
    &&& polygon.len() > 0
    &&& track_index <= i64::MAX
    &&& fits_i64(spec_polygon_span(track, track_index, polygon).0)
    &&& fits_i64(spec_polygon_span(track, track_index, polygon).1)
}

proof fn lemma_span_ordered(track: TrackDefinition, track_index: int, polygon: Seq<Coordinate>)
    requires
        polygon.len() > 0,
        track.period > 0,
    ensures
        spec_polygon_span(track, track_index, polygon).0 <= spec_polygon_span(
            track,
            track_index,
            polygon,
        ).1,
{
    let b = spec_bbox(polygon);
    lemma_bbox_is_tight(polygon);
    assert(b.min_x <= polygon[0].x <= b.max_x);
    lemma_tdiv_monotone(b.min_y as int, b.max_y as int, track.period as int);
    lemma_tdiv_monotone(b.min_x as int, b.max_x as int, track.period as int);
}

/// Every point of `pts` can be mapped by `m` in `i64`.
pub open spec fn points_transform_fit(pts: Seq<Coordinate>, m: Mat3) -> bool {
    forall|i: int| 0 <= i < pts.len() ==> #[trigger] transform_point_fits(m, pts[i])
}

/// The points of the polygon behind an optional reference.
pub open spec fn owned(p: Option<&Polygon>) -> Option<Seq<Coordinate>> {
    match p {
        Some(q) => Some(q.pts()),
        None => None,
    }
}

/// The outcome of checking a placement.
pub enum PlacementCheck {
    /// The placement is allowed.
    Allowed,
    /// The layer has no tracks on the edge.
    LayerUnavailable,
    /// The placement is refused with this error.
    Refused(PinPlacementError),
}

/// `r` reports the outcome `c` of a check on layer `layer`.
pub open spec fn reports(r: Result<(), PinPlacementError>, layer: Seq<char>, c: PlacementCheck) -> bool {
    match c {
        PlacementCheck::Allowed => r is Ok,
        PlacementCheck::LayerUnavailable => r matches Err(PinPlacementError::LayerUnavailable { layer: l })
            && l@ == layer,
        PlacementCheck::Refused(e) => r == Err::<(), PinPlacementError>(e),
    }
}

/// The occupancy `after` is `before` with tracks `[min, max]` holding a pin.
pub open spec fn pin_marked(before: TrackOccupancy, after: TrackOccupancy, min: int, max: int) -> bool {
    &&& after.wf()
    &&& after.pins() == Seq::new(
        before.num_tracks(),
        |i: int| if min <= i <= max { true } else { before.pins()[i] },
    )
    &&& after.keepouts() == before.keepouts()
}

/// The occupancy `after` is `before` with tracks `[min, max]`, clipped to
/// the edge, kept out.
pub open spec fn keepout_marked(before: TrackOccupancy, after: TrackOccupancy, min: int, max: int) -> bool {
    &&& after.wf()
    &&& after.pins() == before.pins()
    &&& after.keepouts() == Seq::new(
        before.num_tracks(),
        |i: int|
            if max >= 0 && clip_min(min) <= i <= clip_max(max, before.num_tracks() as int) {
                true
            } else {
                before.keepouts()[i]
            },
    )
}

/// The occupancy `after` is `before` with a pin on `[pmin, pmax]` and its
/// keepout on `[kmin, kmax]` (clipped), the pin's own tracks not kept out.
pub open spec fn pin_and_keepout_marked(
    before: TrackOccupancy,
    after: TrackOccupancy,
    pmin: int,
    pmax: int,
    kmin: int,
    kmax: int,
) -> bool {
    &&& after.wf()
    &&& after.pins() == Seq::new(
        before.num_tracks(),
        |i: int| if pmin <= i <= pmax { true } else { before.pins()[i] },
    )
    &&& after.keepouts() == Seq::new(
        before.num_tracks(),
        |i: int|
            if pmin <= i <= pmax {
                false
            } else if kmax >= 0 && clip_min(kmin) <= i <= clip_max(kmax, before.num_tracks() as int) {
                true
            } else {
                before.keepouts()[i]
            },
    )
}

/// The transform that turns a pin drawn for a north edge to face out of
/// an edge with orientation `o`.
pub open spec fn spec_edge_transform(o: EdgeOrientation) -> Mat3 {
    match o {
        EdgeOrientation::North => Mat3::spec_from_orientation(Orientation::R0),
        EdgeOrientation::South => Mat3::spec_from_orientation(Orientation::R180),
        EdgeOrientation::East => Mat3::spec_from_orientation(Orientation::R270),
        EdgeOrientation::West => Mat3::spec_from_orientation(Orientation::R90),
    }
}

/// The sign of `v`: -1, 0 or 1.
pub open spec fn sign(v: int) -> int {
    if v < 0 {
        -1
    } else if v > 0 {
        1
    } else {
        0
    }
}

/// The outward unit normal of an axis-aligned edge of a clockwise outline:
/// the direction to the left of travel from `a` to `b`.
pub open spec fn outward_normal(e: Edge) -> Coordinate {
    Coordinate { x: sign(e.a.y - e.b.y) as i64, y: sign(e.b.x - e.a.x) as i64 }
}

/// The point at the origin.
pub open spec fn origin() -> Coordinate {
    Coordinate { x: 0, y: 0 }
}

/// The unit step along -x, +x, +y and -y.
pub open spec fn west_unit() -> Coordinate {
    Coordinate { x: -1i64, y: 0 }
}

pub open spec fn east_unit() -> Coordinate {
    Coordinate { x: 1, y: 0 }
}

pub open spec fn north_unit() -> Coordinate {
    Coordinate { x: 0, y: 1 }
}

pub open spec fn south_unit() -> Coordinate {
    Coordinate { x: 0, y: -1i64 }
}

/// A pin drawn for a north edge reaches out along -x. The transform chosen
/// for any axis-aligned edge of nonzero length is a rotation about the
/// origin (it keeps the origin and has determinant one) that carries -x to
/// that edge's outward normal: +y for an edge running east (the top of a
/// clockwise outline), -y for one running west, +x for one running south.
pub proof fn lemma_edge_transform_faces_out(e: Edge)
    requires
        e.spec_orientation() != None::<EdgeOrientation>,
        e.a != e.b,
    ensures
        Polygon::spec_transform_point(spec_edge_transform(e.spec_orientation()->0), west_unit())
            == outward_normal(e),
        Polygon::spec_transform_point(spec_edge_transform(e.spec_orientation()->0), origin())
            == origin(),
        spec_edge_transform(e.spec_orientation()->0).m00 * spec_edge_transform(e.spec_orientation()->0).m11
            - spec_edge_transform(e.spec_orientation()->0).m01 * spec_edge_transform(e.spec_orientation()->0).m10 == 1,
        e.spec_orientation() == Some(EdgeOrientation::East) ==> outward_normal(e) == north_unit(),
        e.spec_orientation() == Some(EdgeOrientation::West) ==> outward_normal(e) == south_unit(),
        e.spec_orientation() == Some(EdgeOrientation::South) ==> outward_normal(e) == east_unit(),
        e.spec_orientation() == Some(EdgeOrientation::North) ==> outward_normal(e) == west_unit(),
{
    broadcast use lemma_times_unit;
    let t = spec_edge_transform(e.spec_orientation()->0);
    assert(t.m02 == 0 && t.m12 == 0);
    assert(t.m00 * t.m11 - t.m01 * t.m10 == 1) by (nonlinear_arith)
        requires
            (t.m00 == 1 && t.m01 == 0 && t.m10 == 0 && t.m11 == 1)
            || (t.m00 == -1 && t.m01 == 0 && t.m10 == 0 && t.m11 == -1)
            || (t.m00 == 0 && t.m01 == 1 && t.m10 == -1 && t.m11 == 0)
            || (t.m00 == 0 && t.m01 == -1 && t.m10 == 1 && t.m11 == 0);
}

/// Where the `k`-th usable track of `track` crosses `edge`.
pub open spec fn spec_track_point(edge: Edge, track: TrackDefinition, k: int) -> Coordinate {
    match track.orientation {
        TrackOrientation::Horizontal => Coordinate {
            x: edge.a.x,
            y: edge.spec_position_on_edge(track, k) as i64,
        },
        TrackOrientation::Vertical => Coordinate {
            x: edge.spec_position_on_edge(track, k) as i64,
            y: edge.a.y,
        },
    }
}

/// The `k`-th usable track of a layer crosses an edge it can serve on the
/// edge's own line: a horizontal track meets a north or south edge at the
/// edge's x and at the track's y, a vertical track meets an east or west
/// edge at the edge's y and at the track's x, counting `k` tracks on from
/// the first usable one.
pub proof fn lemma_track_point_on_edge_line(e: Edge, t: TrackDefinition, k: int)
    requires
        e.position_on_edge_ok(t, k),
    ensures
        t.orientation == TrackOrientation::Horizontal ==> {
            &&& spec_track_point(e, t, k).x == e.a.x
            &&& spec_track_point(e, t, k).x == e.b.x
            &&& spec_track_point(e, t, k).y == t.position(e.spec_index_range(t)->0.min->0 + k)
        },
        t.orientation == TrackOrientation::Vertical ==> {
            &&& spec_track_point(e, t, k).y == e.a.y
            &&& spec_track_point(e, t, k).y == e.b.y
            &&& spec_track_point(e, t, k).x == t.position(e.spec_index_range(t)->0.min->0 + k)
        },
{
    crate::tracks::lemma_index_range_tracks_on_edge(e, t, k);
}

/// The first pin placed for bit `bit` of port `port`, if any.
pub open spec fn find_pin(pins: Seq<PlacedPin>, port: Seq<char>, bit: usize) -> Option<int>
    decreases pins.len(),
{
    if pins.len() == 0 {
        None
    } else {
        match find_pin(pins.drop_last(), port, bit) {
            Some(i) => Some(i),
            None => if pins.last().port@ == port && pins.last().bit == bit {
                Some(pins.len() - 1)
            } else {
                None
            },
        }
    }
}

pub(crate) proof fn lemma_find_pin(pins: Seq<PlacedPin>, port: Seq<char>, bit: usize)
    ensures
        find_pin(pins, port, bit) matches Some(i) ==> 0 <= i < pins.len() && pins[i].port@ == port
            && pins[i].bit == bit && forall|j: int|
            0 <= j < i ==> !(pins[j].port@ == port && pins[j].bit == bit),
        find_pin(pins, port, bit) is None ==> forall|j: int|
            0 <= j < pins.len() ==> !(pins[j].port@ == port && pins[j].bit == bit),
    decreases pins.len(),
{
    if pins.len() > 0 {
        let init = pins.drop_last();
        lemma_find_pin(init, port, bit);
        assert forall|j: int| 0 <= j < pins.len() - 1 implies #[trigger] pins[j] == init[j] by {}
    }
}

/// `p` records a pin of bit `bit` of `port` on `layer` at `position`
/// with shape `polygon`.
pub open spec fn pin_is(
    p: PlacedPin,
    port: Seq<char>,
    bit: usize,
    layer: Seq<char>,
    position: Coordinate,
    polygon: Seq<Coordinate>,
) -> bool {
    &&& p.port@ == port
    &&& p.bit == bit
    &&& p.pin.layer@ == layer
    &&& p.pin.position == position
    &&& p.pin.polygon.pts() == polygon
}

/// `after` is `before` with the pin for bit `bit` of `port` recorded: the
/// earlier record of that bit is replaced in place, or the pin is added at
/// the end.
pub open spec fn pin_recorded(
    before: Seq<PlacedPin>,
    after: Seq<PlacedPin>,
    port: Seq<char>,
    bit: usize,
    layer: Seq<char>,
    position: Coordinate,
    polygon: Seq<Coordinate>,
) -> bool {
    match find_pin(before, port, bit) {
        Some(i) => {
            &&& after.len() == before.len()
            &&& forall|j: int| 0 <= j < before.len() && j != i ==> #[trigger] after[j] == before[j]
            &&& pin_is(after[i], port, bit, layer, position, polygon)
        },
        None => {
            &&& after.len() == before.len() + 1
            &&& forall|j: int| 0 <= j < before.len() ==> #[trigger] after[j] == before[j]
            &&& pin_is(after[before.len() as int], port, bit, layer, position, polygon)
        },
    }
}

impl PinPlan {
    /// The position of the definition for layer `layer`, if any.
    pub open spec fn layer(self, layer: Seq<char>) -> Option<int> {
        find_track(self.defs(), layer)
    }

    /// What checking a pin on track `track_index` of `layer` on edge
    /// `edge_index` gives: the edge must exist, the layer must have tracks
    /// there, the pin's span must lie on free tracks, and the keepout, clipped
    /// to the edge, must cover no pin.
    pub open spec fn spec_check(
        self,
        edge_index: int,
        layer: Seq<char>,
        track_index: int,
        pin_polygon: Option<Seq<Coordinate>>,
        keepout_polygon: Option<Seq<Coordinate>>,
    ) -> PlacementCheck {
        if edge_index >= self.num_edges() {
            PlacementCheck::Refused(
                PinPlacementError::EdgeOutOfBounds {
                    edge_index: edge_index as usize,
                    num_edges: self.num_edges() as usize,
                },
            )
        } else {
            match self.layer(layer) {
                None => PlacementCheck::LayerUnavailable,
                Some(t) => match self.occ(edge_index, t) {
                    None => PlacementCheck::LayerUnavailable,
                    Some(o) => {
                        let track = self.defs()[t];
                        let pin_result = match pin_polygon {
                            Some(p) => {
                                let span = spec_polygon_span(track, track_index, p);
                                o.spec_check_place_pin(span.0 as i64, span.1 as i64)
                            },
                            None => Ok(()),
                        };
                        match pin_result {
                            Err(err) => PlacementCheck::Refused(err),
                            Ok(()) => match keepout_polygon {
                                Some(k) => {
                                    let span = spec_polygon_span(track, track_index, k);
                                    match o.spec_check_place_keepout(span.0 as i64, span.1 as i64) {
                                        Err(err) => PlacementCheck::Refused(err),
                                        Ok(()) => PlacementCheck::Allowed,
                                    }
                                },
                                None => PlacementCheck::Allowed,
                            },
                        }
                    },
                },
            }
        }
    }

    /// The check of a placement can be computed: the spans of the given
    /// polygons fit in `i64`, and a keepout that the check reaches is a
    /// valid span of the edge's tracks.
    pub open spec fn check_ok(
        self,
        edge_index: int,
        layer: Seq<char>,
        track_index: int,
        pin_polygon: Option<Seq<Coordinate>>,
        keepout_polygon: Option<Seq<Coordinate>>,
    ) -> bool {
        0 <= edge_index < self.num_edges() && self.layer(layer) is Some && self.occ(
            edge_index,
            self.layer(layer)->0,
        ) is Some ==> {
            let t = self.layer(layer)->0;
            let track = self.defs()[t];
            let o = self.occ(edge_index, t)->0;
            &&& (pin_polygon matches Some(p) ==> polygon_span_ok(track, track_index, p))
            &&& (keepout_polygon matches Some(k) ==> {
                &&& polygon_span_ok(track, track_index, k)
                &&& o.keepout_span_ok(
                    spec_polygon_span(track, track_index, k).0 as i64,
                    spec_polygon_span(track, track_index, k).1 as i64,
                )
            })
        }
    }

    /// The number of edges of the outline.
    pub fn get_num_edges(&self) -> (r: usize)
        ensures
            r == self.num_edges(),
    {
        self.shape.num_edges()
    }

    /// The edge at `edge_index`, or `None` when the index is out of bounds.
    pub fn get_edge(&self, edge_index: usize) -> (r: Option<Edge>)
        ensures
            edge_index < self.num_edges() ==> r == Some(spec_edge(self.shape, edge_index as int)),
            edge_index >= self.num_edges() ==> r is None,
    {
        if edge_index < self.shape.num_edges() {
            Some(self.shape.get_edge(edge_index))
        } else {
            None
        }
    }

    /// The track definition for layer `name`, if any.
    pub fn get_track(&self, name: &str) -> (r: Option<&TrackDefinition>)
        ensures
            match self.layer(name@) {
                Some(i) => r == Some(&self.defs()[i]),
                None => r is None,
            },
    {
        self.tracks.get_track(name)
    }

    /// The names of the layers with track definitions, in order.
    pub fn get_layers(&self) -> (r: Vec<String>)
        ensures
            r@.len() == self.defs().len(),
            forall|i: int| 0 <= i < r@.len() ==> #[trigger] r@[i]@ == self.defs()[i].name@,
    {
        let mut out: Vec<String> = Vec::new();
        for i in 0..self.tracks.0.len()
            invariant
                out@.len() == i,
                forall|j: int| 0 <= j < i ==> #[trigger] out@[j]@ == self.defs()[j].name@,
        {
            out.push(self.tracks.0[i].name.clone());
        }
        out
    }

    /// The track indices covered by `polygon` when placed on track
    /// `track_index` of layer `layer`.
    pub fn track_range_for_polygon(&self, layer: &str, track_index: usize, polygon: &Polygon) -> (r:
        (i64, i64))
        requires
            self.wf(),
            self.layer(layer@) is Some,
            polygon_span_ok(self.defs()[self.layer(layer@)->0], track_index as int, polygon.pts()),
        ensures
            (r.0 as int, r.1 as int) == spec_polygon_span(
                self.defs()[self.layer(layer@)->0],
                track_index as int,
                polygon.pts(),
            ),
    {
        let track = self.tracks.get_track(layer).unwrap();
        proof {
            lemma_find_track(self.defs(), layer@);
            assert(track.period > 0);
        }
        let bbox = polygon.bbox();
        let (min_delta, max_delta) = match track.orientation {
            TrackOrientation::Horizontal => (bbox.min_y, bbox.max_y),
            TrackOrientation::Vertical => (bbox.min_x, bbox.max_x),
        };
        let (below, _) = div_rem_pos(min_delta, track.period);
        let (above, _) = div_rem_pos(max_delta, track.period);
        let base = track_index as i64;
        (base + below, base + above)
    }

    /// Checks whether a pin with shape `pin_polygon` and keepout
    /// `keepout_polygon` (relative to the track) can go on track
    /// `track_index` of `layer` on edge `edge_index`.
    pub fn check_pin_placement_on_edge_index_with_polygon(
        &self,
        edge_index: usize,
        layer: &str,
        track_index: usize,
        pin_polygon: Option<&Polygon>,
        keepout_polygon: Option<&Polygon>,
    ) -> (r: Result<(), PinPlacementError>)
        requires
            self.wf(),
            self.check_ok(
                edge_index as int,
                layer@,
                track_index as int,
                owned(pin_polygon),
                owned(keepout_polygon),
            ),
        ensures
            reports(
                r,
                layer@,
                self.spec_check(
                    edge_index as int,
                    layer@,
                    track_index as int,
                    owned(pin_polygon),
                    owned(keepout_polygon),
                ),
            ),
    {
        let n = self.shape.num_edges();
        if edge_index >= n {
            return Err(PinPlacementError::EdgeOutOfBounds { edge_index, num_edges: n });
        }
        let t = match position_of_track(&self.tracks.0, layer) {
            Some(t) => t,
            None => {
                return Err(PinPlacementError::LayerUnavailable { layer: layer.to_owned() });
            },
        };
        let row = &self.occupancies[edge_index];
        assert(row@.len() == self.defs().len());
        let occupancy = match row[t].as_ref() {
            Some(o) => o,
            None => {
                return Err(PinPlacementError::LayerUnavailable { layer: layer.to_owned() });
            },
        };
        let ghost track = self.defs()[t as int];
        proof {
            assert(occupancy_matches(self.occ(edge_index as int, t as int), spec_edge(self.shape, edge_index as int), track));
            assert(track.period > 0);
        }
        match pin_polygon {
            Some(p) => {
                let (lo, hi) = self.track_range_for_polygon(layer, track_index, p);
                proof {
                    lemma_span_ordered(track, track_index as int, p.pts());
                }
                occupancy.check_place_pin(lo, hi)?;
            },
            None => {},
        }
        match keepout_polygon {
            Some(k) => {
                let (lo, hi) = self.track_range_for_polygon(layer, track_index, k);
                occupancy.check_place_keepout(lo, hi)?;
            },
            None => {},
        }
        Ok(())
    }

    /// Everything but occupancy `(e, t)` is as in `other`.
    pub open spec fn same_except(self, other: PinPlan, e: int, t: int) -> bool {
        &&& self.shape == other.shape
        &&& self.tracks == other.tracks
        &&& self.pins == other.pins
        &&& self.table_shaped()
        &&& forall|e2: int, t2: int|
            0 <= e2 < self.num_edges() && 0 <= t2 < self.defs().len() && !(e2 == e && t2 == t)
                ==> #[trigger] self.occ(e2, t2) == other.occ(e2, t2)
    }

    /// Takes occupancy `(e, t)` out of the table, leaving `None`.
    fn take_occupancy(&mut self, e: usize, t: usize) -> (r: Option<TrackOccupancy>)
        requires
            old(self).table_shaped(),
            e < old(self).num_edges(),
            t < old(self).defs().len(),
        ensures
            final(self).same_except(*old(self), e as int, t as int),
            final(self).occ(e as int, t as int) is None,
            r == old(self).occ(e as int, t as int),
    {
        let mut row = self.occupancies.remove(e);
        let cell = row.remove(t);
        row.insert(t, None);
        self.occupancies.insert(e, row);
        proof {
            assert forall|e2: int| 0 <= e2 < self.num_edges() implies (
            #[trigger] self.occupancies@[e2])@.len() == self.defs().len() by {
                if e2 != e {
                    assert(self.occupancies@[e2] == old(self).occupancies@[e2]);
                }
            }
            assert forall|e2: int, t2: int|
                0 <= e2 < self.num_edges() && 0 <= t2 < self.defs().len() && !(e2 == e && t2 == t)
                    implies #[trigger] self.occ(e2, t2) == old(self).occ(e2, t2) by {
                if e2 != e {
                    assert(self.occupancies@[e2] == old(self).occupancies@[e2]);
                }
            }
        }
        cell
    }

    /// Puts `o` into the table at `(e, t)`.
    fn put_occupancy(&mut self, e: usize, t: usize, o: Option<TrackOccupancy>)
        requires
            old(self).table_shaped(),
            e < old(self).num_edges(),
            t < old(self).defs().len(),
        ensures
            final(self).same_except(*old(self), e as int, t as int),
            final(self).occ(e as int, t as int) == o,
    {
        let mut row = self.occupancies.remove(e);
        let _ = row.remove(t);
        row.insert(t, o);
        self.occupancies.insert(e, row);
        proof {
            assert forall|e2: int| 0 <= e2 < self.num_edges() implies (
            #[trigger] self.occupancies@[e2])@.len() == self.defs().len() by {
                if e2 != e {
                    assert(self.occupancies@[e2] == old(self).occupancies@[e2]);
                }
            }
            assert forall|e2: int, t2: int|
                0 <= e2 < self.num_edges() && 0 <= t2 < self.defs().len() && !(e2 == e && t2 == t)
                    implies #[trigger] self.occ(e2, t2) == old(self).occ(e2, t2) by {
                if e2 != e {
                    assert(self.occupancies@[e2] == old(self).occupancies@[e2]);
                }
            }
        }
    }

    /// The occupancy of `layer` on edge `edge_index` exists.
    pub open spec fn has_occupancy(self, edge_index: int, layer: Seq<char>) -> bool {
        &&& 0 <= edge_index < self.num_edges()
        &&& self.layer(layer) is Some
        &&& self.occ(edge_index, self.layer(layer)->0) is Some
    }

    /// The occupancy of `layer` on edge `edge_index`, where it exists.
    pub open spec fn occupancy_of(self, edge_index: int, layer: Seq<char>) -> TrackOccupancy {
        self.occ(edge_index, self.layer(layer)->0)->0
    }

    /// Marks tracks `[min_index, max_index]` of `layer` on edge
    /// `edge_index` as holding a pin; nothing happens where that layer has
    /// no tracks on that edge.
    pub fn mark_pin_range(&mut self, edge_index: usize, layer: &str, min_index: i64, max_index: i64)
        requires
            old(self).wf(),
            old(self).has_occupancy(edge_index as int, layer@) ==> 0 <= min_index <= max_index + 1
                && 0 <= max_index < old(self).occupancy_of(edge_index as int, layer@).num_tracks(),
        ensures
            final(self).wf(),
            old(self).has_occupancy(edge_index as int, layer@) ==> {
                &&& final(self).same_except(*old(self), edge_index as int, old(self).layer(layer@)->0)
                &&& final(self).has_occupancy(edge_index as int, layer@)
                &&& pin_marked(
                    old(self).occupancy_of(edge_index as int, layer@),
                    final(self).occupancy_of(edge_index as int, layer@),
                    min_index as int,
                    max_index as int,
                )
            },
            !old(self).has_occupancy(edge_index as int, layer@) ==> *final(self) == *old(self),
    {
        if edge_index >= self.shape.num_edges() {
            return;
        }
        let t = match position_of_track(&self.tracks.0, layer) {
            Some(t) => t,
            None => return,
        };
        if self.occupancies[edge_index][t].is_none() {
            return;
        }
        let ghost before = *self;
        let mut o = self.take_occupancy(edge_index, t).unwrap();
        o.mark_pin(min_index, max_index);
        self.put_occupancy(edge_index, t, Some(o));
        proof {
            self.lemma_restored_wf(before, edge_index as int, t as int);
        }
    }

    /// Putting back a well-formed occupancy of the right size keeps the plan
    /// well formed.
    proof fn lemma_restored_wf(self, before: PinPlan, e: int, t: int)
        requires
            before.wf(),
            0 <= e < before.num_edges(),
            0 <= t < before.defs().len(),
            self.same_except(before, e, t),
            before.occ(e, t) is Some,
            self.occ(e, t) matches Some(o) && o.wf() && o.num_tracks() == before.occ(e, t)->0.num_tracks(),
        ensures
            self.wf(),
    {
        assert forall|e2: int, u: int|
            0 <= e2 < self.num_edges() && 0 <= u < self.defs().len() implies occupancy_matches(
            #[trigger] self.occ(e2, u),
            spec_edge(self.shape, e2),
            self.defs()[u],
        ) by {
            if !(e2 == e && u == t) {
                assert(self.occ(e2, u) == before.occ(e2, u));
            } else {
                assert(occupancy_matches(before.occ(e2, u), spec_edge(before.shape, e2), before.defs()[u]));
            }
        }
    }

    /// Marks tracks `[min_index, max_index]` of `layer` on edge
    /// `edge_index`, clipped to the edge, as kept out; nothing happens where
    /// that layer has no tracks on that edge.
    pub fn mark_keepout_range(
        &mut self,
        edge_index: usize,
        layer: &str,
        min_index: i64,
        max_index: i64,
    )
        requires
            old(self).wf(),
            old(self).has_occupancy(edge_index as int, layer@) ==> (max_index >= 0 ==> old(
                self,
            ).occupancy_of(edge_index as int, layer@).num_tracks() > 0 && clip_min(min_index as int)
                <= clip_max(
                max_index as int,
                old(self).occupancy_of(edge_index as int, layer@).num_tracks() as int,
            ) + 1),
        ensures
            final(self).wf(),
            old(self).has_occupancy(edge_index as int, layer@) ==> {
                &&& final(self).same_except(*old(self), edge_index as int, old(self).layer(layer@)->0)
                &&& final(self).has_occupancy(edge_index as int, layer@)
                &&& keepout_marked(
                    old(self).occupancy_of(edge_index as int, layer@),
                    final(self).occupancy_of(edge_index as int, layer@),
                    min_index as int,
                    max_index as int,
                )
            },
            !old(self).has_occupancy(edge_index as int, layer@) ==> *final(self) == *old(self),
    {
        if edge_index >= self.shape.num_edges() {
            return;
        }
        let t = match position_of_track(&self.tracks.0, layer) {
            Some(t) => t,
            None => return,
        };
        if self.occupancies[edge_index][t].is_none() {
            return;
        }
        let ghost before = *self;
        let mut o = self.take_occupancy(edge_index, t).unwrap();
        o.mark_keepout(min_index, max_index);
        self.put_occupancy(edge_index, t, Some(o));
        proof {
            self.lemma_restored_wf(before, edge_index as int, t as int);
        }
    }

    /// Records a pin on tracks `[pin_min_index, pin_max_index]` of `layer`
    /// on edge `edge_index` together with its keepout, the pin's own tracks
    /// not kept out; nothing happens where that layer has no tracks on that
    /// edge.
    pub fn mark_pin_and_keepout_ranges(
        &mut self,
        edge_index: usize,
        layer: &str,
        pin_min_index: i64,
        pin_max_index: i64,
        keepout_min_index: i64,
        keepout_max_index: i64,
    )
        requires
            old(self).wf(),
            old(self).has_occupancy(edge_index as int, layer@) ==> {
                let n = old(self).occupancy_of(edge_index as int, layer@).num_tracks();
                &&& 0 <= pin_min_index <= pin_max_index + 1
                &&& 0 <= pin_max_index < n
                &&& keepout_max_index >= 0 ==> clip_min(keepout_min_index as int) <= clip_max(
                    keepout_max_index as int,
                    n as int,
                ) + 1
            },
        ensures
            final(self).wf(),
            old(self).has_occupancy(edge_index as int, layer@) ==> {
                &&& final(self).same_except(*old(self), edge_index as int, old(self).layer(layer@)->0)
                &&& final(self).has_occupancy(edge_index as int, layer@)
                &&& pin_and_keepout_marked(
                    old(self).occupancy_of(edge_index as int, layer@),
                    final(self).occupancy_of(edge_index as int, layer@),
                    pin_min_index as int,
                    pin_max_index as int,
                    keepout_min_index as int,
                    keepout_max_index as int,
                )
            },
            !old(self).has_occupancy(edge_index as int, layer@) ==> *final(self) == *old(self),
    {
        if edge_index >= self.shape.num_edges() {
            return;
        }
        let t = match position_of_track(&self.tracks.0, layer) {
            Some(t) => t,
            None => return,
        };
        if self.occupancies[edge_index][t].is_none() {
            return;
        }
        let ghost before = *self;
        let mut o = self.take_occupancy(edge_index, t).unwrap();
        o.place_pin_and_keepout(pin_min_index, pin_max_index, keepout_min_index, keepout_max_index);
        self.put_occupancy(edge_index, t, Some(o));
        proof {
            self.lemma_restored_wf(before, edge_index as int, t as int);
        }
    }

    /// Records a pin for bit `bit` of port `port_name` on `layer` at
    /// `position` with shape `polygon`, replacing an earlier pin of that
    /// bit.
    pub fn place_pin(
        &mut self,
        port_name: &str,
        bit: usize,
        layer: &str,
        position: Coordinate,
        polygon: Polygon,
    )
        ensures
            final(self).shape == old(self).shape,
            final(self).tracks == old(self).tracks,
            final(self).occupancies == old(self).occupancies,
            pin_recorded(
                old(self).pins@,
                final(self).pins@,
                port_name@,
                bit,
                layer@,
                position,
                polygon.pts(),
            ),
    {
        let ghost polygon_pts = polygon.pts();
        let port = port_name.to_owned();
        let placed = PlacedPin {
            port,
            bit,
            pin: PhysicalPin { layer: layer.to_owned(), position, polygon },
        };
        proof {
            lemma_find_pin(self.pins@, port_name@, bit);
        }
        let n = self.pins.len();
        let mut i: usize = 0;
        while i < n
            invariant
                n == self.pins@.len(),
                i <= n,
                pin_is(placed, port_name@, bit, layer@, position, polygon_pts),
                polygon_pts == polygon.pts(),
                *self == *old(self),
                forall|j: int| 0 <= j < i ==> !(self.pins@[j].port@ == port_name@ && self.pins@[j].bit == bit),
            decreases n - i,
        {
            if self.pins[i].bit == bit && self.pins[i].port == placed.port {
                assert(self.pins@[i as int].port@ == port_name@);
                proof {
                    lemma_find_pin(self.pins@, port_name@, bit);
                    assert(find_pin(self.pins@, port_name@, bit) == Some(i as int));
                }
                self.pins.set(i, placed);
                assert(forall|j: int| 0 <= j < old(self).pins@.len() && j != i ==> #[trigger] self.pins@[j] == old(self).pins@[j]);
                assert(pin_recorded(old(self).pins@, self.pins@, port_name@, bit, layer@, position, polygon_pts));
                return;
            }
            i += 1;
        }
        proof {
            lemma_find_pin(self.pins@, port_name@, bit);
        }
        self.pins.push(placed);
    }

    /// Every edge of a valid outline is axis-aligned.
    pub proof fn lemma_edges_oriented(self, e: int)
        requires
            spec_shape_check(self.shape) is Ok,
            0 <= e < self.num_edges(),
        ensures
            spec_edge(self.shape, e).spec_orientation() is Some,
    {
        assert(edge_is_rectilinear(self.shape.pts(), e));
    }

    /// Where track `track_index` of `layer` crosses edge `edge_index`, and
    /// the transform that turns a pin drawn for a north edge to face out of
    /// that edge.
    pub fn track_index_to_position_and_transform(
        &self,
        edge_index: usize,
        layer: &str,
        track_index: usize,
    ) -> (r: (Coordinate, Mat3))
        requires
            self.wf(),
            edge_index < self.num_edges(),
            self.layer(layer@) is Some,
            spec_edge(self.shape, edge_index as int).position_on_edge_ok(
                self.defs()[self.layer(layer@)->0],
                track_index as int,
            ),
        ensures
            r.0 == spec_track_point(
                spec_edge(self.shape, edge_index as int),
                self.defs()[self.layer(layer@)->0],
                track_index as int,
            ),
            r.1 == spec_edge_transform(spec_edge(self.shape, edge_index as int).spec_orientation()->0),
    {
        let track = self.tracks.get_track(layer).unwrap();
        proof {
            lemma_find_track(self.defs(), layer@);
            self.lemma_edges_oriented(edge_index as int);
        }
        let edge = self.shape.get_edge(edge_index);
        let position = edge.get_coordinate_on_edge(track, track_index);
        let transform = match edge.orientation() {
            Some(EdgeOrientation::North) => Mat3::from_orientation(Orientation::R0),
            Some(EdgeOrientation::South) => Mat3::from_orientation(Orientation::R180),
            Some(EdgeOrientation::East) => Mat3::from_orientation(Orientation::R270),
            Some(EdgeOrientation::West) => Mat3::from_orientation(Orientation::R90),
            None => Mat3::from_orientation(Orientation::R0),
        };
        (position, transform)
    }

    /// A pin that the check allows can be placed: its track position can be
    /// computed and its polygon turned to face out of the edge.
    pub open spec fn placement_ok(
        self,
        edge_index: int,
        layer: Seq<char>,
        track_index: int,
        pin_polygon: Option<Seq<Coordinate>>,
        keepout_polygon: Option<Seq<Coordinate>>,
    ) -> bool {
        self.spec_check(edge_index, layer, track_index, pin_polygon, keepout_polygon) is Allowed
            ==> (pin_polygon matches Some(p) ==> {
            let edge = spec_edge(self.shape, edge_index);
            let track = self.defs()[self.layer(layer)->0];
            &&& edge.position_on_edge_ok(track, track_index)
            &&& points_transform_fit(p, spec_edge_transform(edge.spec_orientation()->0))
        })
    }

    /// Every occupancy but `(e, t)`, the outline and the tracks are as in
    /// `other`.
    pub open spec fn occupancy_frame(self, other: PinPlan, e: int, t: int) -> bool {
        &&& self.shape == other.shape
        &&& self.tracks == other.tracks
        &&& self.table_shaped()
        &&& forall|e2: int, t2: int|
            0 <= e2 < self.num_edges() && 0 <= t2 < self.defs().len() && !(e2 == e && t2 == t)
                ==> #[trigger] self.occ(e2, t2) == other.occ(e2, t2)
    }

    /// `after` holds the occupancy of `self` once an allowed placement is
    /// marked: the pin's tracks hold a pin, the keepout's tracks are kept out
    /// (not the pin's own), and every other occupancy is unchanged.
    pub open spec fn spec_marked(
        self,
        after: PinPlan,
        edge_index: int,
        layer: Seq<char>,
        track_index: int,
        pin_polygon: Option<Seq<Coordinate>>,
        keepout_polygon: Option<Seq<Coordinate>>,
    ) -> bool {
        let t = self.layer(layer)->0;
        let track = self.defs()[t];
        let before_occ = self.occ(edge_index, t)->0;
        &&& after.occupancy_frame(self, edge_index, t)
        &&& after.occ(edge_index, t) is Some
        &&& match (pin_polygon, keepout_polygon) {
            (Some(p), Some(k)) => pin_and_keepout_marked(
                before_occ,
                after.occ(edge_index, t)->0,
                spec_polygon_span(track, track_index, p).0,
                spec_polygon_span(track, track_index, p).1,
                spec_polygon_span(track, track_index, k).0,
                spec_polygon_span(track, track_index, k).1,
            ),
            (Some(p), None) => pin_marked(
                before_occ,
                after.occ(edge_index, t)->0,
                spec_polygon_span(track, track_index, p).0,
                spec_polygon_span(track, track_index, p).1,
            ),
            (None, Some(k)) => keepout_marked(
                before_occ,
                after.occ(edge_index, t)->0,
                spec_polygon_span(track, track_index, k).0,
                spec_polygon_span(track, track_index, k).1,
            ),
            (None, None) => after.occ(edge_index, t) == self.occ(edge_index, t),
        }
    }

    /// The polygon `p` turned to face out of edge `edge`.
    pub open spec fn spec_turned(edge: Edge, p: Seq<Coordinate>) -> Seq<Coordinate> {
        p.map_values(
            |q: Coordinate| Polygon::spec_transform_point(spec_edge_transform(edge.spec_orientation()->0), q),
        )
    }

    /// `after` is `self` once an allowed placement is made: the tracks are
    /// marked, and the pin, if any, is recorded where its track crosses the
    /// edge, turned to face out of it.
    pub open spec fn spec_placed(
        self,
        after: PinPlan,
        port: Seq<char>,
        bit: usize,
        edge_index: int,
        layer: Seq<char>,
        track_index: int,
        pin_polygon: Option<Seq<Coordinate>>,
        keepout_polygon: Option<Seq<Coordinate>>,
    ) -> bool {
        let edge = spec_edge(self.shape, edge_index);
        let track = self.defs()[self.layer(layer)->0];
        &&& self.spec_marked(after, edge_index, layer, track_index, pin_polygon, keepout_polygon)
        &&& match pin_polygon {
            Some(p) => pin_recorded(
                self.pins@,
                after.pins@,
                port,
                bit,
                layer,
                spec_track_point(edge, track, track_index),
                PinPlan::spec_turned(edge, p),
            ),
            None => after.pins == self.pins,
        }
    }

    /// An allowed placement has an occupancy to mark, on which the spans
    /// the check looked at are valid.
    proof fn lemma_allowed(
        self,
        edge_index: int,
        layer: Seq<char>,
        track_index: int,
        pin_polygon: Option<Seq<Coordinate>>,
        keepout_polygon: Option<Seq<Coordinate>>,
    )
        requires
            self.wf(),
            0 <= edge_index,
            self.check_ok(edge_index, layer, track_index, pin_polygon, keepout_polygon),
            self.spec_check(edge_index, layer, track_index, pin_polygon, keepout_polygon) is Allowed,
        ensures
            self.has_occupancy(edge_index, layer),
            pin_polygon matches Some(p) ==> {
                let span = spec_polygon_span(self.defs()[self.layer(layer)->0], track_index, p);
                &&& 0 <= span.0 <= span.1
                &&& span.1 < self.occupancy_of(edge_index, layer).num_tracks()
                &&& polygon_span_ok(self.defs()[self.layer(layer)->0], track_index, p)
            },
            keepout_polygon matches Some(k) ==> {
                let span = spec_polygon_span(self.defs()[self.layer(layer)->0], track_index, k);
                let n = self.occupancy_of(edge_index, layer).num_tracks();
                &&& polygon_span_ok(self.defs()[self.layer(layer)->0], track_index, k)
                &&& span.1 >= 0 ==> n > 0 && clip_min(span.0) <= clip_max(span.1, n as int) + 1
            },
    {
        lemma_find_track(self.defs(), layer);
        let t = self.layer(layer)->0;
        assert(self.defs()[t].period > 0);
        if let Some(p) = pin_polygon {
            lemma_span_ordered(self.defs()[t], track_index, p);
        }
    }

    /// Marks the tracks of an allowed placement.
    fn mark_allowed(
        &mut self,
        edge_index: usize,
        layer: &str,
        track_index: usize,
        pin_polygon: Option<&Polygon>,
        keepout_polygon: Option<&Polygon>,
    )
        requires
            old(self).wf(),
            old(self).check_ok(
                edge_index as int,
                layer@,
                track_index as int,
                owned(pin_polygon),
                owned(keepout_polygon),
            ),
            old(self).spec_check(
                edge_index as int,
                layer@,
                track_index as int,
                owned(pin_polygon),
                owned(keepout_polygon),
            ) is Allowed,
        ensures
            final(self).wf(),
            final(self).pins == old(self).pins,
            old(self).spec_marked(
                *final(self),
                edge_index as int,
                layer@,
                track_index as int,
                owned(pin_polygon),
                owned(keepout_polygon),
            ),
    {
        proof {
            self.lemma_allowed(
                edge_index as int,
                layer@,
                track_index as int,
                owned(pin_polygon),
                owned(keepout_polygon),
            );
        }
        match pin_polygon {
            Some(p) => {
                let (pin_min, pin_max) = self.track_range_for_polygon(layer, track_index, p);
                match keepout_polygon {
                    Some(k) => {
                        let (keepout_min, keepout_max) = self.track_range_for_polygon(
                            layer,
                            track_index,
                            k,
                        );
                        self.mark_pin_and_keepout_ranges(
                            edge_index,
                            layer,
                            pin_min,
                            pin_max,
                            keepout_min,
                            keepout_max,
                        );
                    },
                    None => {
                        self.mark_pin_range(edge_index, layer, pin_min, pin_max);
                    },
                }
            },
            None => {
                match keepout_polygon {
                    Some(k) => {
                        let (keepout_min, keepout_max) = self.track_range_for_polygon(
                            layer,
                            track_index,
                            k,
                        );
                        self.mark_keepout_range(edge_index, layer, keepout_min, keepout_max);
                    },
                    None => {},
                }
            },
        }
    }

    /// Records the pin of an allowed placement, at its track's crossing
    /// with the edge and turned to face out of it.
    fn record_allowed_pin(
        &mut self,
        port_name: &str,
        bit: usize,
        edge_index: usize,
        layer: &str,
        track_index: usize,
        pin_polygon: &Polygon,
    )
        requires
            old(self).wf(),
            edge_index < old(self).num_edges(),
            old(self).layer(layer@) is Some,
            spec_edge(old(self).shape, edge_index as int).position_on_edge_ok(
                old(self).defs()[old(self).layer(layer@)->0],
                track_index as int,
            ),
            pin_polygon.transform_fits(
                spec_edge_transform(spec_edge(old(self).shape, edge_index as int).spec_orientation()->0),
            ),
        ensures
            final(self).wf(),
            final(self).shape == old(self).shape,
            final(self).tracks == old(self).tracks,
            final(self).occupancies == old(self).occupancies,
            pin_recorded(
                old(self).pins@,
                final(self).pins@,
                port_name@,
                bit,
                layer@,
                spec_track_point(
                    spec_edge(old(self).shape, edge_index as int),
                    old(self).defs()[old(self).layer(layer@)->0],
                    track_index as int,
                ),
                PinPlan::spec_turned(spec_edge(old(self).shape, edge_index as int), pin_polygon.pts()),
            ),
    {
        let (position, transform) = self.track_index_to_position_and_transform(
            edge_index,
            layer,
            track_index,
        );
        let moved = pin_polygon.apply_transform(&transform);
        assert(moved.pts() =~= PinPlan::spec_turned(
            spec_edge(self.shape, edge_index as int),
            pin_polygon.pts(),
        ));
        let ghost before = *self;
        self.place_pin(port_name, bit, layer, position, moved);
        proof {
            assert forall|e: int, t: int|
                0 <= e < self.num_edges() && 0 <= t < self.defs().len() implies occupancy_matches(
                #[trigger] self.occ(e, t),
                spec_edge(self.shape, e),
                self.defs()[t],
            ) by {
                assert(self.occ(e, t) == before.occ(e, t));
            }
        }
    }

    /// Places a pin for bit `bit` of port `port_name` on track
    /// `track_index` of `layer` on edge `edge_index`, with pin and keepout
    /// shapes relative to the track. When the check refuses the placement,
    /// its error is returned and nothing changes; otherwise the tracks are
    /// marked and the pin, if any, recorded.
    pub fn place_pin_on_edge_index_with_polygon(
        &mut self,
        port_name: &str,
        bit: usize,
        edge_index: usize,
        layer: &str,
        track_index: usize,
        pin_polygon: Option<&Polygon>,
        keepout_polygon: Option<&Polygon>,
    ) -> (r: Result<(), PinPlacementError>)
        requires
            old(self).wf(),
            old(self).check_ok(
                edge_index as int,
                layer@,
                track_index as int,
                owned(pin_polygon),
                owned(keepout_polygon),
            ),
            old(self).placement_ok(
                edge_index as int,
                layer@,
                track_index as int,
                owned(pin_polygon),
                owned(keepout_polygon),
            ),
        ensures
            final(self).wf(),
            reports(
                r,
                layer@,
                old(self).spec_check(
                    edge_index as int,
                    layer@,
                    track_index as int,
                    owned(pin_polygon),
                    owned(keepout_polygon),
                ),
            ),
            r is Err ==> *final(self) == *old(self),
            r is Ok ==> old(self).spec_placed(
                *final(self),
                port_name@,
                bit,
                edge_index as int,
                layer@,
                track_index as int,
                owned(pin_polygon),
                owned(keepout_polygon),
            ),
    {
        match self.check_pin_placement_on_edge_index_with_polygon(
            edge_index,
            layer,
            track_index,
            pin_polygon,
            keepout_polygon,
        ) {
            Err(err) => {
                return Err(err);
            },
            Ok(()) => {},
        }
        let ghost before = *self;
        self.mark_allowed(edge_index, layer, track_index, pin_polygon, keepout_polygon);
        match pin_polygon {
            Some(p) => {
                proof {
                    lemma_find_track(before.defs(), layer@);
                }
                let ghost mid = *self;
                self.record_allowed_pin(port_name, bit, edge_index, layer, track_index, p);
                proof {
                    let t = before.layer(layer@)->0;
                    assert forall|e2: int, t2: int|
                        0 <= e2 < self.num_edges() && 0 <= t2 < self.defs().len() implies #[trigger] self.occ(e2, t2)
                            == mid.occ(e2, t2) by {}
                    assert(self.occ(edge_index as int, t) == mid.occ(edge_index as int, t));
                    assert(self.occupancy_frame(before, edge_index as int, t));
                }
            },
            None => {},
        }
        Ok(())
    }

    /// The default pin and keepout shapes of layer `layer`.
    pub open spec fn default_shapes(self, layer: Seq<char>) -> (Option<Seq<Coordinate>>, Option<Seq<Coordinate>>) {
        let track = self.defs()[self.layer(layer)->0];
        (shape_points(track.pin_shape), shape_points(track.keepout_shape))
    }

    /// Places a pin for bit `bit` of port `port_name` on track
    /// `track_index` of `layer` on edge `edge_index`, with the layer's
    /// default pin and keepout shapes.
    pub fn place_pin_on_edge_index(
        &mut self,
        port_name: &str,
        bit: usize,
        edge_index: usize,
        layer: &str,
        track_index: usize,
    ) -> (r: Result<(), PinPlacementError>)
        requires
            old(self).wf(),
            old(self).layer(layer@) is Some,
            old(self).check_ok(
                edge_index as int,
                layer@,
                track_index as int,
                old(self).default_shapes(layer@).0,
                old(self).default_shapes(layer@).1,
            ),
            old(self).placement_ok(
                edge_index as int,
                layer@,
                track_index as int,
                old(self).default_shapes(layer@).0,
                old(self).default_shapes(layer@).1,
            ),
        ensures
            final(self).wf(),
            reports(
                r,
                layer@,
                old(self).spec_check(
                    edge_index as int,
                    layer@,
                    track_index as int,
                    old(self).default_shapes(layer@).0,
                    old(self).default_shapes(layer@).1,
                ),
            ),
            r is Err ==> *final(self) == *old(self),
            r is Ok ==> old(self).spec_placed(
                *final(self),
                port_name@,
                bit,
                edge_index as int,
                layer@,
                track_index as int,
                old(self).default_shapes(layer@).0,
                old(self).default_shapes(layer@).1,
            ),
    {
        let track = self.tracks.get_track(layer).unwrap();
        let pin = copy_shape(&track.pin_shape);
        let keepout = copy_shape(&track.keepout_shape);
        self.place_pin_on_edge_index_with_polygon(
            port_name,
            bit,
            edge_index,
            layer,
            track_index,
            pin.as_ref(),
            keepout.as_ref(),
        )
    }

    /// Checks a pin on track `track_index` of `layer` on edge `edge_index`
    /// with the layer's default pin and keepout shapes.
    pub fn check_pin_placement_on_edge_index(
        &self,
        edge_index: usize,
        layer: &str,
        track_index: usize,
    ) -> (r: Result<(), PinPlacementError>)
        requires
            self.wf(),
            self.layer(layer@) is Some,
            self.check_ok(
                edge_index as int,
                layer@,
                track_index as int,
                self.default_shapes(layer@).0,
                self.default_shapes(layer@).1,
            ),
        ensures
            reports(
                r,
                layer@,
                self.spec_check(
                    edge_index as int,
                    layer@,
                    track_index as int,
                    self.default_shapes(layer@).0,
                    self.default_shapes(layer@).1,
                ),
            ),
    {
        let track = self.tracks.get_track(layer).unwrap();
        self.check_pin_placement_on_edge_index_with_polygon(
            edge_index,
            layer,
            track_index,
            track.pin_shape.as_ref(),
            track.keepout_shape.as_ref(),
        )
    }

    /// Whether a pin with the layer's default shapes may go on track
    /// `track_index` of `layer` on edge `edge_index`.
    pub fn can_place_pin_on_edge_index(&self, edge_index: usize, layer: &str, track_index: usize) -> (r:
        bool)
        requires
            self.wf(),
            self.layer(layer@) is Some,
            self.check_ok(
                edge_index as int,
                layer@,
                track_index as int,
                self.default_shapes(layer@).0,
                self.default_shapes(layer@).1,
            ),
        ensures
            r == self.spec_check(
                edge_index as int,
                layer@,
                track_index as int,
                self.default_shapes(layer@).0,
                self.default_shapes(layer@).1,
            ) is Allowed,
    {
        self.check_pin_placement_on_edge_index(edge_index, layer, track_index).is_ok()
    }

    /// Keeps out the tracks that `polygon`, placed on track `track_index`
    /// of `layer`, covers on edge `edge_index` (clipped to the edge).
    pub fn define_keepout_on_edge_index(
        &mut self,
        edge_index: usize,
        layer: &str,
        track_index: usize,
        polygon: &Polygon,
    )
        requires
            old(self).wf(),
            old(self).layer(layer@) is Some,
            polygon_span_ok(old(self).defs()[old(self).layer(layer@)->0], track_index as int, polygon.pts()),
            old(self).has_occupancy(edge_index as int, layer@) ==> {
                let span = spec_polygon_span(
                    old(self).defs()[old(self).layer(layer@)->0],
                    track_index as int,
                    polygon.pts(),
                );
                let n = old(self).occupancy_of(edge_index as int, layer@).num_tracks();
                span.1 >= 0 ==> n > 0 && clip_min(span.0) <= clip_max(span.1, n as int) + 1
            },
        ensures
            final(self).wf(),
            old(self).has_occupancy(edge_index as int, layer@) ==> {
                &&& final(self).same_except(*old(self), edge_index as int, old(self).layer(layer@)->0)
                &&& final(self).has_occupancy(edge_index as int, layer@)
                &&& keepout_marked(
                    old(self).occupancy_of(edge_index as int, layer@),
                    final(self).occupancy_of(edge_index as int, layer@),
                    spec_polygon_span(old(self).defs()[old(self).layer(layer@)->0], track_index as int, polygon.pts()).0,
                    spec_polygon_span(old(self).defs()[old(self).layer(layer@)->0], track_index as int, polygon.pts()).1,
                )
            },
            !old(self).has_occupancy(edge_index as int, layer@) ==> *final(self) == *old(self),
    {
        let (keepout_min, keepout_max) = self.track_range_for_polygon(layer, track_index, polygon);
        self.mark_keepout_range(edge_index, layer, keepout_min, keepout_max);
    }

    /// The coordinate along edge `e`'s axis that a track crossing it
    /// measures.
    pub open spec fn axis_coordinate(edge: Edge, c: Coordinate) -> i64 {
        match edge.spec_orientation()->0 {
            EdgeOrientation::North | EdgeOrientation::South => c.y,
            EdgeOrientation::East | EdgeOrientation::West => c.x,
        }
    }

    /// The track of `layer` nearest to `coordinate`, counted from the first
    /// track on edge `edge_index`, if the layer has tracks on that edge and
    /// the nearest one is among them.
    pub open spec fn spec_nearest_relative_track_index(
        self,
        edge_index: int,
        layer: Seq<char>,
        coordinate: Coordinate,
    ) -> Option<usize> {
        match self.layer(layer) {
            None => None,
            Some(t) => {
                let track = self.defs()[t];
                let edge = spec_edge(self.shape, edge_index);
                match edge.spec_index_range(track) {
                    None => None,
                    Some(r) => {
                        let lo = r.min->0;
                        let hi = r.max->0;
                        let k = track.spec_nearest_track_index(
                            PinPlan::axis_coordinate(edge, coordinate) as int,
                        );
                        if lo <= k <= hi {
                            Some((k - lo) as usize)
                        } else {
                            None
                        }
                    },
                }
            },
        }
    }

    /// Finding the nearest track can be computed in `i64`.
    pub open spec fn nearest_ok(self, edge_index: int, layer: Seq<char>, coordinate: Coordinate) -> bool {
        self.layer(layer) matches Some(t) ==> {
            let track = self.defs()[t];
            let edge = spec_edge(self.shape, edge_index);
            let c = PinPlan::axis_coordinate(edge, coordinate) as int;
            &&& track.period != i64::MIN
            &&& fits_i64(c - track.offset)
            &&& fits_i64(2 * crate::tracks::abs(crate::tracks::trunc_rem(c - track.offset, track.period as int)))
        }
    }

    /// Returns the nearest usable track index relative to the start of edge
    /// `edge_index` for `coordinate`, if the layer serves that edge and the
    /// nearest track lies on it.
    pub fn nearest_relative_track_index(&self, edge_index: usize, layer: &str, coordinate: &Coordinate) -> (r:
        Option<usize>)
        requires
            self.wf(),
            edge_index < self.num_edges(),
            self.nearest_ok(edge_index as int, layer@, *coordinate),
        ensures
            r == self.spec_nearest_relative_track_index(edge_index as int, layer@, *coordinate),
    {
        let track = match self.tracks.get_track(layer) {
            Some(t) => t,
            None => return None,
        };
        proof {
            lemma_find_track(self.defs(), layer@);
            self.lemma_edges_oriented(edge_index as int);
        }
        let edge = self.shape.get_edge(edge_index);
        let orientation = edge.orientation().unwrap();
        let track_range = match edge.get_index_range(track) {
            Some(r) => r,
            None => return None,
        };
        let min_index = track_range.min.unwrap();
        let max_index = track_range.max.unwrap();
        let axis_coordinate = match orientation {
            EdgeOrientation::North | EdgeOrientation::South => coordinate.y,
            EdgeOrientation::East | EdgeOrientation::West => coordinate.x,
        };
        let absolute_track_index = track.nearest_track_index(axis_coordinate);
        if min_index <= absolute_track_index && absolute_track_index <= max_index {
            Some((absolute_track_index - min_index) as usize)
        } else {
            None
        }
    }
}

/// The points of an optional shape.
pub open spec fn shape_points(o: Option<Polygon>) -> Option<Seq<Coordinate>> {
    match o {
        Some(p) => Some(p.pts()),
        None => None,
    }
}

/// A copy of an optional shape.
fn copy_shape(o: &Option<Polygon>) -> (r: Option<Polygon>)
    ensures
        shape_points(r) == shape_points(*o),
{
    match o {
        Some(p) => Some(p.clone()),
        None => None,
    }
}

/// A recorded pin as plain values: port, bit, layer, position and shape.
pub type PinRecord = (Seq<char>, usize, Seq<char>, Coordinate, Seq<Coordinate>);

/// An occupancy as plain values: the tracks holding a pin, and those kept
/// out.
pub type OccRecord = (Seq<bool>, Seq<bool>);

/// `bits` with positions `[lo, hi]` set.
pub open spec fn set_bits(bits: Seq<bool>, lo: int, hi: int) -> Seq<bool> {
    Seq::new(bits.len(), |i: int| if lo <= i <= hi { true } else { bits[i] })
}

/// The occupancy `o` after marking a pin span and a keepout span (either
/// may be absent); the pin's own tracks are not left kept out.
pub open spec fn marked_record(o: OccRecord, pin: Option<(int, int)>, keepout: Option<(int, int)>) -> OccRecord {
    let n = o.0.len();
    match (pin, keepout) {
        (Some((pl, ph)), Some((kl, kh))) => (
            set_bits(o.0, pl, ph),
            Seq::new(
                n,
                |i: int|
                    if pl <= i <= ph {
                        false
                    } else if kh >= 0 && clip_min(kl) <= i <= clip_max(kh, n as int) {
                        true
                    } else {
                        o.1[i]
                    },
            ),
        ),
        (Some((pl, ph)), None) => (set_bits(o.0, pl, ph), o.1),
        (None, Some((kl, kh))) => (
            o.0,
            Seq::new(
                n,
                |i: int| if kh >= 0 && clip_min(kl) <= i <= clip_max(kh, n as int) { true } else { o.1[i] },
            ),
        ),
        (None, None) => o,
    }
}

/// Whether the occupancy `o` allows a pin on the span `pin` with a keepout
/// on the span `keepout`: the pin's tracks exist and are free, and the
/// keepout, clipped to the edge, covers no pin.
pub open spec fn record_allows(o: OccRecord, pin: Option<(int, int)>, keepout: Option<(int, int)>) -> bool {
    let n = o.0.len();
    &&& (pin matches Some((lo, hi)) ==> {
        &&& 0 <= lo
        &&& 0 <= hi < n
        &&& !any_set(o.0, lo, hi + 1)
        &&& !any_set(o.1, lo, hi + 1)
    })
    &&& (keepout matches Some((lo, hi)) ==> hi < 0 || !any_set(
        o.0,
        clip_min(lo),
        clip_max(hi, n as int) + 1,
    ))
}

/// The first record of bit `bit` of `port`, if any.
pub open spec fn find_record(pins: Seq<PinRecord>, port: Seq<char>, bit: usize) -> Option<int>
    decreases pins.len(),
{
    if pins.len() == 0 {
        None
    } else {
        match find_record(pins.drop_last(), port, bit) {
            Some(i) => Some(i),
            None => if pins.last().0 == port && pins.last().1 == bit {
                Some(pins.len() - 1)
            } else {
                None
            },
        }
    }
}

/// `pins` with `rec` recorded: replacing the earlier record of the same
/// bit, or added at the end.
pub open spec fn record_pin(pins: Seq<PinRecord>, rec: PinRecord) -> Seq<PinRecord> {
    match find_record(pins, rec.0, rec.1) {
        Some(i) => pins.update(i, rec),
        None => pins.push(rec),
    }
}

/// The plain record of a placed pin.
pub open spec fn pin_record(p: PlacedPin) -> PinRecord {
    (p.port@, p.bit, p.pin.layer@, p.pin.position, p.pin.polygon.pts())
}

proof fn lemma_find_record(pins: Seq<PlacedPin>, port: Seq<char>, bit: usize)
    ensures
        find_record(pins.map_values(|p: PlacedPin| pin_record(p)), port, bit) == find_pin(pins, port, bit),
    decreases pins.len(),
{
    let v = pins.map_values(|p: PlacedPin| pin_record(p));
    if pins.len() > 0 {
        lemma_find_record(pins.drop_last(), port, bit);
        assert(v.drop_last() =~= pins.drop_last().map_values(|p: PlacedPin| pin_record(p)));
    }
}

impl PinPlan {
    /// The occupancies as plain values.
    pub open spec fn occ_view(self) -> Seq<Seq<Option<OccRecord>>> {
        Seq::new(
            self.num_edges() as nat,
            |e: int|
                Seq::new(
                    self.defs().len(),
                    |t: int|
                        match self.occ(e, t) {
                            Some(o) => Some((o.pins(), o.keepouts())),
                            None => None,
                        },
                ),
        )
    }

    /// The placed pins as plain values.
    pub open spec fn pins_view(self) -> Seq<PinRecord> {
        self.pins@.map_values(|p: PlacedPin| pin_record(p))
    }

    /// The spans that the pin and keepout shapes cover on track
    /// `track_index` of the `t`-th layer.
    pub open spec fn spans(
        self,
        t: int,
        track_index: int,
        pin_polygon: Option<Seq<Coordinate>>,
        keepout_polygon: Option<Seq<Coordinate>>,
    ) -> (Option<(int, int)>, Option<(int, int)>) {
        let track = self.defs()[t];
        (
            match pin_polygon {
                Some(p) => Some(spec_polygon_span(track, track_index, p)),
                None => None,
            },
            match keepout_polygon {
                Some(k) => Some(spec_polygon_span(track, track_index, k)),
                None => None,
            },
        )
    }

    /// Where the check reaches an occupancy, its verdict is what the plain
    /// record of that occupancy allows.
    pub proof fn lemma_check_is_record_allows(
        self,
        edge_index: int,
        layer: Seq<char>,
        track_index: int,
        pin_polygon: Option<Seq<Coordinate>>,
        keepout_polygon: Option<Seq<Coordinate>>,
    )
        requires
            self.wf(),
            self.has_occupancy(edge_index, layer),
            self.check_ok(edge_index, layer, track_index, pin_polygon, keepout_polygon),
        ensures
            (self.spec_check(edge_index, layer, track_index, pin_polygon, keepout_polygon) is Allowed)
                == record_allows(
                self.occ_view()[edge_index][self.layer(layer)->0]->0,
                self.spans(self.layer(layer)->0, track_index, pin_polygon, keepout_polygon).0,
                self.spans(self.layer(layer)->0, track_index, pin_polygon, keepout_polygon).1,
            ),
    {
        let t = self.layer(layer)->0;
        lemma_find_track(self.defs(), layer);
        assert(self.defs()[t].period > 0);
        if let Some(p) = pin_polygon {
            lemma_span_ordered(self.defs()[t], track_index, p);
        }
    }

    /// An allowed placement changes the plain views by marking the
    /// occupancy it used and recording its pin.
    pub proof fn lemma_placed_views(
        self,
        after: PinPlan,
        port: Seq<char>,
        bit: usize,
        edge_index: int,
        layer: Seq<char>,
        track_index: int,
        pin_polygon: Option<Seq<Coordinate>>,
        keepout_polygon: Option<Seq<Coordinate>>,
    )
        requires
            self.wf(),
            self.has_occupancy(edge_index, layer),
            self.spec_placed(after, port, bit, edge_index, layer, track_index, pin_polygon, keepout_polygon),
        ensures
            ({
                let t = self.layer(layer)->0;
                let spans = self.spans(t, track_index, pin_polygon, keepout_polygon);
                after.occ_view() == self.occ_view().update(
                    edge_index,
                    self.occ_view()[edge_index].update(
                        t,
                        Some(marked_record(self.occ_view()[edge_index][t]->0, spans.0, spans.1)),
                    ),
                )
            }),
            after.pins_view() == match pin_polygon {
                Some(p) => record_pin(
                    self.pins_view(),
                    (
                        port,
                        bit,
                        layer,
                        spec_track_point(
                            spec_edge(self.shape, edge_index),
                            self.defs()[self.layer(layer)->0],
                            track_index,
                        ),
                        PinPlan::spec_turned(spec_edge(self.shape, edge_index), p),
                    ),
                ),
                None => self.pins_view(),
            },
    {
        let t = self.layer(layer)->0;
        let spans = self.spans(t, track_index, pin_polygon, keepout_polygon);
        let expected = self.occ_view().update(
            edge_index,
            self.occ_view()[edge_index].update(
                t,
                Some(marked_record(self.occ_view()[edge_index][t]->0, spans.0, spans.1)),
            ),
        );
        lemma_find_track(self.defs(), layer);
        assert(after.num_edges() == self.num_edges());
        assert(after.defs() == self.defs());
        assert(after.occ_view().len() == expected.len());
        assert forall|e: int| 0 <= e < self.num_edges() implies #[trigger] after.occ_view()[e]
            =~= expected[e] by {
            assert(after.occ_view()[e].len() == self.defs().len());
            assert(self.occ_view()[e].len() == self.defs().len());
            if e == edge_index {
                assert(expected[e] == self.occ_view()[edge_index].update(
                    t,
                    Some(marked_record(self.occ_view()[edge_index][t]->0, spans.0, spans.1)),
                ));
            } else {
                assert(expected[e] == self.occ_view()[e]);
            }
            assert(expected[e].len() == self.defs().len());
            assert forall|u: int| 0 <= u < self.defs().len() implies after.occ_view()[e][u]
                == expected[e][u] by {
                if e == edge_index && u == t {
                    assert(expected[e][u] == Some(marked_record(self.occ_view()[edge_index][t]->0, spans.0, spans.1)));
                    let o = self.occ(e, u)->0;
                    let o2 = after.occ(e, u)->0;
                    match (pin_polygon, keepout_polygon) {
                        (Some(p), Some(k)) => {
                            assert(o2.pins() =~= marked_record((o.pins(), o.keepouts()), spans.0, spans.1).0);
                            assert(o2.keepouts() =~= marked_record((o.pins(), o.keepouts()), spans.0, spans.1).1);
                        },
                        (Some(p), None) => {
                            assert(o2.pins() =~= marked_record((o.pins(), o.keepouts()), spans.0, spans.1).0);
                        },
                        (None, Some(k)) => {
                            assert(o2.keepouts() =~= marked_record((o.pins(), o.keepouts()), spans.0, spans.1).1);
                        },
                        (None, None) => {},
                    }
                } else {
                    assert(after.occ(e, u) == self.occ(e, u));
                }
            }
        }
        assert(after.occ_view() =~= expected);
        lemma_find_record(self.pins@, port, bit);
        match pin_polygon {
            Some(p) => {
                let rec = (
                    port,
                    bit,
                    layer,
                    spec_track_point(spec_edge(self.shape, edge_index), self.defs()[t], track_index),
                    PinPlan::spec_turned(spec_edge(self.shape, edge_index), p),
                );
                lemma_find_pin(self.pins@, port, bit);
                assert(after.pins_view() =~= record_pin(self.pins_view(), rec));
            },
            None => {},
        }
    }
}

/// The pin and keepout shapes used on one layer of a batch placement.
pub struct LayerShapes {
    pub layer: String,
    pub pin: Polygon,
    pub keepout: Option<Polygon>,
}

/// Why a batch pin placement request could not be satisfied.
#[derive(Debug, Clone)]
pub enum BatchPinPlacementError {
    /// There were more pins than available layer slots.
    RanOutOfLayers { requested: usize, placed: usize },
    /// The selected edge index was not valid for the current shape.
    EdgeOutOfBounds { edge_index: usize, num_edges: usize },
    /// The requested coordinate window falls outside the selected edge span.
    RequestOutOfBounds { edge_index: usize, edge_range: Range, req_range: Range },
    /// The requested track indices fell outside the layer coverage for the
    /// edge.
    OffTrackRange { layer: String, req_range: Range, edge_range: Range },
}

impl BatchPinPlacementError {
    /// The message describing the error.
    pub open spec fn text(self) -> Seq<char> {
        match self {
            BatchPinPlacementError::RanOutOfLayers { requested, placed } => "unable to place all pins: requested "@
                + nat_decimal(requested as nat) + ", placed "@ + nat_decimal(placed as nat)
                + " (ran out of layers)"@,
            BatchPinPlacementError::EdgeOutOfBounds { edge_index, num_edges } => "edge index "@
                + nat_decimal(edge_index as nat) + " is out of bounds ("@ + nat_decimal(
                num_edges as nat,
            ) + " edges available)"@,
            BatchPinPlacementError::RequestOutOfBounds { edge_index, edge_range, req_range } =>
                "requested coordinate range "@ + req_range.text() + " on edge "@ + nat_decimal(
                edge_index as nat,
            ) + " lies outside edge span "@ + edge_range.text(),
            BatchPinPlacementError::OffTrackRange { layer, req_range, edge_range } =>
                "requested absolute track range "@ + req_range.text() + " on layer '"@ + layer@
                + "' lies outside edge coverage "@ + edge_range.text(),
        }
    }

    /// The message describing the error.
    pub fn to_string(&self) -> (r: String)
        ensures
            r@ == self.text(),
    {
        let mut s = String::new();
        match self {
            BatchPinPlacementError::RanOutOfLayers { requested, placed } => {
                push_str(&mut s, "unable to place all pins: requested ");
                push_usize(&mut s, *requested);
                push_str(&mut s, ", placed ");
                push_usize(&mut s, *placed);
                push_str(&mut s, " (ran out of layers)");
            },
            BatchPinPlacementError::EdgeOutOfBounds { edge_index, num_edges } => {
                push_str(&mut s, "edge index ");
                push_usize(&mut s, *edge_index);
                push_str(&mut s, " is out of bounds (");
                push_usize(&mut s, *num_edges);
                push_str(&mut s, " edges available)");
            },
            BatchPinPlacementError::RequestOutOfBounds { edge_index, edge_range, req_range } => {
                push_str(&mut s, "requested coordinate range ");
                req_range.write_to(&mut s);
                push_str(&mut s, " on edge ");
                push_usize(&mut s, *edge_index);
                push_str(&mut s, " lies outside edge span ");
                edge_range.write_to(&mut s);
            },
            BatchPinPlacementError::OffTrackRange { layer, req_range, edge_range } => {
                push_str(&mut s, "requested absolute track range ");
                req_range.write_to(&mut s);
                push_str(&mut s, " on layer '");
                push_str(&mut s, layer.as_str());
                push_str(&mut s, "' lies outside edge coverage ");
                edge_range.write_to(&mut s);
            },
        }
        s
    }
}

/// A track a batch placement may use: its position along the edge, the
/// priority of its layer, and its index among the layer's tracks on the
/// edge.
#[derive(Clone, Copy)]
struct Candidate {
    position: i64,
    layer_idx: usize,
    track_index: usize,
}

/// A candidate as plain values.
pub type CandidateKey = (int, int, int);

impl Candidate {
    spec fn key(self) -> CandidateKey {
        (self.position as int, self.layer_idx as int, self.track_index as int)
    }
}

/// Track `k` of occupancy `o` holds a pin or is kept out.
pub open spec fn taken(o: Option<OccRecord>, k: int) -> bool {
    match o {
        Some((pins, keepouts)) => pins[k] || keepouts[k],
        None => true,
    }
}

/// The candidates of `set` in strictly increasing order.
pub open spec fn sorted_of(set: Set<CandidateKey>) -> Seq<CandidateKey> {
    choose|cs: Seq<CandidateKey>| strictly_sorted(cs) && forall|c: CandidateKey| #[trigger] cs.contains(c) <==> set.contains(c)
}

/// Candidates are ordered by position, then layer priority, then track.
pub open spec fn key_less(a: CandidateKey, b: CandidateKey) -> bool {
    a.0 < b.0 || (a.0 == b.0 && (a.1 < b.1 || (a.1 == b.1 && a.2 < b.2)))
}

/// Each candidate comes strictly before the next.
pub open spec fn strictly_sorted(cs: Seq<CandidateKey>) -> bool {
    forall|i: int, j: int| 0 <= i < j < cs.len() ==> key_less(#[trigger] cs[i], #[trigger] cs[j])
}

/// The state a batch placement carries from one candidate to the next:
/// occupancies, recorded pins, pins placed so far, and the last track
/// used on each layer.
pub type BatchState = (Seq<Seq<Option<OccRecord>>>, Seq<PinRecord>, int, Seq<Option<int>>);

/// The texts of a request's pins.
pub open spec fn pin_requests(pins: Seq<(String, usize)>) -> Seq<(Seq<char>, usize)> {
    pins.map_values(|p: (String, usize)| (p.0@, p.1))
}

/// The names and shapes of the layers of a request.
pub open spec fn layer_requests(layers: Seq<LayerShapes>) -> Seq<(Seq<char>, Seq<Coordinate>, Option<Seq<Coordinate>>)> {
    layers.map_values(|l: LayerShapes| (l.layer@, l.pin.pts(), shape_points(l.keepout)))
}

impl PinPlan {
    /// The request window moved from edge-relative to absolute
    /// coordinates.
    pub open spec fn req_range(self, edge_index: int, position_range: Range) -> Range {
        let edge_min = spec_edge(self.shape, edge_index).spec_coord_range()->0.min->0;
        Range {
            min: match position_range.min {
                Some(v) => Some((edge_min + v) as i64),
                None => None,
            },
            max: match position_range.max {
                Some(v) => Some((edge_min + v) as i64),
                None => None,
            },
        }
    }

    /// The tracks of layer `layer` inside window `req` on edge `edge_index`:
    /// the layer's position, and the first and last track counted on the
    /// edge; none if the layer does not serve the edge or no track falls in
    /// the window.
    pub open spec fn layer_window(self, edge_index: int, layer: Seq<char>, req: Range) -> Option<(int, int, int)> {
        match self.layer(layer) {
            None => None,
            Some(t) => {
                let track = self.defs()[t];
                let edge = spec_edge(self.shape, edge_index);
                if !track.orientation.spec_compatible(edge.spec_orientation()->0) {
                    None
                } else {
                    match edge.spec_index_range(track) {
                        None => None,
                        Some(er) => match track.spec_coord_to_index(req).spec_intersection(er) {
                            Some(Range { min: Some(a), max: Some(b) }) => Some(
                                (t, a - er.min->0, b - er.min->0),
                            ),
                            _ => None,
                        },
                    }
                }
            },
        }
    }

    /// The spacing, in tracks, kept between pins of layer `l`.
    pub open spec fn spacing_of(
        self,
        edge_index: int,
        layer: Seq<char>,
        req: Range,
        min_spacing: Option<i64>,
    ) -> Option<int> {
        match self.layer_window(edge_index, layer, req) {
            Some((t, _, _)) => match min_spacing {
                Some(sp) => Some(
                    tdiv(sp + self.defs()[t].period - 1, self.defs()[t].period as int),
                ),
                None => None,
            },
            None => None,
        }
    }

    /// `c` is a free track of one of `layers` inside window `req` on edge
    /// `edge_index`, at its position along the edge.
    pub open spec fn is_candidate(
        self,
        edge_index: int,
        layers: Seq<(Seq<char>, Seq<Coordinate>, Option<Seq<Coordinate>>)>,
        req: Range,
        c: CandidateKey,
    ) -> bool {
        let l = c.1;
        let k = c.2;
        &&& 0 <= l < layers.len()
        &&& self.layer_window(edge_index, layers[l].0, req) matches Some((t, lo, hi))
        &&& lo <= k <= hi
        &&& !taken(self.occ_view()[edge_index][t], k)
        &&& c.0 == spec_edge(self.shape, edge_index).spec_position_on_edge(self.defs()[t], k)
    }

    /// One step of a batch placement: candidate `c` gets the next pin
    /// unless all pins are placed, it is closer than the spacing to the last
    /// pin of its layer, or its tracks are not free.
    pub open spec fn batch_step(
        self,
        edge_index: int,
        layers: Seq<(Seq<char>, Seq<Coordinate>, Option<Seq<Coordinate>>)>,
        pins: Seq<(Seq<char>, usize)>,
        spacing: Seq<Option<int>>,
        req: Range,
        st: BatchState,
        c: CandidateKey,
    ) -> BatchState {
        let (occ, recs, placed, last) = st;
        let l = c.1;
        let k = c.2;
        if placed >= pins.len() {
            st
        } else if last[l] is Some && spacing[l] is Some && k - last[l]->0 < spacing[l]->0 {
            st
        } else {
            let t = match self.layer_window(edge_index, layers[l].0, req) {
                Some((t, _, _)) => t,
                None => 0,
            };
            let spans = self.spans(t, k, Some(layers[l].1), layers[l].2);
            if !record_allows(occ[edge_index][t]->0, spans.0, spans.1) {
                st
            } else {
                let edge = spec_edge(self.shape, edge_index);
                let rec = (
                    pins[placed].0,
                    pins[placed].1,
                    layers[l].0,
                    spec_track_point(edge, self.defs()[t], k),
                    PinPlan::spec_turned(edge, layers[l].1),
                );
                (
                    occ.update(
                        edge_index,
                        occ[edge_index].update(
                            t,
                            Some(marked_record(occ[edge_index][t]->0, spans.0, spans.1)),
                        ),
                    ),
                    record_pin(recs, rec),
                    placed + 1,
                    last.update(l, Some(k)),
                )
            }
        }
    }

    /// The candidates of a request.
    pub open spec fn candidate_set(self, edge_index: int, layers: Seq<LayerRequest>, req: Range) -> Set<CandidateKey> {
        Set::new(|c: CandidateKey| self.is_candidate(edge_index, layers, req, c))
    }

    /// The candidates of a request in the order they are tried.
    pub open spec fn sorted_candidates(self, edge_index: int, layers: Seq<LayerRequest>, req: Range) -> Seq<CandidateKey> {
        sorted_of(self.candidate_set(edge_index, layers, req))
    }

    /// What a batch placement arrives at: the occupancies, the recorded
    /// pins, the number of pins placed, and the last track of each layer.
    pub open spec fn batch_outcome(
        self,
        edge_index: int,
        layers: Seq<LayerRequest>,
        pins: Seq<(Seq<char>, usize)>,
        position_range: Range,
        min_spacing: Option<i64>,
    ) -> BatchState {
        let req = self.req_range(edge_index, position_range);
        let spacing = Seq::new(
            layers.len(),
            |l: int| self.spacing_of(edge_index, layers[l].0, req, min_spacing),
        );
        self.batch_fold(
            edge_index,
            layers,
            pins,
            spacing,
            req,
            (self.occ_view(), self.pins_view(), 0int, Seq::new(layers.len(), |l: int| None::<int>)),
            self.sorted_candidates(edge_index, layers, req),
        )
    }

    /// The batch placement run over the candidates `cs` in order.
    pub open spec fn batch_fold(
        self,
        edge_index: int,
        layers: Seq<(Seq<char>, Seq<Coordinate>, Option<Seq<Coordinate>>)>,
        pins: Seq<(Seq<char>, usize)>,
        spacing: Seq<Option<int>>,
        req: Range,
        st: BatchState,
        cs: Seq<CandidateKey>,
    ) -> BatchState
        decreases cs.len(),
    {
        if cs.len() == 0 {
            st
        } else {
            self.batch_step(
                edge_index,
                layers,
                pins,
                spacing,
                req,
                self.batch_fold(edge_index, layers, pins, spacing, req, st, cs.drop_last()),
                cs.last(),
            )
        }
    }
}

/// A layer of a request as plain values: name, pin shape, keepout shape.
pub type LayerRequest = (Seq<char>, Seq<Coordinate>, Option<Seq<Coordinate>>);

/// No layer is named twice among the requests, as in a map keyed by layer
/// name.
pub open spec fn distinct_layers(lrs: Seq<LayerRequest>) -> bool {
    forall|i: int, j: int| 0 <= i < j < lrs.len() ==> (#[trigger] lrs[i]).0 != (#[trigger] lrs[j]).0
}

/// The plain keys of some candidates.
spec fn keys(cs: Seq<Candidate>) -> Seq<CandidateKey> {
    cs.map_values(|c: Candidate| c.key())
}

/// The spacings as plain values.
spec fn spacing_view(s: Seq<Option<i64>>) -> Seq<Option<int>> {
    s.map_values(|o: Option<i64>| match o {
        Some(v) => Some(v as int),
        None => None,
    })
}

/// Inserts `c` into the sorted candidates `cs`, after those that come
/// before it.
fn insert_sorted(cs: &mut Vec<Candidate>, c: Candidate)
    requires
        strictly_sorted(keys(old(cs)@)),
        forall|j: int|
            0 <= j < old(cs)@.len() ==> (#[trigger] old(cs)@[j]).layer_idx < c.layer_idx || (
            old(cs)@[j].layer_idx == c.layer_idx && old(cs)@[j].track_index < c.track_index),
    ensures
        strictly_sorted(keys(final(cs)@)),
        forall|x: CandidateKey| keys(final(cs)@).contains(x) <==> (keys(old(cs)@).contains(x) || x == c.key()),
        forall|j: int|
            0 <= j < final(cs)@.len() ==> (#[trigger] final(cs)@[j]).layer_idx < c.layer_idx || (
            final(cs)@[j].layer_idx == c.layer_idx && final(cs)@[j].track_index <= c.track_index),
{
    let ghost old_keys = keys(cs@);
    let mut i: usize = 0;
    while i < cs.len()
        invariant
            i <= cs@.len(),
            cs@ == old(cs)@,
            old_keys == keys(cs@),
            forall|j: int|
                0 <= j < cs@.len() ==> (#[trigger] cs@[j]).layer_idx < c.layer_idx || (
                cs@[j].layer_idx == c.layer_idx && cs@[j].track_index < c.track_index),
            forall|j: int| 0 <= j < i ==> key_less(#[trigger] old_keys[j], c.key()),
        ensures
            i <= cs@.len(),
            cs@ == old(cs)@,
            forall|j: int| 0 <= j < i ==> key_less(#[trigger] old_keys[j], c.key()),
            i < cs@.len() ==> key_less(c.key(), old_keys[i as int]),
        decreases cs@.len() - i,
    {
        let d = cs[i];
        let before = c.position < d.position || (c.position == d.position && (c.layer_idx
            < d.layer_idx || (c.layer_idx == d.layer_idx && c.track_index < d.track_index)));
        assert(old_keys[i as int] == d.key());
        if before {
            break;
        }
        assert(d.layer_idx < c.layer_idx || (d.layer_idx == c.layer_idx && d.track_index < c.track_index));
        i += 1;
    }
    let ghost at = i as int;
    proof {
        assert forall|j: int| at <= j < old_keys.len() implies key_less(c.key(), #[trigger] old_keys[j]) by {
            if j > at {
                assert(key_less(old_keys[at], old_keys[j]));
            }
        }
    }
    cs.insert(i, c);
    proof {
        let nk = keys(cs@);
        assert(nk =~= old_keys.insert(at, c.key()));
        assert forall|a: int, b: int| 0 <= a < b < nk.len() implies key_less(#[trigger] nk[a], #[trigger] nk[b]) by {
            if b < at {
                assert(nk[a] == old_keys[a] && nk[b] == old_keys[b]);
            } else if b == at {
                assert(nk[a] == old_keys[a]);
            } else if a < at {
                assert(nk[a] == old_keys[a] && nk[b] == old_keys[b - 1]);
                assert(key_less(old_keys[a], c.key()));
            } else if a == at {
                assert(nk[b] == old_keys[b - 1]);
            } else {
                assert(nk[a] == old_keys[a - 1] && nk[b] == old_keys[b - 1]);
            }
        }
        assert forall|x: CandidateKey| nk.contains(x) <==> (old_keys.contains(x) || x == c.key()) by {
            if nk.contains(x) {
                let j = choose|j: int| 0 <= j < nk.len() && nk[j] == x;
                if j < at {
                    assert(old_keys[j] == x);
                } else if j > at {
                    assert(old_keys[j - 1] == x);
                }
            }
            if old_keys.contains(x) {
                let j = choose|j: int| 0 <= j < old_keys.len() && old_keys[j] == x;
                if j < at {
                    assert(nk[j] == x);
                } else {
                    assert(nk[j + 1] == x);
                }
            }
            if x == c.key() {
                assert(nk[at] == x);
            }
        }
    }
}

impl PinPlan {
    /// The shapes of layer request `lr` can be placed on track `k` of the
    /// `t`-th layer on edge `edge_index`: their spans and the turned pin
    /// can be computed, and the keepout is a valid span of the edge.
    pub open spec fn layer_shapes_ok(self, edge_index: int, t: int, lr: LayerRequest, k: int) -> bool {
        let track = self.defs()[t];
        let edge = spec_edge(self.shape, edge_index);
        let n = occupancy_len(edge, track);
        &&& polygon_span_ok(track, k, lr.1)
        &&& points_transform_fit(lr.1, spec_edge_transform(edge.spec_orientation()->0))
        &&& (lr.2 matches Some(kp) ==> {
            &&& polygon_span_ok(track, k, kp)
            &&& spec_polygon_span(track, k, kp).1 >= 0 ==> n > 0 && n <= i64::MAX && clip_min(
                spec_polygon_span(track, k, kp).0,
            ) <= clip_max(spec_polygon_span(track, k, kp).1, n) + 1
        })
    }

    /// A batch request can be computed: the window moves to absolute
    /// coordinates, each layer's window and spacing can be quantized, and
    /// its shapes can be placed on each of its tracks.
    pub open spec fn batch_ok(
        self,
        edge_index: int,
        layers: Seq<LayerRequest>,
        position_range: Range,
        min_spacing: Option<i64>,
    ) -> bool {
        let edge = spec_edge(self.shape, edge_index);
        let edge_min = edge.spec_coord_range()->0.min->0;
        let req = self.req_range(edge_index, position_range);
        &&& (position_range.min matches Some(v) ==> fits_i64(edge_min + v))
        &&& (position_range.max matches Some(v) ==> fits_i64(edge_min + v))
        &&& forall|l: int|
            0 <= l < layers.len() ==> #[trigger] self.layer_batch_ok(edge_index, layers[l], req, min_spacing)
    }

    /// One layer of a batch request can be computed.
    pub open spec fn layer_batch_ok(self, edge_index: int, lr: LayerRequest, req: Range, min_spacing: Option<i64>) -> bool {
        let edge = spec_edge(self.shape, edge_index);
        self.layer(lr.0) matches Some(t) ==> {
            let track = self.defs()[t];
            &&& track.orientation.spec_compatible(edge.spec_orientation()->0) ==> track.coord_to_index_fits(req)
            &&& (self.layer_window(edge_index, lr.0, req) is Some ==> (min_spacing matches Some(sp)
                ==> fits_i64(sp + track.period) && fits_i64(sp + track.period - 1)))
            &&& forall|k: int|
                0 <= k < occupancy_len(edge, track) ==> #[trigger] self.layer_shapes_ok(edge_index, t, lr, k)
        }
    }

    /// A layer's window lies on its tracks of the edge.
    proof fn lemma_window_on_edge(self, edge_index: int, layer: Seq<char>, req: Range)
        requires
            self.wf(),
            0 <= edge_index < self.num_edges(),
            self.layer_window(edge_index, layer, req) is Some,
        ensures
            ({
                let w = self.layer_window(edge_index, layer, req)->0;
                let track = self.defs()[w.0];
                &&& w.0 == self.layer(layer)->0
                &&& 0 <= w.0 < self.defs().len()
                &&& 0 <= w.1 <= w.2 < occupancy_len(spec_edge(self.shape, edge_index), track)
                &&& self.occ(edge_index, w.0) is Some
            }),
    {
        lemma_find_track(self.defs(), layer);
        let t = self.layer(layer)->0;
        let track = self.defs()[t];
        let edge = spec_edge(self.shape, edge_index);
        assert(occupancy_matches(self.occ(edge_index, t), edge, track));
    }

    /// Computes the window of layer `layer`: its position, and its first
    /// and last track counted on the edge.
    fn layer_window_exec(&self, edge_index: usize, edge: &Edge, layer: &str, req: &Range) -> (r: Option<
        (usize, usize, usize),
    >)
        requires
            self.wf(),
            edge_index < self.num_edges(),
            *edge == spec_edge(self.shape, edge_index as int),
            self.layer(layer@) matches Some(t) ==> (self.defs()[t].orientation.spec_compatible(
                edge.spec_orientation()->0,
            ) ==> self.defs()[t].coord_to_index_fits(*req)),
        ensures
            match self.layer_window(edge_index as int, layer@, *req) {
                Some((t, lo, hi)) => r == Some((t as usize, lo as usize, hi as usize)),
                None => r is None,
            },
    {
        proof {
            self.lemma_edges_oriented(edge_index as int);
            lemma_find_track(self.defs(), layer@);
        }
        let t = match position_of_track(&self.tracks.0, layer) {
            Some(t) => t,
            None => return None,
        };
        let track = &self.tracks.0[t];
        let orientation = edge.orientation().unwrap();
        if !track.orientation.is_compatible_with_edge_orientation(&orientation) {
            return None;
        }
        let req_tracks = track.convert_coord_range_to_index_range(req);
        let edge_tracks = match edge.get_index_range(track) {
            Some(v) => v,
            None => return None,
        };
        let edge_min_index = match edge_tracks.min {
            Some(v) => v,
            None => return None,
        };
        match req_tracks.intersection(&edge_tracks) {
            Some(Range { min: Some(min), max: Some(max) }) => {
                proof {
                    self.lemma_window_on_edge(edge_index as int, layer@, *req);
                }
                Some((t, (min - edge_min_index) as usize, (max - edge_min_index) as usize))
            },
            _ => None,
        }
    }

    /// On a plan with the same outline and tracks, the shapes of a layer
    /// whose window holds track `k` can be checked and placed there.
    proof fn lemma_candidate_placeable(self, p: PinPlan, edge_index: int, lr: LayerRequest, req: Range, min_spacing: Option<i64>, k: int)
        requires
            self.wf(),
            p.wf(),
            p.shape == self.shape,
            p.tracks == self.tracks,
            0 <= edge_index < self.num_edges(),
            self.layer_batch_ok(edge_index, lr, req, min_spacing),
            self.layer_window(edge_index, lr.0, req) matches Some((t, lo, hi)) && lo <= k <= hi,
        ensures
            p.has_occupancy(edge_index, lr.0),
            p.check_ok(edge_index, lr.0, k, Some(lr.1), lr.2),
            p.placement_ok(edge_index, lr.0, k, Some(lr.1), lr.2),
    {
        self.lemma_window_on_edge(edge_index, lr.0, req);
        let t = self.layer(lr.0)->0;
        let track = self.defs()[t];
        let edge = spec_edge(self.shape, edge_index);
        assert(self.layer_shapes_ok(edge_index, t, lr, k));
        assert(occupancy_matches(p.occ(edge_index, t), edge, track));
        assert(edge.position_on_edge_ok(track, k));
    }

    /// Places bits `pins` on edge `edge_index`, trying the free tracks of
    /// `layers` inside `position_range` (measured from the start of the
    /// edge) in order of position, then layer priority, then track; a track
    /// is skipped when it is closer than `min_spacing` to the last pin of
    /// its layer or its pin or keepout shape does not fit. Each layer's own
    /// shapes are used. Fails when the window leaves the edge, or when
    /// fewer than all pins could be placed.
    pub fn place_pins_on_edge_index_with_polygons(
        &mut self,
        pins: &[(String, usize)],
        edge_index: usize,
        layers: &[LayerShapes],
        position_range: Range,
        min_spacing: Option<i64>,
    ) -> (r: Result<(), BatchPinPlacementError>)
        requires
            old(self).wf(),
            edge_index < old(self).num_edges() ==> old(self).batch_ok(edge_index as int, layer_requests(layers@), position_range, min_spacing),
            distinct_layers(layer_requests(layers@)),
        ensures
            final(self).wf(),
            final(self).shape == old(self).shape,
            final(self).tracks == old(self).tracks,
            edge_index >= old(self).num_edges() ==> {
                &&& r == Err::<(), BatchPinPlacementError>(
                    BatchPinPlacementError::EdgeOutOfBounds {
                        edge_index,
                        num_edges: old(self).num_edges() as usize,
                    },
                )
                &&& *final(self) == *old(self)
            },
            edge_index < old(self).num_edges() ==> ({
                let req = old(self).req_range(edge_index as int, position_range);
                let edge_range = spec_edge(old(self).shape, edge_index as int).spec_coord_range()->0;
                let lrs = layer_requests(layers@);
                let spacing = Seq::new(
                    lrs.len(),
                    |l: int| old(self).spacing_of(edge_index as int, lrs[l].0, req, min_spacing),
                );
                let init = (
                    old(self).occ_view(),
                    old(self).pins_view(),
                    0int,
                    Seq::new(lrs.len(), |l: int| None::<int>),
                );
                if !req.spec_bounds_within(edge_range) {
                    &&& r == Err::<(), BatchPinPlacementError>(
                        BatchPinPlacementError::RequestOutOfBounds {
                            edge_index,
                            edge_range,
                            req_range: req,
                        },
                    )
                    &&& *final(self) == *old(self)
                } else {
                    let st = old(self).batch_outcome(
                        edge_index as int,
                        lrs,
                        pin_requests(pins@),
                        position_range,
                        min_spacing,
                    );
                    &&& final(self).occ_view() == st.0
                    &&& final(self).pins_view() == st.1
                    &&& r == if st.2 == pins@.len() {
                        Ok::<(), BatchPinPlacementError>(())
                    } else {
                        Err(
                            BatchPinPlacementError::RanOutOfLayers {
                                requested: pins@.len() as usize,
                                placed: st.2 as usize,
                            },
                        )
                    }
                }
            }),
    {
        if edge_index >= self.shape.num_edges() {
            return Err(
                BatchPinPlacementError::EdgeOutOfBounds { edge_index, num_edges: self.shape.num_edges() },
            );
        }
        let ghost lrs = layer_requests(layers@);
        proof {
            self.lemma_edges_oriented(edge_index as int);
        }
        let edge = self.shape.get_edge(edge_index);
        let edge_range = match edge.get_coord_range() {
            Some(v) => v,
            None => {
                return Err(
                    BatchPinPlacementError::EdgeOutOfBounds {
                        edge_index,
                        num_edges: self.shape.num_edges(),
                    },
                );
            },
        };
        let edge_min = edge_range.min.unwrap();
        let req = Range {
            min: match position_range.min {
                Some(v) => Some(edge_min + v),
                None => None,
            },
            max: match position_range.max {
                Some(v) => Some(edge_min + v),
                None => None,
            },
        };
        if !req.bounds_within(&edge_range) {
            return Err(
                BatchPinPlacementError::RequestOutOfBounds { edge_index, edge_range, req_range: req },
            );
        }
        let ghost spacing_spec = Seq::new(
            lrs.len(),
            |l: int| self.spacing_of(edge_index as int, lrs[l].0, req, min_spacing),
        );
        let (spacing, cands) = self.collect_candidates(
            edge_index,
            &edge,
            layers,
            &req,
            min_spacing,
            Ghost(lrs),
            Ghost(position_range),
        );
        let ghost cs = keys(cands@);
        let ghost start = *self;
        let ghost init = (
            self.occ_view(),
            self.pins_view(),
            0int,
            Seq::new(lrs.len(), |l: int| None::<int>),
        );
        let mut placed: usize = 0;
        let mut last: Vec<Option<i64>> = Vec::new();
        for l in 0..layers.len()
            invariant
                last@.len() == l,
                forall|j: int| 0 <= j < l ==> #[trigger] last@[j] is None,
        {
            last.push(None);
        }
        assert(spacing_view(last@) =~= Seq::new(lrs.len(), |l: int| None::<int>));
        for i in 0..cands.len()
            invariant
                start == *old(self),
                start.wf(),
                self.wf(),
                self.shape == start.shape,
                self.tracks == start.tracks,
                edge_index < self.num_edges(),
                req == start.req_range(edge_index as int, position_range),
                lrs == layer_requests(layers@),
                start.batch_ok(edge_index as int, lrs, position_range, min_spacing),
                cs == keys(cands@),
                strictly_sorted(cs),
                forall|c: CandidateKey|
                    #[trigger] cs.contains(c) <==> start.is_candidate(edge_index as int, lrs, req, c),
                spacing_view(spacing@) == spacing_spec,
                spacing_spec == Seq::new(
                    lrs.len(),
                    |l: int| start.spacing_of(edge_index as int, lrs[l].0, req, min_spacing),
                ),
                last@.len() == lrs.len(),
                forall|j: int| 0 <= j < lrs.len() ==> (#[trigger] last@[j] matches Some(v) ==> v >= 0),
                init == (start.occ_view(), start.pins_view(), 0int, Seq::new(lrs.len(), |l: int| None::<int>)),
                ({
                    let st = start.batch_fold(
                        edge_index as int,
                        lrs,
                        pin_requests(pins@),
                        spacing_spec,
                        req,
                        init,
                        cs.take(i as int),
                    );
                    &&& self.occ_view() == st.0
                    &&& self.pins_view() == st.1
                    &&& placed == st.2
                    &&& spacing_view(last@) == st.3
                }),
                placed <= pins@.len(),
        {
            let c = cands[i];
            assert(cs.take(i + 1).drop_last() =~= cs.take(i as int));
            assert(cs[i as int] == c.key());
            assert(cs.contains(c.key()));
            self.greedy_step(
                pins,
                edge_index,
                layers,
                c,
                &spacing,
                &mut last,
                &mut placed,
                Ghost(start),
                Ghost(req),
                Ghost(position_range),
                Ghost(min_spacing),
                Ghost(spacing_spec),
            );
        }
        assert(cs.take(cands@.len() as int) =~= cs);
        proof {
            let set = start.candidate_set(edge_index as int, lrs, req);
            let chosen = sorted_of(set);
            assert(strictly_sorted(cs) && forall|c: CandidateKey|
                #[trigger] cs.contains(c) <==> set.contains(c));
            lemma_sorted_unique(chosen, cs);
        }
        if placed == pins.len() {
            Ok(())
        } else {
            Err(BatchPinPlacementError::RanOutOfLayers { requested: pins.len(), placed })
        }
    }

    /// Finds the spacing of each layer and the free tracks of the request,
    /// sorted.
    fn collect_candidates(
        &self,
        edge_index: usize,
        edge: &Edge,
        layers: &[LayerShapes],
        req: &Range,
        min_spacing: Option<i64>,
        Ghost(lrs): Ghost<Seq<LayerRequest>>,
        Ghost(position_range): Ghost<Range>,
    ) -> (r: (Vec<Option<i64>>, Vec<Candidate>))
        requires
            self.wf(),
            edge_index < self.num_edges(),
            *edge == spec_edge(self.shape, edge_index as int),
            *req == self.req_range(edge_index as int, position_range),
            lrs == layer_requests(layers@),
            self.batch_ok(edge_index as int, lrs, position_range, min_spacing),
        ensures
            spacing_view(r.0@) == Seq::new(
                lrs.len(),
                |l: int| self.spacing_of(edge_index as int, lrs[l].0, *req, min_spacing),
            ),
            strictly_sorted(keys(r.1@)),
            forall|c: CandidateKey|
                #[trigger] keys(r.1@).contains(c) <==> self.is_candidate(edge_index as int, lrs, *req, c),
    {
        let ghost spacing_spec = Seq::new(
            lrs.len(),
            |l: int| self.spacing_of(edge_index as int, lrs[l].0, *req, min_spacing),
        );
        let mut spacing: Vec<Option<i64>> = Vec::new();
        let mut cands: Vec<Candidate> = Vec::new();
        for l in 0..layers.len()
            invariant
                self.wf(),
                edge_index < self.num_edges(),
                *edge == spec_edge(self.shape, edge_index as int),
                *req == self.req_range(edge_index as int, position_range),
                lrs == layer_requests(layers@),
                self.batch_ok(edge_index as int, lrs, position_range, min_spacing),
                spacing_spec == Seq::new(
                    lrs.len(),
                    |l: int| self.spacing_of(edge_index as int, lrs[l].0, *req, min_spacing),
                ),
                spacing@.len() == l,
                forall|j: int| 0 <= j < l ==> #[trigger] spacing_view(spacing@)[j] == spacing_spec[j],
                strictly_sorted(keys(cands@)),
                forall|j: int| 0 <= j < cands@.len() ==> (#[trigger] cands@[j]).layer_idx < l,
                forall|c: CandidateKey|
                    #[trigger] keys(cands@).contains(c) <==> (self.is_candidate(
                        edge_index as int,
                        lrs,
                        *req,
                        c,
                    ) && c.1 < l),
        {
            self.collect_layer(
                edge_index,
                edge,
                layers,
                l,
                req,
                min_spacing,
                Ghost(lrs),
                Ghost(position_range),
                Ghost(spacing_spec),
                &mut spacing,
                &mut cands,
            );
        }
        assert(spacing_view(spacing@) =~= spacing_spec);
        (spacing, cands)
    }

    /// Finds the spacing and the free tracks of layer `l`.
    fn collect_layer(
        &self,
        edge_index: usize,
        edge: &Edge,
        layers: &[LayerShapes],
        l: usize,
        req: &Range,
        min_spacing: Option<i64>,
        Ghost(lrs): Ghost<Seq<LayerRequest>>,
        Ghost(position_range): Ghost<Range>,
        Ghost(spacing_spec): Ghost<Seq<Option<int>>>,
        spacing: &mut Vec<Option<i64>>,
        cands: &mut Vec<Candidate>,
    )
        requires
            self.wf(),
            edge_index < self.num_edges(),
            *edge == spec_edge(self.shape, edge_index as int),
            *req == self.req_range(edge_index as int, position_range),
            lrs == layer_requests(layers@),
            l < lrs.len(),
            self.batch_ok(edge_index as int, lrs, position_range, min_spacing),
            spacing_spec == Seq::new(
                lrs.len(),
                |l: int| self.spacing_of(edge_index as int, lrs[l].0, *req, min_spacing),
            ),
            old(spacing)@.len() == l,
            forall|j: int| 0 <= j < l ==> #[trigger] spacing_view(old(spacing)@)[j] == spacing_spec[j],
            strictly_sorted(keys(old(cands)@)),
            forall|j: int| 0 <= j < old(cands)@.len() ==> (#[trigger] old(cands)@[j]).layer_idx < l,
            forall|c: CandidateKey|
                #[trigger] keys(old(cands)@).contains(c) <==> (self.is_candidate(
                    edge_index as int,
                    lrs,
                    *req,
                    c,
                ) && c.1 < l),
        ensures
            final(spacing)@.len() == l + 1,
            forall|j: int| 0 <= j < l + 1 ==> #[trigger] spacing_view(final(spacing)@)[j] == spacing_spec[j],
            strictly_sorted(keys(final(cands)@)),
            forall|j: int| 0 <= j < final(cands)@.len() ==> (#[trigger] final(cands)@[j]).layer_idx < l + 1,
            forall|c: CandidateKey|
                #[trigger] keys(final(cands)@).contains(c) <==> (self.is_candidate(
                    edge_index as int,
                    lrs,
                    *req,
                    c,
                ) && c.1 < l + 1),
    {
        assert(self.layer_batch_ok(edge_index as int, lrs[l as int], *req, min_spacing));
        assert(lrs[l as int].0 == layers@[l as int].layer@);
        let lname = layers[l].layer.as_str();
        let ghost sp_before = spacing@;
        let ghost cands_before = keys(cands@);
        match self.layer_window_exec(edge_index, edge, lname, req) {
            None => {
                spacing.push(None);
                proof {
                    assert forall|j: int| 0 <= j < l + 1 implies #[trigger] spacing_view(spacing@)[j]
                        == spacing_spec[j] by {
                        if j < l {
                            assert(spacing@[j] == sp_before[j]);
                            assert(spacing_view(sp_before)[j] == spacing_spec[j]);
                        }
                    }
                }
            },
            Some((t, lo, hi)) => {
                proof {
                    self.lemma_window_on_edge(edge_index as int, lrs[l as int].0, *req);
                }
                let ghost w = self.layer_window(edge_index as int, lrs[l as int].0, *req)->0;
                let ntracks = self.tracks.0.len();
                assert(lname@ == lrs[l as int].0);
                assert(self.layer_window(edge_index as int, lname@, *req) == Some(w));
                assert(t == w.0 as usize);
                assert(t as int == w.0);
                assert(self.layer(lrs[l as int].0) == Some(t as int));
                let track = &self.tracks.0[t];
                let sp = match min_spacing {
                    Some(v) => Some(div_rem_pos(v + track.period - 1, track.period).0),
                    None => None,
                };
                spacing.push(sp);
                proof {
                    assert forall|j: int| 0 <= j < l + 1 implies #[trigger] spacing_view(spacing@)[j]
                        == spacing_spec[j] by {
                        if j < l {
                            assert(spacing@[j] == sp_before[j]);
                            assert(spacing_view(sp_before)[j] == spacing_spec[j]);
                        }
                    }
                }
                self.add_layer_candidates(edge_index, edge, l, t, lo, hi, Ghost(lrs), Ghost(*req), cands);
            },
        }
        proof {
            assert forall|c: CandidateKey|
                #[trigger] keys(cands@).contains(c) <==> (self.is_candidate(
                    edge_index as int,
                    lrs,
                    *req,
                    c,
                ) && c.1 < l + 1) by {
                if c.1 == l && self.is_candidate(edge_index as int, lrs, *req, c) {
                    assert(self.layer_window(edge_index as int, lrs[l as int].0, *req) is Some);
                }
                if cands_before.contains(c) {
                    assert(keys(cands@).contains(c));
                }
            }
        }
    }

    /// Track `k` of layer `t` on edge `e` lies on the edge, so its position
    /// can be computed.
    proof fn lemma_position_ok(self, e: int, t: int, k: int)
        requires
            self.wf(),
            0 <= e < self.num_edges(),
            0 <= t < self.defs().len(),
            spec_edge(self.shape, e).spec_index_range(self.defs()[t]) is Some,
            0 <= k < occupancy_len(spec_edge(self.shape, e), self.defs()[t]),
        ensures
            spec_edge(self.shape, e).position_on_edge_ok(self.defs()[t], k),
    {
        let ee = spec_edge(self.shape, e);
        let tt = self.defs()[t];
        assert(tracks_fit(self.shape, self.defs()));
        assert(ee.index_range_ok(tt));
    }

    /// Adds the free tracks of the window of layer `l` as candidates.
    fn add_layer_candidates(
        &self,
        edge_index: usize,
        edge: &Edge,
        l: usize,
        t: usize,
        lo: usize,
        hi: usize,
        Ghost(lrs): Ghost<Seq<LayerRequest>>,
        Ghost(req): Ghost<Range>,
        cands: &mut Vec<Candidate>,
    )
        requires
            self.wf(),
            edge_index < self.num_edges(),
            *edge == spec_edge(self.shape, edge_index as int),
            l < lrs.len(),
            self.layer_window(edge_index as int, lrs[l as int].0, req) == Some((t as int, lo as int, hi as int)),
            strictly_sorted(keys(old(cands)@)),
            forall|j: int| 0 <= j < old(cands)@.len() ==> (#[trigger] old(cands)@[j]).layer_idx < l,
        ensures
            strictly_sorted(keys(final(cands)@)),
            forall|j: int| 0 <= j < final(cands)@.len() ==> (#[trigger] final(cands)@[j]).layer_idx <= l,
            forall|c: CandidateKey|
                #[trigger] keys(final(cands)@).contains(c) <==> (keys(old(cands)@).contains(c) || (
                self.is_candidate(edge_index as int, lrs, req, c) && c.1 == l)),
    {
        proof {
            self.lemma_window_on_edge(edge_index as int, lrs[l as int].0, req);
        }
        let ghost tt = self.defs()[t as int];
        let ghost ee = spec_edge(self.shape, edge_index as int);
        assert(occupancy_matches(self.occ(edge_index as int, t as int), ee, tt));
        let track = &self.tracks.0[t];
        let occ = self.occupancies[edge_index][t].as_ref().unwrap();
        let avail = occ.get_available_indices_in_range(lo, hi);
        let ghost base = keys(cands@);
        assert(self.occ_view()[edge_index as int][t as int] == Some((occ.pins(), occ.keepouts())));
        for k in lo..hi + 1
            invariant
                self.wf(),
                *edge == ee,
                ee == spec_edge(self.shape, edge_index as int),
                tt == self.defs()[t as int],
                (t as int) < self.defs().len(),
                *track == tt,
                edge_index < self.num_edges(),
                l < lrs.len(),
                self.layer_window(edge_index as int, lrs[l as int].0, req) == Some((t as int, lo as int, hi as int)),
                hi < occupancy_len(ee, tt),
                ee.spec_index_range(tt) is Some,
                bitset_bits(avail) == Seq::new(
                    occ.num_tracks(),
                    |i: int| lo <= i <= hi && !occ.pins()[i] && !occ.keepouts()[i],
                ),
                occ.num_tracks() == occupancy_len(ee, tt),
                self.occ_view()[edge_index as int][t as int] == Some((occ.pins(), occ.keepouts())),
                base == keys(old(cands)@),
                strictly_sorted(keys(cands@)),
                forall|j: int|
                    0 <= j < cands@.len() ==> (#[trigger] cands@[j]).layer_idx < l || (
                    cands@[j].layer_idx == l && cands@[j].track_index < k),
                forall|c: CandidateKey|
                    #[trigger] keys(cands@).contains(c) <==> (base.contains(c) || (
                    self.is_candidate(edge_index as int, lrs, req, c) && c.1 == l && c.2 < k)),
        {
            if bitset_contains(&avail, k) {
                proof {
                    self.lemma_position_ok(edge_index as int, t as int, k as int);
                }
                let position = edge.get_position_on_edge(track, k);
                let c = Candidate { position, layer_idx: l, track_index: k };
                insert_sorted(cands, c);
                assert(self.is_candidate(edge_index as int, lrs, req, c.key()));
            } else {
                assert forall|c: CandidateKey| c.1 == l && c.2 == k implies !#[trigger] self.is_candidate(
                    edge_index as int,
                    lrs,
                    req,
                    c,
                ) by {}
            }
        }
        proof {
            assert forall|c: CandidateKey|
                #[trigger] keys(cands@).contains(c) <==> (base.contains(c) || (self.is_candidate(
                    edge_index as int,
                    lrs,
                    req,
                    c,
                ) && c.1 == l)) by {
                if self.is_candidate(edge_index as int, lrs, req, c) && c.1 == l {
                    assert(c.2 <= hi);
                }
            }
        }
    }

    /// Offers candidate `c` the next pin: it is skipped when all pins are
    /// placed, when it is too close to the last pin of its layer, or when
    /// its shapes do not fit; otherwise the pin is placed there.
    fn greedy_step(
        &mut self,
        pins: &[(String, usize)],
        edge_index: usize,
        layers: &[LayerShapes],
        c: Candidate,
        spacing: &Vec<Option<i64>>,
        last: &mut Vec<Option<i64>>,
        placed: &mut usize,
        Ghost(start): Ghost<PinPlan>,
        Ghost(req): Ghost<Range>,
        Ghost(position_range): Ghost<Range>,
        Ghost(min_spacing): Ghost<Option<i64>>,
        Ghost(spacing_spec): Ghost<Seq<Option<int>>>,
    )
        requires
            start.wf(),
            old(self).wf(),
            old(self).shape == start.shape,
            old(self).tracks == start.tracks,
            edge_index < start.num_edges(),
            req == start.req_range(edge_index as int, position_range),
            start.batch_ok(edge_index as int, layer_requests(layers@), position_range, min_spacing),
            start.is_candidate(edge_index as int, layer_requests(layers@), req, c.key()),
            spacing_view(spacing@) == spacing_spec,
            spacing_spec.len() == layers@.len(),
            old(last)@.len() == layers@.len(),
            forall|j: int| 0 <= j < layers@.len() ==> (#[trigger] old(last)@[j] matches Some(v) ==> v >= 0),
            *old(placed) <= pins@.len(),
        ensures
            final(self).wf(),
            final(self).shape == start.shape,
            final(self).tracks == start.tracks,
            final(last)@.len() == layers@.len(),
            forall|j: int| 0 <= j < layers@.len() ==> (#[trigger] final(last)@[j] matches Some(v) ==> v >= 0),
            *final(placed) <= pins@.len(),
            ({
                let st = start.batch_step(
                    edge_index as int,
                    layer_requests(layers@),
                    pin_requests(pins@),
                    spacing_spec,
                    req,
                    (old(self).occ_view(), old(self).pins_view(), *old(placed) as int, spacing_view(old(last)@)),
                    c.key(),
                );
                &&& final(self).occ_view() == st.0
                &&& final(self).pins_view() == st.1
                &&& *final(placed) == st.2
                &&& spacing_view(final(last)@) == st.3
            }),
    {
        let ghost lrs = layer_requests(layers@);
        proof {
            start.lemma_window_on_edge(edge_index as int, lrs[c.layer_idx as int].0, req);
        }
        if *placed >= pins.len() {
            return;
        }
        let skip = match (last[c.layer_idx], spacing[c.layer_idx]) {
            (Some(prev), Some(min_sp)) => (c.track_index as i64) - prev < min_sp,
            _ => false,
        };
        assert(spacing_view(last@)[c.layer_idx as int] == match last@[c.layer_idx as int] {
            Some(v) => Some(v as int),
            None => None::<int>,
        });
        assert(spacing_view(spacing@)[c.layer_idx as int] == match spacing@[c.layer_idx as int] {
            Some(v) => Some(v as int),
            None => None::<int>,
        });
        if skip {
            return;
        }
        let shapes = &layers[c.layer_idx];
        let lname = shapes.layer.as_str();
        proof {
            assert(lrs[c.layer_idx as int] == (shapes.layer@, shapes.pin.pts(), shape_points(shapes.keepout)));
            assert(start.layer_batch_ok(edge_index as int, lrs[c.layer_idx as int], req, min_spacing));
            start.lemma_candidate_placeable(
                *self,
                edge_index as int,
                lrs[c.layer_idx as int],
                req,
                min_spacing,
                c.track_index as int,
            );
            self.lemma_check_is_record_allows(
                edge_index as int,
                lname@,
                c.track_index as int,
                Some(shapes.pin.pts()),
                shape_points(shapes.keepout),
            );
        }
        let ghost before = *self;
        let keepout = shapes.keepout.as_ref();
        assert(owned(keepout) == shape_points(shapes.keepout));
        assert(pin_requests(pins@)[*placed as int] == (pins@[*placed as int].0@, pins@[*placed as int].1));
        match self.place_pin_on_edge_index_with_polygon(
            pins[*placed].0.as_str(),
            pins[*placed].1,
            edge_index,
            lname,
            c.track_index,
            Some(&shapes.pin),
            keepout,
        ) {
            Ok(()) => {
                proof {
                    before.lemma_placed_views(
                        *self,
                        pins@[*placed as int].0@,
                        pins@[*placed as int].1,
                        edge_index as int,
                        lname@,
                        c.track_index as int,
                        Some(shapes.pin.pts()),
                        shape_points(shapes.keepout),
                    );
                }
                let ghost last_before = last@;
                last.set(c.layer_idx, Some(c.track_index as i64));
                *placed = *placed + 1;
                proof {
                    assert(spacing_view(last@) =~= spacing_view(last_before).update(
                        c.layer_idx as int,
                        Some(c.track_index as int),
                    ));
                }
            },
            Err(_) => {},
        }
    }
}

/// Two strictly sorted sequences holding the same candidates are equal.
pub proof fn lemma_sorted_unique(a: Seq<CandidateKey>, b: Seq<CandidateKey>)
    requires
        strictly_sorted(a),
        strictly_sorted(b),
        forall|c: CandidateKey| a.contains(c) <==> b.contains(c),
    ensures
        a == b,
    decreases a.len(),
{
    if a.len() == 0 {
        if b.len() > 0 {
            assert(b.contains(b[0]));
        }
        assert(a =~= b);
    } else {
        assert(a.contains(a[0]));
        assert(b.len() > 0);
        assert(b.contains(b[0]));
        let i = choose|i: int| 0 <= i < a.len() && a[i] == b[0];
        let j = choose|j: int| 0 <= j < b.len() && b[j] == a[0];
        if j > 0 {
            assert(key_less(b[0], b[j]));
            if i > 0 {
                assert(key_less(a[0], a[i]));
            }
            assert(false);
        }
        assert(a[0] == b[0]);
        let a2 = a.drop_first();
        let b2 = b.drop_first();
        assert forall|c: CandidateKey| a2.contains(c) <==> b2.contains(c) by {
            if a2.contains(c) {
                let k = choose|k: int| 0 <= k < a2.len() && a2[k] == c;
                assert(a[k + 1] == c);
                assert(key_less(a[0], a[k + 1]));
                assert(a.contains(c));
                let m = choose|m: int| 0 <= m < b.len() && b[m] == c;
                if m == 0 {
                    assert(false);
                }
                assert(b2[m - 1] == c);
            }
            if b2.contains(c) {
                let k = choose|k: int| 0 <= k < b2.len() && b2[k] == c;
                assert(b[k + 1] == c);
                assert(key_less(b[0], b[k + 1]));
                assert(b.contains(c));
                let m = choose|m: int| 0 <= m < a.len() && a[m] == c;
                if m == 0 {
                    assert(false);
                }
                assert(a2[m - 1] == c);
            }
        }
        assert(strictly_sorted(a2)) by {
            assert forall|x: int, y: int| 0 <= x < y < a2.len() implies key_less(#[trigger] a2[x], #[trigger] a2[y]) by {
                assert(a2[x] == a[x + 1] && a2[y] == a[y + 1]);
            }
        }
        assert(strictly_sorted(b2)) by {
            assert forall|x: int, y: int| 0 <= x < y < b2.len() implies key_less(#[trigger] b2[x], #[trigger] b2[y]) by {
                assert(b2[x] == b[x + 1] && b2[y] == b[y + 1]);
            }
        }
        lemma_sorted_unique(a2, b2);
        assert(a =~= seq![a[0]] + a2);
        assert(b =~= seq![b[0]] + b2);
    }
}

/// Plans that agree on the outline, the tracks and the taken tracks have
/// the same candidates, in the same order.
pub proof fn lemma_candidates_congruent(p1: PinPlan, p2: PinPlan, edge_index: int, layers: Seq<LayerRequest>, req: Range)
    requires
        p1.shape == p2.shape,
        p1.tracks == p2.tracks,
        p1.occ_view() == p2.occ_view(),
    ensures
        p1.sorted_candidates(edge_index, layers, req) == p2.sorted_candidates(edge_index, layers, req),
{
    assert(p1.candidate_set(edge_index, layers, req) =~= p2.candidate_set(edge_index, layers, req));
}

/// The batch placement does not look at a plan's occupancies or pins,
/// only at its outline and tracks.
pub proof fn lemma_fold_congruent(
    p1: PinPlan,
    p2: PinPlan,
    edge_index: int,
    layers: Seq<LayerRequest>,
    pins: Seq<(Seq<char>, usize)>,
    spacing: Seq<Option<int>>,
    req: Range,
    st: BatchState,
    cs: Seq<CandidateKey>,
)
    requires
        p1.shape == p2.shape,
        p1.tracks == p2.tracks,
    ensures
        p1.batch_fold(edge_index, layers, pins, spacing, req, st, cs) == p2.batch_fold(
            edge_index,
            layers,
            pins,
            spacing,
            req,
            st,
            cs,
        ),
    decreases cs.len(),
{
    if cs.len() > 0 {
        lemma_fold_congruent(p1, p2, edge_index, layers, pins, spacing, req, st, cs.drop_last());
    }
}

/// The pins recorded before a batch placement do not change which
/// candidates get pins.
pub proof fn lemma_fold_ignores_records(
    p: PinPlan,
    edge_index: int,
    layers: Seq<LayerRequest>,
    pins: Seq<(Seq<char>, usize)>,
    spacing: Seq<Option<int>>,
    req: Range,
    st1: BatchState,
    st2: BatchState,
    cs: Seq<CandidateKey>,
)
    requires
        st1.0 == st2.0,
        st1.2 == st2.2,
        st1.3 == st2.3,
    ensures
        ({
            let f1 = p.batch_fold(edge_index, layers, pins, spacing, req, st1, cs);
            let f2 = p.batch_fold(edge_index, layers, pins, spacing, req, st2, cs);
            f1.0 == f2.0 && f1.2 == f2.2 && f1.3 == f2.3
        }),
    decreases cs.len(),
{
    if cs.len() > 0 {
        lemma_fold_ignores_records(p, edge_index, layers, pins, spacing, req, st1, st2, cs.drop_last());
    }
}

/// A plan with the same outline, tracks and taken tracks places as many
/// pins, whatever pins it recorded before.
pub proof fn lemma_outcome_congruent(
    p1: PinPlan,
    p2: PinPlan,
    edge_index: int,
    layers: Seq<LayerRequest>,
    pins: Seq<(Seq<char>, usize)>,
    position_range: Range,
    min_spacing: Option<i64>,
)
    requires
        p1.shape == p2.shape,
        p1.tracks == p2.tracks,
        p1.occ_view() == p2.occ_view(),
    ensures
        p1.batch_outcome(edge_index, layers, pins, position_range, min_spacing).0 == p2.batch_outcome(
            edge_index,
            layers,
            pins,
            position_range,
            min_spacing,
        ).0,
        p1.batch_outcome(edge_index, layers, pins, position_range, min_spacing).2 == p2.batch_outcome(
            edge_index,
            layers,
            pins,
            position_range,
            min_spacing,
        ).2,
        p1.pins_view() == p2.pins_view() ==> p1.batch_outcome(
            edge_index,
            layers,
            pins,
            position_range,
            min_spacing,
        ) == p2.batch_outcome(edge_index, layers, pins, position_range, min_spacing),
{
    let req = p1.req_range(edge_index, position_range);
    assert(req == p2.req_range(edge_index, position_range));
    let spacing = Seq::new(
        layers.len(),
        |l: int| p1.spacing_of(edge_index, layers[l].0, req, min_spacing),
    );
    assert(spacing =~= Seq::new(
        layers.len(),
        |l: int| p2.spacing_of(edge_index, layers[l].0, req, min_spacing),
    ));
    lemma_candidates_congruent(p1, p2, edge_index, layers, req);
    let cs = p1.sorted_candidates(edge_index, layers, req);
    let st1 = (p1.occ_view(), p1.pins_view(), 0int, Seq::new(layers.len(), |l: int| None::<int>));
    let st2 = (p2.occ_view(), p2.pins_view(), 0int, Seq::new(layers.len(), |l: int| None::<int>));
    lemma_fold_congruent(p1, p2, edge_index, layers, pins, spacing, req, st2, cs);
    lemma_fold_ignores_records(p1, edge_index, layers, pins, spacing, req, st1, st2, cs);
}

impl PinPlan {
    /// The request window lies within the edge.
    pub open spec fn request_in_edge(self, edge_index: int, position_range: Range) -> bool {
        self.req_range(edge_index, position_range).spec_bounds_within(
            spec_edge(self.shape, edge_index).spec_coord_range()->0,
        )
    }

    /// Placing the request with spacing `s` would place every pin.
    pub open spec fn spacing_works(
        self,
        edge_index: int,
        layers: Seq<LayerRequest>,
        pins: Seq<(Seq<char>, usize)>,
        position_range: Range,
        s: int,
    ) -> bool {
        self.request_in_edge(edge_index, position_range) && self.batch_outcome(
            edge_index,
            layers,
            pins,
            position_range,
            Some(s as i64),
        ).2 == pins.len()
    }

    /// The spacing found by bisection between `lo`, which is kept as the
    /// fallback, and `hi`: each step tries the upper middle and keeps the
    /// half that its result points to.
    pub open spec fn spec_search(
        self,
        edge_index: int,
        layers: Seq<LayerRequest>,
        pins: Seq<(Seq<char>, usize)>,
        position_range: Range,
        lo: int,
        hi: int,
    ) -> int
        decreases hi - lo,
    {
        if lo < hi {
            let mid = (lo + hi + 1) / 2;
            if self.spacing_works(edge_index, layers, pins, position_range, mid) {
                self.spec_search(edge_index, layers, pins, position_range, mid, hi)
            } else {
                self.spec_search(edge_index, layers, pins, position_range, lo, mid - 1)
            }
        } else {
            lo
        }
    }

    /// The widest spacing searched: the requested window's length, or up
    /// to the edge's length where the window is open.
    pub open spec fn search_span(self, edge_index: int, position_range: Range) -> int {
        let er = spec_edge(self.shape, edge_index).spec_coord_range()->0;
        let d = match (position_range.min, position_range.max) {
            (Some(a), Some(b)) => b - a,
            _ => {
                let a = match position_range.min {
                    Some(v) => v as int,
                    None => 0,
                };
                let b = match position_range.max {
                    Some(v) => v as int,
                    None => er.max->0 - er.min->0,
                };
                b - a
            },
        };
        if d > 0 {
            d
        } else {
            0
        }
    }

    /// A spread request can be computed: the span of the search and each
    /// probe fit in `i64`, and every spacing probed is a valid batch.
    pub open spec fn spread_ok(self, edge_index: int, layers: Seq<LayerRequest>, position_range: Range) -> bool {
        let er = spec_edge(self.shape, edge_index).spec_coord_range()->0;
        &&& fits_i64(er.max->0 - er.min->0)
        &&& (position_range.min matches Some(a) ==> (position_range.max matches Some(b) ==> fits_i64(b - a)))
        &&& (position_range.min matches Some(a) ==> (position_range.max is None ==> fits_i64(er.max->0 - er.min->0 - a)))
        &&& (position_range.min is None ==> (position_range.max matches Some(b) ==> fits_i64(b as int)))
        &&& 2 * self.search_span(edge_index, position_range) + 1 <= i64::MAX
        &&& forall|s: int|
            0 <= s <= self.search_span(edge_index, position_range) ==> #[trigger] self.batch_ok(
                edge_index,
                layers,
                position_range,
                Some(s as i64),
            )
    }

    /// A copy of the occupancy table with the same tracks taken.
    fn copy_occupancies(&self) -> (r: Vec<Vec<Option<TrackOccupancy>>>)
        requires
            self.table_shaped(),
        ensures
            r@.len() == self.occupancies@.len(),
            forall|e: int| 0 <= e < r@.len() ==> (#[trigger] r@[e])@.len() == self.occupancies@[e]@.len(),
            forall|e: int, t: int|
                0 <= e < r@.len() && 0 <= t < r@[e]@.len() ==> match (#[trigger] r@[e]@[t], self.occ(e, t)) {
                    (Some(a), Some(b)) => a.pins() == b.pins() && a.keepouts() == b.keepouts(),
                    (None, None) => true,
                    _ => false,
                },
    {
        let mut out: Vec<Vec<Option<TrackOccupancy>>> = Vec::new();
        for e in 0..self.occupancies.len()
            invariant
                self.table_shaped(),
                out@.len() == e,
                forall|j: int| 0 <= j < e ==> (#[trigger] out@[j])@.len() == self.occupancies@[j]@.len(),
                forall|j: int, t: int|
                    0 <= j < e && 0 <= t < out@[j]@.len() ==> match (#[trigger] out@[j]@[t], self.occ(j, t)) {
                        (Some(a), Some(b)) => a.pins() == b.pins() && a.keepouts() == b.keepouts(),
                        (None, None) => true,
                        _ => false,
                    },
        {
            let row = &self.occupancies[e];
            let mut new_row: Vec<Option<TrackOccupancy>> = Vec::new();
            for t in 0..row.len()
                invariant
                    new_row@.len() == t,
                    *row == self.occupancies@[e as int],
                    forall|u: int| 0 <= u < t ==> match (#[trigger] new_row@[u], self.occ(e as int, u)) {
                        (Some(a), Some(b)) => a.pins() == b.pins() && a.keepouts() == b.keepouts(),
                        (None, None) => true,
                        _ => false,
                    },
            {
                match row[t].as_ref() {
                    Some(o) => new_row.push(Some(o.copy())),
                    None => new_row.push(None),
                }
            }
            out.push(new_row);
        }
        out
    }

    /// Whether placing the request with spacing `spacing` would place every
    /// pin; the plan is left as it was.
    fn try_spacing(
        &mut self,
        pins: &[(String, usize)],
        edge_index: usize,
        layers: &[LayerShapes],
        position_range: Range,
        spacing: i64,
    ) -> (r: bool)
        requires
            old(self).wf(),
            edge_index < old(self).num_edges(),
            spacing >= 0,
            distinct_layers(layer_requests(layers@)),
            old(self).batch_ok(edge_index as int, layer_requests(layers@), position_range, Some(spacing)),
        ensures
            *final(self) == *old(self),
            r == old(self).spacing_works(
                edge_index as int,
                layer_requests(layers@),
                pin_requests(pins@),
                position_range,
                spacing as int,
            ),
    {
        let mut occupancies = self.copy_occupancies();
        std::mem::swap(&mut self.occupancies, &mut occupancies);
        let mut saved_pins: Vec<PlacedPin> = Vec::new();
        std::mem::swap(&mut self.pins, &mut saved_pins);
        proof {
            assert forall|e: int, t: int|
                0 <= e < self.num_edges() && 0 <= t < self.defs().len() implies occupancy_matches(
                #[trigger] self.occ(e, t),
                spec_edge(self.shape, e),
                self.defs()[t],
            ) by {
                assert(occupancy_matches(old(self).occ(e, t), spec_edge(old(self).shape, e), old(self).defs()[t]));
            }
            assert(self.occ_view() =~= old(self).occ_view()) by {
                assert forall|e: int| 0 <= e < self.num_edges() implies #[trigger] self.occ_view()[e]
                    =~= old(self).occ_view()[e] by {}
            }
            lemma_batch_ok_congruent(*old(self), *self, edge_index as int, layer_requests(layers@), position_range, Some(spacing));
            lemma_outcome_congruent(
                *self,
                *old(self),
                edge_index as int,
                layer_requests(layers@),
                pin_requests(pins@),
                position_range,
                Some(spacing),
            );
        }
        let r = self.place_pins_on_edge_index_with_polygons(
            pins,
            edge_index,
            layers,
            position_range,
            Some(spacing),
        );
        let ok = r.is_ok();
        self.occupancies = occupancies;
        self.pins = saved_pins;
        ok
    }

    /// Places bits `pins` on edge `edge_index` as far apart as a bisection
    /// over the spacing finds possible: it tries spacings from the width of
    /// the window down, keeps the largest that placed every pin, and then
    /// places the pins with it (with spacing 0 if none did).
    pub fn spread_pins_on_edge_index_with_polygons(
        &mut self,
        pins: &[(String, usize)],
        edge_index: usize,
        layers: &[LayerShapes],
        position_range: Range,
    ) -> (r: Result<i64, BatchPinPlacementError>)
        requires
            old(self).wf(),
            edge_index < old(self).num_edges() ==> old(self).spread_ok(edge_index as int, layer_requests(layers@), position_range),
            distinct_layers(layer_requests(layers@)),
        ensures
            final(self).wf(),
            final(self).shape == old(self).shape,
            final(self).tracks == old(self).tracks,
            edge_index >= old(self).num_edges() ==> {
                &&& r == Err::<i64, BatchPinPlacementError>(
                    BatchPinPlacementError::EdgeOutOfBounds {
                        edge_index,
                        num_edges: old(self).num_edges() as usize,
                    },
                )
                &&& *final(self) == *old(self)
            },
            edge_index < old(self).num_edges() ==> ({
                let lrs = layer_requests(layers@);
                let best = old(self).spec_search(
                    edge_index as int,
                    lrs,
                    pin_requests(pins@),
                    position_range,
                    0,
                    old(self).search_span(edge_index as int, position_range),
                );
                let req = old(self).req_range(edge_index as int, position_range);
                let edge_range = spec_edge(old(self).shape, edge_index as int).spec_coord_range()->0;
                if !req.spec_bounds_within(edge_range) {
                    &&& r == Err::<i64, BatchPinPlacementError>(
                        BatchPinPlacementError::RequestOutOfBounds {
                            edge_index,
                            edge_range,
                            req_range: req,
                        },
                    )
                    &&& *final(self) == *old(self)
                } else {
                    let st = old(self).batch_outcome(
                        edge_index as int,
                        lrs,
                        pin_requests(pins@),
                        position_range,
                        Some(best as i64),
                    );
                    &&& final(self).occ_view() == st.0
                    &&& final(self).pins_view() == st.1
                    &&& r == if st.2 == pins@.len() {
                        Ok::<i64, BatchPinPlacementError>(best as i64)
                    } else {
                        Err(
                            BatchPinPlacementError::RanOutOfLayers {
                                requested: pins@.len() as usize,
                                placed: st.2 as usize,
                            },
                        )
                    }
                }
            }),
    {
        if edge_index >= self.shape.num_edges() {
            return Err(
                BatchPinPlacementError::EdgeOutOfBounds { edge_index, num_edges: self.shape.num_edges() },
            );
        }
        let ghost lrs = layer_requests(layers@);
        proof {
            self.lemma_edges_oriented(edge_index as int);
        }
        let search_span = match (position_range.min, position_range.max) {
            (Some(a), Some(b)) => {
                let d = b - a;
                if d > 0 {
                    d
                } else {
                    0
                }
            },
            _ => {
                let edge = self.shape.get_edge(edge_index);
                let er = edge.get_coord_range().unwrap();
                let a = match position_range.min {
                    Some(v) => v,
                    None => 0,
                };
                let b = match position_range.max {
                    Some(v) => v,
                    None => er.max.unwrap() - er.min.unwrap(),
                };
                let d = b - a;
                if d > 0 {
                    d
                } else {
                    0
                }
            },
        };
        let ghost span = self.search_span(edge_index as int, position_range);
        assert(search_span == span);
        let mut lo: i64 = 0;
        let mut hi: i64 = search_span;
        while lo < hi
            invariant
                *self == *old(self),
                self.wf(),
                edge_index < self.num_edges(),
                lrs == layer_requests(layers@),
                distinct_layers(lrs),
                self.spread_ok(edge_index as int, lrs, position_range),
                span == self.search_span(edge_index as int, position_range),
                0 <= lo <= hi <= span,
                2 * span + 1 <= i64::MAX,
                self.spec_search(edge_index as int, lrs, pin_requests(pins@), position_range, 0, span)
                    == self.spec_search(
                    edge_index as int,
                    lrs,
                    pin_requests(pins@),
                    position_range,
                    lo as int,
                    hi as int,
                ),
            decreases hi - lo,
        {
            let mid = (lo + hi + 1) / 2;
            assert(self.batch_ok(edge_index as int, lrs, position_range, Some(mid)));
            if self.try_spacing(pins, edge_index, layers, position_range, mid) {
                lo = mid;
            } else {
                hi = mid - 1;
            }
        }
        assert(0 <= lo as int <= span);
        assert(self.batch_ok(edge_index as int, lrs, position_range, Some((lo as int) as i64)));
        match self.place_pins_on_edge_index_with_polygons(
            pins,
            edge_index,
            layers,
            position_range,
            Some(lo),
        ) {
            Ok(()) => Ok(lo),
            Err(e) => Err(e),
        }
    }
}

/// Whether a batch request can be computed depends only on the outline
/// and the tracks.
pub proof fn lemma_batch_ok_congruent(
    p1: PinPlan,
    p2: PinPlan,
    edge_index: int,
    layers: Seq<LayerRequest>,
    position_range: Range,
    min_spacing: Option<i64>,
)
    requires
        p1.shape == p2.shape,
        p1.tracks == p2.tracks,
        p1.batch_ok(edge_index, layers, position_range, min_spacing),
    ensures
        p2.batch_ok(edge_index, layers, position_range, min_spacing),
{
    let req = p1.req_range(edge_index, position_range);
    assert forall|l: int| 0 <= l < layers.len() implies #[trigger] p2.layer_batch_ok(edge_index, layers[l], req, min_spacing) by {
        assert(p1.layer_batch_ok(edge_index, layers[l], req, min_spacing));
        if let Some(t) = p2.layer(layers[l].0) {
            assert forall|k: int| 0 <= k < occupancy_len(spec_edge(p2.shape, edge_index), p2.defs()[t]) implies #[trigger] p2.layer_shapes_ok(edge_index, t, layers[l], k) by {
                assert(p1.layer_shapes_ok(edge_index, t, layers[l], k));
            }
        }
    }
}

/// Once a pin is placed, placing the same pin on the same track of the same
/// edge again is refused: its tracks now hold a pin.
pub proof fn lemma_placed_pin_blocks_its_tracks(
    before: PinPlan,
    after: PinPlan,
    port: Seq<char>,
    bit: usize,
    edge_index: int,
    layer: Seq<char>,
    track_index: int,
    pin_polygon: Seq<Coordinate>,
    keepout_polygon: Option<Seq<Coordinate>>,
)
    requires
        before.wf(),
        0 <= edge_index,
        before.check_ok(edge_index, layer, track_index, Some(pin_polygon), keepout_polygon),
        before.spec_check(edge_index, layer, track_index, Some(pin_polygon), keepout_polygon) is Allowed,
        before.spec_placed(after, port, bit, edge_index, layer, track_index, Some(pin_polygon), keepout_polygon),
    ensures
        ({
            let span = spec_polygon_span(before.defs()[before.layer(layer)->0], track_index, pin_polygon);
            after.spec_check(edge_index, layer, track_index, Some(pin_polygon), keepout_polygon)
                == PlacementCheck::Refused(
                PinPlacementError::OverlapsExistingPin {
                    min_index: span.0 as i64,
                    max_index: span.1 as i64,
                },
            )
        }),
{
    before.lemma_allowed(edge_index, layer, track_index, Some(pin_polygon), keepout_polygon);
    let t = before.layer(layer)->0;
    let span = spec_polygon_span(before.defs()[t], track_index, pin_polygon);
    let o = after.occ(edge_index, t)->0;
    assert(o.pins()[span.0]);
    assert(any_set(o.pins(), span.0, span.1 + 1));
}

/// Some request in `lrs` is for layer `name`.
pub open spec fn has_layer(lrs: Seq<LayerRequest>, name: Seq<char>) -> bool {
    exists|i: int| 0 <= i < lrs.len() && (#[trigger] lrs[i]).0 == name
}

/// The texts of some names.
pub open spec fn name_texts(names: Seq<String>) -> Seq<Seq<char>> {
    names.map_values(|s: String| s@)
}

impl PinPlan {
    /// The layers among `names`, first mention first, that have a default
    /// pin shape, each with its default pin and keepout shapes.
    pub open spec fn default_layer_requests(self, names: Seq<Seq<char>>) -> Seq<LayerRequest>
        decreases names.len(),
    {
        if names.len() == 0 {
            Seq::empty()
        } else {
            let prev = self.default_layer_requests(names.drop_last());
            let name = names.last();
            match self.layer(name) {
                Some(t) => match self.defs()[t].pin_shape {
                    Some(p) => if has_layer(prev, name) {
                        prev
                    } else {
                        prev.push((name, p.pts(), shape_points(self.defs()[t].keepout_shape)))
                    },
                    None => prev,
                },
                None => prev,
            }
        }
    }

    /// The default shapes of the layers `names` that have a default pin
    /// shape, in order of first mention.
    pub fn get_default_layer_shapes(&self, names: &[String]) -> (r: Vec<LayerShapes>)
        ensures
            layer_requests(r@) == self.default_layer_requests(name_texts(names@)),
            distinct_layers(layer_requests(r@)),
    {
        let mut out: Vec<LayerShapes> = Vec::new();
        for i in 0..names.len()
            invariant
                layer_requests(out@) == self.default_layer_requests(name_texts(names@).take(i as int)),
                distinct_layers(layer_requests(out@)),
        {
            let ghost prev = layer_requests(out@);
            let name = &names[i];
            proof {
                assert(name_texts(names@).take(i + 1).drop_last() =~= name_texts(names@).take(i as int));
                assert(name_texts(names@).take(i + 1).last() == name@);
                lemma_find_track(self.defs(), name@);
            }
            match self.tracks.get_track(name.as_str()) {
                Some(track) => {
                    match &track.pin_shape {
                        Some(pin) => {
                            let mut seen = false;
                            let mut j: usize = 0;
                            while j < out.len()
                                invariant
                                    j <= out@.len(),
                                    prev == layer_requests(out@),
                                    seen <==> exists|k: int| 0 <= k < j && (#[trigger] prev[k]).0 == name@,
                                decreases out@.len() - j,
                            {
                                assert(prev[j as int].0 == out@[j as int].layer@);
                                if out[j].layer == *name {
                                    seen = true;
                                }
                                j += 1;
                            }
                            if !seen {
                                let copied = pin.clone();
                                let keepout = copy_shape(&track.keepout_shape);
                                out.push(LayerShapes { layer: name.clone(), pin: copied, keepout });
                                assert(layer_requests(out@) =~= prev.push(
                                    (name@, pin.pts(), shape_points(track.keepout_shape)),
                                ));
                            }
                        },
                        None => {},
                    }
                },
                None => {},
            }
        }
        assert(name_texts(names@).take(names@.len() as int) =~= name_texts(names@));
        out
    }

    /// Places bits `pins` on edge `edge_index` like
    /// `place_pins_on_edge_index_with_polygons`, with the default shapes of
    /// the layers `layers`.
    pub fn place_pins_on_edge_index(
        &mut self,
        pins: &[(String, usize)],
        edge_index: usize,
        layers: &[String],
        position_range: Range,
        min_spacing: Option<i64>,
    ) -> (r: Result<(), BatchPinPlacementError>)
        requires
            old(self).wf(),
            edge_index < old(self).num_edges() ==> old(self).batch_ok(
                edge_index as int,
                old(self).default_layer_requests(name_texts(layers@)),
                position_range,
                min_spacing,
            ),
        ensures
            final(self).wf(),
            final(self).shape == old(self).shape,
            final(self).tracks == old(self).tracks,
            edge_index >= old(self).num_edges() ==> {
                &&& r == Err::<(), BatchPinPlacementError>(
                    BatchPinPlacementError::EdgeOutOfBounds {
                        edge_index,
                        num_edges: old(self).num_edges() as usize,
                    },
                )
                &&& *final(self) == *old(self)
            },
            edge_index < old(self).num_edges() ==> ({
                let lrs = old(self).default_layer_requests(name_texts(layers@));
                let req = old(self).req_range(edge_index as int, position_range);
                let edge_range = spec_edge(old(self).shape, edge_index as int).spec_coord_range()->0;
                if !req.spec_bounds_within(edge_range) {
                    &&& r == Err::<(), BatchPinPlacementError>(
                        BatchPinPlacementError::RequestOutOfBounds {
                            edge_index,
                            edge_range,
                            req_range: req,
                        },
                    )
                    &&& *final(self) == *old(self)
                } else {
                    let st = old(self).batch_outcome(
                        edge_index as int,
                        lrs,
                        pin_requests(pins@),
                        position_range,
                        min_spacing,
                    );
                    &&& final(self).occ_view() == st.0
                    &&& final(self).pins_view() == st.1
                    &&& r == if st.2 == pins@.len() {
                        Ok::<(), BatchPinPlacementError>(())
                    } else {
                        Err(
                            BatchPinPlacementError::RanOutOfLayers {
                                requested: pins@.len() as usize,
                                placed: st.2 as usize,
                            },
                        )
                    }
                }
            }),
    {
        let shapes = self.get_default_layer_shapes(layers);
        self.place_pins_on_edge_index_with_polygons(
            pins,
            edge_index,
            shapes.as_slice(),
            position_range,
            min_spacing,
        )
    }

    /// Spreads bits `pins` on edge `edge_index` like
    /// `spread_pins_on_edge_index_with_polygons`, with the default shapes of
    /// the layers `layers`.
    pub fn spread_pins_on_edge_index(
        &mut self,
        pins: &[(String, usize)],
        edge_index: usize,
        layers: &[String],
        position_range: Range,
    ) -> (r: Result<i64, BatchPinPlacementError>)
        requires
            old(self).wf(),
            edge_index < old(self).num_edges() ==> old(self).spread_ok(
                edge_index as int,
                old(self).default_layer_requests(name_texts(layers@)),
                position_range,
            ),
        ensures
            final(self).wf(),
            final(self).shape == old(self).shape,
            final(self).tracks == old(self).tracks,
            edge_index >= old(self).num_edges() ==> {
                &&& r == Err::<i64, BatchPinPlacementError>(
                    BatchPinPlacementError::EdgeOutOfBounds {
                        edge_index,
                        num_edges: old(self).num_edges() as usize,
                    },
                )
                &&& *final(self) == *old(self)
            },
            edge_index < old(self).num_edges() ==> ({
                let lrs = old(self).default_layer_requests(name_texts(layers@));
                let best = old(self).spec_search(
                    edge_index as int,
                    lrs,
                    pin_requests(pins@),
                    position_range,
                    0,
                    old(self).search_span(edge_index as int, position_range),
                );
                let req = old(self).req_range(edge_index as int, position_range);
                let edge_range = spec_edge(old(self).shape, edge_index as int).spec_coord_range()->0;
                if !req.spec_bounds_within(edge_range) {
                    &&& r == Err::<i64, BatchPinPlacementError>(
                        BatchPinPlacementError::RequestOutOfBounds {
                            edge_index,
                            edge_range,
                            req_range: req,
                        },
                    )
                    &&& *final(self) == *old(self)
                } else {
                    let st = old(self).batch_outcome(
                        edge_index as int,
                        lrs,
                        pin_requests(pins@),
                        position_range,
                        Some(best as i64),
                    );
                    &&& final(self).occ_view() == st.0
                    &&& final(self).pins_view() == st.1
                    &&& r == if st.2 == pins@.len() {
                        Ok::<i64, BatchPinPlacementError>(best as i64)
                    } else {
                        Err(
                            BatchPinPlacementError::RanOutOfLayers {
                                requested: pins@.len() as usize,
                                placed: st.2 as usize,
                            },
                        )
                    }
                }
            }),
    {
        let shapes = self.get_default_layer_shapes(layers);
        self.spread_pins_on_edge_index_with_polygons(pins, edge_index, shapes.as_slice(), position_range)
    }
}

} // verus!
