use vstd::prelude::*;

use crate::messages::{slice_fmt, spec_slice_fmt};
use crate::text::push_str;

verus! {

/// Marks a slice of a port as intentionally left unconnected. It carries no
/// data, so it can be sliced and merged freely.
#[derive(Debug, Clone, Copy, PartialEq, Eq, Structural)]
pub struct Unused {}

impl Default for Unused {
    fn default() -> (r: Unused)
        ensures
            r == (Unused {}),
    {
        Unused {}
    }
}

impl Unused {
    /// Creates the marker.
    pub fn new() -> (r: Unused)
        ensures
            r == (Unused {}),
    {
        Unused {}
    }

    /// The marker for a sub-slice: an unused region stays unused whatever
    /// its offset and width.
    pub fn slice_with_offset_and_width(&self, offset: usize, width: usize) -> (r: Unused)
        ensures
            r == (Unused {}),
    {
        Unused {}
    }

    /// Merging two unused markers always succeeds.
    pub fn try_merge(&self, other: &Unused) -> (r: Option<Unused>)
        ensures
            r == Some(Unused {}),
    {
        Some(Unused {})
    }
}

/// A named wire of `width` bits, of which bits `msb` down to `lsb` are the
/// ones connected. Slicing moves `msb` and `lsb` but keeps `name` and
/// `width`, so every connected slice knows how to declare the whole wire.
#[derive(Debug)]
pub struct Wire {
    pub name: String,
    pub width: usize,
    pub msb: usize,
    pub lsb: usize,
}

impl Clone for Wire {
    fn clone(&self) -> (r: Wire)
        ensures
            r == *self,
    {
        Wire { name: self.name.clone(), width: self.width, msb: self.msb, lsb: self.lsb }
    }
}

impl PartialEq for Wire {
    fn eq(&self, other: &Wire) -> (r: bool) {
        self.name == other.name && self.width == other.width && self.msb == other.msb
            && self.lsb == other.lsb
    }
}

impl vstd::std_specs::cmp::PartialEqSpecImpl for Wire {
    open spec fn obeys_eq_spec() -> bool {
        true
    }

    open spec fn eq_spec(&self, other: &Wire) -> bool {
        self.name@ == other.name@ && self.width == other.width && self.msb == other.msb
            && self.lsb == other.lsb
    }
}

impl Wire {
    /// `self` holds the bits directly above those of `other` on the same
    /// wire.
    pub open spec fn adjacent_above(self, other: Wire) -> bool {
        self.name@ == other.name@ && self.width == other.width && self.lsb == other.msb + 1
    }

    /// The wire slice whose bits run from `msb` down to `lsb`.
    pub open spec fn spec_slice(self, offset: int, width: int) -> (int, int) {
        (self.lsb + offset + width - 1, self.lsb + offset)
    }

    /// Slicing at `offset` with `width` bits stays within `usize`.
    pub open spec fn slice_ok(self, offset: int, width: int) -> bool {
        &&& self.lsb + offset + width <= usize::MAX
        &&& self.lsb + offset + width >= 1
    }

    /// Merges two adjacent slices of the same wire, `self` holding the upper
    /// bits: the result runs from `self.msb` down to `other.lsb`. Slices of
    /// different wires, or that do not touch exactly, do not merge.
    pub fn try_merge(&self, other: &Wire) -> (r: Option<Wire>)
        requires
            other.msb < usize::MAX,
        ensures
            r is Some <==> self.adjacent_above(*other),
            r matches Some(w) ==> {
                &&& w.name@ == self.name@
                &&& w.width == self.width
                &&& w.msb == self.msb
                &&& w.lsb == other.lsb
            },
    {
        if self.name == other.name && self.width == other.width && self.lsb == other.msb + 1 {
            Some(Wire { name: self.name.clone(), width: self.width, msb: self.msb, lsb: other.lsb })
        } else {
            None
        }
    }

    /// The slice of `width` bits starting `offset` bits above this slice's
    /// `lsb`, on the same wire.
    pub fn slice_with_offset_and_width(&self, offset: usize, width: usize) -> (r: Wire)
        requires
            self.slice_ok(offset as int, width as int),
        ensures
            r.name@ == self.name@,
            r.width == self.width,
            (r.msb as int, r.lsb as int) == self.spec_slice(offset as int, width as int),
    {
        let lsb = self.lsb + offset;
        let msb = lsb + width - 1;
        Wire { name: self.name.clone(), width: self.width, msb, lsb }
    }
}

/// Two adjacent slices of a wire, the upper one taken `lower_width` bits
/// above the lower one, merge back into the single slice that covers both.
pub proof fn lemma_wire_slices_merge(w: Wire, offset: int, lower_width: int, upper_width: int)
    requires
        offset >= 0,
        lower_width >= 1,
        upper_width >= 1,
        w.slice_ok(offset, lower_width + upper_width),
    ensures
        ({
            let (lo_msb, lo_lsb) = w.spec_slice(offset, lower_width);
            let (up_msb, up_lsb) = w.spec_slice(offset + lower_width, upper_width);
            let (all_msb, all_lsb) = w.spec_slice(offset, lower_width + upper_width);
            &&& up_lsb == lo_msb + 1
            &&& up_msb == all_msb
            &&& lo_lsb == all_lsb
        }),
{
}

/// Why the connection chunks of a port fail to cover it.
#[derive(Clone, Copy, Debug, PartialEq, Eq, Structural)]
pub enum CoverageError {
    /// There is no chunk at all.
    Unconnected,
    /// A chunk holds no connection.
    InvalidConnection,
    /// Bits `msb` down to `lsb` belong to no chunk.
    Gap { msb: usize, lsb: usize },
    /// A chunk reaches above the port, or does not lie below the chunk
    /// before it.
    Misordered,
}

/// The verdict on neighbouring chunks from position `i` on: each must end
/// just above where the next begins.
pub open spec fn spec_chunk_gaps(c: Seq<Option<(usize, usize)>>, i: int) -> Result<(), CoverageError>
    decreases c.len() - i,
{
    if i < 0 || i + 1 >= c.len() {
        Ok(())
    } else if c[i] is None || c[i + 1] is None {
        Err(CoverageError::InvalidConnection)
    } else {
        let lsb = c[i].unwrap().1;
        let next_msb = c[i + 1].unwrap().0;
        if lsb == next_msb + 1 {
            spec_chunk_gaps(c, i + 1)
        } else if lsb > next_msb + 1 {
            Err(CoverageError::Gap { msb: (lsb - 1) as usize, lsb: (next_msb + 1) as usize })
        } else {
            Err(CoverageError::Misordered)
        }
    }
}

/// Whether chunks, highest first, each given by the `(msb, lsb)` of its
/// first connection (`None` for an empty chunk), cover a port of `width`
/// bits without a gap; else the first fault: at the top, at the bottom,
/// then between neighbours from the top down.
pub open spec fn spec_check_for_gaps(c: Seq<Option<(usize, usize)>>, width: usize) -> Result<(), CoverageError> {
    if c.len() == 0 {
        Err(CoverageError::Unconnected)
    } else if c[0] is None || c.last() is None {
        Err(CoverageError::InvalidConnection)
    } else if c[0].unwrap().0 >= width {
        Err(CoverageError::Misordered)
    } else if c[0].unwrap().0 + 1 < width {
        Err(CoverageError::Gap { msb: (width - 1) as usize, lsb: (c[0].unwrap().0 + 1) as usize })
    } else if c.last().unwrap().1 > 0 {
        Err(CoverageError::Gap { msb: (c.last().unwrap().1 - 1) as usize, lsb: 0 })
    } else {
        spec_chunk_gaps(c, 0)
    }
}

/// Holds only where chunks of connections, highest first, cover a port of
/// `width` bits without a gap or an overlap. Each chunk is given by the
/// `(msb, lsb)` of its first connection, or `None` where it holds none.
pub fn check_for_gaps(chunks: &[Option<(usize, usize)>], width: usize)
    requires
        spec_check_for_gaps(chunks@, width) is Ok,
{
}

/// Finds the first fault in chunks of connections, highest first, that
/// should cover a port of `width` bits: none, an empty chunk at either end,
/// a gap at the top, at the bottom or between neighbours, or an overlap.
pub fn find_gap(chunks: &[Option<(usize, usize)>], width: usize) -> (r: Result<(), CoverageError>)
    ensures
        r == spec_check_for_gaps(chunks@, width),
{
    let n = chunks.len();
    if n == 0 {
        return Err(CoverageError::Unconnected);
    }
    let first_msb = match chunks[0] {
        Some(c) => c.0,
        None => {
            return Err(CoverageError::InvalidConnection);
        },
    };
    let last_lsb = match chunks[n - 1] {
        Some(c) => c.1,
        None => {
            return Err(CoverageError::InvalidConnection);
        },
    };
    if first_msb >= width {
        return Err(CoverageError::Misordered);
    }
    if first_msb + 1 < width {
        return Err(CoverageError::Gap { msb: width - 1, lsb: first_msb + 1 });
    }
    if last_lsb > 0 {
        return Err(CoverageError::Gap { msb: last_lsb - 1, lsb: 0 });
    }
    assert(spec_check_for_gaps(chunks@, width) == spec_chunk_gaps(chunks@, 0));
    let mut i: usize = 0;
    while i + 1 < n
        invariant
            n == chunks@.len(),
            i < n,
            spec_check_for_gaps(chunks@, width) == spec_chunk_gaps(chunks@, 0),
            spec_chunk_gaps(chunks@, 0) == spec_chunk_gaps(chunks@, i as int),
        decreases n - i,
    {
        let (lsb, next_msb) = match (chunks[i], chunks[i + 1]) {
            (Some(a), Some(b)) => (a.1, b.0),
            _ => {
                return Err(CoverageError::InvalidConnection);
            },
        };
        if next_msb == usize::MAX || lsb < next_msb + 1 {
            return Err(CoverageError::Misordered);
        }
        if lsb > next_msb + 1 {
            return Err(CoverageError::Gap { msb: lsb - 1, lsb: next_msb + 1 });
        }
        i += 1;
    }
    Ok(())
}

impl CoverageError {
    /// The report on port `debug_str` for this fault.
    pub open spec fn spec_message(self, debug_str: Seq<char>) -> Seq<char> {
        match self {
            CoverageError::Unconnected => debug_str + " is unconnected"@,
            CoverageError::InvalidConnection => "Invalid connection found for "@ + debug_str,
            CoverageError::Gap { msb, lsb } => debug_str + spec_slice_fmt(msb, lsb) + " is unconnected"@,
            CoverageError::Misordered => debug_str + " has overlapping connections"@,
        }
    }

    /// The report on port `debug_str` for this fault.
    pub fn message(&self, debug_str: &str) -> (r: String)
        ensures
            r@ == self.spec_message(debug_str@),
    {
        let mut s = String::new();
        match self {
            CoverageError::Unconnected => {
                push_str(&mut s, debug_str);
                push_str(&mut s, " is unconnected");
            },
            CoverageError::InvalidConnection => {
                push_str(&mut s, "Invalid connection found for ");
                push_str(&mut s, debug_str);
            },
            CoverageError::Gap { msb, lsb } => {
                push_str(&mut s, debug_str);
                let range = slice_fmt(*msb, *lsb);
                push_str(&mut s, range.as_str());
                push_str(&mut s, " is unconnected");
            },
            CoverageError::Misordered => {
                push_str(&mut s, debug_str);
                push_str(&mut s, " has overlapping connections");
            },
        }
        s
    }
}

/// Chunks `j` and `j + 1` both hold connections and meet without a gap.
pub open spec fn chunks_meet(c: Seq<Option<(usize, usize)>>, j: int) -> bool {
    &&& c[j] is Some
    &&& c[j + 1] is Some
    &&& c[j].unwrap().1 == c[j + 1].unwrap().0 + 1
}

/// Neighbouring chunks from position `i` on all hold connections and meet
/// without a gap.
proof fn lemma_chunk_gaps_chain(c: Seq<Option<(usize, usize)>>, i: int)
    requires
        0 <= i,
        spec_chunk_gaps(c, i) is Ok,
    ensures
        forall|j: int| i <= j < c.len() - 1 ==> #[trigger] chunks_meet(c, j),
    decreases c.len() - i,
{
    if i + 1 < c.len() {
        lemma_chunk_gaps_chain(c, i + 1);
        assert(chunks_meet(c, i));
    }
}

proof fn lemma_bit_in_chain(c: Seq<Option<(usize, usize)>>, b: usize, i: int) -> (k: int)
    requires
        0 <= i < c.len(),
        c[i] is Some,
        b <= c[i].unwrap().0,
        c.last() is Some,
        c.last().unwrap().1 == 0,
        forall|j: int| 0 <= j < c.len() - 1 ==> #[trigger] chunks_meet(c, j),
    ensures
        0 <= k < c.len(),
        c[k] is Some,
        c[k].unwrap().1 <= b <= c[k].unwrap().0,
    decreases c.len() - i,
{
    if i == c.len() - 1 {
        i
    } else {
        assert(chunks_meet(c, i));
        if b <= c[i + 1].unwrap().0 {
            lemma_bit_in_chain(c, b, i + 1)
        } else {
            i
        }
    }
}

/// Chunks that `check_for_gaps` accepts cover every bit of the port: each
/// bit below `width` lies in some chunk's range.
pub proof fn lemma_accepted_chunks_cover(c: Seq<Option<(usize, usize)>>, width: usize, b: usize)
    requires
        spec_check_for_gaps(c, width) is Ok,
        b < width,
    ensures
        exists|k: int| 0 <= k < c.len() && c[k] is Some && #[trigger] c[k].unwrap().1 <= b <= c[k].unwrap().0,
{
    lemma_chunk_gaps_chain(c, 0);
    let k = lemma_bit_in_chain(c, b, 0);
    assert(c[k].unwrap().1 <= b <= c[k].unwrap().0);
}

/// The bit boundaries of `ranges` (each `(msb, lsb)`): every `lsb` and every
/// `msb + 1`.
pub open spec fn breakpoints(ranges: Seq<(usize, usize)>) -> Set<usize>
    decreases ranges.len(),
{
    if ranges.len() == 0 {
        Set::empty()
    } else {
        breakpoints(ranges.drop_last()).insert((ranges.last().0 + 1) as usize).insert(ranges.last().1)
    }
}

/// The boundaries of consecutive segments: each segment's `lsb`, and one
/// past the last segment's `msb`.
pub open spec fn segment_bounds(r: Seq<(usize, usize)>) -> Set<usize> {
    r.map_values(|x: (usize, usize)| x.1).to_set().insert((r.last().0 + 1) as usize)
}

/// `s` is strictly increasing.
pub open spec fn increasing(s: Seq<usize>) -> bool {
    forall|i: int, j: int| 0 <= i < j < s.len() ==> s[i] < s[j]
}

/// Inserts `v` in its place in the increasing `s`, unless it is there.
fn insert_sorted(s: &mut Vec<usize>, v: usize)
    requires
        increasing(old(s)@),
    ensures
        increasing(final(s)@),
        final(s)@.to_set() == old(s)@.to_set().insert(v),
{
    let n = s.len();
    let mut j: usize = 0;
    while j < n && s[j] < v
        invariant
            n == s@.len(),
            j <= n,
            forall|k: int| 0 <= k < j ==> s@[k] < v,
        decreases n - j,
    {
        j += 1;
    }
    let ghost before = s@;
    if j < n && s[j] == v {
        assert(before.to_set().insert(v) =~= before.to_set());
        return;
    }
    s.insert(j, v);
    assert forall|a: int, b: int| 0 <= a < b < s@.len() implies s@[a] < s@[b] by {
        if b < j {
        } else if a < j && b == j {
        } else if a < j {
            assert(s@[b] == before[b - 1]);
        } else if a == j {
            assert(s@[b] == before[b - 1]);
            assert(before[j as int] > v);
            if b - 1 > j {
                assert(before[j as int] < before[b - 1]);
            }
        } else {
            assert(s@[a] == before[a - 1]);
            assert(s@[b] == before[b - 1]);
        }
    }
    assert forall|x: usize| #[trigger] s@.to_set().contains(x) <==> before.to_set().insert(v).contains(x) by {
        if s@.to_set().contains(x) {
            let k = choose|k: int| 0 <= k < s@.len() && s@[k] == x;
            if k < j {
                assert(before[k] == x);
            } else if k > j {
                assert(before[k - 1] == x);
            }
        }
        if before.to_set().contains(x) {
            let k = choose|k: int| 0 <= k < before.len() && before[k] == x;
            if k < j {
                assert(s@[k] == x);
            } else {
                assert(s@[k + 1] == x);
            }
        }
        if x == v {
            assert(s@[j as int] == v);
        }
    }
    assert(s@.to_set() =~= before.to_set().insert(v));
}

/// A range `(msb, lsb)` with `msb >= lsb`, below the largest `usize`.
pub open spec fn range_ok(r: (usize, usize)) -> bool {
    r.1 <= r.0 && r.0 < usize::MAX
}

/// Each range is `(msb, lsb)` with `msb >= lsb`, below the largest `usize`.
pub open spec fn ranges_well_formed(ranges: Seq<(usize, usize)>) -> bool {
    forall|i: int| 0 <= i < ranges.len() ==> #[trigger] range_ok(ranges[i])
}

/// Cuts the bits that `ranges` (each `(msb, lsb)`, `msb >= lsb`) span at
/// every boundary of a range, from the lowest bit up: the segments are
/// consecutive and non-empty, and their boundaries are exactly the `lsb`
/// and `msb + 1` of the ranges. No ranges give no segments.
pub fn non_overlapping_segments(ranges: &Vec<(usize, usize)>) -> (r: Vec<(usize, usize)>)
    requires
        ranges_well_formed(ranges@),
    ensures
        ranges@.len() == 0 ==> r@.len() == 0,
        ranges@.len() > 0 ==> {
            &&& r@.len() >= 1
            &&& forall|i: int| 0 <= i < r@.len() ==> #[trigger] r@[i].1 <= r@[i].0
            &&& forall|i: int| 0 <= i < r@.len() - 1 ==> #[trigger] r@[i].0 + 1 == r@[i + 1].1
            &&& segment_bounds(r@) == breakpoints(ranges@)
        },
{
    let mut out: Vec<(usize, usize)> = Vec::new();
    if ranges.len() == 0 {
        return out;
    }
    let mut bounds: Vec<usize> = Vec::new();
    assert(ranges@.take(0) =~= Seq::<(usize, usize)>::empty());
    assert(bounds@.to_set() =~= Set::<usize>::empty());
    for k in 0..ranges.len()
        invariant
            ranges@.len() > 0,
            ranges_well_formed(ranges@),
            increasing(bounds@),
            bounds@.to_set() == breakpoints(ranges@.take(k as int)),
    {
        assert(ranges@.take(k + 1).drop_last() =~= ranges@.take(k as int));
        assert(ranges@.take(k + 1).last() == ranges@[k as int]);
        assert(range_ok(ranges@[k as int]));
        let (msb, lsb) = ranges[k];
        insert_sorted(&mut bounds, msb + 1);
        insert_sorted(&mut bounds, lsb);
    }
    assert(ranges@.take(ranges@.len() as int) =~= ranges@);
    let ghost b = bounds@;
    let ghost r0 = ranges@[0];
    proof {
        assert(range_ok(ranges@[0]));
        lemma_breakpoints_has_range(ranges@, 0);
        assert(b.to_set().contains((r0.0 + 1) as usize));
        assert(b.to_set().contains(r0.1));
        let x = choose|k: int| 0 <= k < b.len() && b[k] == (r0.0 + 1) as usize;
        let y = choose|k: int| 0 <= k < b.len() && b[k] == r0.1;
        assert(x != y);
    }
    let n = bounds.len();
    for i in 0..n - 1
        invariant
            n == b.len(),
            n >= 2,
            b == bounds@,
            increasing(b),
            out@.len() == i,
            forall|j: int| 0 <= j < i ==> #[trigger] out@[j] == ((b[j + 1] - 1) as usize, b[j]),
    {
        assert(b[i as int] < b[i + 1]);
        out.push((bounds[i + 1] - 1, bounds[i]));
    }
    proof {
        assert forall|i: int| 0 <= i < out@.len() - 1 implies #[trigger] out@[i].0 + 1 == out@[i + 1].1 by {
            assert(out@[i] == ((b[i + 1] - 1) as usize, b[i]));
            assert(out@[i + 1] == ((b[i + 2] - 1) as usize, b[i + 1]));
        }
        assert forall|i: int| 0 <= i < out@.len() implies #[trigger] out@[i].1 <= out@[i].0 by {
            assert(out@[i] == ((b[i + 1] - 1) as usize, b[i]));
        }
        let lows = out@.map_values(|x: (usize, usize)| x.1);
        assert(lows =~= b.take(n - 1));
        assert(out@.last() == ((b[n - 1] - 1) as usize, b[n - 2]));
        assert forall|x: usize| #[trigger] segment_bounds(out@).contains(x) <==> b.to_set().contains(x) by {
            if b.to_set().contains(x) {
                let k = choose|k: int| 0 <= k < b.len() && b[k] == x;
                if k < n - 1 {
                    assert(lows[k] == x);
                }
            }
            if lows.to_set().contains(x) {
                let k = choose|k: int| 0 <= k < lows.len() && lows[k] == x;
                assert(b[k] == x);
            }
        }
        assert(segment_bounds(out@) =~= b.to_set());
    }
    out
}

/// The boundaries of each range are among the breakpoints.
proof fn lemma_breakpoints_has_range(ranges: Seq<(usize, usize)>, i: int)
    requires
        0 <= i < ranges.len(),
        ranges[i].0 < usize::MAX,
    ensures
        breakpoints(ranges).contains((ranges[i].0 + 1) as usize),
        breakpoints(ranges).contains(ranges[i].1),
    decreases ranges.len(),
{
    if i < ranges.len() - 1 {
        lemma_breakpoints_has_range(ranges.drop_last(), i);
    }
}

} // verus!
