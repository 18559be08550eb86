use vstd::prelude::*;

use fixedbitset::FixedBitSet;

use crate::text::{int_decimal, nat_decimal, push_i64, push_str, push_usize};

verus! {

#[verifier::external_type_specification]
#[verifier::external_body]
pub struct ExFixedBitSet(FixedBitSet);

/// The bits that a `FixedBitSet` holds, one per position up to its length.
pub uninterp spec fn bitset_bits(s: FixedBitSet) -> Seq<bool>;

/// Some position in `[start, end)` is set.
pub open spec fn any_set(bits: Seq<bool>, start: int, end: int) -> bool {
    exists|i: int| start <= i < end && #[trigger] bits[i]
}

/// `FixedBitSet::with_capacity`: a set of `n` bits, all clear.
#[verifier::external_body]
fn bitset_with_capacity(n: usize) -> (r: FixedBitSet)
    ensures
        bitset_bits(r) == Seq::new(n as nat, |i: int| false),
{
    FixedBitSet::with_capacity(n)
}

/// `FixedBitSet::len`: the number of bits, set or not.
#[verifier::external_body]
fn bitset_len(s: &FixedBitSet) -> (r: usize)
    ensures
        r == bitset_bits(*s).len(),
{
    s.len()
}

/// `FixedBitSet::contains`: whether bit `i` is set; bits past the end are
/// clear.
#[verifier::external_body]
pub(crate) fn bitset_contains(s: &FixedBitSet, i: usize) -> (r: bool)
    ensures
        r == (i < bitset_bits(*s).len() && bitset_bits(*s)[i as int]),
{
    s.contains(i)
}

/// `FixedBitSet::contains_any_in_range` on `start..end`, which must lie in
/// the set (the method panics otherwise).
#[verifier::external_body]
fn bitset_contains_any_in_range(s: &FixedBitSet, start: usize, end: usize) -> (r: bool)
    requires
        start <= end <= bitset_bits(*s).len(),
    ensures
        r == any_set(bitset_bits(*s), start as int, end as int),
{
    s.contains_any_in_range(start..end)
}

/// `FixedBitSet::set_range` on `start..end`: those bits become `enabled`,
/// the others and the length stay.
#[verifier::external_body]
fn bitset_set_range(s: &mut FixedBitSet, start: usize, end: usize, enabled: bool)
    requires
        start <= end <= bitset_bits(*old(s)).len(),
    ensures
        bitset_bits(*final(s)) == Seq::new(
            bitset_bits(*old(s)).len(),
            |i: int| if start <= i < end { enabled } else { bitset_bits(*old(s))[i] },
        ),
{
    s.set_range(start..end, enabled)
}

/// `FixedBitSet::insert_range` on `start..end`: those bits become set.
#[verifier::external_body]
fn bitset_insert_range(s: &mut FixedBitSet, start: usize, end: usize)
    requires
        start <= end <= bitset_bits(*old(s)).len(),
    ensures
        bitset_bits(*final(s)) == Seq::new(
            bitset_bits(*old(s)).len(),
            |i: int| if start <= i < end { true } else { bitset_bits(*old(s))[i] },
        ),
{
    s.insert_range(start..end)
}

/// `FixedBitSet::remove_range` on `start..end`: those bits become clear.
#[verifier::external_body]
fn bitset_remove_range(s: &mut FixedBitSet, start: usize, end: usize)
    requires
        start <= end <= bitset_bits(*old(s)).len(),
    ensures
        bitset_bits(*final(s)) == Seq::new(
            bitset_bits(*old(s)).len(),
            |i: int| if start <= i < end { false } else { bitset_bits(*old(s))[i] },
        ),
{
    s.remove_range(start..end)
}

/// `FixedBitSet::toggle_range` on `start..end`: those bits are inverted.
#[verifier::external_body]
fn bitset_toggle_range(s: &mut FixedBitSet, start: usize, end: usize)
    requires
        start <= end <= bitset_bits(*old(s)).len(),
    ensures
        bitset_bits(*final(s)) == Seq::new(
            bitset_bits(*old(s)).len(),
            |i: int| if start <= i < end { !bitset_bits(*old(s))[i] } else { bitset_bits(*old(s))[i] },
        ),
{
    s.toggle_range(start..end)
}

/// `FixedBitSet::union_with`: the set grows to the longer length, new bits
/// clear, and each bit becomes set if it is set in either set.
#[verifier::external_body]
fn bitset_union_with(s: &mut FixedBitSet, other: &FixedBitSet)
    ensures
        bitset_bits(*final(s)).len() == if bitset_bits(*other).len() >= bitset_bits(*old(s)).len() {
            bitset_bits(*other).len()
        } else {
            bitset_bits(*old(s)).len()
        },
        forall|i: int|
            0 <= i < bitset_bits(*final(s)).len() ==> #[trigger] bitset_bits(*final(s))[i] == ((i
                < bitset_bits(*old(s)).len() && bitset_bits(*old(s))[i]) || (i < bitset_bits(
                *other,
            ).len() && bitset_bits(*other)[i])),
{
    s.union_with(other)
}

/// `FixedBitSet::clone`: an independent set with the same bits.
#[verifier::external_body]
fn bitset_clone(s: &FixedBitSet) -> (r: FixedBitSet)
    ensures
        bitset_bits(r) == bitset_bits(*s),
{
    s.clone()
}

/// Why a pin or keepout cannot be placed on a track.
#[derive(Debug, Clone, PartialEq, Eq)]
pub enum PinPlacementError {
    /// The module shape or track occupancies were not initialized.
    NotInitialized(&'static str),
    /// The requested edge index is out of bounds for the current shape.
    EdgeOutOfBounds { edge_index: usize, num_edges: usize },
    /// The requested routing layer is not present on this edge.
    LayerUnavailable { layer: String },
    /// The requested pin span is outside the tracks available on this edge.
    OutOfBounds { min_index: i64, max_index: i64, num_tracks: usize },
    /// The requested pin overlaps an existing pin.
    OverlapsExistingPin { min_index: i64, max_index: i64 },
    /// The requested pin overlaps a keepout region.
    OverlapsKeepout { min_index: i64, max_index: i64 },
}

/// `[min..=max]`, a span of track indices.
pub open spec fn span_text(min: i64, max: i64) -> Seq<char> {
    "["@ + int_decimal(min as int) + "..="@ + int_decimal(max as int) + "]"@
}

/// Appends `[min..=max]`.
fn push_span(s: &mut String, min: i64, max: i64)
    ensures
        final(s)@ == old(s)@ + span_text(min, max),
{
    let ghost start = s@;
    push_str(s, "[");
    push_i64(s, min);
    push_str(s, "..=");
    push_i64(s, max);
    push_str(s, "]");
    assert(s@ =~= start + span_text(min, max));
}

impl PinPlacementError {
    /// The message describing the error.
    pub open spec fn text(self) -> Seq<char> {
        match self {
            PinPlacementError::NotInitialized(what) => what@
                + " not initialized; call set_shape and set_track_definitions first"@,
            PinPlacementError::EdgeOutOfBounds { edge_index, num_edges } => "edge index "@
                + nat_decimal(edge_index as nat) + " is out of bounds ("@ + nat_decimal(
                num_edges as nat,
            ) + " edges available)"@,
            PinPlacementError::LayerUnavailable { layer } => "layer '"@ + layer@
                + "' has no tracks on this edge"@,
            PinPlacementError::OutOfBounds { min_index, max_index, num_tracks } => "requested track span "@
                + span_text(min_index, max_index) + " is outside available range [0..="@
                + nat_decimal(if num_tracks > 0 { (num_tracks - 1) as nat } else { 0 }) + "]"@,
            PinPlacementError::OverlapsExistingPin { min_index, max_index } => "requested track span "@
                + span_text(min_index, max_index) + " overlaps an existing pin"@,
            PinPlacementError::OverlapsKeepout { min_index, max_index } => "requested track span "@
                + span_text(min_index, max_index) + " overlaps a keepout region"@,
        }
    }

    /// The message describing the error.
    pub fn to_string(&self) -> (r: String)
        ensures
            r@ == self.text(),
    {
        let mut s = String::new();
        match self {
            PinPlacementError::NotInitialized(what) => {
                push_str(&mut s, what);
                push_str(&mut s, " not initialized; call set_shape and set_track_definitions first");
            },
            PinPlacementError::EdgeOutOfBounds { edge_index, num_edges } => {
                push_str(&mut s, "edge index ");
                push_usize(&mut s, *edge_index);
                push_str(&mut s, " is out of bounds (");
                push_usize(&mut s, *num_edges);
                push_str(&mut s, " edges available)");
            },
            PinPlacementError::LayerUnavailable { layer } => {
                push_str(&mut s, "layer '");
                push_str(&mut s, layer.as_str());
                push_str(&mut s, "' has no tracks on this edge");
            },
            PinPlacementError::OutOfBounds { min_index, max_index, num_tracks } => {
                push_str(&mut s, "requested track span ");
                push_span(&mut s, *min_index, *max_index);
                push_str(&mut s, " is outside available range [0..=");
                push_usize(&mut s, if *num_tracks > 0 { *num_tracks - 1 } else { 0 });
                push_str(&mut s, "]");
            },
            PinPlacementError::OverlapsExistingPin { min_index, max_index } => {
                push_str(&mut s, "requested track span ");
                push_span(&mut s, *min_index, *max_index);
                push_str(&mut s, " overlaps an existing pin");
            },
            PinPlacementError::OverlapsKeepout { min_index, max_index } => {
                push_str(&mut s, "requested track span ");
                push_span(&mut s, *min_index, *max_index);
                push_str(&mut s, " overlaps a keepout region");
            },
        }
        s
    }
}

/// Which tracks of one layer on one edge hold a pin, and which are kept out.
pub struct TrackOccupancy {
    pub(crate) pin_occupancies: FixedBitSet,
    pub(crate) keepout_occupancies: FixedBitSet,
}

/// The index that clips `max` to the last track of `len` tracks.
pub open spec fn clip_max(max: int, len: int) -> int {
    if max <= len - 1 {
        max
    } else {
        len - 1
    }
}

/// The index that clips `min` to the first track.
pub open spec fn clip_min(min: int) -> int {
    if min >= 0 {
        min
    } else {
        0
    }
}

impl TrackOccupancy {
    /// Tracks holding a pin.
    pub closed spec fn pins(self) -> Seq<bool> {
        bitset_bits(self.pin_occupancies)
    }

    /// Tracks inside a keepout region.
    pub closed spec fn keepouts(self) -> Seq<bool> {
        bitset_bits(self.keepout_occupancies)
    }

    /// Both maps cover the same tracks.
    pub open spec fn wf(self) -> bool {
        self.pins().len() == self.keepouts().len()
    }

    /// The number of tracks.
    pub open spec fn num_tracks(self) -> nat {
        self.pins().len()
    }

    /// Creates an occupancy map for `num_tracks` free tracks.
    pub fn new(num_tracks: usize) -> (r: TrackOccupancy)
        ensures
            r.wf(),
            r.pins() == Seq::new(num_tracks as nat, |i: int| false),
            r.keepouts() == Seq::new(num_tracks as nat, |i: int| false),
    {
        TrackOccupancy {
            pin_occupancies: bitset_with_capacity(num_tracks),
            keepout_occupancies: bitset_with_capacity(num_tracks),
        }
    }

    /// An independent occupancy with the same tracks taken.
    pub fn copy(&self) -> (r: TrackOccupancy)
        ensures
            r.pins() == self.pins(),
            r.keepouts() == self.keepouts(),
    {
        TrackOccupancy {
            pin_occupancies: bitset_clone(&self.pin_occupancies),
            keepout_occupancies: bitset_clone(&self.keepout_occupancies),
        }
    }

    /// The number of tracks.
    pub fn len(&self) -> (r: usize)
        ensures
            r == self.num_tracks(),
    {
        bitset_len(&self.pin_occupancies)
    }

    /// The result of checking a pin span `[min_index, max_index]`.
    pub open spec fn spec_check_place_pin(self, min_index: i64, max_index: i64) -> Result<
        (),
        PinPlacementError,
    > {
        if min_index < 0 || max_index < 0 || max_index >= self.num_tracks() {
            Err(
                PinPlacementError::OutOfBounds {
                    min_index,
                    max_index,
                    num_tracks: self.num_tracks() as usize,
                },
            )
        } else if any_set(self.pins(), min_index as int, max_index + 1) {
            Err(PinPlacementError::OverlapsExistingPin { min_index, max_index })
        } else if any_set(self.keepouts(), min_index as int, max_index + 1) {
            Err(PinPlacementError::OverlapsKeepout { min_index, max_index })
        } else {
            Ok(())
        }
    }

    /// Validate that a pin can be placed on the tracks `[min_index,
    /// max_index]`: they must exist and hold neither a pin nor a keepout.
    pub fn check_place_pin(&self, min_index: i64, max_index: i64) -> (r: Result<
        (),
        PinPlacementError,
    >)
        requires
            self.wf(),
            min_index < 0 || max_index < 0 || max_index >= self.num_tracks() || min_index
                <= max_index + 1,
        ensures
            r == self.spec_check_place_pin(min_index, max_index),
    {
        let len = bitset_len(&self.pin_occupancies);
        if min_index < 0 || max_index < 0 || (max_index as u64) >= (len as u64) {
            return Err(
                PinPlacementError::OutOfBounds { min_index, max_index, num_tracks: len },
            );
        }
        let min_index_usize = min_index as usize;
        let max_index_usize = max_index as usize;
        if bitset_contains_any_in_range(
            &self.pin_occupancies,
            min_index_usize,
            max_index_usize + 1,
        ) {
            return Err(PinPlacementError::OverlapsExistingPin { min_index, max_index });
        }
        if bitset_contains_any_in_range(
            &self.keepout_occupancies,
            min_index_usize,
            max_index_usize + 1,
        ) {
            return Err(PinPlacementError::OverlapsKeepout { min_index, max_index });
        }
        Ok(())
    }

    /// The result of checking a keepout span `[min_index, max_index]`,
    /// clipped to the tracks of the edge.
    pub open spec fn spec_check_place_keepout(self, min_index: i64, max_index: i64) -> Result<
        (),
        PinPlacementError,
    > {
        if max_index < 0 {
            Ok(())
        } else if any_set(
            self.pins(),
            clip_min(min_index as int),
            clip_max(max_index as int, self.num_tracks() as int) + 1,
        ) {
            Err(PinPlacementError::OverlapsExistingPin { min_index, max_index })
        } else {
            Ok(())
        }
    }

    /// The keepout span `[min_index, max_index]`, clipped to the tracks,
    /// is a valid range of tracks.
    pub open spec fn keepout_span_ok(self, min_index: i64, max_index: i64) -> bool {
        max_index >= 0 ==> {
            &&& self.num_tracks() > 0
            &&& self.num_tracks() <= i64::MAX
            &&& clip_min(min_index as int) <= clip_max(max_index as int, self.num_tracks() as int)
                + 1
        }
    }

    /// Validate that a keepout can be placed: after clipping to the tracks
    /// of the edge it must not cover an existing pin.
    pub fn check_place_keepout(&self, min_index: i64, max_index: i64) -> (r: Result<
        (),
        PinPlacementError,
    >)
        requires
            self.wf(),
            self.keepout_span_ok(min_index, max_index),
        ensures
            r == self.spec_check_place_keepout(min_index, max_index),
    {
        if max_index < 0 {
            return Ok(());
        }
        let len = bitset_len(&self.pin_occupancies);
        let clipped_min_index = (if min_index >= 0 { min_index } else { 0 }) as usize;
        let last = (len as i64) - 1;
        let clipped_max_index = (if max_index <= last { max_index } else { last }) as usize;
        if bitset_contains_any_in_range(
            &self.pin_occupancies,
            clipped_min_index,
            clipped_max_index + 1,
        ) {
            return Err(PinPlacementError::OverlapsExistingPin { min_index, max_index });
        }
        Ok(())
    }

    /// Marks the tracks `[min_index, max_index]` as holding a pin.
    pub fn mark_pin(&mut self, min_index: i64, max_index: i64)
        requires
            old(self).wf(),
            0 <= min_index <= max_index + 1,
            0 <= max_index < old(self).num_tracks(),
        ensures
            final(self).wf(),
            final(self).pins() == Seq::new(
                old(self).num_tracks(),
                |i: int| if min_index <= i <= max_index { true } else { old(self).pins()[i] },
            ),
            final(self).keepouts() == old(self).keepouts(),
    {
        let _len = bitset_len(&self.pin_occupancies);
        let min_index = min_index as usize;
        let max_index = max_index as usize;
        bitset_set_range(&mut self.pin_occupancies, min_index, max_index + 1, true);
    }

    /// Marks the tracks `[min_index, max_index]`, clipped to the tracks of
    /// the edge, as kept out.
    pub fn mark_keepout(&mut self, min_index: i64, max_index: i64)
        requires
            old(self).wf(),
            max_index >= 0 ==> old(self).num_tracks() > 0 && clip_min(min_index as int)
                <= clip_max(max_index as int, old(self).num_tracks() as int) + 1,
        ensures
            final(self).wf(),
            final(self).pins() == old(self).pins(),
            final(self).keepouts() == Seq::new(
                old(self).num_tracks(),
                |i: int|
                    if max_index >= 0 && clip_min(min_index as int) <= i <= clip_max(
                        max_index as int,
                        old(self).num_tracks() as int,
                    ) {
                        true
                    } else {
                        old(self).keepouts()[i]
                    },
            ),
    {
        if max_index < 0 {
            assert(self.keepouts() =~= Seq::new(self.num_tracks(), |i: int| self.keepouts()[i]));
            return;
        }
        let len = bitset_len(&self.pin_occupancies);
        let clipped_max_index = if (max_index as u64) <= ((len - 1) as u64) {
            max_index as usize
        } else {
            len - 1
        };
        let clipped_min_index = if min_index < 0 { 0 } else { min_index as usize };
        bitset_set_range(
            &mut self.keepout_occupancies,
            clipped_min_index,
            clipped_max_index + 1,
            true,
        );
    }

    /// Records a pin and its keepout; the pin's own tracks are not left
    /// marked as kept out.
    pub fn place_pin_and_keepout(
        &mut self,
        pin_min_index: i64,
        pin_max_index: i64,
        keepout_min_index: i64,
        keepout_max_index: i64,
    )
        requires
            old(self).wf(),
            0 <= pin_min_index <= pin_max_index + 1,
            0 <= pin_max_index < old(self).num_tracks(),
            keepout_max_index >= 0 ==> clip_min(keepout_min_index as int) <= clip_max(
                keepout_max_index as int,
                old(self).num_tracks() as int,
            ) + 1,
        ensures
            final(self).wf(),
            final(self).pins() == Seq::new(
                old(self).num_tracks(),
                |i: int|
                    if pin_min_index <= i <= pin_max_index {
                        true
                    } else {
                        old(self).pins()[i]
                    },
            ),
            final(self).keepouts() == Seq::new(
                old(self).num_tracks(),
                |i: int|
                    if pin_min_index <= i <= pin_max_index {
                        false
                    } else if keepout_max_index >= 0 && clip_min(keepout_min_index as int) <= i
                        <= clip_max(keepout_max_index as int, old(self).num_tracks() as int) {
                        true
                    } else {
                        old(self).keepouts()[i]
                    },
            ),
    {
        let _len = bitset_len(&self.pin_occupancies);
        self.mark_pin(pin_min_index, pin_max_index);
        self.mark_keepout(keepout_min_index, keepout_max_index);
        bitset_remove_range(
            &mut self.keepout_occupancies,
            pin_min_index as usize,
            (pin_max_index as usize) + 1,
        );
    }

    /// The tracks in `[min_index, max_index]` that hold neither a pin nor a
    /// keepout.
    pub fn get_available_indices_in_range(&self, min_index: usize, max_index: usize) -> (r:
        FixedBitSet)
        requires
            self.wf(),
            self.num_tracks() > 0,
            min_index <= self.num_tracks(),
        ensures
            bitset_bits(r) == Seq::new(
                self.num_tracks(),
                |i: int|
                    min_index <= i <= max_index && !self.pins()[i] && !self.keepouts()[i],
            ),
    {
        let mut retval = bitset_clone(&self.pin_occupancies);
        bitset_union_with(&mut retval, &self.keepout_occupancies);
        let len = bitset_len(&retval);
        if min_index > 0 {
            bitset_insert_range(&mut retval, 0, min_index);
        }
        if max_index < (len - 1) {
            bitset_insert_range(&mut retval, max_index + 1, len);
        }
        bitset_toggle_range(&mut retval, 0, len);
        assert(bitset_bits(retval) =~= Seq::new(
            self.num_tracks(),
            |i: int| min_index <= i <= max_index && !self.pins()[i] && !self.keepouts()[i],
        ));
        retval
    }
}

} // verus!
