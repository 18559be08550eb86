use vstd::prelude::*;

use crate::geometry::{Coordinate, Polygon};
use crate::occupancy::PinPlacementError;
use crate::pinplan::{owned, pin_recorded, reports, PinPlan};

verus! {

/// A slice of a port as pin placement reads it: the port's name, whether
/// it is a port of the module itself (not of an instance), the port's
/// width, and the bits `msb` down to `lsb`.
pub struct PinSlice {
    pub port_name: String,
    pub is_mod_def_port: bool,
    pub port_width: usize,
    pub msb: usize,
    pub lsb: usize,
}

impl PinSlice {
    /// The slice is one valid bit of a port of the module itself, the only
    /// kind of slice a physical pin can be placed for.
    pub open spec fn is_placeable(self) -> bool {
        &&& self.lsb <= self.msb < self.port_width
        &&& self.msb == self.lsb
        &&& self.is_mod_def_port
    }

    /// The port and bit that a placeable slice stands for.
    pub fn port_name_and_bit(&self) -> (r: (&str, usize))
        requires
            self.is_placeable(),
        ensures
            r.0@ == self.port_name@,
            r.1 == self.lsb,
    {
        (self.port_name.as_str(), self.lsb)
    }
}

impl PinPlan {
    /// Places the pin of a single-bit slice of a module port: `polygon`
    /// on `layer`, relative to `position`.
    pub fn place_slice(&mut self, slice: &PinSlice, layer: &str, position: Coordinate, polygon: Polygon)
        requires
            slice.is_placeable(),
        ensures
            final(self).shape == old(self).shape,
            final(self).tracks == old(self).tracks,
            final(self).occupancies == old(self).occupancies,
            pin_recorded(
                old(self).pins@,
                final(self).pins@,
                slice.port_name@,
                slice.lsb,
                layer@,
                position,
                polygon.pts(),
            ),
    {
        let (port_name, bit) = slice.port_name_and_bit();
        self.place_pin(port_name, bit, layer, position, polygon);
    }

    /// Places the pin of a single-bit slice of a module port on track
    /// `track_index` of `layer` on edge `edge_index`, with the layer's
    /// default shapes, as `place_pin_on_edge_index` does.
    pub fn place_slice_on_edge_index(
        &mut self,
        slice: &PinSlice,
        edge_index: usize,
        layer: &str,
        track_index: usize,
    ) -> (r: Result<(), PinPlacementError>)
        requires
            slice.is_placeable(),
            old(self).wf(),
            old(self).layer(layer@) is Some,
            old(self).check_ok(
                edge_index as int,
                layer@,
                track_index as int,
                old(self).default_shapes(layer@).0,
                old(self).default_shapes(layer@).1,
            ),
            old(self).placement_ok(
                edge_index as int,
                layer@,
                track_index as int,
                old(self).default_shapes(layer@).0,
                old(self).default_shapes(layer@).1,
            ),
        ensures
            final(self).wf(),
            reports(
                r,
                layer@,
                old(self).spec_check(
                    edge_index as int,
                    layer@,
                    track_index as int,
                    old(self).default_shapes(layer@).0,
                    old(self).default_shapes(layer@).1,
                ),
            ),
            r is Err ==> *final(self) == *old(self),
            r is Ok ==> old(self).spec_placed(
                *final(self),
                slice.port_name@,
                slice.lsb,
                edge_index as int,
                layer@,
                track_index as int,
                old(self).default_shapes(layer@).0,
                old(self).default_shapes(layer@).1,
            ),
    {
        let (port_name, bit) = slice.port_name_and_bit();
        self.place_pin_on_edge_index(port_name, bit, edge_index, layer, track_index)
    }

    /// Places the pin of a single-bit slice of a module port on track
    /// `track_index` of `layer` on edge `edge_index`, with the given pin and
    /// keepout shapes, as `place_pin_on_edge_index_with_polygon` does.
    pub fn place_slice_on_edge_index_with_polygon(
        &mut self,
        slice: &PinSlice,
        edge_index: usize,
        layer: &str,
        track_index: usize,
        pin_polygon: Option<&Polygon>,
        keepout_polygon: Option<&Polygon>,
    ) -> (r: Result<(), PinPlacementError>)
        requires
            slice.is_placeable(),
            old(self).wf(),
            old(self).check_ok(
                edge_index as int,
                layer@,
                track_index as int,
                owned(pin_polygon),
                owned(keepout_polygon),
            ),
            old(self).placement_ok(
                edge_index as int,
                layer@,
                track_index as int,
                owned(pin_polygon),
                owned(keepout_polygon),
            ),
        ensures
            final(self).wf(),
            reports(
                r,
                layer@,
                old(self).spec_check(
                    edge_index as int,
                    layer@,
                    track_index as int,
                    owned(pin_polygon),
                    owned(keepout_polygon),
                ),
            ),
            r is Err ==> *final(self) == *old(self),
            r is Ok ==> old(self).spec_placed(
                *final(self),
                slice.port_name@,
                slice.lsb,
                edge_index as int,
                layer@,
                track_index as int,
                owned(pin_polygon),
                owned(keepout_polygon),
            ),
    {
        let (port_name, bit) = slice.port_name_and_bit();
        self.place_pin_on_edge_index_with_polygon(
            port_name,
            bit,
            edge_index,
            layer,
            track_index,
            pin_polygon,
            keepout_polygon,
        )
    }
}

} // verus!
