//! Verified core of a Verilog stitching and floorplanning toolkit: geometry
//! of module outlines, routing tracks and pin occupancy, port directions,
//! validation of the module hierarchy, LEF/DEF text generation and small
//! text utilities.

pub mod geometry;
pub mod transform;
pub mod tracks;
pub mod occupancy;
pub mod io;
pub mod text;
pub mod lefdef;
pub mod inout;
pub mod connection;
pub mod lefparse;
pub mod messages;
pub mod config;
pub mod funnel;
pub mod pinplan;
pub mod lefmacros;
pub mod placement;
pub mod netsource;
pub mod enumtypes;
pub mod intfmap;
pub mod validation;
pub mod parserports;
pub mod lefcomponent;
pub mod parameters;
pub mod emission;
pub mod portslice;
pub mod tieoff;
pub mod netbook;

pub use geometry::{BoundingBox, Coordinate, Edge, EdgeOrientation, Polygon, Range};
pub use transform::{Mat3, Orientation};

