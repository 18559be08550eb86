# topstitch (verified core)

The verified core of a toolkit for stitching Verilog modules together and
floorplanning them: outlines, routing tracks and pin placement, port
directions, connection checks, LEF/DEF text, and small text rewrites.
Every function under `src/` carries a contract that Verus proves, except
the small wrappers marked `#[verifier::external_body]` around calls into
`fixedbitset`, `indexmap`, `regex`, `num-bigint` and `String::push`, whose
contracts are trusted from those crates' documentation and source.

Layout:

- `src/geometry.rs`, `src/transform.rs`: coordinates, ranges, edges,
  bounding boxes, polygons, orientations and 3x3 transforms.
- `src/tracks.rs`, `src/occupancy.rs`, `src/pinplan.rs`: routing tracks,
  per-track occupancy (on `fixedbitset`), and pin planning on the edges of
  a module outline, one pin or a batch at a time (`src/portslice.rs`: for
  a single-bit slice of a module port).
- `src/io.rs`, `src/connection.rs`, `src/netsource.rs`, `src/funnel.rs`,
  `src/intfmap.rs`: port directions, wires and unused markers, coverage of
  a port by its connections, the choice of the expression that names a
  net, the funnel that routes signals through a fixed set of ports, and
  interface definitions from port-name prefixes.
- `src/lefdef.rs`, `src/placement.rs`, `src/lefparse.rs`, `src/lefmacros.rs`,
  `src/lefcomponent.rs`: DEF text, DEF placement of macros, reading the
  macros of LEF text, and the LEF macro of a module's outline and pins.
- `src/inout.rs`, `src/enumtypes.rs`, `src/messages.rs`, `src/text.rs`:
  Verilog text rewrites (inout renaming, enum casts on instance port
  connections) and diagnostic text.
- `src/validation.rs`: the module hierarchy as plain values, and its
  validation: every input bit driven exactly once, every output bit used or
  marked unused, in each module that validation descends into.
- `src/parserports.rs`: a module definition from the ports that the Verilog
  front end reports.
- `src/netbook.rs`: the connections of a port slice, cut down to a range
  of bits and counted into the choice of its expression's source.
- `src/tieoff.rs`: constants tied to port slices, of any width (on
  `num-bigint`), with their slices and concatenation.
- `src/emission.rs`: which module definitions emitting a module writes,
  in order, and the refusal of two definitions with one name.
- `src/parameters.rs`: parameter overrides merged into a module's
  parameters and written as SystemVerilog literals (on `num-bigint`).
- `src/config.rs`: parser and pipeline settings, packages and parameters.
- `app/`: file output, LEF text with micron numbers, and the Verilog
  front end, around the library.
