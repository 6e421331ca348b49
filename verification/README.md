# ATLDP — verified core

ATLDP (Alternative Transmission Line Design Program) designs overhead
transmission lines: sag-tension, tower spotting, clearances and drafting.

This crate is split in two:

- `src/` — the library, verified with Verus: SRTM tile names and decoding,
  raster cropping / mosaicking / wireframes, the command-line parser, the
  `.atldp` schema gate, markup escaping for the drawing sheet, the slippy-map
  tile window and tile compositing, which spans load each structure, and
  removing a spotted tower. Every public function carries a `requires` / `ensures` contract, and the laws that
  tie functions together (name round trips, mosaic/crop, escaping) are proved as
  public proof functions.
- `app/` — the `atldp` command-line program and the floating-point engineering
  numerics (catenary, change of state, ruling span, DEM interpolation, the SVG
  plan-&-profile sheet) together with file, network and JSON I/O. It calls the
  library for every discrete decision.

The desktop GUI (the egui/wgpu application with its 2D/3D views and its render
crate) is not part of this crate: its source relies on model types (route points
of interest, terrain tile sets, tension sections, structure families) that the
project model here does not define, so it cannot be built against it. Of its
logic, the tile basemap is in `app/basemap.rs`, and its one discrete editing
decision — removing a tower and moving the selection — is the verified
`spotting::delete_tower`.

`tests/` exercises the library on concrete values.
