# geozarr_core

A reader of GeoZarr stores and Cloud-Optimized GeoTIFFs, presented as Zarr
arrays, with the decisions proved in Verus.

- `src/` is the verified library: TIFF header and IFD parsing, the virtual
  Zarr layouts built over a COG, a STAC item and a STAC time stack (which key
  reads which tile, and the metadata documents they serve), chunk-grid walks,
  coordinate-range pruning, store-location planning, STAC paging and sorting,
  the read-only SQL guard and the SQL the agent tools send. Each public
  function states its result exactly; the laws that span functions are public
  proof functions beside them.
- `app/` holds what Verus does not see: object-store and HTTP I/O, the Zarr
  reader, floating-point georeferencing, the serde documents, and the DuckDB
  session of the tools and the `read_zarr` table function.
- `tests/` runs the library on concrete values.
