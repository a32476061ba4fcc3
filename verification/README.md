# gpx_rs

A library and command-line tool for GPX 1.1 files, with the library written
in Verus: its functions carry `requires`/`ensures` contracts and are proved.

## Layout

- `src/` — the verified library.
  - `model.rs`, `types.rs`: the GPX document model. Doubles are held by their
    bit pattern (`Binary64`); timestamps as seconds and nanoseconds.
  - `operations.rs`: reverse, strip metadata/extensions, merge, filter, trim,
    map points, split tracks, with the laws they obey.
  - `validation/`: schema validation of GPX text (element tree, schema rules,
    content checks, suggestions for misspelt tags).
  - `serialize.rs`, `gpx_writer.rs`: GPX text output.
  - `kml.rs`, `kml_writer.rs`, `geojson.rs`, `convert.rs`: KML and GeoJSON
    conversion and format detection.
  - `decimal.rs`, `text.rs`, `values.rs`, `timefmt.rs`: text and number helpers.
  - `xml_events.rs`, `error.rs`: trusted access to `quick_xml` and error types.
- `app/` — the `gpx` command-line tool: file I/O, `serde` parsing of GPX,
  printing of GeoJSON, floating-point statistics and geometry, printing.
- `tests/` — tests of the library.
