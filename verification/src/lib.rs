//! GPX 1.1 document handling: schema validation, serialization, format
//! conversion and structural edits, with their contracts checked by Verus.

pub mod convert;
pub mod decimal;
pub mod error;
pub mod geojson;
pub mod gpx_writer;
pub mod kml;
pub mod kml_writer;
pub mod model;
pub mod operations;
pub mod report;
pub mod serialize;
pub mod text;
pub mod timefmt;
pub mod types;
pub mod validation;
pub mod values;
pub mod xml_events;
