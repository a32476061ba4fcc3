use gpx_rs::convert::{
    conversion_formats, detect_format, escape_xml, format_for_extension, normalize_format, resolve_format,
    write_kml_optional_text, write_kml_placemark_end, write_kml_placemark_start, write_kml_tag_close,
    write_kml_tag_open, write_kml_text, ConvertError,
};

#[test]
fn detect_format_extensions() {
    assert_eq!(detect_format("a.gpx"), Some("gpx"));
    assert_eq!(detect_format("a.geojson"), Some("geojson"));
    assert_eq!(detect_format("a.json"), Some("json"));
    assert_eq!(detect_format("a.kml"), Some("kml"));
    assert_eq!(detect_format("a.txt"), None);
}

#[test]
fn detect_format_ignores_case_and_directories() {
    assert_eq!(detect_format("dir.kml/track.GPX"), Some("gpx"));
    assert_eq!(detect_format(".gpx"), None);
    assert_eq!(detect_format("noext"), None);
    assert_eq!(format_for_extension("KmL"), Some("kml"));
    assert_eq!(format_for_extension("gpx "), None);
}

#[test]
fn normalize_format_maps_json_to_geojson() {
    assert_eq!(normalize_format("JSON").unwrap(), "geojson");
    assert_eq!(normalize_format("Gpx").unwrap(), "gpx");
    match normalize_format("CSV") {
        Err(ConvertError::UnsupportedFormat(s)) => assert_eq!(s, "csv"),
        other => panic!("unexpected {:?}", other),
    }
}

#[test]
fn resolve_format_prefers_explicit() {
    assert_eq!(resolve_format(Some("kml"), "a.gpx").unwrap(), "kml");
    assert_eq!(resolve_format(None, "a.json").unwrap(), "json");
    assert!(matches!(resolve_format(None, "a.txt"), Err(ConvertError::MissingFormat)));
    assert!(matches!(resolve_format(Some("txt"), "a.gpx"), Err(ConvertError::UnsupportedFormat(_))));
}

#[test]
fn conversion_formats_resolve_both_sides() {
    assert_eq!(conversion_formats("in.gpx", "out.KML", None, None).unwrap(), ("gpx".to_string(), "kml".to_string()));
    assert_eq!(
        conversion_formats("in.txt", "out.txt", Some("JSON"), Some("gpx")).unwrap(),
        ("geojson".to_string(), "gpx".to_string())
    );
    assert!(matches!(conversion_formats("in.txt", "out.kml", None, None), Err(ConvertError::MissingFormat)));
    match conversion_formats("in.gpx", "out.kml", Some("CSV"), Some("xyz")) {
        Err(ConvertError::UnsupportedFormat(f)) => assert_eq!(f, "csv"),
        _ => panic!("the input side's error comes first"),
    }
    match conversion_formats("in.gpx", "out", None, Some("Shp")) {
        Err(ConvertError::UnsupportedFormat(f)) => assert_eq!(f, "shp"),
        _ => panic!("an unknown output format is reported"),
    }
}

#[test]
fn escape_xml_escapes_markup() {
    assert_eq!(escape_xml("a & b <c> \"d\""), "a &amp; b &lt;c&gt; \"d\"");
    assert_eq!(escape_xml(""), "");
}

#[test]
fn kml_writers_pretty_and_compact() {
    let mut out = String::new();
    write_kml_placemark_start(&mut out, true, 2);
    write_kml_text("name", "A<B", &mut out, true, 3);
    write_kml_optional_text("description", None, &mut out, true, 3);
    write_kml_tag_open("Point", &mut out, true, 3);
    write_kml_tag_close("Point", &mut out, true, 3);
    write_kml_placemark_end(&mut out, true, 2);
    assert_eq!(
        out,
        "    <Placemark>\n      <name>A&lt;B</name>\n      <Point>\n      </Point>\n    </Placemark>\n"
    );
    let mut out = String::new();
    write_kml_placemark_start(&mut out, false, 2);
    write_kml_optional_text("description", Some("x"), &mut out, false, 3);
    write_kml_placemark_end(&mut out, false, 2);
    assert_eq!(out, "<Placemark><description>x</description></Placemark>");
}
