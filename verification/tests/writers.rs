use gpx_rs::gpx_writer::{to_string, NumberText};
use gpx_rs::kml::{
    parse_kml, parse_kml_placemarks, strip_kml_namespace,
    KmlInput, KmlState,
};
use gpx_rs::kml_writer::kml_string;
use gpx_rs::model::{Binary64, Gpx, Metadata, Route, Timestamp, Track, TrackSegment, Waypoint};
use gpx_rs::convert::ConvertError;
use gpx_rs::types::Fix;

fn b(x: f64) -> Binary64 {
    Binary64 { bits: x.to_bits() }
}

fn f(x: Binary64) -> f64 {
    f64::from_bits(x.bits)
}

fn display(x: Binary64) -> String {
    format!("{}", f(x))
}

fn fixed(x: Binary64) -> String {
    format!("{:.12}", f(x))
}

fn read_number(s: &str) -> Option<Binary64> {
    s.parse::<f64>().ok().map(b)
}

fn pt(lat: f64, lon: f64) -> Waypoint {
    Waypoint {
        lat: b(lat),
        lon: b(lon),
        ele: None,
        time: None,
        magvar: None,
        geoidheight: None,
        name: None,
        cmt: None,
        desc: None,
        src: None,
        links: Vec::new(),
        sym: None,
        waypoint_type: None,
        fix: None,
        sat: None,
        hdop: None,
        vdop: None,
        pdop: None,
        ageofdgpsdata: None,
        dgpsid: None,
        extensions: None,
    }
}

#[test]
fn gpx_to_string_compact() {
    let mut w = pt(47.5, -122.25);
    w.ele = Some(b(4.5));
    w.name = Some("A&B".into());
    w.fix = Some(Fix::ThreeD);
    w.sat = Some(7);
    w.time = Some(Timestamp { seconds: 1022749210, nanos: 0 });
    let g = Gpx { version: None, creator: Some("me".into()), waypoints: vec![w], ..Default::default() };
    let s = to_string(&g, false, NumberText { display, fixed });
    assert_eq!(
        s,
        "<?xml version=\"1.0\" encoding=\"UTF-8\"?>\n<gpx xmlns=\"http://www.topografix.com/GPX/1/1\" xmlns:xsi=\"http://www.w3.org/2001/XMLSchema-instance\" xsi:schemaLocation=\"http://www.topografix.com/GPX/1/1 http://www.topografix.com/GPX/1/1/gpx.xsd\" version=\"1.1\" creator=\"me\"><wpt lat=\"47.5\" lon=\"-122.25\"><ele>4.5</ele><time>2002-05-30T09:00:10+00:00</time><name>A&amp;B</name><fix>3d</fix><sat>7</sat></wpt></gpx>"
    );
}

#[test]
fn gpx_to_string_pretty_nesting() {
    let mut seg = TrackSegment::default();
    seg.points.push(pt(1e-7, 2.0));
    let trk = Track { name: Some("t".into()), number: Some(3), segments: vec![seg], ..Default::default() };
    let g = Gpx {
        version: Some("1.1".into()),
        metadata: Some(Metadata { name: Some("m".into()), ..Default::default() }),
        tracks: vec![trk],
        ..Default::default()
    };
    let s = to_string(&g, true, NumberText { display, fixed });
    let expected = [
        "<?xml version=\"1.0\" encoding=\"UTF-8\"?>",
        "<gpx xmlns=\"http://www.topografix.com/GPX/1/1\" xmlns:xsi=\"http://www.w3.org/2001/XMLSchema-instance\" xsi:schemaLocation=\"http://www.topografix.com/GPX/1/1 http://www.topografix.com/GPX/1/1/gpx.xsd\" version=\"1.1\" creator=\"gpx-rs\">",
        "  <metadata>",
        "    <name>m</name>",
        "  </metadata>",
        "  <trk>",
        "    <name>t</name>",
        "    <number>3</number>",
        "    <trkseg>",
        "      <trkpt lat=\"0.0000001\" lon=\"2\">",
        "      </trkpt>",
        "    </trkseg>",
        "  </trk>",
        "</gpx>",
        "",
    ]
    .join("\n");
    assert_eq!(s, expected);
}

#[test]
fn kml_string_compact_and_pretty() {
    let mut w = pt(47.6, -122.3);
    w.name = Some("W".into());
    w.ele = Some(b(12.0));
    let r = Route { name: Some("R".into()), points: vec![pt(1.0, 2.0), pt(3.0, 4.0)], ..Default::default() };
    let g = Gpx { waypoints: vec![w], routes: vec![r], ..Default::default() };
    let s = kml_string(&g, false, display);
    assert_eq!(
        s,
        "<?xml version=\"1.0\" encoding=\"UTF-8\"?>\n<kml xmlns=\"http://www.opengis.net/kml/2.2\"><Document><Placemark><name>W</name><Point><coordinates>-122.3,47.6,12</coordinates></Point></Placemark><Placemark><name>R</name><LineString><coordinates>2,1 4,3</coordinates></LineString></Placemark></Document></kml>"
    );
    let t = Track {
        segments: vec![
            TrackSegment { points: vec![pt(1.0, 2.0)], extensions: None },
            TrackSegment { points: vec![pt(5.0, 6.0)], extensions: None },
        ],
        ..Default::default()
    };
    let g = Gpx { tracks: vec![t], ..Default::default() };
    let s = kml_string(&g, true, display);
    assert!(s.contains("      <MultiGeometry>\n        <LineString>\n          <coordinates>2,1</coordinates>\n        </LineString>\n"));
    assert!(s.ends_with("  </Document>\n</kml>\n"));
}

#[test]
fn kml_point_and_linestring_round_trip() {
    let mut w = pt(47.6, -122.3);
    w.name = Some("W".into());
    w.desc = Some("d".into());
    let r = Route { name: Some("R".into()), points: vec![pt(1.0, 2.0), pt(3.0, 4.0)], ..Default::default() };
    let g = Gpx { waypoints: vec![w], routes: vec![r], ..Default::default() };
    let text = kml_string(&g, true, display);
    let back = parse_kml(&text, read_number).unwrap();
    assert_eq!(back.waypoints.len(), 1);
    assert_eq!(back.waypoints[0].name.as_deref(), Some("W"));
    assert_eq!(back.waypoints[0].desc.as_deref(), Some("d"));
    assert_eq!(f(back.waypoints[0].lat), 47.6);
    assert_eq!(back.routes.len(), 1);
    assert_eq!(back.routes[0].points.len(), 2);
    assert_eq!(f(back.routes[0].points[1].lon), 4.0);
}

#[test]
fn kml_point_and_linestring() {
    let kml = r#"<?xml version="1.0" encoding="UTF-8"?>
<kml xmlns="http://www.opengis.net/kml/2.2">
  <Document>
    <Placemark>
      <name>Point A</name>
      <Point><coordinates>-122.3,47.6,10</coordinates></Point>
    </Placemark>
    <Placemark>
      <name>Route B</name>
      <LineString><coordinates>-122.3,47.6 -122.4,47.7</coordinates></LineString>
    </Placemark>
    <Placemark>
      <name>Track C</name>
      <MultiGeometry>
        <LineString><coordinates>-122.3,47.6 -122.4,47.7</coordinates></LineString>
        <LineString><coordinates>-122.5,47.8 -122.6,47.9</coordinates></LineString>
      </MultiGeometry>
    </Placemark>
  </Document>
</kml>"#;
    let gpx = parse_kml(kml, read_number).unwrap();
    assert_eq!(gpx.waypoints.len(), 1);
    assert_eq!(gpx.routes.len(), 1);
    assert_eq!(gpx.tracks.len(), 1);
    assert_eq!(gpx.tracks[0].segments.len(), 2);
}

#[test]
fn kml_multigeometry_becomes_track() {
    let kml = r#"<kml xmlns="http://www.opengis.net/kml/2.2"><Document><Placemark><name>T</name><MultiGeometry>
<LineString><coordinates>1,2 3,4</coordinates></LineString>
<LineString><coordinates>5,6,7</coordinates></LineString></MultiGeometry></Placemark></Document></kml>"#;
    let g = parse_kml(kml, read_number).unwrap();
    assert_eq!(g.tracks.len(), 1);
    assert_eq!(g.tracks[0].name.as_deref(), Some("T"));
    assert_eq!(g.tracks[0].segments.len(), 2);
    assert_eq!(g.tracks[0].segments[1].points[0].ele.map(f), Some(7.0));
}

#[test]
fn kml_errors_through_parse() {
    let kml = "<kml><Placemark><Point><coordinates>1,2 3</coordinates></Point></Placemark></kml>";
    match parse_kml(kml, read_number) {
        Err(ConvertError::InvalidCoordinates(m)) => assert_eq!(m, "expected lon,lat[,ele], got `3`"),
        other => panic!("unexpected {:?}", other.map(|g| g.waypoints.len())),
    }
    let kml = "<kml><Placemark><Point><coordinates>x,2</coordinates></Point></Placemark></kml>";
    match parse_kml(kml, read_number) {
        Err(ConvertError::InvalidCoordinates(m)) => assert_eq!(m, "invalid longitude `x,2`"),
        other => panic!("unexpected {:?}", other.map(|g| g.waypoints.len())),
    }
    let kml = "<kml><Placemark><Point><coordinates> </coordinates></Point></Placemark></kml>";
    match parse_kml(kml, read_number) {
        Err(ConvertError::InvalidCoordinates(m)) => assert_eq!(m, "Point placemark has no coordinates"),
        other => panic!("unexpected {:?}", other.map(|g| g.waypoints.len())),
    }
    assert!(matches!(parse_kml("<kml><a></b></kml>", read_number), Err(ConvertError::Xml(_))));
}

#[test]
fn strip_kml_namespace_removes_declaration() {
    assert_eq!(strip_kml_namespace(r#"<kml xmlns="http://www.opengis.net/kml/2.2"/>"#), "<kml/>");
    assert_eq!(strip_kml_namespace("<kml xmlns='http://www.opengis.net/kml/2.2'/>"), "<kml/>");
}

#[test]
fn placemarks_state_machine() {
    let mut s = KmlState::new();
    for input in [
        KmlInput::Open("Placemark".into()),
        KmlInput::Open("name".into()),
        KmlInput::Text(Ok("N".into())),
        KmlInput::Close("name".into()),
        KmlInput::Open("Point".into()),
        KmlInput::Open("coordinates".into()),
        KmlInput::Text(Ok(" 1,2 ".into())),
        KmlInput::Close("coordinates".into()),
        KmlInput::Close("Point".into()),
        KmlInput::Close("Placemark".into()),
    ] {
        s.step(input).unwrap();
    }
    assert_eq!(s.placemarks.len(), 1);
    assert_eq!(s.placemarks[0].name.as_deref(), Some("N"));
    assert_eq!(s.placemarks[0].point.as_deref(), Some("1,2"));
    assert!(s.element_stack.is_empty());
    let mut t = KmlState::new();
    t.step(KmlInput::Open("coordinates".into())).unwrap();
    assert!(matches!(t.step(KmlInput::Text(Err("bad".into()))), Err(ConvertError::Xml(m)) if m == "bad"));
}

#[test]
fn placemarks_from_text() {
    let ps = parse_kml_placemarks("<kml><Placemark><description>&lt;x&gt;</description><LineString><coordinates>1,2</coordinates></LineString></Placemark></kml>").unwrap();
    assert_eq!(ps.len(), 1);
    assert_eq!(ps[0].description.as_deref(), Some("<x>"));
    assert_eq!(ps[0].line_string.as_deref(), Some("1,2"));
}

#[test]
fn decimal_elements_fall_back_to_fixed_when_display_has_exponent() {
    let g = Gpx { waypoints: vec![pt(1.0, 2.0)], ..Default::default() };
    let numbers = NumberText { display: |_x: Binary64| "1e-7".to_string(), fixed: |_x: Binary64| "0.000000100000".to_string() };
    let s = to_string(&g, false, numbers);
    assert!(s.contains("<wpt lat=\"0.000000100000\" lon=\"0.000000100000\"></wpt>"), "{}", s);
}
