use gpx_rs::convert::ConvertError;
use gpx_rs::geojson::{geojson_features, GeoGeometry};
use gpx_rs::model::{Binary64, Gpx, Route, Track, TrackSegment, Waypoint};

fn read_number(s: &str) -> Option<Binary64> {
    s.parse::<f64>().ok().map(|x| Binary64 { bits: x.to_bits() })
}

fn parse_geojson(data: &str) -> Result<Gpx, ConvertError> {
    gpx_rs::geojson::parse_geojson(data, read_number)
}

fn f(x: Binary64) -> f64 {
    f64::from_bits(x.bits)
}

fn b(x: f64) -> Binary64 {
    Binary64 { bits: x.to_bits() }
}

#[test]
fn geojson_point_to_waypoint() {
    let gpx = parse_geojson(
        r#"{"type":"Feature","geometry":{"type":"Point","coordinates":[-122.3,47.6,12.0]},"properties":{"name":"Test"}}"#,
    )
    .unwrap();
    assert_eq!(gpx.waypoints.len(), 1);
    assert!((f(gpx.waypoints[0].lon) - (-122.3)).abs() < f64::EPSILON);
    assert!((f(gpx.waypoints[0].lat) - 47.6).abs() < f64::EPSILON);
    assert_eq!(gpx.waypoints[0].ele.map(f), Some(12.0));
    assert_eq!(gpx.waypoints[0].name.as_deref(), Some("Test"));
}

#[test]
fn geojson_linestring_to_route() {
    let gpx = parse_geojson(
        r#"{"type":"Feature","geometry":{"type":"LineString","coordinates":[[-122.3,47.6],[-122.4,47.7]]}}"#,
    )
    .unwrap();
    assert_eq!(gpx.routes.len(), 1);
    assert_eq!(gpx.routes[0].points.len(), 2);
}

#[test]
fn geojson_multilinestring_to_track() {
    let gpx = parse_geojson(
        r#"{"type":"Feature","geometry":{"type":"MultiLineString","coordinates":[[[-122.3,47.6],[-122.4,47.7]],[[-122.5,47.8],[-122.6,47.9]]]}}"#,
    )
    .unwrap();
    assert_eq!(gpx.tracks.len(), 1);
    assert_eq!(gpx.tracks[0].segments.len(), 2);
}

#[test]
fn geojson_collections_hints_and_multipoints() {
    let gpx = parse_geojson(
        r#"{"type":"FeatureCollection","features":[
            {"type":"Feature","properties":{"title":"T","desc":"d"},"geometry":{"type":"MultiPoint","coordinates":[[1,2],[3,4,5]]}},
            {"type":"Feature","properties":{"name":"trk","gpx_type":"trk"},"geometry":{"type":"LineString","coordinates":[[1,2]]}},
            {"type":"Feature","properties":{}}
        ]}"#,
    )
    .unwrap();
    assert_eq!(gpx.waypoints.len(), 2);
    assert_eq!(gpx.waypoints[1].name.as_deref(), Some("T"));
    assert_eq!(gpx.waypoints[1].desc.as_deref(), Some("d"));
    assert_eq!(gpx.waypoints[1].ele.map(f), Some(5.0));
    assert_eq!(f(gpx.waypoints[0].lat), 2.0);
    assert!(gpx.routes.is_empty());
    assert_eq!(gpx.tracks.len(), 1);
    assert_eq!(gpx.tracks[0].segments[0].points.len(), 1);
    let bare = parse_geojson(r#"{"type":"Point","coordinates":[7,8]}"#).unwrap();
    assert_eq!(f(bare.waypoints[0].lon), 7.0);
}

#[test]
fn geojson_errors() {
    let message = |data: &str| match parse_geojson(data) {
        Err(ConvertError::InvalidCoordinates(m)) => format!("coordinates: {m}"),
        Err(ConvertError::UnsupportedGeometry(m)) => format!("geometry: {m}"),
        Err(other) => format!("other: {}", other.message()),
        Ok(_) => "ok".to_string(),
    };
    assert_eq!(message(r#"{"features":[]}"#), "geometry: missing type");
    assert_eq!(message(r#"{"type":"Polygon","coordinates":[]}"#), "geometry: Polygon");
    assert_eq!(message(r#"{"type":"Point"}"#), "coordinates: Point missing coordinates");
    assert_eq!(message(r#"{"type":"MultiPoint","coordinates":3}"#), "coordinates: MultiPoint missing coordinates");
    assert_eq!(message(r#"{"type":"Point","coordinates":[1]}"#), "coordinates: coordinate array must contain at least lon and lat");
    assert_eq!(message(r#"{"type":"Point","coordinates":5}"#), "coordinates: expected coordinate array");
    assert_eq!(message(r#"{"type":"Point","coordinates":[1,[2,"x"]]}"#), "coordinates: expected number, got [2,\"x\"]");
    assert_eq!(message(r#"{"type":"FeatureCollection"}"#), "ok");
    assert!(message("{").starts_with("other: JSON error: "));
    match gpx_rs::geojson::parse_geojson(r#"{"type":"Point","coordinates":[1,2]}"#, |_: &str| None) {
        Err(ConvertError::InvalidCoordinates(m)) => assert_eq!(m, "expected number, got 1"),
        _ => panic!("a number the reader refuses is reported"),
    }
    let g = parse_geojson(r#"{"type":"Point","coordinates":[1e2,-0.5,3]}"#).unwrap();
    assert_eq!(f(g.waypoints[0].lon), 100.0);
    assert_eq!(f(g.waypoints[0].lat), -0.5);
    assert_eq!(g.waypoints[0].ele.map(f), Some(3.0));
}

fn at(lat: f64, lon: f64, ele: Option<f64>) -> Waypoint {
    Waypoint {
        lat: b(lat),
        lon: b(lon),
        ele: ele.map(b),
        time: None,
        magvar: None,
        geoidheight: None,
        name: None,
        cmt: None,
        desc: None,
        src: None,
        links: vec![],
        sym: None,
        waypoint_type: None,
        fix: None,
        sat: None,
        hdop: None,
        vdop: None,
        pdop: None,
        ageofdgpsdata: None,
        dgpsid: None,
        extensions: None,
    }
}

#[test]
fn geojson_features_describe_points_routes_and_segments() {
    let mut w = at(1.0, 2.0, Some(3.0));
    w.name = Some("W".into());
    let r = Route { desc: Some("rd".into()), points: vec![at(4.0, 5.0, None)], ..Default::default() };
    let t = Track {
        name: Some("T".into()),
        segments: vec![
            TrackSegment { points: vec![at(6.0, 7.0, None)], extensions: None },
            TrackSegment { points: vec![], extensions: None },
        ],
        ..Default::default()
    };
    let single = Track { segments: vec![TrackSegment::default()], ..Default::default() };
    let g = Gpx { waypoints: vec![w], routes: vec![r], tracks: vec![t, single], ..Default::default() };
    let fs = geojson_features(&g);
    assert_eq!(fs.len(), 5);
    assert_eq!(fs[0].gpx_type, "waypoint");
    assert_eq!(fs[0].name.as_deref(), Some("W"));
    match &fs[0].geometry {
        GeoGeometry::Point(p) => assert_eq!(p.iter().map(|x| f(*x)).collect::<Vec<_>>(), vec![2.0, 1.0, 3.0]),
        _ => panic!("a waypoint is a point"),
    }
    assert_eq!(fs[1].gpx_type, "route");
    assert_eq!(fs[1].description.as_deref(), Some("rd"));
    match &fs[1].geometry {
        GeoGeometry::LineString(ps) => assert_eq!(f(ps[0][0]), 5.0),
        _ => panic!("a route is a line"),
    }
    assert_eq!(fs[2].gpx_type, "track");
    assert_eq!(fs[2].segment, Some(0));
    assert_eq!(fs[3].segment, Some(1));
    assert_eq!(fs[3].name.as_deref(), Some("T"));
    assert_eq!(fs[4].segment, None);
}
