use gpx_rs::error::ParseError;
use gpx_rs::types::{fix_as_str, Fix};
use gpx_rs::values::{fix_round_trip, parse_fix, parse_u16, parse_u64, strip_default_namespace};

#[test]
fn parse_fix_accepts_schema_spellings() {
    assert_eq!(parse_fix("wpt", "none").unwrap(), Fix::NoFix);
    assert_eq!(parse_fix("wpt", "2d").unwrap(), Fix::TwoD);
    assert_eq!(parse_fix("wpt", "3d").unwrap(), Fix::ThreeD);
    assert_eq!(parse_fix("wpt", "dgps").unwrap(), Fix::Dgps);
    assert_eq!(parse_fix("wpt", "pps").unwrap(), Fix::Pps);
}

#[test]
fn parse_fix_rejects_other_values() {
    match parse_fix("trkpt", "3D") {
        Err(ParseError::InvalidValue { element, value }) => {
            assert_eq!(element, "trkpt");
            assert_eq!(value, "3D");
        }
        other => panic!("unexpected {:?}", other),
    }
    assert!(parse_fix("wpt", "").is_err());
}

#[test]
fn fix_text_round_trips() {
    for f in [Fix::NoFix, Fix::TwoD, Fix::ThreeD, Fix::Dgps, Fix::Pps] {
        assert_eq!(parse_fix("wpt", fix_as_str(f)).unwrap(), f);
        assert_eq!(fix_round_trip(f).unwrap(), f);
    }
}

#[test]
fn parse_u64_follows_from_str() {
    assert_eq!(parse_u64("trk", "number", "42").unwrap(), 42);
    assert_eq!(parse_u64("trk", "number", "+7").unwrap(), 7);
    assert_eq!(parse_u64("trk", "number", "18446744073709551615").unwrap(), u64::MAX);
    assert!(parse_u64("trk", "number", "18446744073709551616").is_err());
    assert!(parse_u64("trk", "number", "-1").is_err());
    assert!(parse_u64("trk", "number", " 1").is_err());
    match parse_u64("rte", "number", "x") {
        Err(ParseError::InvalidAttribute { element, attribute, value }) => {
            assert_eq!((element, attribute, value.as_str()), ("rte", "number", "x"));
        }
        other => panic!("unexpected {:?}", other),
    }
}

#[test]
fn parse_u16_bounds() {
    assert_eq!(parse_u16("wpt", "dgpsid", "1023").unwrap(), 1023);
    assert_eq!(parse_u16("wpt", "dgpsid", "65535").unwrap(), 65535);
    assert!(parse_u16("wpt", "dgpsid", "65536").is_err());
    assert!(parse_u16("wpt", "dgpsid", "").is_err());
}

#[test]
fn strip_default_namespace_removes_both_quotings() {
    let a = r#"<gpx xmlns="http://www.topografix.com/GPX/1/1" version="1.1"/>"#;
    assert_eq!(strip_default_namespace(a), r#"<gpx version="1.1"/>"#);
    let b = "<gpx xmlns='http://www.topografix.com/GPX/1/1'><wpt/></gpx>";
    assert_eq!(strip_default_namespace(b), "<gpx><wpt/></gpx>");
    let c = r#"<gpx xmlns="http://www.topografix.com/GPX/1/0"/>"#;
    assert_eq!(strip_default_namespace(c), c);
}
