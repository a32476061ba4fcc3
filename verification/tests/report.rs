use gpx_rs::convert::ConvertError;
use gpx_rs::error::ParseError;
use gpx_rs::model::{Binary64, Metadata, Timestamp, Waypoint};
use gpx_rs::operations::split_points;
use gpx_rs::report::{
    exit_code, metadata_summary, require_valid, summary_line, validation_failed, warning_notice, CliError,
};
use gpx_rs::types::Person;
use gpx_rs::validation::{InvalidGpxError, Severity, ValidationIssue, ValidationResult};

fn issue(severity: Severity, message: &str, path: &str, line: Option<u32>) -> ValidationIssue {
    ValidationIssue { severity, message: message.to_string(), path: path.to_string(), line }
}

fn mixed() -> ValidationResult {
    ValidationResult {
        issues: vec![
            issue(Severity::Warning, "version is 1.0", "gpx", Some(1)),
            issue(Severity::Error, "missing lat", "gpx > wpt[0]", Some(3)),
            issue(Severity::Error, "bad fix", "gpx > wpt[1] > fix", None),
        ],
    }
}

fn warnings_only() -> ValidationResult {
    ValidationResult { issues: vec![issue(Severity::Warning, "longitude is 180", "gpx > wpt[0]", Some(2))] }
}

#[test]
fn validation_failed_counts_errors_and_strict_warnings() {
    assert!(validation_failed(&mixed(), false));
    assert!(validation_failed(&mixed(), true));
    assert!(!validation_failed(&warnings_only(), false));
    assert!(validation_failed(&warnings_only(), true));
    let empty = ValidationResult { issues: vec![] };
    assert!(!validation_failed(&empty, true));
    assert_eq!(exit_code(true), 1);
    assert_eq!(exit_code(false), 0);
}

#[test]
fn summary_and_notice_texts() {
    assert_eq!(summary_line("a.gpx", 2, 1, true), "✗ a.gpx: 2 errors, 1 warning");
    assert_eq!(summary_line("b.gpx", 0, 3, false), "⚠ b.gpx: 0 errors, 3 warnings");
    assert_eq!(summary_line("c.gpx", 1, 0, true), "✗ c.gpx: 1 error, 0 warnings");
    assert_eq!(warning_notice("d.gpx", 1), "⚠ d.gpx: 1 warning");
    assert_eq!(warning_notice("d.gpx", 12), "⚠ d.gpx: 12 warnings");
}

#[test]
fn require_valid_passes_warnings_and_rejects_errors() {
    assert!(require_valid(warnings_only()).is_ok());
    match require_valid(mixed()) {
        Err(e) => {
            assert_eq!(e.result.issues.len(), 3);
            assert_eq!(e.issues().len(), 2);
        }
        Ok(()) => panic!("errors must be rejected"),
    }
}

#[test]
fn issue_and_error_texts() {
    let i = issue(Severity::Error, "missing lat", "gpx > wpt[0]", Some(3));
    assert_eq!(i.display_text(), "ERROR   line 3  gpx > wpt[0]: missing lat");
    let w = issue(Severity::Warning, "odd", "gpx", None);
    assert_eq!(w.display_text(), "WARNING gpx: odd");
    let e = InvalidGpxError::new(mixed());
    assert_eq!(
        e.display_text(),
        "Invalid GPX (2 errors):\n  ERROR   line 3  gpx > wpt[0]: missing lat\n  ERROR   gpx > wpt[1] > fix: bad fix\n"
    );
    let one = InvalidGpxError::new(ValidationResult { issues: vec![i] });
    assert_eq!(one.display_text(), "Invalid GPX (1 error):\n  ERROR   line 3  gpx > wpt[0]: missing lat\n");
}

#[test]
fn parse_and_convert_error_messages() {
    let e = ParseError::MissingAttribute { element: "wpt", attribute: "lat" };
    assert_eq!(e.message(), "missing attribute `lat` on `<wpt>`");
    let e = ParseError::InvalidAttribute { element: "wpt", attribute: "lat", value: "x".to_string() };
    assert_eq!(e.message(), "invalid attribute `lat` on `<wpt>`: `x`");
    assert_eq!(ParseError::InvalidTime("noon".to_string()).message(), "invalid GPX time: `noon`");
    let e = ParseError::InvalidValue { element: "fix", value: "4d".to_string() };
    assert_eq!(e.message(), "invalid value for `<fix>`: `4d`");
    assert_eq!(ParseError::UnexpectedEof.message(), "unexpected end of GPX document");
    let io = std::io::Error::new(std::io::ErrorKind::NotFound, "gone");
    assert_eq!(ParseError::Io(io).message(), "GPX I/O error: gone");

    assert_eq!(ConvertError::Xml("bad".to_string()).message(), "XML error: bad");
    assert_eq!(ConvertError::UnsupportedFormat("txt".to_string()).message(), "unsupported format: txt");
    assert_eq!(ConvertError::UnsupportedGeometry("Polygon".to_string()).message(), "unsupported geometry type: Polygon");
    assert_eq!(ConvertError::InvalidCoordinates("x".to_string()).message(), "invalid coordinates: x");
    assert_eq!(ConvertError::MissingFormat.message(), "could not detect file format from extension");
    assert_eq!(ConvertError::Parse(ParseError::UnexpectedEof).message(), "unexpected end of GPX document");
    let io = std::io::Error::new(std::io::ErrorKind::Other, "disk");
    assert_eq!(ConvertError::Io(io).message(), "I/O error: disk");
    assert_eq!(CliError("boom".to_string()).message(), "boom");
}

#[test]
fn metadata_summary_lists_present_entries_in_order() {
    let m = Metadata {
        name: Some("Sample".to_string()),
        desc: None,
        author: Some(Person { name: Some("dev".to_string()), email: None, link: None }),
        time: Some(Timestamp { seconds: 0, nanos: 0 }),
        keywords: Some("a,b".to_string()),
        ..Default::default()
    };
    let entries = metadata_summary(&m);
    let expected: Vec<(String, String)> = vec![
        ("name".into(), "Sample".into()),
        ("author".into(), "dev".into()),
        ("time".into(), "1970-01-01T00:00:00+00:00".into()),
        ("keywords".into(), "a,b".into()),
    ];
    assert_eq!(entries, expected);
    assert!(metadata_summary(&Metadata::default()).is_empty());
}

fn at(lat: f64) -> Waypoint {
    Waypoint {
        lat: Binary64 { bits: lat.to_bits() },
        lon: Binary64 { bits: 0f64.to_bits() },
        ele: None,
        time: None,
        magvar: None,
        geoidheight: None,
        name: None,
        cmt: None,
        desc: None,
        src: None,
        links: vec![],
        sym: None,
        waypoint_type: None,
        fix: None,
        sat: None,
        hdop: None,
        vdop: None,
        pdop: None,
        ageofdgpsdata: None,
        dgpsid: None,
        extensions: None,
    }
}

#[test]
fn split_points_starts_a_run_at_each_gap() {
    let lat = |w: &Waypoint| f64::from_bits(w.lat.bits);
    let points = vec![at(1.0), at(1.5), at(5.0), at(5.2), at(9.0)];
    let runs = split_points(points, |a: &Waypoint, b: &Waypoint| lat(b) - lat(a) > 1.0);
    let sizes: Vec<usize> = runs.iter().map(|r| r.len()).collect();
    assert_eq!(sizes, vec![2, 2, 1]);
    assert_eq!(lat(&runs[1][0]), 5.0);
    let none = split_points(vec![], |_: &Waypoint, _: &Waypoint| true);
    assert_eq!(none.len(), 1);
    assert!(none[0].is_empty());
}
