use gpx_rs::validation::suggest::levenshtein;
use gpx_rs::validation::tree::XmlNode;
use gpx_rs::validation::validator::{validate_parsed, validate_str};
use gpx_rs::validation::Severity;

#[test]
fn valid_minimal_gpx_passes() {
    let xml = r#"<?xml version="1.0"?>
<gpx version="1.1" creator="test" xmlns="http://www.topografix.com/GPX/1/1"/>"#;
    let result = validate_str(xml);
    assert!(result.is_valid(), "{:?}", result.issues);
}

#[test]
fn missing_namespace_is_error() {
    let xml = r#"<gpx version="1.1" creator="test"/>"#;
    let result = validate_str(xml);
    assert!(!result.is_valid());
    assert!(result
        .errors()
        .iter()
        .any(|issue| issue.message.contains("missing GPX namespace")));
}

#[test]
fn unknown_element_suggestion() {
    let xml = r#"<gpx version="1.1" creator="test" xmlns="http://www.topografix.com/GPX/1/1">
  <metadata><nmae>x</nmae></metadata>
</gpx>"#;
    let result = validate_str(xml);
    assert!(!result.is_valid());
    assert!(result
        .errors()
        .iter()
        .any(|issue| issue.message.contains("did you mean <name>?")));
}

fn gpx(body: &str) -> String {
    format!(
        "<gpx version=\"1.1\" creator=\"t\" xmlns=\"http://www.topografix.com/GPX/1/1\">{}</gpx>",
        body
    )
}

fn messages(xml: &str) -> Vec<String> {
    validate_str(xml).issues.iter().map(|i| i.message.clone()).collect()
}

#[test]
fn latitude_out_of_range_is_error() {
    let result = validate_str(&gpx(r#"<wpt lat="91" lon="0"/>"#));
    assert!(!result.is_valid());
    assert!(result.errors().iter().any(|i| i.message == "invalid latitude '91' (must be in [-90, 90])"));
}

#[test]
fn latitude_just_above_ninety_rounds_into_range() {
    // 90 + 2^-48 rounds to 90.0 as an f64, so it is accepted.
    let result = validate_str(&gpx(r#"<wpt lat="90.000000000000003552713678800500929355621337890625" lon="0"/>"#));
    assert!(result.is_valid(), "{:?}", result.issues);
    let result = validate_str(&gpx(r#"<wpt lat="90.00000000000002" lon="0"/>"#));
    assert!(!result.is_valid());
}

#[test]
fn latitude_not_a_number() {
    let msgs = messages(&gpx(r#"<wpt lat="abc" lon="0"/>"#));
    assert!(msgs.iter().any(|m| m == "invalid latitude 'abc' (not a number)"), "{:?}", msgs);
}

#[test]
fn longitude_180_is_warning() {
    let result = validate_str(&gpx(r#"<wpt lat="0" lon="180"/>"#));
    assert!(result.is_valid());
    assert_eq!(result.warnings().len(), 1);
    assert_eq!(
        result.warnings()[0].message,
        "longitude 180 equals 180.0 (the GPX 1.1 schema upper bound is exclusive)"
    );
    let result = validate_str(&gpx(r#"<wpt lat="0" lon="-180"/>"#));
    assert!(result.is_valid());
    assert_eq!(result.warnings().len(), 0);
}

#[test]
fn missing_required_attribute_is_error() {
    let result = validate_str(&gpx(r#"<wpt lon="0"/>"#));
    assert!(!result.is_valid());
    assert!(result.errors().iter().any(|i| i.message.contains("lat")), "{:?}", result.issues);
}

#[test]
fn version_other_than_1_1_is_warning() {
    let result = validate_str(r#"<gpx version="1.0" creator="t" xmlns="http://www.topografix.com/GPX/1/1"/>"#);
    assert!(result.is_valid());
    assert!(result
        .warnings()
        .iter()
        .any(|i| i.message == "version is '1.0' but only '1.1' is supported by this library"));
}

#[test]
fn invalid_fix_value_is_error() {
    let result = validate_str(&gpx(r#"<wpt lat="0" lon="0"><fix>4d</fix></wpt>"#));
    assert!(!result.is_valid());
    let result = validate_str(&gpx(r#"<wpt lat="0" lon="0"><fix>dgps</fix></wpt>"#));
    assert!(result.is_valid(), "{:?}", result.issues);
}

#[test]
fn duplicate_single_child_is_error() {
    let result = validate_str(&gpx(r#"<metadata/><metadata/>"#));
    assert!(!result.is_valid());
}

#[test]
fn malformed_xml_is_reported() {
    let result = validate_str("<gpx><wpt></gpx>");
    assert!(!result.is_valid());
    assert_eq!(result.errors().len(), 1);
}

#[test]
fn errors_and_warnings_partition_issues() {
    let result = validate_str(r#"<gpx version="1.0" creator="t"><wpt lat="100" lon="0"/></gpx>"#);
    let e = result.errors().len();
    let w = result.warnings().len();
    assert_eq!(e + w, result.issues.len());
    assert!(result.errors().iter().all(|i| i.severity == Severity::Error));
    assert!(result.warnings().iter().all(|i| i.severity == Severity::Warning));
}

#[test]
fn extensions_from_other_namespaces_are_accepted() {
    let result = validate_str(&gpx(
        r#"<trk><trkseg><trkpt lat="1" lon="2"><extensions><x:hr xmlns:x="urn:x">100</x:hr></extensions></trkpt></trkseg></trk>"#,
    ));
    assert!(result.is_valid(), "{:?}", result.issues);
}

#[test]
fn validate_parsed_reports_read_failures_and_trees() {
    let r = validate_parsed(Err("unexpected end element".to_string()));
    assert_eq!(r.issues.len(), 1);
    assert_eq!(r.issues[0].severity, Severity::Error);
    assert_eq!(r.issues[0].message, "unexpected end element");
    assert_eq!(r.issues[0].path, "gpx");
    assert_eq!(r.issues[0].line, None);
    let root = XmlNode {
        namespace: String::new(),
        local: "gpx".to_string(),
        attrs: vec![("version".to_string(), "1.1".to_string()), ("creator".to_string(), "t".to_string())],
        text: String::new(),
        children: vec![],
        line: Some(1),
    };
    let r = validate_parsed(Ok(root));
    assert_eq!(r.issues.len(), 1);
    assert_eq!(r.issues[0].message, "missing GPX namespace (expected 'http://www.topografix.com/GPX/1/1')");
    assert_eq!(r.issues[0].line, Some(1));
}

#[test]
fn levenshtein_is_a_distance() {
    assert_eq!(levenshtein("kitten", "sitting"), 3);
    assert_eq!(levenshtein("sitting", "kitten"), 3);
    assert_eq!(levenshtein("name", "name"), 0);
    assert_ne!(levenshtein("name", "nmae"), 0);
    assert_eq!(levenshtein("", "abc"), 3);
    let (a, b, c) = ("trkpt", "trkseg", "rtept");
    assert!(levenshtein(a, c) <= levenshtein(a, b) + levenshtein(b, c));
    assert!(levenshtein("gpx", "metadata") >= 8 - 3);
    assert!(levenshtein("gpx", "metadata") <= 8);
}
