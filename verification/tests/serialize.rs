use gpx_rs::serialize::{
    escape_attr, escape_text, fix_to_str, power_extension_xml, track_extension_xml, write_copyright,
    write_link, write_opt_text, write_person, write_text, XmlWriter,
};
use gpx_rs::types::{Copyright, Email, Fix, Link, Person, PowerExtension, TrackExtension};

#[test]
fn escapes() {
    assert_eq!(escape_text("a<b>&\"c\""), "a&lt;b&gt;&amp;\"c\"");
    assert_eq!(escape_attr("a<b>&\"c\""), "a&lt;b&gt;&amp;&quot;c&quot;");
}

#[test]
fn writer_pretty_nesting() {
    let mut w = XmlWriter::new(String::new(), true);
    w.start("gpx", &[("version", "1.1"), ("creator", "a\"b")]);
    w.text_element("name", "x & y");
    w.empty("bounds", &[("minlat", "1")]);
    w.raw_inline("<x/>");
    w.end("gpx");
    assert_eq!(
        w.into_string(),
        "<gpx version=\"1.1\" creator=\"a&quot;b\">\n  <name>x &amp; y</name>\n  <bounds minlat=\"1\"/>\n  <x/>\n</gpx>\n"
    );
}

#[test]
fn writer_compact_and_end_never_below_zero() {
    let mut w = XmlWriter::new(String::from("<?xml?>"), false);
    w.end("a");
    assert_eq!(w.depth, 0);
    w.start("b", &[]);
    w.end("b");
    assert_eq!(w.into_string(), "<?xml?></a><b></b>");
}

#[test]
fn text_helpers() {
    let mut w = XmlWriter::new(String::new(), false);
    write_text("fix", fix_to_str(Fix::Dgps), &mut w);
    write_opt_text("cmt", None, &mut w);
    write_opt_text("desc", Some("d"), &mut w);
    assert_eq!(w.into_string(), "<fix>dgps</fix><desc>d</desc>");
}

#[test]
fn link_copyright_person() {
    let link = Link { href: "https://e.com/?a=1&b=2".into(), text: Some("T".into()), link_type: None };
    let mut w = XmlWriter::new(String::new(), true);
    write_link(&link, &mut w);
    assert_eq!(w.into_string(), "<link href=\"https://e.com/?a=1&amp;b=2\">\n  <text>T</text>\n</link>\n");

    let c = Copyright { author: "me".into(), year: Some("2026".into()), license: Some("MIT".into()) };
    let mut w = XmlWriter::new(String::new(), false);
    write_copyright(&c, &mut w);
    assert_eq!(w.into_string(), "<copyright author=\"me\"><year>2026</year><license>MIT</license></copyright>");

    let p = Person {
        name: Some("N".into()),
        email: Some(Email { id: "dev".into(), domain: "example.com".into() }),
        link: Some(Link { href: "h".into(), text: None, link_type: Some("web".into()) }),
    };
    let mut w = XmlWriter::new(String::new(), true);
    w.start("metadata", &[]);
    write_person(&p, &mut w);
    w.end("metadata");
    assert_eq!(
        w.into_string(),
        "<metadata>\n  <author>\n    <name>N</name>\n    <email id=\"dev\" domain=\"example.com\"/>\n    <link href=\"h\">\n      <type>web</type>\n    </link>\n  </author>\n</metadata>\n"
    );
}

#[test]
fn extension_markup() {
    assert_eq!(
        power_extension_xml(&PowerExtension { power_in_watts: Some(250) }),
        "<gpxpx:PowerExtension xmlns:gpxpx=\"http://www.garmin.com/xmlschemas/PowerExtension/v1\"><gpxpx:PowerInWatts>250</gpxpx:PowerInWatts></gpxpx:PowerExtension>"
    );
    assert_eq!(
        power_extension_xml(&PowerExtension { power_in_watts: None }),
        "<gpxpx:PowerExtension xmlns:gpxpx=\"http://www.garmin.com/xmlschemas/PowerExtension/v1\"></gpxpx:PowerExtension>"
    );
    assert_eq!(
        track_extension_xml(&TrackExtension { display_color: Some("Dark<Gray".into()) }),
        "<gpxx:TrackExtension xmlns:gpxx=\"http://www.garmin.com/xmlschemas/GpxExtensions/v3\"><gpxx:DisplayColor>Dark&lt;Gray</gpxx:DisplayColor></gpxx:TrackExtension>"
    );
}
