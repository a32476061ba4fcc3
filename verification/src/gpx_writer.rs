//! Serializing a GPX document to XML text.
//!
//! Numbers are held by their bit patterns; the caller supplies how each is
//! spelled (as `{}` spells it, and with twelve decimals), and the writer
//! decides which spelling each element uses.

use vstd::prelude::*;
use crate::model::{Binary64, Bounds, Extensions, Gpx, Metadata, Route, Timestamp, Track, TrackPointExtension, TrackSegment, Waypoint};
use crate::serialize::{
    attrs_text, attrs_view, copyright_text, empty_text, end_text, lead, line_end, link_text, opt_str, opt_text_elem,
    opt_view, person_text, spec_escape_attr, spec_power_extension_xml, spec_track_extension_xml, start_text, text_elem,
    power_extension_xml, track_extension_xml, write_copyright, write_link, write_opt_text, write_person,
    write_text, XmlWriter,
};
use crate::text::{decimal_string, push_decimal, spec_decimal};
use crate::timefmt::{rfc3339_of, rfc3339_text};
use crate::types::{fix_text, Link, GPXTPTX_NS_V1};
use crate::validation::GPX_NAMESPACE;
use crate::serialize::fix_to_str;

verus! {

/// The XML Schema instance namespace.
pub const XSI_NS: &'static str = "http://www.w3.org/2001/XMLSchema-instance";

/// The caller's spellings of numbers.
pub struct NumberText<D, F> {
    /// Spells a number as `{}` does.
    pub display: D,
    /// Spells a number with twelve decimals, as `{:.12}` does.
    pub fixed: F,
}

/// The spellings, as functions of the number.
pub struct Spelling {
    pub display: spec_fn(Binary64) -> Seq<char>,
    pub fixed: spec_fn(Binary64) -> Seq<char>,
}

/// `d` can be called on every number and answers with `t`'s spelling.
pub open spec fn spells<D: Fn(Binary64) -> String>(d: &D, t: spec_fn(Binary64) -> Seq<char>) -> bool {
    &&& forall|x: Binary64| call_requires(*d, (x,))
    &&& forall|x: Binary64, s: String| call_ensures(*d, (x,), s) ==> s@ == t(x)
}

/// Both spellings of `n` are those of `t`.
pub open spec fn spelled_by<D: Fn(Binary64) -> String, F: Fn(Binary64) -> String>(n: &NumberText<D, F>, t: Spelling) -> bool {
    spells(&n.display, t.display) && spells(&n.fixed, t.fixed)
}

/// How a decimal element spells a number: as `{}` does, unless that uses an
/// exponent, then with twelve decimals.
pub open spec fn decimal_text(t: Spelling, x: Binary64) -> Seq<char> {
    let s = (t.display)(x);
    if s.contains('e') || s.contains('E') { (t.fixed)(x) } else { s }
}

fn has_exponent(s: &str) -> (r: bool)
    ensures
        r == (s@.contains('e') || s@.contains('E')),
{
    let n = s.unicode_len();
    let mut i: usize = 0;
    while i < n
        invariant
            n == s@.len(),
            i <= n,
            forall|j: int| 0 <= j < i ==> s@[j] != 'e' && s@[j] != 'E',
        decreases n - i,
    {
        let c = s.get_char(i);
        if c == 'e' || c == 'E' {
            return true;
        }
        i = i + 1;
    }
    false
}

/// Spells a number for a decimal element.
pub fn format_decimal<D: Fn(Binary64) -> String, F: Fn(Binary64) -> String>(
    x: Binary64,
    n: &NumberText<D, F>,
    Ghost(t): Ghost<Spelling>,
) -> (r: String)
    requires
        spelled_by(n, t),
    ensures
        r@ == decimal_text(t, x),
{
    let s = (n.display)(x);
    if has_exponent(s.as_str()) {
        (n.fixed)(x)
    } else {
        s
    }
}

// ================================================================ element texts

/// A line holding ready-made markup, at `depth`.
pub open spec fn raw_line(pretty: bool, depth: nat, s: Seq<char>) -> Seq<char> {
    lead(pretty, depth) + s + line_end(pretty)
}

/// A decimal element when there is a value.
pub open spec fn opt_decimal_elem(pretty: bool, depth: nat, tag: Seq<char>, v: Option<Binary64>, t: Spelling) -> Seq<char> {
    match v {
        Some(x) => text_elem(pretty, depth, tag, decimal_text(t, x)),
        None => Seq::empty(),
    }
}

/// A time element when there is an instant that chrono can spell.
pub open spec fn opt_time_elem(pretty: bool, depth: nat, tag: Seq<char>, v: Option<Timestamp>) -> Seq<char> {
    match v {
        Some(ts) => match rfc3339_of(ts.seconds as int, ts.nanos as int) {
            Some(s) => text_elem(pretty, depth, tag, s),
            None => Seq::empty(),
        },
        None => Seq::empty(),
    }
}

/// An unsigned number element when there is a value.
pub open spec fn opt_number_elem(pretty: bool, depth: nat, tag: Seq<char>, v: Option<nat>) -> Seq<char> {
    match v {
        Some(x) => text_elem(pretty, depth, tag, spec_decimal(x)),
        None => Seq::empty(),
    }
}

/// Each link, in order.
pub open spec fn links_text(pretty: bool, depth: nat, links: Seq<Link>) -> Seq<char>
    decreases links.len(),
{
    if links.len() == 0 {
        Seq::empty()
    } else {
        links_text(pretty, depth, links.drop_last()) + link_text(pretty, depth, links.last())
    }
}

/// `<tag>` + spelled number + `</tag>` inside an extension, when present.
pub open spec fn opt_inline(tag: Seq<char>, v: Option<Seq<char>>) -> Seq<char> {
    match v {
        Some(s) => "<"@ + tag + ">"@ + s + "</"@ + tag + ">"@,
        None => Seq::empty(),
    }
}

/// The number as `{}` spells it, when present.
pub open spec fn opt_display(t: Spelling, v: Option<Binary64>) -> Option<Seq<char>> {
    match v {
        Some(x) => Some((t.display)(x)),
        None => None,
    }
}

/// The decimal spelling of a small unsigned number, when present.
pub open spec fn opt_small(v: Option<u8>) -> Option<Seq<char>> {
    match v {
        Some(x) => Some(spec_decimal(x as nat)),
        None => None,
    }
}

/// The markup of a Garmin track point extension.
pub open spec fn track_point_extension_text(x: TrackPointExtension, t: Spelling) -> Seq<char> {
    "<gpxtpx:TrackPointExtension xmlns:gpxtpx=\""@ + GPXTPTX_NS_V1@ + "\">"@
        + opt_inline("gpxtpx:atemp"@, opt_display(t, x.atemp))
        + opt_inline("gpxtpx:wtemp"@, opt_display(t, x.wtemp))
        + opt_inline("gpxtpx:depth"@, opt_display(t, x.depth))
        + opt_inline("gpxtpx:hr"@, opt_small(x.hr))
        + opt_inline("gpxtpx:cad"@, opt_small(x.cad))
        + "</gpxtpx:TrackPointExtension>"@
}

/// The track point extension line of an extensions element.
pub open spec fn ext_track_point_part(pretty: bool, depth: nat, e: Extensions, t: Spelling) -> Seq<char> {
    match e.track_point {
        Some(x) => raw_line(pretty, depth, track_point_extension_text(x, t)),
        None => Seq::empty(),
    }
}

/// The power line of an extensions element.
pub open spec fn ext_power_part(pretty: bool, depth: nat, e: Extensions) -> Seq<char> {
    opt_number_elem(pretty, depth, "power"@, match e.power { Some(w) => Some(w as nat), None => None })
}

/// The power extension line of an extensions element.
pub open spec fn ext_power_extension_part(pretty: bool, depth: nat, e: Extensions) -> Seq<char> {
    match e.power_extension {
        Some(x) => raw_line(pretty, depth, spec_power_extension_xml(x)),
        None => Seq::empty(),
    }
}

/// The track extension line of an extensions element.
pub open spec fn ext_track_part(pretty: bool, depth: nat, e: Extensions) -> Seq<char> {
    match e.track {
        Some(x) => raw_line(pretty, depth, spec_track_extension_xml(x)),
        None => Seq::empty(),
    }
}

/// The raw markup line of an extensions element.
pub open spec fn ext_inner_part(pretty: bool, depth: nat, e: Extensions) -> Seq<char> {
    if e.inner_xml@.len() > 0 { raw_line(pretty, depth, e.inner_xml@) } else { Seq::empty() }
}

/// The content lines of a non-empty `<extensions>` element.
pub open spec fn extensions_body(pretty: bool, depth: nat, e: Extensions, t: Spelling) -> Seq<char> {
    ext_track_point_part(pretty, depth, e, t) + ext_power_part(pretty, depth, e)
        + ext_power_extension_part(pretty, depth, e) + ext_track_part(pretty, depth, e)
        + ext_inner_part(pretty, depth, e)
}

/// Whether an extensions value holds nothing.
pub open spec fn extensions_empty(e: Extensions) -> bool {
    e.track_point is None && e.power is None && e.power_extension is None && e.track is None && e.inner_xml@.len() == 0
}

/// An `<extensions>` element: empty when nothing is held.
pub open spec fn extensions_text(pretty: bool, depth: nat, e: Extensions, t: Spelling) -> Seq<char> {
    if extensions_empty(e) {
        empty_text(pretty, depth, "extensions"@, Seq::empty())
    } else {
        start_text(pretty, depth, "extensions"@, Seq::empty()) + extensions_body(pretty, depth + 1, e, t)
            + end_text(pretty, depth, "extensions"@)
    }
}

/// An `<extensions>` element when there are extensions.
pub open spec fn opt_extensions_text(pretty: bool, depth: nat, e: Option<Extensions>, t: Spelling) -> Seq<char> {
    match e {
        Some(x) => extensions_text(pretty, depth, x, t),
        None => Seq::empty(),
    }
}

/// The first part of a point's children: position, time and description.
#[verifier::opaque]
pub open spec fn waypoint_head(pretty: bool, d: nat, w: Waypoint, t: Spelling) -> Seq<char> {
    opt_decimal_elem(pretty, d, "ele"@, w.ele, t) + opt_time_elem(pretty, d, "time"@, w.time)
        + opt_decimal_elem(pretty, d, "magvar"@, w.magvar, t)
        + opt_decimal_elem(pretty, d, "geoidheight"@, w.geoidheight, t)
        + opt_text_elem(pretty, d, "name"@, opt_view(w.name))
        + opt_text_elem(pretty, d, "cmt"@, opt_view(w.cmt))
        + opt_text_elem(pretty, d, "desc"@, opt_view(w.desc))
        + opt_text_elem(pretty, d, "src"@, opt_view(w.src))
}

/// A fix element when there is a fix kind.
pub open spec fn opt_fix_elem(pretty: bool, d: nat, fix: Option<crate::types::Fix>) -> Seq<char> {
    match fix {
        Some(f) => text_elem(pretty, d, "fix"@, fix_text(f)),
        None => Seq::empty(),
    }
}

/// The rest of a point's children: links, symbol, fix quality and extensions.
#[verifier::opaque]
pub open spec fn waypoint_tail(pretty: bool, d: nat, w: Waypoint, t: Spelling) -> Seq<char> {
    links_text(pretty, d, w.links@) + opt_text_elem(pretty, d, "sym"@, opt_view(w.sym))
        + opt_text_elem(pretty, d, "type"@, opt_view(w.waypoint_type))
        + opt_fix_elem(pretty, d, w.fix)
        + opt_number_elem(pretty, d, "sat"@, match w.sat { Some(s) => Some(s as nat), None => None })
        + opt_decimal_elem(pretty, d, "hdop"@, w.hdop, t)
        + opt_decimal_elem(pretty, d, "vdop"@, w.vdop, t)
        + opt_decimal_elem(pretty, d, "pdop"@, w.pdop, t)
        + opt_decimal_elem(pretty, d, "ageofdgpsdata"@, w.ageofdgpsdata, t)
        + opt_number_elem(pretty, d, "dgpsid"@, match w.dgpsid { Some(s) => Some(s as nat), None => None })
        + opt_extensions_text(pretty, d, w.extensions, t)
}

/// A point element (`wpt`, `rtept` or `trkpt`).
#[verifier::opaque]
pub open spec fn waypoint_text(pretty: bool, depth: nat, tag: Seq<char>, w: Waypoint, t: Spelling) -> Seq<char> {
    start_text(pretty, depth, tag, seq![("lat"@, decimal_text(t, w.lat)), ("lon"@, decimal_text(t, w.lon))])
        + waypoint_head(pretty, depth + 1, w, t) + waypoint_tail(pretty, depth + 1, w, t)
        + end_text(pretty, depth, tag)
}

/// Each point, in order.
pub open spec fn points_text(pretty: bool, depth: nat, tag: Seq<char>, ws: Seq<Waypoint>, t: Spelling) -> Seq<char>
    decreases ws.len(),
{
    if ws.len() == 0 {
        Seq::empty()
    } else {
        points_text(pretty, depth, tag, ws.drop_last(), t) + waypoint_text(pretty, depth, tag, ws.last(), t)
    }
}

/// A `<bounds>` element; its numbers are spelled as `{}` does.
pub open spec fn bounds_text(pretty: bool, depth: nat, b: Bounds, t: Spelling) -> Seq<char> {
    empty_text(pretty, depth, "bounds"@, seq![
        ("minlat"@, (t.display)(b.minlat)),
        ("minlon"@, (t.display)(b.minlon)),
        ("maxlat"@, (t.display)(b.maxlat)),
        ("maxlon"@, (t.display)(b.maxlon)),
    ])
}

/// A `<metadata>` element.
#[verifier::opaque]
pub open spec fn metadata_text(pretty: bool, depth: nat, m: Metadata, t: Spelling) -> Seq<char> {
    let d = depth + 1;
    start_text(pretty, depth, "metadata"@, Seq::empty())
        + opt_text_elem(pretty, d, "name"@, opt_view(m.name))
        + opt_text_elem(pretty, d, "desc"@, opt_view(m.desc))
        + (match m.author { Some(a) => person_text(pretty, d, a), None => Seq::empty() })
        + (match m.copyright { Some(c) => copyright_text(pretty, d, c), None => Seq::empty() })
        + links_text(pretty, d, m.links@)
        + opt_time_elem(pretty, d, "time"@, m.time)
        + opt_text_elem(pretty, d, "keywords"@, opt_view(m.keywords))
        + (match m.bounds { Some(b) => bounds_text(pretty, d, b, t), None => Seq::empty() })
        + opt_extensions_text(pretty, d, m.extensions, t)
        + end_text(pretty, depth, "metadata"@)
}

/// The descriptive children shared by routes and tracks.
pub open spec fn header_text(
    pretty: bool,
    d: nat,
    name: Option<String>,
    cmt: Option<String>,
    desc: Option<String>,
    src: Option<String>,
    links: Seq<Link>,
    number: Option<u64>,
    kind: Option<String>,
    ext: Option<Extensions>,
    t: Spelling,
) -> Seq<char> {
    opt_text_elem(pretty, d, "name"@, opt_view(name)) + opt_text_elem(pretty, d, "cmt"@, opt_view(cmt))
        + opt_text_elem(pretty, d, "desc"@, opt_view(desc)) + opt_text_elem(pretty, d, "src"@, opt_view(src))
        + links_text(pretty, d, links)
        + opt_number_elem(pretty, d, "number"@, match number { Some(n) => Some(n as nat), None => None })
        + opt_text_elem(pretty, d, "type"@, opt_view(kind)) + opt_extensions_text(pretty, d, ext, t)
}

/// An `<rte>` element.
#[verifier::opaque]
pub open spec fn route_text(pretty: bool, depth: nat, r: Route, t: Spelling) -> Seq<char> {
    start_text(pretty, depth, "rte"@, Seq::empty())
        + header_text(pretty, depth + 1, r.name, r.cmt, r.desc, r.src, r.links@, r.number, r.route_type, r.extensions, t)
        + points_text(pretty, depth + 1, "rtept"@, r.points@, t) + end_text(pretty, depth, "rte"@)
}

/// A `<trkseg>` element.
#[verifier::opaque]
pub open spec fn segment_text(pretty: bool, depth: nat, s: TrackSegment, t: Spelling) -> Seq<char> {
    start_text(pretty, depth, "trkseg"@, Seq::empty()) + points_text(pretty, depth + 1, "trkpt"@, s.points@, t)
        + opt_extensions_text(pretty, depth + 1, s.extensions, t) + end_text(pretty, depth, "trkseg"@)
}

/// Each segment, in order.
pub open spec fn segments_text(pretty: bool, depth: nat, ss: Seq<TrackSegment>, t: Spelling) -> Seq<char>
    decreases ss.len(),
{
    if ss.len() == 0 {
        Seq::empty()
    } else {
        segments_text(pretty, depth, ss.drop_last(), t) + segment_text(pretty, depth, ss.last(), t)
    }
}

/// A `<trk>` element.
#[verifier::opaque]
pub open spec fn track_text(pretty: bool, depth: nat, tr: Track, t: Spelling) -> Seq<char> {
    start_text(pretty, depth, "trk"@, Seq::empty())
        + header_text(pretty, depth + 1, tr.name, tr.cmt, tr.desc, tr.src, tr.links@, tr.number, tr.track_type, tr.extensions, t)
        + segments_text(pretty, depth + 1, tr.segments@, t) + end_text(pretty, depth, "trk"@)
}

/// Each route, in order.
pub open spec fn routes_text(pretty: bool, depth: nat, rs: Seq<Route>, t: Spelling) -> Seq<char>
    decreases rs.len(),
{
    if rs.len() == 0 {
        Seq::empty()
    } else {
        routes_text(pretty, depth, rs.drop_last(), t) + route_text(pretty, depth, rs.last(), t)
    }
}

/// Each track, in order.
pub open spec fn tracks_text(pretty: bool, depth: nat, ts: Seq<Track>, t: Spelling) -> Seq<char>
    decreases ts.len(),
{
    if ts.len() == 0 {
        Seq::empty()
    } else {
        tracks_text(pretty, depth, ts.drop_last(), t) + track_text(pretty, depth, ts.last(), t)
    }
}

/// The attributes of the root element.
pub open spec fn gpx_attrs(g: Gpx) -> Seq<(Seq<char>, Seq<char>)> {
    seq![
        ("xmlns"@, GPX_NAMESPACE@),
        ("xmlns:xsi"@, XSI_NS@),
        ("xsi:schemaLocation"@, GPX_NAMESPACE@ + " "@ + GPX_NAMESPACE@ + "/gpx.xsd"@),
        ("version"@, match g.version { Some(v) => v@, None => "1.1"@ }),
        ("creator"@, match g.creator { Some(c) => c@, None => "gpx-rs"@ }),
    ]
}

/// The `<gpx>` element.
pub open spec fn gpx_element_text(pretty: bool, g: Gpx, t: Spelling) -> Seq<char> {
    start_text(pretty, 0, "gpx"@, gpx_attrs(g))
        + (match g.metadata { Some(m) => metadata_text(pretty, 1, m, t), None => Seq::empty() })
        + points_text(pretty, 1, "wpt"@, g.waypoints@, t) + routes_text(pretty, 1, g.routes@, t)
        + tracks_text(pretty, 1, g.tracks@, t) + opt_extensions_text(pretty, 1, g.extensions, t)
        + end_text(pretty, 0, "gpx"@)
}

/// The XML declaration that starts every document.
pub open spec fn xml_declaration() -> Seq<char> {
    "<?xml version=\"1.0\" encoding=\"UTF-8\"?>\n"@
}

/// The whole document.
pub open spec fn gpx_text(pretty: bool, g: Gpx, t: Spelling) -> Seq<char> {
    xml_declaration() + gpx_element_text(pretty, g, t)
}

/// The text of two runs of points one after the other is the text of the
/// first run followed by that of the second.
proof fn lemma_points_text_append(pretty: bool, depth: nat, tag: Seq<char>, a: Seq<Waypoint>, b: Seq<Waypoint>, t: Spelling)
    ensures
        points_text(pretty, depth, tag, a + b, t) == points_text(pretty, depth, tag, a, t) + points_text(pretty, depth, tag, b, t),
    decreases b.len(),
{
    if b.len() == 0 {
        assert(a + b =~= a);
        assert(points_text(pretty, depth, tag, a, t) + Seq::<char>::empty() =~= points_text(pretty, depth, tag, a, t));
    } else {
        lemma_points_text_append(pretty, depth, tag, a, b.drop_last(), t);
        assert((a + b).drop_last() =~= a + b.drop_last());
        assert((a + b).last() == b.last());
        let pa = points_text(pretty, depth, tag, a, t);
        let pb = points_text(pretty, depth, tag, b.drop_last(), t);
        let wt = waypoint_text(pretty, depth, tag, b.last(), t);
        assert((pa + pb) + wt =~= pa + (pb + wt));
    }
}

/// Within the text of a run of points, the `i`-th point's element stands right
/// after the elements of the points before it.
proof fn lemma_points_text_at(pretty: bool, depth: nat, tag: Seq<char>, ws: Seq<Waypoint>, t: Spelling, i: int)
    requires
        0 <= i < ws.len(),
    ensures
        ({
            let o: int = (points_text(pretty, depth, tag, ws.take(i), t).len()) as int;
            let w = waypoint_text(pretty, depth, tag, ws[i], t);
            &&& o + w.len() <= points_text(pretty, depth, tag, ws, t).len()
            &&& points_text(pretty, depth, tag, ws, t).subrange(o, o + w.len()) == w
        }),
{
    let before = ws.take(i);
    let rest = ws.skip(i + 1);
    assert(ws =~= (before + seq![ws[i]]) + rest);
    lemma_points_text_append(pretty, depth, tag, before + seq![ws[i]], rest, t);
    lemma_points_text_append(pretty, depth, tag, before, seq![ws[i]], t);
    assert(seq![ws[i]].drop_last() =~= Seq::<Waypoint>::empty());
    let pb = points_text(pretty, depth, tag, before, t);
    let w = waypoint_text(pretty, depth, tag, ws[i], t);
    assert(points_text(pretty, depth, tag, Seq::<Waypoint>::empty(), t) == Seq::<char>::empty());
    assert(Seq::<char>::empty() + w =~= w);
    assert(points_text(pretty, depth, tag, seq![ws[i]], t) =~= w);
    let all = pb + w + points_text(pretty, depth, tag, rest, t);
    assert(all.subrange(pb.len() as int, pb.len() + w.len() as int) =~= w);
}

/// A point element opens with `<` and its tag, after the line's indentation.
proof fn lemma_waypoint_text_opens(pretty: bool, depth: nat, tag: Seq<char>, w: Waypoint, t: Spelling)
    ensures
        ({
            let n: int = lead(pretty, depth).len() as int;
            &&& n + 1 + tag.len() <= waypoint_text(pretty, depth, tag, w, t).len()
            &&& waypoint_text(pretty, depth, tag, w, t).subrange(n, n + 1 + tag.len()) == "<"@ + tag
        }),
{
    reveal(waypoint_text);
    reveal_strlit("<");
    let x = waypoint_text(pretty, depth, tag, w, t);
    let n: int = lead(pretty, depth).len() as int;
    assert(x.subrange(n, n + 1 + tag.len()) =~= "<"@ + tag);
}

/// A point element's start tag carries the point's latitude in `lat` and then
/// its longitude in `lon`, each spelled as the writer spells coordinates.
pub proof fn lemma_point_start_tag(pretty: bool, depth: nat, tag: Seq<char>, w: Waypoint, t: Spelling)
    ensures
        ({
            let head = lead(pretty, depth) + "<"@ + tag + " lat=\""@ + spec_escape_attr(decimal_text(t, w.lat))
                + "\" lon=\""@ + spec_escape_attr(decimal_text(t, w.lon)) + "\">"@;
            &&& head.len() <= waypoint_text(pretty, depth, tag, w, t).len()
            &&& waypoint_text(pretty, depth, tag, w, t).subrange(0, head.len() as int) == head
        }),
{
    reveal(waypoint_text);
    reveal_with_fuel(attrs_text, 3);
    reveal_strlit(" ");
    reveal_strlit("=\"");
    reveal_strlit("\"");
    reveal_strlit(" lat=\"");
    reveal_strlit("\" lon=\"");
    reveal_strlit("\">");
    reveal_strlit(">");
    reveal_strlit("lat");
    reveal_strlit("lon");
    let la = spec_escape_attr(decimal_text(t, w.lat));
    let lo = spec_escape_attr(decimal_text(t, w.lon));
    let attrs = seq![("lat"@, decimal_text(t, w.lat)), ("lon"@, decimal_text(t, w.lon))];
    assert(attrs.drop_last().drop_last() =~= Seq::<(Seq<char>, Seq<char>)>::empty());
    assert(attrs_text(attrs) =~= " lat=\""@ + la + "\" lon=\""@ + lo + "\""@);
    let head = lead(pretty, depth) + "<"@ + tag + " lat=\""@ + la + "\" lon=\""@ + lo + "\">"@;
    let st = start_text(pretty, depth, tag, attrs);
    assert(st =~= head + line_end(pretty));
    let x = waypoint_text(pretty, depth, tag, w, t);
    assert(x.subrange(0, head.len() as int) =~= head);
}

/// A piece found in the middle part of a text is found in the whole text,
/// shifted by the length of the first part.
proof fn lemma_piece_in_middle(a: Seq<char>, b: Seq<char>, c: Seq<char>, po: int, w: Seq<char>)
    requires
        0 <= po,
        po + w.len() <= b.len(),
        b.subrange(po, po + w.len()) == w,
    ensures
        a.len() + po + w.len() <= (a + b + c).len(),
        (a + b + c).subrange(a.len() + po, a.len() + po + w.len()) == w,
{
    assert((a + b + c).subrange(a.len() + po, a.len() + po + w.len()) =~= b.subrange(po, po + w.len()));
}

/// Each point of a route is written as an `<rtept>` element, in order: the
/// `i`-th point's element stands in the `<rte>` element right after the start
/// tag, the route's descriptive children and the elements of the points
/// before it, and it opens with `<rtept`.
pub proof fn lemma_route_points_are_rtept(pretty: bool, depth: nat, r: Route, t: Spelling, i: int)
    requires
        0 <= i < r.points@.len(),
    ensures
        ({
            let w = waypoint_text(pretty, depth + 1, "rtept"@, r.points@[i], t);
            let o: int = (start_text(pretty, depth, "rte"@, Seq::empty()).len() + header_text(
                pretty,
                depth + 1,
                r.name,
                r.cmt,
                r.desc,
                r.src,
                r.links@,
                r.number,
                r.route_type,
                r.extensions,
                t,
            ).len() + points_text(pretty, depth + 1, "rtept"@, r.points@.take(i), t).len()) as int;
            let n: int = lead(pretty, depth + 1).len() as int;
            &&& o + w.len() <= route_text(pretty, depth, r, t).len()
            &&& route_text(pretty, depth, r, t).subrange(o, o + w.len()) == w
            &&& n + 6 <= w.len()
            &&& w.subrange(n, n + 6) == "<rtept"@
        }),
{
    reveal(route_text);
    let ws = r.points@;
    lemma_points_text_at(pretty, depth + 1, "rtept"@, ws, t, i);
    lemma_waypoint_text_opens(pretty, depth + 1, "rtept"@, ws[i], t);
    let s = start_text(pretty, depth, "rte"@, Seq::empty());
    let h = header_text(pretty, depth + 1, r.name, r.cmt, r.desc, r.src, r.links@, r.number, r.route_type, r.extensions, t);
    let p = points_text(pretty, depth + 1, "rtept"@, ws, t);
    let e = end_text(pretty, depth, "rte"@);
    let po: int = points_text(pretty, depth + 1, "rtept"@, ws.take(i), t).len() as int;
    lemma_piece_in_middle(s + h, p, e, po, waypoint_text(pretty, depth + 1, "rtept"@, ws[i], t));
    reveal_strlit("<rtept");
    reveal_strlit("rtept");
    reveal_strlit("<");
    assert("<"@ + "rtept"@ =~= "<rtept"@);
}

/// Each waypoint of a document is written as a `<wpt>` element, in order,
/// directly inside `<gpx>`: the `i`-th waypoint's element stands right after
/// the start tag, the metadata and the elements of the waypoints before it,
/// and it opens with `<wpt`.
pub proof fn lemma_document_waypoints_are_wpt(pretty: bool, g: Gpx, t: Spelling, i: int)
    requires
        0 <= i < g.waypoints@.len(),
    ensures
        ({
            let w = waypoint_text(pretty, 1, "wpt"@, g.waypoints@[i], t);
            let m = match g.metadata { Some(m) => metadata_text(pretty, 1, m, t), None => Seq::empty() };
            let o: int = (start_text(pretty, 0, "gpx"@, gpx_attrs(g)).len() + m.len()
                + points_text(pretty, 1, "wpt"@, g.waypoints@.take(i), t).len()) as int;
            let n: int = lead(pretty, 1).len() as int;
            &&& o + w.len() <= gpx_element_text(pretty, g, t).len()
            &&& gpx_element_text(pretty, g, t).subrange(o, o + w.len()) == w
            &&& n + 4 <= w.len()
            &&& w.subrange(n, n + 4) == "<wpt"@
        }),
{
    let ws = g.waypoints@;
    lemma_points_text_at(pretty, 1, "wpt"@, ws, t, i);
    lemma_waypoint_text_opens(pretty, 1, "wpt"@, ws[i], t);
    let st = start_text(pretty, 0, "gpx"@, gpx_attrs(g));
    let m = match g.metadata { Some(m) => metadata_text(pretty, 1, m, t), None => Seq::empty() };
    let p = points_text(pretty, 1, "wpt"@, ws, t);
    let rest = routes_text(pretty, 1, g.routes@, t) + tracks_text(pretty, 1, g.tracks@, t)
        + opt_extensions_text(pretty, 1, g.extensions, t) + end_text(pretty, 0, "gpx"@);
    let po: int = points_text(pretty, 1, "wpt"@, ws.take(i), t).len() as int;
    lemma_piece_in_middle(st + m, p, rest, po, waypoint_text(pretty, 1, "wpt"@, ws[i], t));
    assert(gpx_element_text(pretty, g, t) =~= st + m + p + rest);
    reveal_strlit("<wpt");
    reveal_strlit("wpt");
    reveal_strlit("<");
    assert("<"@ + "wpt"@ =~= "<wpt"@);
}

/// Each point of a track segment is written as a `<trkpt>` element, in order:
/// the `i`-th point's element stands in the `<trkseg>` element right after the
/// start tag and the elements of the points before it, and it opens with
/// `<trkpt`.
pub proof fn lemma_segment_points_are_trkpt(pretty: bool, depth: nat, s: TrackSegment, t: Spelling, i: int)
    requires
        0 <= i < s.points@.len(),
    ensures
        ({
            let w = waypoint_text(pretty, depth + 1, "trkpt"@, s.points@[i], t);
            let o: int = (start_text(pretty, depth, "trkseg"@, Seq::empty()).len()
                + points_text(pretty, depth + 1, "trkpt"@, s.points@.take(i), t).len()) as int;
            let n: int = lead(pretty, depth + 1).len() as int;
            &&& o + w.len() <= segment_text(pretty, depth, s, t).len()
            &&& segment_text(pretty, depth, s, t).subrange(o, o + w.len()) == w
            &&& n + 6 <= w.len()
            &&& w.subrange(n, n + 6) == "<trkpt"@
        }),
{
    reveal(segment_text);
    let ws = s.points@;
    lemma_points_text_at(pretty, depth + 1, "trkpt"@, ws, t, i);
    lemma_waypoint_text_opens(pretty, depth + 1, "trkpt"@, ws[i], t);
    let st = start_text(pretty, depth, "trkseg"@, Seq::empty());
    let p = points_text(pretty, depth + 1, "trkpt"@, ws, t);
    let x = opt_extensions_text(pretty, depth + 1, s.extensions, t);
    let e = end_text(pretty, depth, "trkseg"@);
    let po: int = points_text(pretty, depth + 1, "trkpt"@, ws.take(i), t).len() as int;
    lemma_piece_in_middle(st, p, x + e, po, waypoint_text(pretty, depth + 1, "trkpt"@, ws[i], t));
    assert(st + p + x + e =~= st + p + (x + e));
    reveal_strlit("<trkpt");
    reveal_strlit("trkpt");
    reveal_strlit("<");
    assert("<"@ + "trkpt"@ =~= "<trkpt"@);
}

// ================================================================ writers

/// Appending in two steps is appending the two parts at once.
proof fn grow(base: Seq<char>, acc: Seq<char>, x: Seq<char>)
    ensures
        base + acc + x == base + (acc + x),
{
    vstd::seq_lib::lemma_concat_associative(base, acc, x);
}

/// Writes a decimal element when there is a value.
pub fn write_opt_decimal<D: Fn(Binary64) -> String, F: Fn(Binary64) -> String>(
    tag: &str,
    value: Option<Binary64>,
    w: &mut XmlWriter,
    n: &NumberText<D, F>,
    Ghost(t): Ghost<Spelling>,
)
    requires
        spelled_by(n, t),
    ensures
        final(w).out@ == old(w).out@ + opt_decimal_elem(old(w).pretty, old(w).depth as nat, tag@, value, t),
        final(w).pretty == old(w).pretty,
        final(w).depth == old(w).depth,
{
    match value {
        Some(x) => {
            let s = format_decimal(x, n, Ghost(t));
            write_text(tag, s.as_str(), w);
        },
        None => {
            assert(w.out@ =~= w.out@ + Seq::<char>::empty());
        },
    }
}

/// Writes a time element when there is an instant that chrono can spell.
pub fn write_opt_time(tag: &str, value: Option<Timestamp>, w: &mut XmlWriter)
    ensures
        final(w).out@ == old(w).out@ + opt_time_elem(old(w).pretty, old(w).depth as nat, tag@, value),
        final(w).pretty == old(w).pretty,
        final(w).depth == old(w).depth,
{
    match value {
        Some(ts) => match rfc3339_text(ts.seconds, ts.nanos) {
            Some(s) => write_text(tag, s.as_str(), w),
            None => {
                assert(w.out@ =~= w.out@ + Seq::<char>::empty());
            },
        },
        None => {
            assert(w.out@ =~= w.out@ + Seq::<char>::empty());
        },
    }
}

/// Writes an unsigned number element when there is a value.
pub fn write_opt_number(tag: &str, value: Option<u64>, w: &mut XmlWriter)
    ensures
        final(w).out@ == old(w).out@ + opt_number_elem(old(w).pretty, old(w).depth as nat, tag@,
            match value { Some(x) => Some(x as nat), None => None }),
        final(w).pretty == old(w).pretty,
        final(w).depth == old(w).depth,
{
    match value {
        Some(x) => {
            let s = decimal_string(x);
            write_text(tag, s.as_str(), w);
        },
        None => {
            assert(w.out@ =~= w.out@ + Seq::<char>::empty());
        },
    }
}

/// Writes each link, in order.
pub fn write_links(links: &Vec<Link>, w: &mut XmlWriter)
    requires
        old(w).depth < usize::MAX,
    ensures
        final(w).out@ == old(w).out@ + links_text(old(w).pretty, old(w).depth as nat, links@),
        final(w).pretty == old(w).pretty,
        final(w).depth == old(w).depth,
{
    let ghost w0 = *w;
    let mut k: usize = 0;
    assert(links@.take(0) =~= Seq::<Link>::empty());
    assert(w.out@ =~= w0.out@ + links_text(w0.pretty, w0.depth as nat, links@.take(0)));
    while k < links.len()
        invariant
            k <= links@.len(),
            w.pretty == w0.pretty,
            w.depth == w0.depth,
            w0.depth < usize::MAX,
            w.out@ == w0.out@ + links_text(w0.pretty, w0.depth as nat, links@.take(k as int)),
        decreases links.len() - k,
    {
        write_link(&links[k], w);
        assert(links@.take(k + 1).drop_last() =~= links@.take(k as int));
        k = k + 1;
        assert(w.out@ =~= w0.out@ + links_text(w0.pretty, w0.depth as nat, links@.take(k as int)));
    }
    assert(links@.take(links@.len() as int) =~= links@);
}

fn push_opt_inline(out: &mut String, tag: &str, v: Option<String>)
    ensures
        final(out)@ == old(out)@ + opt_inline(tag@, match v { Some(s) => Some(s@), None => None }),
{
    match v {
        Some(s) => {
            out.append("<");
            out.append(tag);
            out.append(">");
            out.append(s.as_str());
            out.append("</");
            out.append(tag);
            out.append(">");
            assert(out@ =~= old(out)@ + opt_inline(tag@, Some(s@)));
        },
        None => {
            assert(out@ =~= out@ + Seq::<char>::empty());
        },
    }
}

fn display_opt<D: Fn(Binary64) -> String, F: Fn(Binary64) -> String>(
    v: Option<Binary64>,
    n: &NumberText<D, F>,
    Ghost(t): Ghost<Spelling>,
) -> (r: Option<String>)
    requires
        spelled_by(n, t),
    ensures
        (match r { Some(s) => Some(s@), None => None }) == opt_display(t, v),
{
    match v {
        Some(x) => Some((n.display)(x)),
        None => None,
    }
}

fn small_opt(v: Option<u8>) -> (r: Option<String>)
    ensures
        (match r { Some(s) => Some(s@), None => None }) == opt_small(v),
{
    match v {
        Some(x) => Some(decimal_string(x as u64)),
        None => None,
    }
}

/// Serializes a Garmin track point extension.
pub fn track_point_extension_xml<D: Fn(Binary64) -> String, F: Fn(Binary64) -> String>(
    x: &TrackPointExtension,
    n: &NumberText<D, F>,
    Ghost(t): Ghost<Spelling>,
) -> (r: String)
    requires
        spelled_by(n, t),
    ensures
        r@ == track_point_extension_text(*x, t),
{
    let mut out = String::new();
    out.append("<gpxtpx:TrackPointExtension xmlns:gpxtpx=\"");
    out.append(GPXTPTX_NS_V1);
    out.append("\">");
    push_opt_inline(&mut out, "gpxtpx:atemp", display_opt(x.atemp, n, Ghost(t)));
    push_opt_inline(&mut out, "gpxtpx:wtemp", display_opt(x.wtemp, n, Ghost(t)));
    push_opt_inline(&mut out, "gpxtpx:depth", display_opt(x.depth, n, Ghost(t)));
    push_opt_inline(&mut out, "gpxtpx:hr", small_opt(x.hr));
    push_opt_inline(&mut out, "gpxtpx:cad", small_opt(x.cad));
    out.append("</gpxtpx:TrackPointExtension>");
    assert(out@ =~= track_point_extension_text(*x, t));
    out
}

fn write_ext_track_point<D: Fn(Binary64) -> String, F: Fn(Binary64) -> String>(
    e: &Extensions,
    w: &mut XmlWriter,
    n: &NumberText<D, F>,
    Ghost(t): Ghost<Spelling>,
)
    requires
        spelled_by(n, t),
    ensures
        final(w).out@ == old(w).out@ + ext_track_point_part(old(w).pretty, old(w).depth as nat, *e, t),
        final(w).pretty == old(w).pretty,
        final(w).depth == old(w).depth,
{
    match &e.track_point {
        Some(x) => {
            let s = track_point_extension_xml(x, n, Ghost(t));
            w.raw_inline(s.as_str());
        },
        None => {
            assert(w.out@ =~= w.out@ + Seq::<char>::empty());
        },
    }
}

fn write_ext_power_extension(e: &Extensions, w: &mut XmlWriter)
    ensures
        final(w).out@ == old(w).out@ + ext_power_extension_part(old(w).pretty, old(w).depth as nat, *e),
        final(w).pretty == old(w).pretty,
        final(w).depth == old(w).depth,
{
    match &e.power_extension {
        Some(x) => {
            let s = power_extension_xml(x);
            w.raw_inline(s.as_str());
        },
        None => {
            assert(w.out@ =~= w.out@ + Seq::<char>::empty());
        },
    }
}

fn write_ext_track(e: &Extensions, w: &mut XmlWriter)
    ensures
        final(w).out@ == old(w).out@ + ext_track_part(old(w).pretty, old(w).depth as nat, *e),
        final(w).pretty == old(w).pretty,
        final(w).depth == old(w).depth,
{
    match &e.track {
        Some(x) => {
            let s = track_extension_xml(x);
            w.raw_inline(s.as_str());
        },
        None => {
            assert(w.out@ =~= w.out@ + Seq::<char>::empty());
        },
    }
}

fn write_ext_inner(e: &Extensions, w: &mut XmlWriter)
    ensures
        final(w).out@ == old(w).out@ + ext_inner_part(old(w).pretty, old(w).depth as nat, *e),
        final(w).pretty == old(w).pretty,
        final(w).depth == old(w).depth,
{
    if e.inner_xml.as_str().unicode_len() > 0 {
        w.raw_inline(e.inner_xml.as_str());
    } else {
        assert(w.out@ =~= w.out@ + Seq::<char>::empty());
    }
}

fn write_extensions_body<D: Fn(Binary64) -> String, F: Fn(Binary64) -> String>(
    e: &Extensions,
    w: &mut XmlWriter,
    n: &NumberText<D, F>,
    Ghost(t): Ghost<Spelling>,
)
    requires
        spelled_by(n, t),
    ensures
        final(w).out@ == old(w).out@ + extensions_body(old(w).pretty, old(w).depth as nat, *e, t),
        final(w).pretty == old(w).pretty,
        final(w).depth == old(w).depth,
{
    let ghost w0 = *w;
    let ghost p = w0.pretty;
    let ghost d = w0.depth as nat;
    let ghost e0 = *e;
    write_ext_track_point(e, w, n, Ghost(t));
    let ghost acc = ext_track_point_part(p, d, e0, t);
    write_opt_number("power", match e.power { Some(x) => Some(x as u64), None => None }, w);
    proof { grow(w0.out@, acc, ext_power_part(p, d, e0)); acc = acc + ext_power_part(p, d, e0); }
    write_ext_power_extension(e, w);
    proof { grow(w0.out@, acc, ext_power_extension_part(p, d, e0)); acc = acc + ext_power_extension_part(p, d, e0); }
    write_ext_track(e, w);
    proof { grow(w0.out@, acc, ext_track_part(p, d, e0)); acc = acc + ext_track_part(p, d, e0); }
    write_ext_inner(e, w);
    proof { grow(w0.out@, acc, ext_inner_part(p, d, e0)); }
}

/// Writes an `<extensions>` element.
pub fn write_extensions<D: Fn(Binary64) -> String, F: Fn(Binary64) -> String>(
    e: &Extensions,
    w: &mut XmlWriter,
    n: &NumberText<D, F>,
    Ghost(t): Ghost<Spelling>,
)
    requires
        spelled_by(n, t),
        old(w).depth < usize::MAX,
    ensures
        final(w).out@ == old(w).out@ + extensions_text(old(w).pretty, old(w).depth as nat, *e, t),
        final(w).pretty == old(w).pretty,
        final(w).depth == old(w).depth,
{
    let ghost w0 = *w;
    let none: [(&str, &str); 0] = [];
    assert(attrs_view(none@) =~= Seq::<(Seq<char>, Seq<char>)>::empty());
    if e.is_empty() {
        w.empty("extensions", &none);
        return;
    }
    w.start("extensions", &none);
    write_extensions_body(e, w, n, Ghost(t));
    w.end("extensions");
    assert(w.out@ =~= w0.out@ + extensions_text(w0.pretty, w0.depth as nat, *e, t));
}

/// Writes an `<extensions>` element when there are extensions.
pub fn write_opt_extensions<D: Fn(Binary64) -> String, F: Fn(Binary64) -> String>(
    e: &Option<Extensions>,
    w: &mut XmlWriter,
    n: &NumberText<D, F>,
    Ghost(t): Ghost<Spelling>,
)
    requires
        spelled_by(n, t),
        old(w).depth < usize::MAX,
    ensures
        final(w).out@ == old(w).out@ + opt_extensions_text(old(w).pretty, old(w).depth as nat, *e, t),
        final(w).pretty == old(w).pretty,
        final(w).depth == old(w).depth,
{
    match e {
        Some(x) => write_extensions(x, w, n, Ghost(t)),
        None => {
            assert(w.out@ =~= w.out@ + Seq::<char>::empty());
        },
    }
}

#[verifier::rlimit(100)]
fn write_waypoint_head<D: Fn(Binary64) -> String, F: Fn(Binary64) -> String>(
    wp: &Waypoint,
    w: &mut XmlWriter,
    n: &NumberText<D, F>,
    Ghost(t): Ghost<Spelling>,
)
    requires
        spelled_by(n, t),
    ensures
        final(w).out@ == old(w).out@ + waypoint_head(old(w).pretty, old(w).depth as nat, *wp, t),
        final(w).pretty == old(w).pretty,
        final(w).depth == old(w).depth,
{
    reveal(waypoint_head);
    let ghost w0 = *w;
    let ghost p = w0.pretty;
    let ghost d = w0.depth as nat;
    let ghost wp0 = *wp;
    write_opt_decimal("ele", wp.ele, w, n, Ghost(t));
    let ghost acc = opt_decimal_elem(p, d, "ele"@, wp0.ele, t);
    write_opt_time("time", wp.time, w);
    proof { grow(w0.out@, acc, opt_time_elem(p, d, "time"@, wp0.time)); acc = acc + opt_time_elem(p, d, "time"@, wp0.time); }
    write_opt_decimal("magvar", wp.magvar, w, n, Ghost(t));
    proof { grow(w0.out@, acc, opt_decimal_elem(p, d, "magvar"@, wp0.magvar, t)); acc = acc + opt_decimal_elem(p, d, "magvar"@, wp0.magvar, t); }
    write_opt_decimal("geoidheight", wp.geoidheight, w, n, Ghost(t));
    proof { grow(w0.out@, acc, opt_decimal_elem(p, d, "geoidheight"@, wp0.geoidheight, t)); acc = acc + opt_decimal_elem(p, d, "geoidheight"@, wp0.geoidheight, t); }
    write_opt_text("name", opt_str(&wp.name), w);
    proof { grow(w0.out@, acc, opt_text_elem(p, d, "name"@, opt_view(wp0.name))); acc = acc + opt_text_elem(p, d, "name"@, opt_view(wp0.name)); }
    write_opt_text("cmt", opt_str(&wp.cmt), w);
    proof { grow(w0.out@, acc, opt_text_elem(p, d, "cmt"@, opt_view(wp0.cmt))); acc = acc + opt_text_elem(p, d, "cmt"@, opt_view(wp0.cmt)); }
    write_opt_text("desc", opt_str(&wp.desc), w);
    proof { grow(w0.out@, acc, opt_text_elem(p, d, "desc"@, opt_view(wp0.desc))); acc = acc + opt_text_elem(p, d, "desc"@, opt_view(wp0.desc)); }
    write_opt_text("src", opt_str(&wp.src), w);
    proof { grow(w0.out@, acc, opt_text_elem(p, d, "src"@, opt_view(wp0.src))); acc = acc + opt_text_elem(p, d, "src"@, opt_view(wp0.src)); }
}

#[verifier::rlimit(100)]
fn write_waypoint_tail<D: Fn(Binary64) -> String, F: Fn(Binary64) -> String>(
    wp: &Waypoint,
    w: &mut XmlWriter,
    n: &NumberText<D, F>,
    Ghost(t): Ghost<Spelling>,
)
    requires
        spelled_by(n, t),
        old(w).depth < usize::MAX,
    ensures
        final(w).out@ == old(w).out@ + waypoint_tail(old(w).pretty, old(w).depth as nat, *wp, t),
        final(w).pretty == old(w).pretty,
        final(w).depth == old(w).depth,
{
    reveal(waypoint_tail);
    let ghost w0 = *w;
    let ghost p = w0.pretty;
    let ghost d = w0.depth as nat;
    let ghost wp0 = *wp;
    write_links(&wp.links, w);
    let ghost acc = links_text(p, d, wp0.links@);
    write_opt_text("sym", opt_str(&wp.sym), w);
    proof { grow(w0.out@, acc, opt_text_elem(p, d, "sym"@, opt_view(wp0.sym))); acc = acc + opt_text_elem(p, d, "sym"@, opt_view(wp0.sym)); }
    write_opt_text("type", opt_str(&wp.waypoint_type), w);
    proof { grow(w0.out@, acc, opt_text_elem(p, d, "type"@, opt_view(wp0.waypoint_type))); acc = acc + opt_text_elem(p, d, "type"@, opt_view(wp0.waypoint_type)); }
    let ghost before = w.out@;
    match wp.fix {
        Some(f) => write_text("fix", fix_to_str(f), w),
        None => {
            assert(w.out@ =~= w.out@ + Seq::<char>::empty());
        },
    }
    assert(w.out@ == before + opt_fix_elem(p, d, wp0.fix));
    proof { grow(w0.out@, acc, opt_fix_elem(p, d, wp0.fix)); acc = acc + opt_fix_elem(p, d, wp0.fix); }
    write_opt_number("sat", wp.sat, w);
    proof {
        let x = opt_number_elem(p, d, "sat"@, match wp0.sat { Some(s) => Some(s as nat), None => None });
        grow(w0.out@, acc, x);
        acc = acc + x;
    }
    write_opt_decimal("hdop", wp.hdop, w, n, Ghost(t));
    proof { grow(w0.out@, acc, opt_decimal_elem(p, d, "hdop"@, wp0.hdop, t)); acc = acc + opt_decimal_elem(p, d, "hdop"@, wp0.hdop, t); }
    write_opt_decimal("vdop", wp.vdop, w, n, Ghost(t));
    proof { grow(w0.out@, acc, opt_decimal_elem(p, d, "vdop"@, wp0.vdop, t)); acc = acc + opt_decimal_elem(p, d, "vdop"@, wp0.vdop, t); }
    write_opt_decimal("pdop", wp.pdop, w, n, Ghost(t));
    proof { grow(w0.out@, acc, opt_decimal_elem(p, d, "pdop"@, wp0.pdop, t)); acc = acc + opt_decimal_elem(p, d, "pdop"@, wp0.pdop, t); }
    write_opt_decimal("ageofdgpsdata", wp.ageofdgpsdata, w, n, Ghost(t));
    proof {
        let x = opt_decimal_elem(p, d, "ageofdgpsdata"@, wp0.ageofdgpsdata, t);
        grow(w0.out@, acc, x);
        acc = acc + x;
    }
    write_opt_number("dgpsid", match wp.dgpsid { Some(x) => Some(x as u64), None => None }, w);
    proof {
        let x = opt_number_elem(p, d, "dgpsid"@, match wp0.dgpsid { Some(s) => Some(s as nat), None => None });
        grow(w0.out@, acc, x);
        acc = acc + x;
    }
    write_opt_extensions(&wp.extensions, w, n, Ghost(t));
    proof { grow(w0.out@, acc, opt_extensions_text(p, d, wp0.extensions, t)); }
}

/// Writes a point element (`wpt`, `rtept` or `trkpt`).
#[verifier::rlimit(100)]
pub fn write_waypoint<D: Fn(Binary64) -> String, F: Fn(Binary64) -> String>(
    tag: &str,
    wp: &Waypoint,
    w: &mut XmlWriter,
    n: &NumberText<D, F>,
    Ghost(t): Ghost<Spelling>,
)
    requires
        spelled_by(n, t),
        old(w).depth < usize::MAX - 1,
    ensures
        final(w).out@ == old(w).out@ + waypoint_text(old(w).pretty, old(w).depth as nat, tag@, *wp, t),
        final(w).pretty == old(w).pretty,
        final(w).depth == old(w).depth,
{
    reveal(waypoint_text);
    let ghost w0 = *w;
    let lat = format_decimal(wp.lat, n, Ghost(t));
    let lon = format_decimal(wp.lon, n, Ghost(t));
    let attrs = [("lat", lat.as_str()), ("lon", lon.as_str())];
    assert(attrs_view(attrs@) =~= seq![("lat"@, decimal_text(t, wp.lat)), ("lon"@, decimal_text(t, wp.lon))]);
    let ghost p = w0.pretty;
    let ghost d = w0.depth as nat;
    let ghost wp0 = *wp;
    w.start(tag, &attrs);
    let ghost acc = start_text(p, d, tag@, attrs_view(attrs@));
    write_waypoint_head(wp, w, n, Ghost(t));
    proof { grow(w0.out@, acc, waypoint_head(p, d + 1, wp0, t)); acc = acc + waypoint_head(p, d + 1, wp0, t); }
    write_waypoint_tail(wp, w, n, Ghost(t));
    proof { grow(w0.out@, acc, waypoint_tail(p, d + 1, wp0, t)); acc = acc + waypoint_tail(p, d + 1, wp0, t); }
    w.end(tag);
    proof { grow(w0.out@, acc, end_text(p, d, tag@)); }
}

/// Writes each point, in order.
#[verifier::rlimit(100)]
pub fn write_points<D: Fn(Binary64) -> String, F: Fn(Binary64) -> String>(
    tag: &str,
    points: &Vec<Waypoint>,
    w: &mut XmlWriter,
    n: &NumberText<D, F>,
    Ghost(t): Ghost<Spelling>,
)
    requires
        spelled_by(n, t),
        old(w).depth < usize::MAX - 1,
    ensures
        final(w).out@ == old(w).out@ + points_text(old(w).pretty, old(w).depth as nat, tag@, points@, t),
        final(w).pretty == old(w).pretty,
        final(w).depth == old(w).depth,
{
    let ghost w0 = *w;
    let mut k: usize = 0;
    assert(points@.take(0) =~= Seq::<Waypoint>::empty());
    assert(w.out@ =~= w0.out@ + points_text(w0.pretty, w0.depth as nat, tag@, points@.take(0), t));
    while k < points.len()
        invariant
            k <= points@.len(),
            spelled_by(n, t),
            w.pretty == w0.pretty,
            w.depth == w0.depth,
            w0.depth < usize::MAX - 1,
            w.out@ == w0.out@ + points_text(w0.pretty, w0.depth as nat, tag@, points@.take(k as int), t),
        decreases points.len() - k,
    {
        write_waypoint(tag, &points[k], w, n, Ghost(t));
        assert(points@.take(k + 1).drop_last() =~= points@.take(k as int));
        k = k + 1;
        assert(w.out@ =~= w0.out@ + points_text(w0.pretty, w0.depth as nat, tag@, points@.take(k as int), t));
    }
    assert(points@.take(points@.len() as int) =~= points@);
}


/// Writes a `<bounds>` element.
pub fn write_bounds<D: Fn(Binary64) -> String, F: Fn(Binary64) -> String>(
    b: &Bounds,
    w: &mut XmlWriter,
    n: &NumberText<D, F>,
    Ghost(t): Ghost<Spelling>,
)
    requires
        spelled_by(n, t),
    ensures
        final(w).out@ == old(w).out@ + bounds_text(old(w).pretty, old(w).depth as nat, *b, t),
        final(w).pretty == old(w).pretty,
        final(w).depth == old(w).depth,
{
    let minlat = (n.display)(b.minlat);
    let minlon = (n.display)(b.minlon);
    let maxlat = (n.display)(b.maxlat);
    let maxlon = (n.display)(b.maxlon);
    let attrs = [
        ("minlat", minlat.as_str()),
        ("minlon", minlon.as_str()),
        ("maxlat", maxlat.as_str()),
        ("maxlon", maxlon.as_str()),
    ];
    assert(attrs_view(attrs@) =~= seq![
        ("minlat"@, (t.display)(b.minlat)),
        ("minlon"@, (t.display)(b.minlon)),
        ("maxlat"@, (t.display)(b.maxlat)),
        ("maxlon"@, (t.display)(b.maxlon)),
    ]);
    w.empty("bounds", &attrs);
}

fn write_opt_person(a: &Option<crate::types::Person>, w: &mut XmlWriter)
    requires
        old(w).depth < usize::MAX - 1,
    ensures
        final(w).out@ == old(w).out@ + match *a { Some(x) => person_text(old(w).pretty, old(w).depth as nat, x), None => Seq::empty() },
        final(w).pretty == old(w).pretty,
        final(w).depth == old(w).depth,
{
    match a {
        Some(x) => write_person(x, w),
        None => {
            assert(w.out@ =~= w.out@ + Seq::<char>::empty());
        },
    }
}

fn write_opt_copyright(c: &Option<crate::types::Copyright>, w: &mut XmlWriter)
    requires
        old(w).depth < usize::MAX,
    ensures
        final(w).out@ == old(w).out@ + match *c { Some(x) => copyright_text(old(w).pretty, old(w).depth as nat, x), None => Seq::empty() },
        final(w).pretty == old(w).pretty,
        final(w).depth == old(w).depth,
{
    match c {
        Some(x) => write_copyright(x, w),
        None => {
            assert(w.out@ =~= w.out@ + Seq::<char>::empty());
        },
    }
}

fn write_opt_bounds<D: Fn(Binary64) -> String, F: Fn(Binary64) -> String>(
    b: &Option<Bounds>,
    w: &mut XmlWriter,
    n: &NumberText<D, F>,
    Ghost(t): Ghost<Spelling>,
)
    requires
        spelled_by(n, t),
    ensures
        final(w).out@ == old(w).out@ + match *b { Some(x) => bounds_text(old(w).pretty, old(w).depth as nat, x, t), None => Seq::empty() },
        final(w).pretty == old(w).pretty,
        final(w).depth == old(w).depth,
{
    match b {
        Some(x) => write_bounds(x, w, n, Ghost(t)),
        None => {
            assert(w.out@ =~= w.out@ + Seq::<char>::empty());
        },
    }
}

/// Writes a `<metadata>` element.
#[verifier::rlimit(60)]
pub fn write_metadata<D: Fn(Binary64) -> String, F: Fn(Binary64) -> String>(
    m: &Metadata,
    w: &mut XmlWriter,
    n: &NumberText<D, F>,
    Ghost(t): Ghost<Spelling>,
)
    requires
        spelled_by(n, t),
        old(w).depth < 64,
    ensures
        final(w).out@ == old(w).out@ + metadata_text(old(w).pretty, old(w).depth as nat, *m, t),
        final(w).pretty == old(w).pretty,
        final(w).depth == old(w).depth,
{
    reveal(metadata_text);
    let ghost w0 = *w;
    let ghost p = w0.pretty;
    let ghost d = w0.depth as nat;
    let ghost m0 = *m;
    let none: [(&str, &str); 0] = [];
    assert(attrs_view(none@) =~= Seq::<(Seq<char>, Seq<char>)>::empty());
    w.start("metadata", &none);
    let ghost acc = start_text(p, d, "metadata"@, Seq::empty());
    write_opt_text("name", opt_str(&m.name), w);
    proof { let x = opt_text_elem(p, d + 1, "name"@, opt_view(m0.name)); grow(w0.out@, acc, x); acc = acc + x; }
    write_opt_text("desc", opt_str(&m.desc), w);
    proof { let x = opt_text_elem(p, d + 1, "desc"@, opt_view(m0.desc)); grow(w0.out@, acc, x); acc = acc + x; }
    write_opt_person(&m.author, w);
    proof {
        let x = match m0.author { Some(a) => person_text(p, d + 1, a), None => Seq::empty() };
        grow(w0.out@, acc, x);
        acc = acc + x;
    }
    write_opt_copyright(&m.copyright, w);
    proof {
        let x = match m0.copyright { Some(c) => copyright_text(p, d + 1, c), None => Seq::empty() };
        grow(w0.out@, acc, x);
        acc = acc + x;
    }
    write_links(&m.links, w);
    proof { let x = links_text(p, d + 1, m0.links@); grow(w0.out@, acc, x); acc = acc + x; }
    write_opt_time("time", m.time, w);
    proof { let x = opt_time_elem(p, d + 1, "time"@, m0.time); grow(w0.out@, acc, x); acc = acc + x; }
    write_opt_text("keywords", opt_str(&m.keywords), w);
    proof { let x = opt_text_elem(p, d + 1, "keywords"@, opt_view(m0.keywords)); grow(w0.out@, acc, x); acc = acc + x; }
    write_opt_bounds(&m.bounds, w, n, Ghost(t));
    proof {
        let x = match m0.bounds { Some(b) => bounds_text(p, d + 1, b, t), None => Seq::empty() };
        grow(w0.out@, acc, x);
        acc = acc + x;
    }
    write_opt_extensions(&m.extensions, w, n, Ghost(t));
    proof { let x = opt_extensions_text(p, d + 1, m0.extensions, t); grow(w0.out@, acc, x); acc = acc + x; }
    w.end("metadata");
    proof { grow(w0.out@, acc, end_text(p, d, "metadata"@)); }
}

#[verifier::rlimit(60)]
fn write_header<D: Fn(Binary64) -> String, F: Fn(Binary64) -> String>(
    name: &Option<String>,
    cmt: &Option<String>,
    desc: &Option<String>,
    src: &Option<String>,
    links: &Vec<Link>,
    number: Option<u64>,
    kind: &Option<String>,
    ext: &Option<Extensions>,
    w: &mut XmlWriter,
    n: &NumberText<D, F>,
    Ghost(t): Ghost<Spelling>,
)
    requires
        spelled_by(n, t),
        old(w).depth < 64,
    ensures
        final(w).out@ == old(w).out@ + header_text(old(w).pretty, old(w).depth as nat, *name, *cmt, *desc, *src,
            links@, number, *kind, *ext, t),
        final(w).pretty == old(w).pretty,
        final(w).depth == old(w).depth,
{
    let ghost w0 = *w;
    let ghost p = w0.pretty;
    let ghost d = w0.depth as nat;
    write_opt_text("name", opt_str(name), w);
    let ghost acc = opt_text_elem(p, d, "name"@, opt_view(*name));
    write_opt_text("cmt", opt_str(cmt), w);
    proof { let x = opt_text_elem(p, d, "cmt"@, opt_view(*cmt)); grow(w0.out@, acc, x); acc = acc + x; }
    write_opt_text("desc", opt_str(desc), w);
    proof { let x = opt_text_elem(p, d, "desc"@, opt_view(*desc)); grow(w0.out@, acc, x); acc = acc + x; }
    write_opt_text("src", opt_str(src), w);
    proof { let x = opt_text_elem(p, d, "src"@, opt_view(*src)); grow(w0.out@, acc, x); acc = acc + x; }
    write_links(links, w);
    proof { let x = links_text(p, d, links@); grow(w0.out@, acc, x); acc = acc + x; }
    write_opt_number("number", number, w);
    proof {
        let x = opt_number_elem(p, d, "number"@, match number { Some(k) => Some(k as nat), None => None });
        grow(w0.out@, acc, x);
        acc = acc + x;
    }
    write_opt_text("type", opt_str(kind), w);
    proof { let x = opt_text_elem(p, d, "type"@, opt_view(*kind)); grow(w0.out@, acc, x); acc = acc + x; }
    write_opt_extensions(ext, w, n, Ghost(t));
    proof { let x = opt_extensions_text(p, d, *ext, t); grow(w0.out@, acc, x); }
}

/// Writes an `<rte>` element.
pub fn write_route<D: Fn(Binary64) -> String, F: Fn(Binary64) -> String>(
    r: &Route,
    w: &mut XmlWriter,
    n: &NumberText<D, F>,
    Ghost(t): Ghost<Spelling>,
)
    requires
        spelled_by(n, t),
        old(w).depth < 8,
    ensures
        final(w).out@ == old(w).out@ + route_text(old(w).pretty, old(w).depth as nat, *r, t),
        final(w).pretty == old(w).pretty,
        final(w).depth == old(w).depth,
{
    let ghost w0 = *w;
    let ghost p = w0.pretty;
    let ghost d = w0.depth as nat;
    let ghost r0 = *r;
    reveal(route_text);
    let none: [(&str, &str); 0] = [];
    assert(attrs_view(none@) =~= Seq::<(Seq<char>, Seq<char>)>::empty());
    w.start("rte", &none);
    let ghost acc = start_text(p, d, "rte"@, Seq::empty());
    write_header(&r.name, &r.cmt, &r.desc, &r.src, &r.links, r.number, &r.route_type, &r.extensions, w, n, Ghost(t));
    proof {
        let x = header_text(p, d + 1, r0.name, r0.cmt, r0.desc, r0.src, r0.links@, r0.number, r0.route_type, r0.extensions, t);
        grow(w0.out@, acc, x);
        acc = acc + x;
    }
    write_points("rtept", &r.points, w, n, Ghost(t));
    proof { let x = points_text(p, d + 1, "rtept"@, r0.points@, t); grow(w0.out@, acc, x); acc = acc + x; }
    w.end("rte");
    proof { grow(w0.out@, acc, end_text(p, d, "rte"@)); }
}

/// Writes a `<trkseg>` element.
pub fn write_track_segment<D: Fn(Binary64) -> String, F: Fn(Binary64) -> String>(
    sg: &TrackSegment,
    w: &mut XmlWriter,
    n: &NumberText<D, F>,
    Ghost(t): Ghost<Spelling>,
)
    requires
        spelled_by(n, t),
        old(w).depth < 32,
    ensures
        final(w).out@ == old(w).out@ + segment_text(old(w).pretty, old(w).depth as nat, *sg, t),
        final(w).pretty == old(w).pretty,
        final(w).depth == old(w).depth,
{
    let ghost w0 = *w;
    let ghost p = w0.pretty;
    let ghost d = w0.depth as nat;
    let ghost s0 = *sg;
    reveal(segment_text);
    let none: [(&str, &str); 0] = [];
    assert(attrs_view(none@) =~= Seq::<(Seq<char>, Seq<char>)>::empty());
    w.start("trkseg", &none);
    let ghost acc = start_text(p, d, "trkseg"@, Seq::empty());
    write_points("trkpt", &sg.points, w, n, Ghost(t));
    proof { let x = points_text(p, d + 1, "trkpt"@, s0.points@, t); grow(w0.out@, acc, x); acc = acc + x; }
    write_opt_extensions(&sg.extensions, w, n, Ghost(t));
    proof { let x = opt_extensions_text(p, d + 1, s0.extensions, t); grow(w0.out@, acc, x); acc = acc + x; }
    w.end("trkseg");
    proof { grow(w0.out@, acc, end_text(p, d, "trkseg"@)); }
}

#[verifier::rlimit(100)]
fn write_segments<D: Fn(Binary64) -> String, F: Fn(Binary64) -> String>(
    ss: &Vec<TrackSegment>,
    w: &mut XmlWriter,
    n: &NumberText<D, F>,
    Ghost(t): Ghost<Spelling>,
)
    requires
        spelled_by(n, t),
        old(w).depth < 32,
    ensures
        final(w).out@ == old(w).out@ + segments_text(old(w).pretty, old(w).depth as nat, ss@, t),
        final(w).pretty == old(w).pretty,
        final(w).depth == old(w).depth,
{
    let ghost w0 = *w;
    let mut k: usize = 0;
    assert(ss@.take(0) =~= Seq::<TrackSegment>::empty());
    assert(w.out@ =~= w0.out@ + segments_text(w0.pretty, w0.depth as nat, ss@.take(0), t));
    while k < ss.len()
        invariant
            k <= ss@.len(),
            spelled_by(n, t),
            w.pretty == w0.pretty,
            w.depth == w0.depth,
            w0.depth < 32,
            w.out@ == w0.out@ + segments_text(w0.pretty, w0.depth as nat, ss@.take(k as int), t),
        decreases ss.len() - k,
    {
        let ghost before = ss@.take(k as int);
        write_track_segment(&ss[k], w, n, Ghost(t));
        assert(ss@.take(k + 1).drop_last() =~= before);
        proof { grow(w0.out@, segments_text(w0.pretty, w0.depth as nat, before, t), segment_text(w0.pretty, w0.depth as nat, ss@[k as int], t)); }
        k = k + 1;
    }
    assert(ss@.take(ss@.len() as int) =~= ss@);
}

/// Writes a `<trk>` element.
pub fn write_track<D: Fn(Binary64) -> String, F: Fn(Binary64) -> String>(
    tr: &Track,
    w: &mut XmlWriter,
    n: &NumberText<D, F>,
    Ghost(t): Ghost<Spelling>,
)
    requires
        spelled_by(n, t),
        old(w).depth < 8,
    ensures
        final(w).out@ == old(w).out@ + track_text(old(w).pretty, old(w).depth as nat, *tr, t),
        final(w).pretty == old(w).pretty,
        final(w).depth == old(w).depth,
{
    let ghost w0 = *w;
    let ghost p = w0.pretty;
    let ghost d = w0.depth as nat;
    let ghost t0 = *tr;
    reveal(track_text);
    let none: [(&str, &str); 0] = [];
    assert(attrs_view(none@) =~= Seq::<(Seq<char>, Seq<char>)>::empty());
    w.start("trk", &none);
    let ghost acc = start_text(p, d, "trk"@, Seq::empty());
    write_header(&tr.name, &tr.cmt, &tr.desc, &tr.src, &tr.links, tr.number, &tr.track_type, &tr.extensions, w, n, Ghost(t));
    proof {
        let x = header_text(p, d + 1, t0.name, t0.cmt, t0.desc, t0.src, t0.links@, t0.number, t0.track_type, t0.extensions, t);
        grow(w0.out@, acc, x);
        acc = acc + x;
    }
    write_segments(&tr.segments, w, n, Ghost(t));
    proof { let x = segments_text(p, d + 1, t0.segments@, t); grow(w0.out@, acc, x); acc = acc + x; }
    w.end("trk");
    proof { grow(w0.out@, acc, end_text(p, d, "trk"@)); }
}

#[verifier::rlimit(100)]
fn write_routes<D: Fn(Binary64) -> String, F: Fn(Binary64) -> String>(
    rs: &Vec<Route>,
    w: &mut XmlWriter,
    n: &NumberText<D, F>,
    Ghost(t): Ghost<Spelling>,
)
    requires
        spelled_by(n, t),
        old(w).depth < 8,
    ensures
        final(w).out@ == old(w).out@ + routes_text(old(w).pretty, old(w).depth as nat, rs@, t),
        final(w).pretty == old(w).pretty,
        final(w).depth == old(w).depth,
{
    let ghost w0 = *w;
    let mut k: usize = 0;
    assert(rs@.take(0) =~= Seq::<Route>::empty());
    assert(w.out@ =~= w0.out@ + routes_text(w0.pretty, w0.depth as nat, rs@.take(0), t));
    while k < rs.len()
        invariant
            k <= rs@.len(),
            spelled_by(n, t),
            w.pretty == w0.pretty,
            w.depth == w0.depth,
            w0.depth < 8,
            w.out@ == w0.out@ + routes_text(w0.pretty, w0.depth as nat, rs@.take(k as int), t),
        decreases rs.len() - k,
    {
        let ghost before = rs@.take(k as int);
        write_route(&rs[k], w, n, Ghost(t));
        assert(rs@.take(k + 1).drop_last() =~= before);
        proof { grow(w0.out@, routes_text(w0.pretty, w0.depth as nat, before, t), route_text(w0.pretty, w0.depth as nat, rs@[k as int], t)); }
        k = k + 1;
    }
    assert(rs@.take(rs@.len() as int) =~= rs@);
}

#[verifier::rlimit(100)]
fn write_tracks<D: Fn(Binary64) -> String, F: Fn(Binary64) -> String>(
    ts: &Vec<Track>,
    w: &mut XmlWriter,
    n: &NumberText<D, F>,
    Ghost(t): Ghost<Spelling>,
)
    requires
        spelled_by(n, t),
        old(w).depth < 8,
    ensures
        final(w).out@ == old(w).out@ + tracks_text(old(w).pretty, old(w).depth as nat, ts@, t),
        final(w).pretty == old(w).pretty,
        final(w).depth == old(w).depth,
{
    let ghost w0 = *w;
    let mut k: usize = 0;
    assert(ts@.take(0) =~= Seq::<Track>::empty());
    assert(w.out@ =~= w0.out@ + tracks_text(w0.pretty, w0.depth as nat, ts@.take(0), t));
    while k < ts.len()
        invariant
            k <= ts@.len(),
            spelled_by(n, t),
            w.pretty == w0.pretty,
            w.depth == w0.depth,
            w0.depth < 8,
            w.out@ == w0.out@ + tracks_text(w0.pretty, w0.depth as nat, ts@.take(k as int), t),
        decreases ts.len() - k,
    {
        let ghost before = ts@.take(k as int);
        write_track(&ts[k], w, n, Ghost(t));
        assert(ts@.take(k + 1).drop_last() =~= before);
        proof { grow(w0.out@, tracks_text(w0.pretty, w0.depth as nat, before, t), track_text(w0.pretty, w0.depth as nat, ts@[k as int], t)); }
        k = k + 1;
    }
    assert(ts@.take(ts@.len() as int) =~= ts@);
}

fn write_opt_metadata<D: Fn(Binary64) -> String, F: Fn(Binary64) -> String>(
    m: &Option<Metadata>,
    w: &mut XmlWriter,
    n: &NumberText<D, F>,
    Ghost(t): Ghost<Spelling>,
)
    requires
        spelled_by(n, t),
        old(w).depth < 32,
    ensures
        final(w).out@ == old(w).out@ + match *m { Some(x) => metadata_text(old(w).pretty, old(w).depth as nat, x, t), None => Seq::empty() },
        final(w).pretty == old(w).pretty,
        final(w).depth == old(w).depth,
{
    match m {
        Some(x) => write_metadata(x, w, n, Ghost(t)),
        None => {
            assert(w.out@ =~= w.out@ + Seq::<char>::empty());
        },
    }
}

/// Writes the `<gpx>` element, starting at depth 0.
#[verifier::rlimit(60)]
pub fn write_gpx<D: Fn(Binary64) -> String, F: Fn(Binary64) -> String>(
    g: &Gpx,
    w: &mut XmlWriter,
    n: &NumberText<D, F>,
    Ghost(t): Ghost<Spelling>,
)
    requires
        spelled_by(n, t),
        old(w).depth == 0,
    ensures
        final(w).out@ == old(w).out@ + gpx_element_text(old(w).pretty, *g, t),
        final(w).pretty == old(w).pretty,
        final(w).depth == 0,
{
    let ghost w0 = *w;
    let ghost p = w0.pretty;
    let ghost g0 = *g;
    let location = crate::text::concat3(GPX_NAMESPACE, " ", GPX_NAMESPACE);
    let mut location = location;
    location.append("/gpx.xsd");
    let version: &str = match &g.version { Some(v) => v.as_str(), None => "1.1" };
    let creator: &str = match &g.creator { Some(c) => c.as_str(), None => "gpx-rs" };
    let attrs = [
        ("xmlns", GPX_NAMESPACE),
        ("xmlns:xsi", XSI_NS),
        ("xsi:schemaLocation", location.as_str()),
        ("version", version),
        ("creator", creator),
    ];
    assert(attrs_view(attrs@) =~= gpx_attrs(g0));
    w.start("gpx", &attrs);
    let ghost acc = start_text(p, 0, "gpx"@, gpx_attrs(g0));
    write_opt_metadata(&g.metadata, w, n, Ghost(t));
    proof {
        let x = match g0.metadata { Some(m) => metadata_text(p, 1, m, t), None => Seq::empty() };
        grow(w0.out@, acc, x);
        acc = acc + x;
    }
    write_points("wpt", &g.waypoints, w, n, Ghost(t));
    proof { let x = points_text(p, 1, "wpt"@, g0.waypoints@, t); grow(w0.out@, acc, x); acc = acc + x; }
    write_routes(&g.routes, w, n, Ghost(t));
    proof { let x = routes_text(p, 1, g0.routes@, t); grow(w0.out@, acc, x); acc = acc + x; }
    write_tracks(&g.tracks, w, n, Ghost(t));
    proof { let x = tracks_text(p, 1, g0.tracks@, t); grow(w0.out@, acc, x); acc = acc + x; }
    write_opt_extensions(&g.extensions, w, n, Ghost(t));
    proof { let x = opt_extensions_text(p, 1, g0.extensions, t); grow(w0.out@, acc, x); acc = acc + x; }
    w.end("gpx");
    proof { grow(w0.out@, acc, end_text(p, 0, "gpx"@)); }
}

/// `d` answers one spelling for each number.
pub open spec fn deterministic_text<D: Fn(Binary64) -> String>(d: &D) -> bool {
    &&& forall|x: Binary64| call_requires(*d, (x,))
    &&& forall|x: Binary64, a: String, b: String| call_ensures(*d, (x,), a) && call_ensures(*d, (x,), b) ==> a@ == b@
}

/// The spelling that `d` gives a number.
pub open spec fn spelling_of<D: Fn(Binary64) -> String>(d: &D) -> spec_fn(Binary64) -> Seq<char> {
    |x: Binary64| (choose|s: String| call_ensures(*d, (x,), s))@
}

/// The spellings that `n` gives.
pub open spec fn spellings<D: Fn(Binary64) -> String, F: Fn(Binary64) -> String>(n: &NumberText<D, F>) -> Spelling {
    Spelling { display: spelling_of(&n.display), fixed: spelling_of(&n.fixed) }
}

/// Serialize a GPX document to XML text, spelling numbers with `numbers`.
pub fn to_string<D: Fn(Binary64) -> String, F: Fn(Binary64) -> String>(g: &Gpx, pretty: bool, numbers: NumberText<D, F>) -> (r: String)
    requires
        deterministic_text(&numbers.display),
        deterministic_text(&numbers.fixed),
    ensures
        r@ == gpx_text(pretty, *g, spellings(&numbers)),
{
    let ghost t = spellings(&numbers);
    assert(spelled_by(&numbers, t)) by {
        assert forall|x: Binary64, s: String| call_ensures(numbers.display, (x,), s) implies s@ == (t.display)(x) by {
            let c = choose|c: String| call_ensures(numbers.display, (x,), c);
            assert(call_ensures(numbers.display, (x,), c));
        }
        assert forall|x: Binary64, s: String| call_ensures(numbers.fixed, (x,), s) implies s@ == (t.fixed)(x) by {
            let c = choose|c: String| call_ensures(numbers.fixed, (x,), c);
            assert(call_ensures(numbers.fixed, (x,), c));
        }
    }
    let mut w = XmlWriter::new(String::new(), pretty);
    w.out.append("<?xml version=\"1.0\" encoding=\"UTF-8\"?>\n");
    assert(w.out@ =~= xml_declaration());
    write_gpx(g, &mut w, &numbers, Ghost(t));
    w.into_string()
}

} // verus!
