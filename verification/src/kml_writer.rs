//! Writing a GPX document as KML 2.2: waypoints become point placemarks,
//! routes line strings, and tracks line strings or multi-geometries.

use vstd::prelude::*;
use crate::convert::{
    spec_kml_tag_close, spec_kml_tag_open, spec_kml_text, write_kml_optional_text, write_kml_placemark_end,
    write_kml_placemark_start, write_kml_tag_close, write_kml_tag_open, write_kml_text, KML_NS,
};
use crate::gpx_writer::{deterministic_text, spelling_of};
use crate::model::{Binary64, Gpx, Route, Track, Waypoint};
use crate::serialize::{opt_str, opt_view};

verus! {

/// `d` can be called on every number and answers with the spelling `t`.
pub open spec fn spells_as<D: Fn(Binary64) -> String>(d: &D, t: spec_fn(Binary64) -> Seq<char>) -> bool {
    &&& forall|x: Binary64| call_requires(*d, (x,))
    &&& forall|x: Binary64, s: String| call_ensures(*d, (x,), s) ==> s@ == t(x)
}

/// `lon,lat` or `lon,lat,ele` of a point.
pub open spec fn coordinate_text(w: Waypoint, t: spec_fn(Binary64) -> Seq<char>) -> Seq<char> {
    t(w.lon) + ","@ + t(w.lat) + match w.ele {
        Some(e) => ","@ + t(e),
        None => Seq::empty(),
    }
}

/// The coordinates of the points, joined by `sep`.
pub open spec fn coordinates_text(ps: Seq<Waypoint>, sep: Seq<char>, t: spec_fn(Binary64) -> Seq<char>) -> Seq<char>
    decreases ps.len(),
{
    if ps.len() == 0 {
        Seq::empty()
    } else if ps.len() == 1 {
        coordinate_text(ps[0], t)
    } else {
        coordinates_text(ps.drop_last(), sep, t) + sep + coordinate_text(ps.last(), t)
    }
}

/// The separator between coordinates: a line break when printing prettily.
pub open spec fn coordinate_separator(pretty: bool) -> Seq<char> {
    if pretty { "\n"@ } else { " "@ }
}

/// A `coordinates` element for the points.
pub open spec fn kml_coordinates_text(ps: Seq<Waypoint>, pretty: bool, depth: nat, t: spec_fn(Binary64) -> Seq<char>) -> Seq<char> {
    spec_kml_text("coordinates"@, coordinates_text(ps, coordinate_separator(pretty), t), pretty, depth)
}

/// A geometry element holding the coordinates of the points.
pub open spec fn geometry_text(tag: Seq<char>, ps: Seq<Waypoint>, pretty: bool, depth: nat, t: spec_fn(Binary64) -> Seq<char>) -> Seq<char> {
    spec_kml_tag_open(tag, pretty, depth) + kml_coordinates_text(ps, pretty, depth + 1, t)
        + spec_kml_tag_close(tag, pretty, depth)
}

/// An optional text element of a placemark.
pub open spec fn opt_kml_text(tag: Seq<char>, v: Option<Seq<char>>, pretty: bool, depth: nat) -> Seq<char> {
    match v {
        Some(x) => spec_kml_text(tag, x, pretty, depth),
        None => Seq::empty(),
    }
}

/// A placemark with a name, a description and a body, at depth 2.
pub open spec fn placemark_text(name: Option<Seq<char>>, desc: Option<Seq<char>>, body: Seq<char>, pretty: bool) -> Seq<char> {
    spec_kml_tag_open("Placemark"@, pretty, 2) + opt_kml_text("name"@, name, pretty, 3)
        + opt_kml_text("description"@, desc, pretty, 3) + body + spec_kml_tag_close("Placemark"@, pretty, 2)
}

/// The placemark of a waypoint.
pub open spec fn waypoint_placemark(w: Waypoint, pretty: bool, t: spec_fn(Binary64) -> Seq<char>) -> Seq<char> {
    placemark_text(opt_view(w.name), opt_view(w.desc), geometry_text("Point"@, seq![w], pretty, 3, t), pretty)
}

/// The placemark of a route.
pub open spec fn route_placemark(r: Route, pretty: bool, t: spec_fn(Binary64) -> Seq<char>) -> Seq<char> {
    placemark_text(opt_view(r.name), opt_view(r.desc), geometry_text("LineString"@, r.points@, pretty, 3, t), pretty)
}

/// One line string per segment, at depth 4.
pub open spec fn segment_lines(ss: Seq<crate::model::TrackSegment>, pretty: bool, t: spec_fn(Binary64) -> Seq<char>) -> Seq<char>
    decreases ss.len(),
{
    if ss.len() == 0 {
        Seq::empty()
    } else {
        segment_lines(ss.drop_last(), pretty, t) + geometry_text("LineString"@, ss.last().points@, pretty, 4, t)
    }
}

/// The geometry of a track: a line string for a single segment, otherwise
/// a multi-geometry of one line string per segment.
pub open spec fn track_geometry(tr: Track, pretty: bool, t: spec_fn(Binary64) -> Seq<char>) -> Seq<char> {
    if tr.segments@.len() == 1 {
        geometry_text("LineString"@, tr.segments@[0].points@, pretty, 3, t)
    } else {
        spec_kml_tag_open("MultiGeometry"@, pretty, 3) + segment_lines(tr.segments@, pretty, t)
            + spec_kml_tag_close("MultiGeometry"@, pretty, 3)
    }
}

/// The placemark of a track.
pub open spec fn track_placemark(tr: Track, pretty: bool, t: spec_fn(Binary64) -> Seq<char>) -> Seq<char> {
    placemark_text(opt_view(tr.name), opt_view(tr.desc), track_geometry(tr, pretty, t), pretty)
}

/// Every placemark, of a waypoint, a route or a track alike, opens with the
/// item's own name in `<name>` (when it has one), then its own description in
/// `<description>` (when it has one), then its geometry.
pub proof fn lemma_placemark_name_and_description(
    w: Waypoint,
    r: Route,
    tr: Track,
    pretty: bool,
    t: spec_fn(Binary64) -> Seq<char>,
)
    ensures
        waypoint_placemark(w, pretty, t) == spec_kml_tag_open("Placemark"@, pretty, 2)
            + (match w.name { Some(n) => spec_kml_text("name"@, n@, pretty, 3), None => Seq::empty() })
            + (match w.desc { Some(d) => spec_kml_text("description"@, d@, pretty, 3), None => Seq::empty() })
            + geometry_text("Point"@, seq![w], pretty, 3, t) + spec_kml_tag_close("Placemark"@, pretty, 2),
        route_placemark(r, pretty, t) == spec_kml_tag_open("Placemark"@, pretty, 2)
            + (match r.name { Some(n) => spec_kml_text("name"@, n@, pretty, 3), None => Seq::empty() })
            + (match r.desc { Some(d) => spec_kml_text("description"@, d@, pretty, 3), None => Seq::empty() })
            + geometry_text("LineString"@, r.points@, pretty, 3, t) + spec_kml_tag_close("Placemark"@, pretty, 2),
        track_placemark(tr, pretty, t) == spec_kml_tag_open("Placemark"@, pretty, 2)
            + (match tr.name { Some(n) => spec_kml_text("name"@, n@, pretty, 3), None => Seq::empty() })
            + (match tr.desc { Some(d) => spec_kml_text("description"@, d@, pretty, 3), None => Seq::empty() })
            + track_geometry(tr, pretty, t) + spec_kml_tag_close("Placemark"@, pretty, 2),
{
}

/// The placemarks of the waypoints.
pub open spec fn waypoint_placemarks(ws: Seq<Waypoint>, pretty: bool, t: spec_fn(Binary64) -> Seq<char>) -> Seq<char>
    decreases ws.len(),
{
    if ws.len() == 0 { Seq::empty() } else { waypoint_placemarks(ws.drop_last(), pretty, t) + waypoint_placemark(ws.last(), pretty, t) }
}

/// The placemarks of the routes.
pub open spec fn route_placemarks(rs: Seq<Route>, pretty: bool, t: spec_fn(Binary64) -> Seq<char>) -> Seq<char>
    decreases rs.len(),
{
    if rs.len() == 0 { Seq::empty() } else { route_placemarks(rs.drop_last(), pretty, t) + route_placemark(rs.last(), pretty, t) }
}

/// The placemarks of the tracks.
pub open spec fn track_placemarks(ts: Seq<Track>, pretty: bool, t: spec_fn(Binary64) -> Seq<char>) -> Seq<char>
    decreases ts.len(),
{
    if ts.len() == 0 { Seq::empty() } else { track_placemarks(ts.drop_last(), pretty, t) + track_placemark(ts.last(), pretty, t) }
}

/// The opening of a KML document up to its `Document` element.
pub open spec fn kml_head(pretty: bool) -> Seq<char> {
    "<?xml version=\"1.0\" encoding=\"UTF-8\"?>\n"@ + if pretty {
        "<kml xmlns=\""@ + KML_NS@ + "\">\n  <Document>\n"@
    } else {
        "<kml xmlns=\""@ + KML_NS@ + "\"><Document>"@
    }
}

/// The closing of a KML document.
pub open spec fn kml_tail(pretty: bool) -> Seq<char> {
    if pretty { "  </Document>\n</kml>\n"@ } else { "</Document></kml>"@ }
}

/// The document's name and description, when it has metadata.
pub open spec fn kml_document_info(g: Gpx, pretty: bool) -> Seq<char> {
    match g.metadata {
        Some(m) => opt_kml_text("name"@, opt_view(m.name), pretty, 2) + opt_kml_text("description"@, opt_view(m.desc), pretty, 2),
        None => Seq::empty(),
    }
}

/// The whole KML document.
pub open spec fn kml_text(g: Gpx, pretty: bool, t: spec_fn(Binary64) -> Seq<char>) -> Seq<char> {
    kml_head(pretty) + kml_document_info(g, pretty) + waypoint_placemarks(g.waypoints@, pretty, t)
        + route_placemarks(g.routes@, pretty, t) + track_placemarks(g.tracks@, pretty, t) + kml_tail(pretty)
}

proof fn grow(base: Seq<char>, acc: Seq<char>, x: Seq<char>)
    ensures
        base + acc + x == base + (acc + x),
{
    vstd::seq_lib::lemma_concat_associative(base, acc, x);
}

fn coordinate<D: Fn(Binary64) -> String>(w: &Waypoint, d: &D, Ghost(t): Ghost<spec_fn(Binary64) -> Seq<char>>) -> (r: String)
    requires
        spells_as(d, t),
    ensures
        r@ == coordinate_text(*w, t),
{
    let mut s = d(w.lon);
    s.append(",");
    let lat = d(w.lat);
    s.append(lat.as_str());
    match w.ele {
        Some(e) => {
            s.append(",");
            let es = d(e);
            s.append(es.as_str());
        },
        None => {},
    }
    assert(s@ =~= coordinate_text(*w, t));
    s
}

fn join_coordinates<D: Fn(Binary64) -> String>(ps: &[Waypoint], pretty: bool, d: &D, Ghost(t): Ghost<spec_fn(Binary64) -> Seq<char>>) -> (r: String)
    requires
        spells_as(d, t),
    ensures
        r@ == coordinates_text(ps@, coordinate_separator(pretty), t),
{
    let ghost sep = coordinate_separator(pretty);
    let mut out = String::new();
    let mut k: usize = 0;
    assert(ps@.take(0) =~= Seq::<Waypoint>::empty());
    while k < ps.len()
        invariant
            k <= ps@.len(),
            spells_as(d, t),
            sep == coordinate_separator(pretty),
            out@ == coordinates_text(ps@.take(k as int), sep, t),
        decreases ps.len() - k,
    {
        if k > 0 {
            if pretty {
                out.append("\n");
            } else {
                out.append(" ");
            }
        }
        let c = coordinate(&ps[k], d, Ghost(t));
        out.append(c.as_str());
        assert(ps@.take(k + 1).drop_last() =~= ps@.take(k as int));
        if k == 0 {
            assert(ps@.take(1)[0] == ps@[0]);
        }
        k = k + 1;
        assert(out@ =~= coordinates_text(ps@.take(k as int), sep, t));
    }
    assert(ps@.take(ps@.len() as int) =~= ps@);
    out
}

fn write_geometry<D: Fn(Binary64) -> String>(
    tag: &str,
    ps: &[Waypoint],
    out: &mut String,
    pretty: bool,
    depth: usize,
    d: &D,
    Ghost(t): Ghost<spec_fn(Binary64) -> Seq<char>>,
)
    requires
        spells_as(d, t),
        depth < 8,
    ensures
        final(out)@ == old(out)@ + geometry_text(tag@, ps@, pretty, depth as nat, t),
{
    let ghost o0 = out@;
    write_kml_tag_open(tag, out, pretty, depth);
    let coords = join_coordinates(ps, pretty, d, Ghost(t));
    write_kml_text("coordinates", coords.as_str(), out, pretty, depth + 1);
    write_kml_tag_close(tag, out, pretty, depth);
    assert(out@ =~= o0 + geometry_text(tag@, ps@, pretty, depth as nat, t));
}

fn write_placemark_head(name: &Option<String>, desc: &Option<String>, out: &mut String, pretty: bool)
    ensures
        final(out)@ == old(out)@ + (spec_kml_tag_open("Placemark"@, pretty, 2) + opt_kml_text("name"@, opt_view(*name), pretty, 3)
            + opt_kml_text("description"@, opt_view(*desc), pretty, 3)),
{
    let ghost o0 = out@;
    write_kml_placemark_start(out, pretty, 2);
    let ghost o1 = out@;
    let n = opt_str(name);
    write_kml_optional_text("name", n, out, pretty, 3);
    assert(out@ == o1 + opt_kml_text("name"@, opt_view(*name), pretty, 3));
    let ghost o2 = out@;
    let d = opt_str(desc);
    write_kml_optional_text("description", d, out, pretty, 3);
    assert(out@ == o2 + opt_kml_text("description"@, opt_view(*desc), pretty, 3));
    assert(out@ =~= o0 + (spec_kml_tag_open("Placemark"@, pretty, 2) + opt_kml_text("name"@, opt_view(*name), pretty, 3)
        + opt_kml_text("description"@, opt_view(*desc), pretty, 3)));
}

fn write_point_geometry<D: Fn(Binary64) -> String>(
    w: &Waypoint,
    out: &mut String,
    pretty: bool,
    d: &D,
    Ghost(t): Ghost<spec_fn(Binary64) -> Seq<char>>,
)
    requires
        spells_as(d, t),
    ensures
        final(out)@ == old(out)@ + geometry_text("Point"@, seq![*w], pretty, 3, t),
{
    let ghost o0 = out@;
    write_kml_tag_open("Point", out, pretty, 3);
    let coords = coordinate(w, d, Ghost(t));
    assert(coordinates_text(seq![*w], coordinate_separator(pretty), t) == coordinate_text(*w, t));
    write_kml_text("coordinates", coords.as_str(), out, pretty, 4);
    write_kml_tag_close("Point", out, pretty, 3);
    assert(out@ =~= o0 + geometry_text("Point"@, seq![*w], pretty, 3, t));
}

/// Writes the placemark of a waypoint.
pub fn write_kml_waypoint_placemark<D: Fn(Binary64) -> String>(
    w: &Waypoint,
    out: &mut String,
    pretty: bool,
    d: &D,
    Ghost(t): Ghost<spec_fn(Binary64) -> Seq<char>>,
)
    requires
        spells_as(d, t),
    ensures
        final(out)@ == old(out)@ + waypoint_placemark(*w, pretty, t),
{
    let ghost o0 = out@;
    write_placemark_head(&w.name, &w.desc, out, pretty);
    let ghost acc = spec_kml_tag_open("Placemark"@, pretty, 2) + opt_kml_text("name"@, opt_view(w.name), pretty, 3)
        + opt_kml_text("description"@, opt_view(w.desc), pretty, 3);
    write_point_geometry(w, out, pretty, d, Ghost(t));
    proof { let x = geometry_text("Point"@, seq![*w], pretty, 3, t); grow(o0, acc, x); acc = acc + x; }
    write_kml_placemark_end(out, pretty, 2);
    proof { grow(o0, acc, spec_kml_tag_close("Placemark"@, pretty, 2)); }
}

/// Writes the placemark of a route.
pub fn write_kml_route_placemark<D: Fn(Binary64) -> String>(
    r: &Route,
    out: &mut String,
    pretty: bool,
    d: &D,
    Ghost(t): Ghost<spec_fn(Binary64) -> Seq<char>>,
)
    requires
        spells_as(d, t),
    ensures
        final(out)@ == old(out)@ + route_placemark(*r, pretty, t),
{
    let ghost o0 = out@;
    write_placemark_head(&r.name, &r.desc, out, pretty);
    let ghost acc = spec_kml_tag_open("Placemark"@, pretty, 2) + opt_kml_text("name"@, opt_view(r.name), pretty, 3)
        + opt_kml_text("description"@, opt_view(r.desc), pretty, 3);
    write_geometry("LineString", r.points.as_slice(), out, pretty, 3, d, Ghost(t));
    proof { let x = geometry_text("LineString"@, r.points@, pretty, 3, t); grow(o0, acc, x); acc = acc + x; }
    write_kml_placemark_end(out, pretty, 2);
    proof { grow(o0, acc, spec_kml_tag_close("Placemark"@, pretty, 2)); }
}

fn write_track_geometry<D: Fn(Binary64) -> String>(
    tr: &Track,
    out: &mut String,
    pretty: bool,
    d: &D,
    Ghost(t): Ghost<spec_fn(Binary64) -> Seq<char>>,
)
    requires
        spells_as(d, t),
    ensures
        final(out)@ == old(out)@ + track_geometry(*tr, pretty, t),
{
    let ghost o0 = out@;
    if tr.segments.len() == 1 {
        write_geometry("LineString", tr.segments[0].points.as_slice(), out, pretty, 3, d, Ghost(t));
        return;
    }
    write_kml_tag_open("MultiGeometry", out, pretty, 3);
    let ghost o1 = out@;
    let mut k: usize = 0;
    assert(tr.segments@.take(0) =~= Seq::<crate::model::TrackSegment>::empty());
    assert(out@ =~= o1 + segment_lines(tr.segments@.take(0), pretty, t));
    while k < tr.segments.len()
        invariant
            k <= tr.segments@.len(),
            spells_as(d, t),
            out@ == o1 + segment_lines(tr.segments@.take(k as int), pretty, t),
        decreases tr.segments.len() - k,
    {
        let ghost before = tr.segments@.take(k as int);
        write_geometry("LineString", tr.segments[k].points.as_slice(), out, pretty, 4, d, Ghost(t));
        assert(tr.segments@.take(k + 1).drop_last() =~= before);
        proof {
            grow(o1, segment_lines(before, pretty, t), geometry_text("LineString"@, tr.segments@[k as int].points@, pretty, 4, t));
        }
        k = k + 1;
    }
    assert(tr.segments@.take(tr.segments@.len() as int) =~= tr.segments@);
    write_kml_tag_close("MultiGeometry", out, pretty, 3);
    assert(out@ =~= o0 + track_geometry(*tr, pretty, t));
}

/// Writes the placemark of a track.
pub fn write_kml_track_placemark<D: Fn(Binary64) -> String>(
    tr: &Track,
    out: &mut String,
    pretty: bool,
    d: &D,
    Ghost(t): Ghost<spec_fn(Binary64) -> Seq<char>>,
)
    requires
        spells_as(d, t),
    ensures
        final(out)@ == old(out)@ + track_placemark(*tr, pretty, t),
{
    let ghost o0 = out@;
    write_placemark_head(&tr.name, &tr.desc, out, pretty);
    let ghost acc = spec_kml_tag_open("Placemark"@, pretty, 2) + opt_kml_text("name"@, opt_view(tr.name), pretty, 3)
        + opt_kml_text("description"@, opt_view(tr.desc), pretty, 3);
    write_track_geometry(tr, out, pretty, d, Ghost(t));
    proof { let x = track_geometry(*tr, pretty, t); grow(o0, acc, x); acc = acc + x; }
    write_kml_placemark_end(out, pretty, 2);
    proof { grow(o0, acc, spec_kml_tag_close("Placemark"@, pretty, 2)); }
}

/// Serializes a GPX document as KML, spelling numbers with `display`.
#[verifier::rlimit(100)]
#[verifier::spinoff_prover]
pub fn kml_string<D: Fn(Binary64) -> String>(g: &Gpx, pretty: bool, display: D) -> (r: String)
    requires
        deterministic_text(&display),
    ensures
        r@ == kml_text(*g, pretty, spelling_of(&display)),
{
    let ghost t = spelling_of(&display);
    assert(spells_as(&display, t)) by {
        assert forall|x: Binary64, s: String| call_ensures(display, (x,), s) implies s@ == t(x) by {
            let c = choose|c: String| call_ensures(display, (x,), c);
            assert(call_ensures(display, (x,), c));
        }
    }
    let mut out = String::new();
    out.append("<?xml version=\"1.0\" encoding=\"UTF-8\"?>\n");
    if pretty {
        out.append("<kml xmlns=\"");
        out.append(KML_NS);
        out.append("\">\n  <Document>\n");
    } else {
        out.append("<kml xmlns=\"");
        out.append(KML_NS);
        out.append("\"><Document>");
    }
    assert(out@ =~= kml_head(pretty));
    let ghost acc = kml_head(pretty);
    match &g.metadata {
        Some(m) => {
            write_kml_optional_text("name", opt_str(&m.name), &mut out, pretty, 2);
            write_kml_optional_text("description", opt_str(&m.desc), &mut out, pretty, 2);
        },
        None => {},
    }
    assert(out@ =~= acc + kml_document_info(*g, pretty));
    proof { acc = acc + kml_document_info(*g, pretty); }
    let ghost base = out@;
    assert(base == acc);
    let mut k: usize = 0;
    assert(g.waypoints@.take(0) =~= Seq::<Waypoint>::empty());
    assert(out@ =~= base + waypoint_placemarks(g.waypoints@.take(0), pretty, t));
    while k < g.waypoints.len()
        invariant
            k <= g.waypoints@.len(),
            spells_as(&display, t),
            out@ == base + waypoint_placemarks(g.waypoints@.take(k as int), pretty, t),
        decreases g.waypoints.len() - k,
    {
        let ghost before = g.waypoints@.take(k as int);
        write_kml_waypoint_placemark(&g.waypoints[k], &mut out, pretty, &display, Ghost(t));
        assert(g.waypoints@.take(k + 1).drop_last() =~= before);
        proof { grow(base, waypoint_placemarks(before, pretty, t), waypoint_placemark(g.waypoints@[k as int], pretty, t)); }
        k = k + 1;
    }
    assert(g.waypoints@.take(g.waypoints@.len() as int) =~= g.waypoints@);
    proof { acc = acc + waypoint_placemarks(g.waypoints@, pretty, t); }
    let ghost base = out@;
    assert(base == acc);
    let mut k: usize = 0;
    assert(g.routes@.take(0) =~= Seq::<Route>::empty());
    assert(out@ =~= base + route_placemarks(g.routes@.take(0), pretty, t));
    while k < g.routes.len()
        invariant
            k <= g.routes@.len(),
            spells_as(&display, t),
            out@ == base + route_placemarks(g.routes@.take(k as int), pretty, t),
        decreases g.routes.len() - k,
    {
        let ghost before = g.routes@.take(k as int);
        write_kml_route_placemark(&g.routes[k], &mut out, pretty, &display, Ghost(t));
        assert(g.routes@.take(k + 1).drop_last() =~= before);
        proof { grow(base, route_placemarks(before, pretty, t), route_placemark(g.routes@[k as int], pretty, t)); }
        k = k + 1;
    }
    assert(g.routes@.take(g.routes@.len() as int) =~= g.routes@);
    proof { acc = acc + route_placemarks(g.routes@, pretty, t); }
    let ghost base2 = out@;
    let mut k: usize = 0;
    assert(g.tracks@.take(0) =~= Seq::<Track>::empty());
    assert(out@ =~= base2 + track_placemarks(g.tracks@.take(0), pretty, t));
    while k < g.tracks.len()
        invariant
            k <= g.tracks@.len(),
            spells_as(&display, t),
            out@ == base2 + track_placemarks(g.tracks@.take(k as int), pretty, t),
        decreases g.tracks.len() - k,
    {
        let ghost before = g.tracks@.take(k as int);
        write_kml_track_placemark(&g.tracks[k], &mut out, pretty, &display, Ghost(t));
        assert(g.tracks@.take(k + 1).drop_last() =~= before);
        proof { grow(base2, track_placemarks(before, pretty, t), track_placemark(g.tracks@[k as int], pretty, t)); }
        k = k + 1;
    }
    assert(g.tracks@.take(g.tracks@.len() as int) =~= g.tracks@);
    proof { acc = acc + track_placemarks(g.tracks@, pretty, t); }
    assert(out@ == acc);
    if pretty {
        out.append("  </Document>\n</kml>\n");
    } else {
        out.append("</Document></kml>");
    }
    assert(out@ =~= kml_text(*g, pretty, t));
    out
}

} // verus!
