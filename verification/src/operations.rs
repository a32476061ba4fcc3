//! Structural edit and merge operations on GPX documents.
//!
//! Each operation takes a document and returns the edited document.

use vstd::prelude::*;
use crate::model::{
    earlier, route_views, segment_views, track_views, Extensions, Gpx, GpxV, MetadataV, Route, RouteV, Timestamp, Track,
    TrackPointExtension, TrackSegment, TrackSegmentV, TrackV, Waypoint,
};
use crate::types::{PowerExtension, TrackExtension};

verus! {

/// Fields that can be stripped from GPX metadata.
#[derive(Debug, Clone, Copy, Default, PartialEq, Eq, Structural)]
pub struct StripMetadataFields {
    /// Remove the entire metadata element.
    pub strip_all: bool,
    pub name: bool,
    pub desc: bool,
    pub author: bool,
    pub copyright: bool,
    pub time: bool,
    pub keywords: bool,
    pub links: bool,
}

impl StripMetadataFields {
    /// Remove the entire metadata element.
    pub fn all() -> (r: Self)
        ensures
            r == (StripMetadataFields {
                strip_all: true,
                name: false,
                desc: false,
                author: false,
                copyright: false,
                time: false,
                keywords: false,
                links: false,
            }),
    {
        StripMetadataFields {
            strip_all: true,
            name: false,
            desc: false,
            author: false,
            copyright: false,
            time: false,
            keywords: false,
            links: false,
        }
    }
}

/// Options for smoothing tracks and routes with a centered moving average.
#[derive(Debug, Clone, Copy, PartialEq, Eq, Structural)]
pub struct SmoothOptions {
    pub window: usize,
    pub coordinates: bool,
    pub elevations: bool,
}

impl Default for SmoothOptions {
    fn default() -> (r: Self)
        ensures
            r == (SmoothOptions { window: 5, coordinates: true, elevations: true }),
    {
        SmoothOptions { window: 5, coordinates: true, elevations: true }
    }
}

// ================================================================ sequences

/// Reverses a vector.
pub fn reverse_vec<T>(v: Vec<T>) -> (r: Vec<T>)
    ensures
        r@ == v@.reverse(),
{
    let ghost vs = v@;
    let n = v.len();
    let mut v = v;
    let mut r: Vec<T> = Vec::new();
    while v.len() > 0
        invariant
            n == vs.len(),
            v@ == vs.take(v@.len() as int),
            r@.len() + v@.len() == n,
            forall|i: int| 0 <= i < r@.len() ==> r@[i] == vs[n - 1 - i],
        decreases v.len(),
    {
        let k = v.len();
        let x = v.pop().unwrap();
        assert(x == vs[k - 1]);
        r.push(x);
        assert(v@ =~= vs.take(v@.len() as int));
    }
    assert(r@ =~= vs.reverse());
    r
}

/// Applies `f` to each element, in order.
pub fn map_vec<T, U, F: Fn(T) -> U>(v: Vec<T>, f: F) -> (r: Vec<U>)
    requires
        forall|x: T| call_requires(f, (x,)),
    ensures
        r@.len() == v@.len(),
        forall|i: int| 0 <= i < v@.len() ==> call_ensures(f, (v@[i],), #[trigger] r@[i]),
{
    let ghost vs = v@;
    let n = v.len();
    let mut src = reverse_vec(v);
    let mut out: Vec<U> = Vec::new();
    while src.len() > 0
        invariant
            n == vs.len(),
            out@.len() + src@.len() == n,
            forall|i: int| 0 <= i < src@.len() ==> #[trigger] src@[i] == vs[n - 1 - i],
            forall|i: int| 0 <= i < out@.len() ==> call_ensures(f, (vs[i],), #[trigger] out@[i]),
            forall|x: T| call_requires(f, (x,)),
        decreases src.len(),
    {
        let k = src.len();
        let x = src.pop().unwrap();
        assert(x == vs[out@.len() as int]);
        let y = f(x);
        out.push(y);
    }
    out
}

/// Appends all elements of `b` to `a`, in order.
pub fn append_vec<T>(a: &mut Vec<T>, b: Vec<T>)
    ensures
        final(a)@ == old(a)@ + b@,
{
    let mut b = b;
    a.append(&mut b);
}

// ================================================================ reverse

/// A route with its points in reverse order.
pub open spec fn reversed_route(r: RouteV) -> RouteV {
    RouteV { points: r.points.reverse(), ..r }
}

/// A segment with its points in reverse order.
pub open spec fn reversed_segment(s: TrackSegmentV) -> TrackSegmentV {
    TrackSegmentV { points: s.points.reverse(), ..s }
}

/// A track with its segments, and the points of each, in reverse order.
pub open spec fn reversed_track(t: TrackV) -> TrackV {
    TrackV { segments: t.segments.reverse().map_values(|s: TrackSegmentV| reversed_segment(s)), ..t }
}

/// The document with its routes and/or tracks reversed.
pub open spec fn spec_reverse(g: GpxV, routes: bool, tracks: bool) -> GpxV {
    GpxV {
        routes: if routes { g.routes.map_values(|r: RouteV| reversed_route(r)) } else { g.routes },
        tracks: if tracks { g.tracks.map_values(|t: TrackV| reversed_track(t)) } else { g.tracks },
        ..g
    }
}

fn reverse_route(r: Route) -> (o: Route)
    ensures
        o@ == reversed_route(r@),
{
    let Route { name, cmt, desc, src, links, number, route_type, extensions, points } = r;
    Route { name, cmt, desc, src, links, number, route_type, extensions, points: reverse_vec(points) }
}

fn reverse_segment(s: TrackSegment) -> (o: TrackSegment)
    ensures
        o@ == reversed_segment(s@),
{
    let TrackSegment { points, extensions } = s;
    TrackSegment { points: reverse_vec(points), extensions }
}

fn reverse_track(t: Track) -> (o: Track)
    ensures
        o@ == reversed_track(t@),
{
    let Track { name, cmt, desc, src, links, number, track_type, extensions, segments } = t;
    let ghost before = segments@;
    let flipped = reverse_vec(segments);
    let segments = map_vec(flipped, |s: TrackSegment| -> (o: TrackSegment)
        ensures
            o@ == reversed_segment(s@),
        { reverse_segment(s) });
    let o = Track { name, cmt, desc, src, links, number, track_type, extensions, segments };
    assert(segment_views(o.segments@) =~= segment_views(before).reverse().map_values(
        |s: TrackSegmentV| reversed_segment(s),
    ));
    o
}

/// Reverse the routes and/or tracks of a GPX document.
///
/// For tracks, both the order of segments and the order of points within
/// each segment are reversed.
pub fn reverse(gpx: Gpx, routes: bool, tracks: bool) -> (r: Gpx)
    ensures
        r@ == spec_reverse(gpx@, routes, tracks),
{
    let ghost g = gpx@;
    let Gpx { version, creator, metadata, waypoints, routes: rs, tracks: ts, extensions } = gpx;
    let ghost rs0 = rs@;
    let ghost ts0 = ts@;
    let new_routes = if routes {
        map_vec(rs, |x: Route| -> (o: Route)
            ensures
                o@ == reversed_route(x@),
            { reverse_route(x) })
    } else {
        rs
    };
    let new_tracks = if tracks {
        map_vec(ts, |x: Track| -> (o: Track)
            ensures
                o@ == reversed_track(x@),
            { reverse_track(x) })
    } else {
        ts
    };
    let r = Gpx { version, creator, metadata, waypoints, routes: new_routes, tracks: new_tracks, extensions };
    assert(route_views(r.routes@) =~= spec_reverse(g, routes, tracks).routes);
    assert(track_views(r.tracks@) =~= spec_reverse(g, routes, tracks).tracks);
    r
}

/// What reversing does, point by point: with `routes`, the `i`-th point of
/// each route becomes its `(n - 1 - i)`-th; with `tracks`, the `k`-th segment
/// of each track becomes its `(m - 1 - k)`-th, and the points within it are
/// reversed too. A part whose flag is off, the waypoints, and every other
/// field of routes, tracks and segments stay as they were.
pub proof fn lemma_reverse_points(g: GpxV, routes: bool, tracks: bool)
    ensures
        ({
            let r = spec_reverse(g, routes, tracks);
            &&& r.waypoints == g.waypoints && r.metadata == g.metadata && r.extensions == g.extensions
            &&& r.routes.len() == g.routes.len() && r.tracks.len() == g.tracks.len()
            &&& !routes ==> r.routes == g.routes
            &&& !tracks ==> r.tracks == g.tracks
            &&& routes ==> forall|j: int|
                0 <= j < g.routes.len() ==> {
                    let a = g.routes[j];
                    let b = #[trigger] r.routes[j];
                    &&& b.points.len() == a.points.len()
                    &&& forall|i: int| 0 <= i < a.points.len() ==> #[trigger] b.points[i] == a.points[a.points.len() - 1 - i]
                    &&& b.name == a.name && b.cmt == a.cmt && b.desc == a.desc && b.src == a.src
                    &&& b.links == a.links && b.number == a.number && b.route_type == a.route_type
                    &&& b.extensions == a.extensions
                }
            &&& tracks ==> forall|j: int|
                0 <= j < g.tracks.len() ==> {
                    let a = g.tracks[j];
                    let b = #[trigger] r.tracks[j];
                    let m = a.segments.len();
                    &&& b.segments.len() == m
                    &&& forall|k: int|
                        0 <= k < m ==> {
                            let sa = a.segments[m - 1 - k];
                            let sb = #[trigger] b.segments[k];
                            &&& sb.points.len() == sa.points.len()
                            &&& sb.extensions == sa.extensions
                            &&& forall|i: int|
                                0 <= i < sa.points.len() ==> #[trigger] sb.points[i] == sa.points[sa.points.len() - 1 - i]
                        }
                    &&& b.name == a.name && b.cmt == a.cmt && b.desc == a.desc && b.src == a.src
                    &&& b.links == a.links && b.number == a.number && b.track_type == a.track_type
                    &&& b.extensions == a.extensions
                }
        }),
{
}

/// Reversing twice with the same flags gives back the document.
pub proof fn lemma_reverse_involution(g: GpxV, routes: bool, tracks: bool)
    ensures
        spec_reverse(spec_reverse(g, routes, tracks), routes, tracks) == g,
{
    let once = spec_reverse(g, routes, tracks);
    let twice = spec_reverse(once, routes, tracks);
    if routes {
        assert forall|i: int| 0 <= i < g.routes.len() implies #[trigger] twice.routes[i] == g.routes[i] by {
            assert(twice.routes[i].points =~= g.routes[i].points);
        }
        assert(twice.routes =~= g.routes);
    }
    if tracks {
        assert forall|i: int| 0 <= i < g.tracks.len() implies #[trigger] twice.tracks[i] == g.tracks[i] by {
            let t = g.tracks[i];
            let t2 = twice.tracks[i];
            assert forall|j: int| 0 <= j < t.segments.len() implies #[trigger] t2.segments[j] == t.segments[j] by {
                assert(t2.segments[j].points =~= t.segments[j].points);
            }
            assert(t2.segments =~= t.segments);
        }
        assert(twice.tracks =~= g.tracks);
    }
}

// ================================================================ strip metadata

/// Whether the flags ask for the whole metadata element to go: `strip_all`,
/// or no single field selected.
pub open spec fn strips_entire(f: StripMetadataFields) -> bool {
    f.strip_all || (!f.name && !f.desc && !f.author && !f.copyright && !f.time && !f.keywords && !f.links)
}

/// The metadata with the selected fields cleared.
pub open spec fn cleared_metadata(m: MetadataV, f: StripMetadataFields) -> MetadataV {
    MetadataV {
        name: if f.name { None } else { m.name },
        desc: if f.desc { None } else { m.desc },
        author: if f.author { None } else { m.author },
        copyright: if f.copyright { None } else { m.copyright },
        time: if f.time { None } else { m.time },
        keywords: if f.keywords { None } else { m.keywords },
        links: if f.links { Seq::empty() } else { m.links },
        ..m
    }
}

/// The document with metadata fields stripped.
pub open spec fn spec_strip_metadata(g: GpxV, f: StripMetadataFields) -> GpxV {
    GpxV {
        metadata: if strips_entire(f) {
            None
        } else {
            match g.metadata {
                Some(m) => Some(cleared_metadata(m, f)),
                None => None,
            }
        },
        ..g
    }
}

/// Strip metadata fields from a GPX document.
///
/// When `fields.strip_all` is true, or no individual field flag is set, the
/// entire metadata element is removed. Otherwise only the selected fields
/// are cleared.
pub fn strip_metadata(gpx: Gpx, fields: StripMetadataFields) -> (r: Gpx)
    ensures
        r@ == spec_strip_metadata(gpx@, fields),
{
    let strip_entire = fields.strip_all || !fields.name && !fields.desc && !fields.author && !fields.copyright
        && !fields.time && !fields.keywords && !fields.links;
    let mut out = gpx;
    if strip_entire {
        out.metadata = None;
        return out;
    }
    match out.metadata {
        None => out,
        Some(m) => {
            let mut m = m;
            if fields.name {
                m.name = None;
            }
            if fields.desc {
                m.desc = None;
            }
            if fields.author {
                m.author = None;
            }
            if fields.copyright {
                m.copyright = None;
            }
            if fields.time {
                m.time = None;
            }
            if fields.keywords {
                m.keywords = None;
            }
            if fields.links {
                m.links.clear();
            }
            out.metadata = Some(m);
            out
        },
    }
}

/// Stripping the same metadata fields twice is the same as stripping them once.
pub proof fn lemma_strip_metadata_idempotent(g: GpxV, f: StripMetadataFields)
    ensures
        spec_strip_metadata(spec_strip_metadata(g, f), f) == spec_strip_metadata(g, f),
{
}

/// What stripping metadata does, field by field. The whole element goes when
/// `strip_all` is set or no field is selected. Otherwise the document keeps a
/// metadata element exactly when it had one; in it each selected field is
/// empty, each other field, the bounds and the extensions are as they were;
/// and nothing outside the metadata changes.
pub proof fn lemma_strip_metadata_fields(g: GpxV, f: StripMetadataFields)
    ensures
        ({
            let r = spec_strip_metadata(g, f);
            let whole = f.strip_all || (!f.name && !f.desc && !f.author && !f.copyright && !f.time
                && !f.keywords && !f.links);
            &&& r.version == g.version
            &&& r.creator == g.creator
            &&& r.waypoints == g.waypoints
            &&& r.routes == g.routes
            &&& r.tracks == g.tracks
            &&& r.extensions == g.extensions
            &&& whole ==> r.metadata is None
            &&& !whole ==> (r.metadata is Some <==> g.metadata is Some)
            &&& (!whole && g.metadata is Some) ==> {
                let m0 = g.metadata->0;
                let m = r.metadata->0;
                &&& (f.name ==> m.name is None) && (!f.name ==> m.name == m0.name)
                &&& (f.desc ==> m.desc is None) && (!f.desc ==> m.desc == m0.desc)
                &&& (f.author ==> m.author is None) && (!f.author ==> m.author == m0.author)
                &&& (f.copyright ==> m.copyright is None) && (!f.copyright ==> m.copyright == m0.copyright)
                &&& (f.time ==> m.time is None) && (!f.time ==> m.time == m0.time)
                &&& (f.keywords ==> m.keywords is None) && (!f.keywords ==> m.keywords == m0.keywords)
                &&& (f.links ==> m.links.len() == 0) && (!f.links ==> m.links == m0.links)
                &&& m.bounds == m0.bounds
                &&& m.extensions == m0.extensions
            }
        }),
{
}

// ================================================================ strip extensions

/// A point without extensions.
pub open spec fn bare_point(w: Waypoint) -> Waypoint {
    Waypoint { extensions: None, ..w }
}

/// A route without extensions, on itself or its points.
pub open spec fn bare_route(r: RouteV) -> RouteV {
    RouteV { extensions: None, points: r.points.map_values(|w: Waypoint| bare_point(w)), ..r }
}

/// A segment without extensions, on itself or its points.
pub open spec fn bare_segment(s: TrackSegmentV) -> TrackSegmentV {
    TrackSegmentV { extensions: None, points: s.points.map_values(|w: Waypoint| bare_point(w)) }
}

/// A track without extensions anywhere in it.
pub open spec fn bare_track(t: TrackV) -> TrackV {
    TrackV { extensions: None, segments: t.segments.map_values(|s: TrackSegmentV| bare_segment(s)), ..t }
}

/// The document with every extension removed.
pub open spec fn spec_strip_extensions(g: GpxV) -> GpxV {
    GpxV {
        metadata: match g.metadata {
            Some(m) => Some(MetadataV { extensions: None, ..m }),
            None => None,
        },
        waypoints: g.waypoints.map_values(|w: Waypoint| bare_point(w)),
        routes: g.routes.map_values(|r: RouteV| bare_route(r)),
        tracks: g.tracks.map_values(|t: TrackV| bare_track(t)),
        extensions: None,
        ..g
    }
}

fn strip_point(w: Waypoint) -> (o: Waypoint)
    ensures
        o == bare_point(w),
{
    let mut w = w;
    w.extensions = None;
    w
}

fn strip_points(v: Vec<Waypoint>) -> (o: Vec<Waypoint>)
    ensures
        o@ == v@.map_values(|w: Waypoint| bare_point(w)),
{
    let ghost vs = v@;
    let o = map_vec(v, |w: Waypoint| -> (o: Waypoint)
        ensures
            o == bare_point(w),
        { strip_point(w) });
    assert(o@ =~= vs.map_values(|w: Waypoint| bare_point(w)));
    o
}

fn strip_route(r: Route) -> (o: Route)
    ensures
        o@ == bare_route(r@),
{
    let Route { name, cmt, desc, src, links, number, route_type, extensions, points } = r;
    Route { name, cmt, desc, src, links, number, route_type, extensions: None, points: strip_points(points) }
}

fn strip_segment(s: TrackSegment) -> (o: TrackSegment)
    ensures
        o@ == bare_segment(s@),
{
    let TrackSegment { points, extensions } = s;
    TrackSegment { points: strip_points(points), extensions: None }
}

fn strip_track(t: Track) -> (o: Track)
    ensures
        o@ == bare_track(t@),
{
    let Track { name, cmt, desc, src, links, number, track_type, extensions, segments } = t;
    let ghost before = segments@;
    let segments = map_vec(segments, |s: TrackSegment| -> (o: TrackSegment)
        ensures
            o@ == bare_segment(s@),
        { strip_segment(s) });
    let o = Track { name, cmt, desc, src, links, number, track_type, extensions: None, segments };
    assert(segment_views(o.segments@) =~= segment_views(before).map_values(|s: TrackSegmentV| bare_segment(s)));
    o
}

/// Strip all extensions from a GPX document: on the document, its metadata,
/// its routes, tracks and segments, and every point.
pub fn strip_extensions(gpx: Gpx) -> (r: Gpx)
    ensures
        r@ == spec_strip_extensions(gpx@),
{
    let ghost g = gpx@;
    let Gpx { version, creator, metadata, waypoints, routes, tracks, extensions } = gpx;
    let ghost rs0 = routes@;
    let ghost ts0 = tracks@;
    let metadata = match metadata {
        Some(m) => {
            let mut m = m;
            m.extensions = None;
            Some(m)
        },
        None => None,
    };
    let waypoints = strip_points(waypoints);
    let routes = map_vec(routes, |x: Route| -> (o: Route)
        ensures
            o@ == bare_route(x@),
        { strip_route(x) });
    let tracks = map_vec(tracks, |x: Track| -> (o: Track)
        ensures
            o@ == bare_track(x@),
        { strip_track(x) });
    let r = Gpx { version, creator, metadata, waypoints, routes, tracks, extensions: None };
    assert(route_views(r.routes@) =~= spec_strip_extensions(g).routes);
    assert(track_views(r.tracks@) =~= spec_strip_extensions(g).tracks);
    r
}

/// What stripping extensions does: no extensions remain on the document, its
/// metadata, any route, track, segment or point; and everything else, the
/// order and number of all items included, is as it was.
pub proof fn lemma_strip_extensions_removes_all(g: GpxV)
    ensures
        ({
            let r = spec_strip_extensions(g);
            &&& r.extensions is None
            &&& r.version == g.version && r.creator == g.creator
            &&& (r.metadata is Some <==> g.metadata is Some)
            &&& g.metadata is Some ==> r.metadata->0 == (MetadataV { extensions: None, ..g.metadata->0 })
            &&& r.waypoints.len() == g.waypoints.len()
            &&& forall|i: int| 0 <= i < g.waypoints.len() ==> #[trigger] r.waypoints[i] == (Waypoint { extensions: None, ..g.waypoints[i] })
            &&& r.routes.len() == g.routes.len()
            &&& forall|j: int|
                0 <= j < g.routes.len() ==> {
                    let a = g.routes[j];
                    let b = #[trigger] r.routes[j];
                    &&& b.extensions is None
                    &&& b.name == a.name && b.cmt == a.cmt && b.desc == a.desc && b.src == a.src
                    &&& b.links == a.links && b.number == a.number && b.route_type == a.route_type
                    &&& b.points.len() == a.points.len()
                    &&& forall|i: int| 0 <= i < a.points.len() ==> #[trigger] b.points[i] == (Waypoint { extensions: None, ..a.points[i] })
                }
            &&& r.tracks.len() == g.tracks.len()
            &&& forall|j: int|
                0 <= j < g.tracks.len() ==> {
                    let a = g.tracks[j];
                    let b = #[trigger] r.tracks[j];
                    &&& b.extensions is None
                    &&& b.name == a.name && b.cmt == a.cmt && b.desc == a.desc && b.src == a.src
                    &&& b.links == a.links && b.number == a.number && b.track_type == a.track_type
                    &&& b.segments.len() == a.segments.len()
                    &&& forall|k: int|
                        0 <= k < a.segments.len() ==> {
                            let sa = a.segments[k];
                            let sb = #[trigger] b.segments[k];
                            &&& sb.extensions is None
                            &&& sb.points.len() == sa.points.len()
                            &&& forall|i: int|
                                0 <= i < sa.points.len() ==> #[trigger] sb.points[i] == (Waypoint { extensions: None, ..sa.points[i] })
                        }
                }
        }),
{
}

/// Stripping extensions twice is the same as stripping them once.
pub proof fn lemma_strip_extensions_idempotent(g: GpxV)
    ensures
        spec_strip_extensions(spec_strip_extensions(g)) == spec_strip_extensions(g),
{
    let once = spec_strip_extensions(g);
    let twice = spec_strip_extensions(once);
    assert(twice.waypoints =~= once.waypoints);
    assert forall|i: int| 0 <= i < once.routes.len() implies #[trigger] twice.routes[i] == once.routes[i] by {
        assert(twice.routes[i].points =~= once.routes[i].points);
    }
    assert(twice.routes =~= once.routes);
    assert forall|i: int| 0 <= i < once.tracks.len() implies #[trigger] twice.tracks[i] == once.tracks[i] by {
        let t = once.tracks[i];
        let t2 = twice.tracks[i];
        assert forall|j: int| 0 <= j < t.segments.len() implies #[trigger] t2.segments[j] == t.segments[j] by {
            assert(t2.segments[j].points =~= t.segments[j].points);
        }
        assert(t2.segments =~= t.segments);
    }
    assert(twice.tracks =~= once.tracks);
}

// ================================================================ merge

/// The concatenation, in order, of one list from each document.
pub open spec fn concat_waypoints(gs: Seq<GpxV>) -> Seq<Waypoint>
    decreases gs.len(),
{
    if gs.len() == 0 { Seq::empty() } else { concat_waypoints(gs.drop_last()) + gs.last().waypoints }
}

/// The routes of all documents, in order.
pub open spec fn concat_routes(gs: Seq<GpxV>) -> Seq<RouteV>
    decreases gs.len(),
{
    if gs.len() == 0 { Seq::empty() } else { concat_routes(gs.drop_last()) + gs.last().routes }
}

/// The tracks of all documents, in order.
pub open spec fn concat_tracks(gs: Seq<GpxV>) -> Seq<TrackV>
    decreases gs.len(),
{
    if gs.len() == 0 { Seq::empty() } else { concat_tracks(gs.drop_last()) + gs.last().tracks }
}

/// The content of each document.
pub open spec fn gpx_views(gs: Seq<Gpx>) -> Seq<GpxV> {
    gs.map_values(|g: Gpx| g@)
}

/// The merged document: the waypoints, routes and tracks of all inputs in
/// order, the given creator, and nothing else.
pub open spec fn spec_merge(gs: Seq<GpxV>, creator: Option<String>) -> GpxV {
    GpxV {
        version: None,
        creator: creator,
        metadata: None,
        waypoints: concat_waypoints(gs),
        routes: concat_routes(gs),
        tracks: concat_tracks(gs),
        extensions: None,
    }
}

/// Merge GPX documents into one, optionally setting the creator.
pub fn merge_with_creator(gpxs: Vec<Gpx>, creator: Option<String>) -> (r: Gpx)
    ensures
        r@ == spec_merge(gpx_views(gpxs@), creator),
{
    let ghost gs = gpx_views(gpxs@);
    let n = gpxs.len();
    let mut src = reverse_vec(gpxs);
    let mut waypoints: Vec<Waypoint> = Vec::new();
    let mut routes: Vec<Route> = Vec::new();
    let mut tracks: Vec<Track> = Vec::new();
    let mut k: usize = 0;
    while src.len() > 0
        invariant
            n == gs.len(),
            k + src@.len() == n,
            forall|i: int| 0 <= i < src@.len() ==> #[trigger] src@[i]@ == gs[n - 1 - i],
            waypoints@ == concat_waypoints(gs.take(k as int)),
            route_views(routes@) == concat_routes(gs.take(k as int)),
            track_views(tracks@) == concat_tracks(gs.take(k as int)),
        decreases src.len(),
    {
        let g = src.pop().unwrap();
        let ghost gv = g@;
        assert(gv == gs[k as int]);
        assert(gs.take(k + 1).drop_last() =~= gs.take(k as int));
        let ghost rbefore = routes@;
        let ghost tbefore = tracks@;
        append_vec(&mut waypoints, g.waypoints);
        append_vec(&mut routes, g.routes);
        append_vec(&mut tracks, g.tracks);
        assert(route_views(routes@) =~= route_views(rbefore) + gv.routes);
        assert(track_views(tracks@) =~= track_views(tbefore) + gv.tracks);
        k = k + 1;
    }
    assert(gs.take(n as int) =~= gs);
    Gpx { version: None, creator, metadata: None, waypoints, routes, tracks, extensions: None }
}

/// Merge GPX documents into one.
///
/// Waypoints, routes, and tracks are concatenated in order.
pub fn merge(gpxs: Vec<Gpx>) -> (r: Gpx)
    ensures
        r@ == spec_merge(gpx_views(gpxs@), None),
{
    merge_with_creator(gpxs, None)
}

/// Merging one document keeps exactly its waypoints, routes and tracks.
pub proof fn lemma_merge_single(g: GpxV, creator: Option<String>)
    ensures
        spec_merge(seq![g], creator).waypoints == g.waypoints,
        spec_merge(seq![g], creator).routes == g.routes,
        spec_merge(seq![g], creator).tracks == g.tracks,
{
    let s = seq![g];
    assert(s.drop_last() =~= Seq::<GpxV>::empty());
    assert(s.last() == g);
    assert(concat_waypoints(s.drop_last()) == Seq::<Waypoint>::empty());
    assert(concat_routes(s.drop_last()) == Seq::<RouteV>::empty());
    assert(concat_tracks(s.drop_last()) == Seq::<TrackV>::empty());
    assert(concat_waypoints(s) == concat_waypoints(s.drop_last()) + g.waypoints);
    assert(concat_routes(s) == concat_routes(s.drop_last()) + g.routes);
    assert(concat_tracks(s) == concat_tracks(s.drop_last()) + g.tracks);
    assert(Seq::<Waypoint>::empty() + g.waypoints =~= g.waypoints);
    assert(Seq::<RouteV>::empty() + g.routes =~= g.routes);
    assert(Seq::<TrackV>::empty() + g.tracks =~= g.tracks);
}

/// Merging the concatenation of two lists of documents gives the lists that
/// merging each list gives, one after the other.
pub proof fn lemma_merge_concat(a: Seq<GpxV>, b: Seq<GpxV>)
    ensures
        concat_waypoints(a + b) == concat_waypoints(a) + concat_waypoints(b),
        concat_routes(a + b) == concat_routes(a) + concat_routes(b),
        concat_tracks(a + b) == concat_tracks(a) + concat_tracks(b),
    decreases b.len(),
{
    if b.len() == 0 {
        assert(a + b =~= a);
        assert(concat_waypoints(a) + Seq::<Waypoint>::empty() =~= concat_waypoints(a));
        assert(concat_routes(a) + Seq::<RouteV>::empty() =~= concat_routes(a));
        assert(concat_tracks(a) + Seq::<TrackV>::empty() =~= concat_tracks(a));
    } else {
        assert((a + b).drop_last() =~= a + b.drop_last());
        assert((a + b).last() == b.last());
        lemma_merge_concat(a, b.drop_last());
        assert(concat_routes(a + b) == concat_routes(a + b.drop_last()) + b.last().routes);
        assert(concat_routes(b) == concat_routes(b.drop_last()) + b.last().routes);
        assert(concat_tracks(a + b) == concat_tracks(a + b.drop_last()) + b.last().tracks);
        assert(concat_tracks(b) == concat_tracks(b.drop_last()) + b.last().tracks);
        assert(concat_waypoints(a + b) =~= concat_waypoints(a) + concat_waypoints(b));
        assert(concat_routes(a + b) =~= concat_routes(a) + concat_routes(b));
        assert(concat_tracks(a + b) =~= concat_tracks(a) + concat_tracks(b));
    }
}

} // verus!

verus! {

// ================================================================ filtering

/// `f` gives one answer for each point.
pub open spec fn deterministic<F: Fn(&Waypoint) -> bool>(f: &F) -> bool {
    forall|w: &Waypoint, a: bool, b: bool| call_ensures(*f, (w,), a) && call_ensures(*f, (w,), b) ==> a == b
}

/// `f` may be called on every point.
pub open spec fn callable<F: Fn(&Waypoint) -> bool>(f: &F) -> bool {
    forall|w: &Waypoint| call_requires(*f, (w,))
}

/// The points for which `f` answers `true`.
pub open spec fn answers_true<F: Fn(&Waypoint) -> bool>(f: &F) -> spec_fn(Waypoint) -> bool {
    |w: Waypoint| call_ensures(*f, (&w,), true)
}

fn filter_waypoints<F: Fn(&Waypoint) -> bool>(v: Vec<Waypoint>, f: &F, Ghost(keep): Ghost<spec_fn(Waypoint) -> bool>) -> (r: Vec<Waypoint>)
    requires
        callable(f),
        decides(f, keep),
    ensures
        r@ == v@.filter(keep),
{
    let ghost vs = v@;
    let n = v.len();
    let mut src = reverse_vec(v);
    let mut out: Vec<Waypoint> = Vec::new();
    let mut k: usize = 0;
    while src.len() > 0
        invariant
            n == vs.len(),
            k + src@.len() == n,
            forall|i: int| 0 <= i < src@.len() ==> #[trigger] src@[i] == vs[n - 1 - i],
            out@ == vs.take(k as int).filter(keep),
            callable(f),
            decides(f, keep),
        decreases src.len(),
    {
        reveal_with_fuel(Seq::<_>::filter, 1);
        let w = src.pop().unwrap();
        assert(w == vs[k as int]);
        assert(vs.take(k + 1).drop_last() =~= vs.take(k as int));
        let b = f(&w);
        if b {
            out.push(w);
        }
        k = k + 1;
    }
    assert(vs.take(n as int) =~= vs);
    out
}

} // verus!

verus! {

/// A route keeping only the points that `keep` accepts.
pub open spec fn filtered_route(r: RouteV, keep: spec_fn(Waypoint) -> bool) -> RouteV {
    RouteV { points: r.points.filter(keep), ..r }
}

/// A segment keeping only the points that `keep` accepts.
pub open spec fn filtered_segment(s: TrackSegmentV, keep: spec_fn(Waypoint) -> bool) -> TrackSegmentV {
    TrackSegmentV { points: s.points.filter(keep), ..s }
}

/// A route, segment or track that still has content.
pub open spec fn route_nonempty() -> spec_fn(RouteV) -> bool {
    |r: RouteV| r.points.len() > 0
}

/// A segment that still has points.
pub open spec fn segment_nonempty() -> spec_fn(TrackSegmentV) -> bool {
    |s: TrackSegmentV| s.points.len() > 0
}

/// A track that still has segments.
pub open spec fn track_nonempty() -> spec_fn(TrackV) -> bool {
    |t: TrackV| t.segments.len() > 0
}

/// A track keeping only accepted points, and only the segments left with points.
pub open spec fn filtered_track(t: TrackV, keep: spec_fn(Waypoint) -> bool) -> TrackV {
    TrackV {
        segments: t.segments.map_values(|s: TrackSegmentV| filtered_segment(s, keep)).filter(segment_nonempty()),
        ..t
    }
}

/// The document keeping only the points that `keep` accepts; routes,
/// segments and tracks left empty are dropped.
pub open spec fn spec_filter_points(g: GpxV, keep: spec_fn(Waypoint) -> bool) -> GpxV {
    GpxV {
        waypoints: g.waypoints.filter(keep),
        routes: g.routes.map_values(|r: RouteV| filtered_route(r, keep)).filter(route_nonempty()),
        tracks: g.tracks.map_values(|t: TrackV| filtered_track(t, keep)).filter(track_nonempty()),
        ..g
    }
}

fn filter_routes<F: Fn(&Waypoint) -> bool>(v: Vec<Route>, f: &F, Ghost(keep): Ghost<spec_fn(Waypoint) -> bool>) -> (r: Vec<Route>)
    requires
        callable(f),
        decides(f, keep),
    ensures
        route_views(r@) == route_views(v@).map_values(|x: RouteV| filtered_route(x, keep)).filter(
            route_nonempty(),
        ),
{
    let ghost mapped = route_views(v@).map_values(|x: RouteV| filtered_route(x, keep));
    let ghost vs = v@;
    let n = v.len();
    let mut src = reverse_vec(v);
    let mut out: Vec<Route> = Vec::new();
    let mut k: usize = 0;
    while src.len() > 0
        invariant
            n == vs.len(),
            mapped.len() == n,
            mapped == route_views(vs).map_values(|x: RouteV| filtered_route(x, keep)),
            k + src@.len() == n,
            forall|i: int| 0 <= i < src@.len() ==> #[trigger] src@[i] == vs[n - 1 - i],
            route_views(out@) == mapped.take(k as int).filter(route_nonempty()),
            callable(f),
            decides(f, keep),
        decreases src.len(),
    {
        reveal_with_fuel(Seq::<_>::filter, 1);
        let x = src.pop().unwrap();
        assert(x == vs[k as int]);
        assert(mapped.take(k + 1).drop_last() =~= mapped.take(k as int));
        let ghost before = out@;
        let Route { name, cmt, desc, src: source, links, number, route_type, extensions, points } = x;
        let points = filter_waypoints(points, f, Ghost(keep));
        let y = Route { name, cmt, desc, src: source, links, number, route_type, extensions, points };
        assert(y@ == mapped[k as int]);
        if y.points.len() > 0 {
            out.push(y);
            assert(route_views(out@) =~= route_views(before).push(y@));
        } else {
            assert(!route_nonempty()(mapped[k as int]));
        }
        k = k + 1;
    }
    assert(mapped.take(n as int) =~= mapped);
    out
}

fn filter_segments<F: Fn(&Waypoint) -> bool>(v: Vec<TrackSegment>, f: &F, Ghost(keep): Ghost<spec_fn(Waypoint) -> bool>) -> (r: Vec<TrackSegment>)
    requires
        callable(f),
        decides(f, keep),
    ensures
        segment_views(r@) == segment_views(v@).map_values(
            |x: TrackSegmentV| filtered_segment(x, keep),
        ).filter(segment_nonempty()),
{
    let ghost mapped = segment_views(v@).map_values(|x: TrackSegmentV| filtered_segment(x, keep));
    let ghost vs = v@;
    let n = v.len();
    let mut src = reverse_vec(v);
    let mut out: Vec<TrackSegment> = Vec::new();
    let mut k: usize = 0;
    while src.len() > 0
        invariant
            n == vs.len(),
            mapped.len() == n,
            mapped == segment_views(vs).map_values(|x: TrackSegmentV| filtered_segment(x, keep)),
            k + src@.len() == n,
            forall|i: int| 0 <= i < src@.len() ==> #[trigger] src@[i] == vs[n - 1 - i],
            segment_views(out@) == mapped.take(k as int).filter(segment_nonempty()),
            callable(f),
            decides(f, keep),
        decreases src.len(),
    {
        reveal_with_fuel(Seq::<_>::filter, 1);
        let x = src.pop().unwrap();
        assert(x == vs[k as int]);
        assert(mapped.take(k + 1).drop_last() =~= mapped.take(k as int));
        let ghost before = out@;
        let TrackSegment { points, extensions } = x;
        let points = filter_waypoints(points, f, Ghost(keep));
        let y = TrackSegment { points, extensions };
        assert(y@ == mapped[k as int]);
        if y.points.len() > 0 {
            out.push(y);
            assert(segment_views(out@) =~= segment_views(before).push(y@));
        } else {
            assert(!segment_nonempty()(mapped[k as int]));
        }
        k = k + 1;
    }
    assert(mapped.take(n as int) =~= mapped);
    out
}

fn filter_tracks<F: Fn(&Waypoint) -> bool>(v: Vec<Track>, f: &F, Ghost(keep): Ghost<spec_fn(Waypoint) -> bool>) -> (r: Vec<Track>)
    requires
        callable(f),
        decides(f, keep),
    ensures
        track_views(r@) == track_views(v@).map_values(|x: TrackV| filtered_track(x, keep)).filter(
            track_nonempty(),
        ),
{
    let ghost mapped = track_views(v@).map_values(|x: TrackV| filtered_track(x, keep));
    let ghost vs = v@;
    let n = v.len();
    let mut src = reverse_vec(v);
    let mut out: Vec<Track> = Vec::new();
    let mut k: usize = 0;
    while src.len() > 0
        invariant
            n == vs.len(),
            mapped.len() == n,
            mapped == track_views(vs).map_values(|x: TrackV| filtered_track(x, keep)),
            k + src@.len() == n,
            forall|i: int| 0 <= i < src@.len() ==> #[trigger] src@[i] == vs[n - 1 - i],
            track_views(out@) == mapped.take(k as int).filter(track_nonempty()),
            callable(f),
            decides(f, keep),
        decreases src.len(),
    {
        reveal_with_fuel(Seq::<_>::filter, 1);
        let x = src.pop().unwrap();
        assert(x == vs[k as int]);
        assert(mapped.take(k + 1).drop_last() =~= mapped.take(k as int));
        let ghost before = out@;
        let Track { name, cmt, desc, src: source, links, number, track_type, extensions, segments } = x;
        let segments = filter_segments(segments, f, Ghost(keep));
        let y = Track { name, cmt, desc, src: source, links, number, track_type, extensions, segments };
        assert(y@ == mapped[k as int]);
        if y.segments.len() > 0 {
            out.push(y);
            assert(track_views(out@) =~= track_views(before).push(y@));
        } else {
            assert(!track_nonempty()(mapped[k as int]));
        }
        k = k + 1;
    }
    assert(mapped.take(n as int) =~= mapped);
    out
}

/// Every answer of `f` on a point is what `keep` says of it.
pub open spec fn decides<F: Fn(&Waypoint) -> bool>(f: &F, keep: spec_fn(Waypoint) -> bool) -> bool {
    forall|w: &Waypoint, b: bool| call_ensures(*f, (w,), b) ==> b == keep(*w)
}

fn filter_points_deciding<F: Fn(&Waypoint) -> bool>(gpx: Gpx, predicate: F, Ghost(keep): Ghost<spec_fn(Waypoint) -> bool>) -> (r: Gpx)
    requires
        callable(&predicate),
        decides(&predicate, keep),
    ensures
        r@ == spec_filter_points(gpx@, keep),
{
    let Gpx { version, creator, metadata, waypoints, routes, tracks, extensions } = gpx;
    let waypoints = filter_waypoints(waypoints, &predicate, Ghost(keep));
    let routes = filter_routes(routes, &predicate, Ghost(keep));
    let tracks = filter_tracks(tracks, &predicate, Ghost(keep));
    Gpx { version, creator, metadata, waypoints, routes, tracks, extensions }
}

/// Return a new GPX with each point list filtered by `predicate`.
///
/// Routes, track segments, and tracks that end up empty are dropped.
pub fn filter_points<F: Fn(&Waypoint) -> bool>(gpx: Gpx, predicate: F) -> (r: Gpx)
    requires
        callable(&predicate),
        deterministic(&predicate),
    ensures
        r@ == spec_filter_points(gpx@, answers_true(&predicate)),
{
    filter_points_deciding(gpx, predicate, Ghost(answers_true(&predicate)))
}

/// Every point of `s.filter(keep)` is accepted by `keep`.
proof fn lemma_filtered_points_accepted(s: Seq<Waypoint>, keep: spec_fn(Waypoint) -> bool)
    ensures
        forall|j: int| 0 <= j < s.filter(keep).len() ==> keep(#[trigger] s.filter(keep)[j]),
{
    assert forall|j: int| 0 <= j < s.filter(keep).len() implies keep(#[trigger] s.filter(keep)[j]) by {
        s.lemma_filter_pred(keep, j);
    }
}

/// An element kept by a filter over a mapped sequence is the image of some
/// element of the original sequence, and satisfies the filter.
proof fn lemma_kept_image<A, B>(s: Seq<A>, f: spec_fn(A) -> B, p: spec_fn(B) -> bool, i: int) -> (k: int)
    requires
        0 <= i < s.map_values(f).filter(p).len(),
    ensures
        0 <= k < s.len(),
        s.map_values(f).filter(p)[i] == f(s[k]),
        p(s.map_values(f).filter(p)[i]),
{
    let m = s.map_values(f);
    let x = m.filter(p)[i];
    m.lemma_filter_pred(p, i);
    assert(m.filter(p).contains(x));
    m.lemma_filter_contains_rev(p, x);
    let k = choose|k: int| 0 <= k < m.len() && m[k] == x;
    k
}

proof fn lemma_filter_filter<A>(s: Seq<A>, p: spec_fn(A) -> bool, q: spec_fn(A) -> bool)
    ensures
        s.filter(p).filter(q) == s.filter(|x: A| p(x) && q(x)),
    decreases s.len(),
{
    reveal_with_fuel(Seq::<_>::filter, 1);
    if s.len() > 0 {
        lemma_filter_filter(s.drop_last(), p, q);
        let pq = |x: A| p(x) && q(x);
        let sp = s.drop_last().filter(p);
        if p(s.last()) {
            assert(s.filter(p) == sp.push(s.last()));
            assert(s.filter(p).drop_last() =~= sp);
        }
    } else {
        assert(s.filter(p) =~= Seq::<A>::empty());
    }
}

proof fn lemma_map_filter_twice<A>(
    s: Seq<A>,
    f: spec_fn(A) -> A,
    pf: spec_fn(A) -> bool,
    g: spec_fn(A) -> A,
    pg: spec_fn(A) -> bool,
    h: spec_fn(A) -> A,
)
    requires
        forall|x: A| #[trigger] g(f(x)) == h(x),
        forall|x: A| !pf(#[trigger] f(x)) ==> !pg(h(x)),
    ensures
        s.map_values(f).filter(pf).map_values(g).filter(pg) == s.map_values(h).filter(pg),
    decreases s.len(),
{
    reveal_with_fuel(Seq::<_>::filter, 1);
    if s.len() > 0 {
        let t = s.drop_last();
        let e = s.last();
        lemma_map_filter_twice(t, f, pf, g, pg, h);
        assert(s.map_values(f) =~= t.map_values(f).push(f(e)));
        assert(s.map_values(h) =~= t.map_values(h).push(h(e)));
        assert(s.map_values(f).drop_last() =~= t.map_values(f));
        assert(s.map_values(h).drop_last() =~= t.map_values(h));
        let left = t.map_values(f).filter(pf);
        assert(g(f(e)) == h(e));
        if pf(f(e)) {
            assert(s.map_values(f).filter(pf) == left.push(f(e)));
            assert(left.push(f(e)).map_values(g) =~= left.map_values(g).push(g(f(e))));
            assert(left.push(f(e)).map_values(g).drop_last() =~= left.map_values(g));
        } else {
            assert(!pg(h(e)));
        }
    } else {
        assert(s.map_values(f) =~= Seq::<A>::empty());
        assert(s.map_values(h) =~= Seq::<A>::empty());
        assert(Seq::<A>::empty().filter(pf) =~= Seq::<A>::empty());
        assert(Seq::<A>::empty().map_values(g) =~= Seq::<A>::empty());
    }
}

proof fn lemma_filter_points_compose(g: GpxV, p: spec_fn(Waypoint) -> bool, q: spec_fn(Waypoint) -> bool)
    ensures
        spec_filter_points(spec_filter_points(g, p), q) == spec_filter_points(g, |w: Waypoint| p(w) && q(w)),
{
    let pq = |w: Waypoint| p(w) && q(w);
    lemma_filter_filter(g.waypoints, p, q);
    assert forall|s: Seq<Waypoint>| #[trigger] s.filter(p).filter(q) == s.filter(pq) by {
        lemma_filter_filter(s, p, q);
    }
    let fr_p = |r: RouteV| filtered_route(r, p);
    let fr_q = |r: RouteV| filtered_route(r, q);
    let fr_pq = |r: RouteV| filtered_route(r, pq);
    assert forall|r: RouteV| #[trigger] fr_q(fr_p(r)) == fr_pq(r) by {
        assert(r.points.filter(p).filter(q) == r.points.filter(pq));
    }
    assert forall|r: RouteV| !route_nonempty()(#[trigger] fr_p(r)) implies !route_nonempty()(fr_pq(r)) by {
        assert(r.points.filter(p).filter(q) == r.points.filter(pq));
        assert(r.points.filter(p) =~= Seq::<Waypoint>::empty());
        reveal_with_fuel(Seq::<_>::filter, 1);
    }
    lemma_map_filter_twice(g.routes, fr_p, route_nonempty(), fr_q, route_nonempty(), fr_pq);
    let fs_p = |x: TrackSegmentV| filtered_segment(x, p);
    let fs_q = |x: TrackSegmentV| filtered_segment(x, q);
    let fs_pq = |x: TrackSegmentV| filtered_segment(x, pq);
    assert forall|x: TrackSegmentV| #[trigger] fs_q(fs_p(x)) == fs_pq(x) by {
        assert(x.points.filter(p).filter(q) == x.points.filter(pq));
    }
    assert forall|x: TrackSegmentV| !segment_nonempty()(#[trigger] fs_p(x)) implies !segment_nonempty()(fs_pq(x)) by {
        assert(x.points.filter(p).filter(q) == x.points.filter(pq));
        assert(x.points.filter(p) =~= Seq::<Waypoint>::empty());
        reveal_with_fuel(Seq::<_>::filter, 1);
    }
    let ft_p = |t: TrackV| filtered_track(t, p);
    let ft_q = |t: TrackV| filtered_track(t, q);
    let ft_pq = |t: TrackV| filtered_track(t, pq);
    assert forall|t: TrackV| #[trigger] ft_q(ft_p(t)) == ft_pq(t) by {
        lemma_map_filter_twice(t.segments, fs_p, segment_nonempty(), fs_q, segment_nonempty(), fs_pq);
        assert(ft_q(ft_p(t)).segments == ft_pq(t).segments);
    }
    assert forall|t: TrackV| !track_nonempty()(#[trigger] ft_p(t)) implies !track_nonempty()(ft_pq(t)) by {
        lemma_map_filter_twice(t.segments, fs_p, segment_nonempty(), fs_q, segment_nonempty(), fs_pq);
        let ps = t.segments.map_values(fs_p).filter(segment_nonempty());
        assert(ps =~= Seq::<TrackSegmentV>::empty());
        reveal_with_fuel(Seq::<_>::filter, 1);
        assert(ps.map_values(fs_q) =~= Seq::<TrackSegmentV>::empty());
    }
    lemma_map_filter_twice(g.tracks, ft_p, track_nonempty(), ft_q, track_nonempty(), ft_pq);
    assert(spec_filter_points(spec_filter_points(g, p), q) == spec_filter_points(g, pq));
}

/// Filtering with `p` and then with `q` is filtering once with both: the
/// same points, routes, segments and tracks remain. In particular, filtering
/// twice with the same predicate is filtering once.
pub proof fn lemma_filter_points_twice(g: GpxV, p: spec_fn(Waypoint) -> bool, q: spec_fn(Waypoint) -> bool)
    ensures
        spec_filter_points(spec_filter_points(g, p), q) == spec_filter_points(g, |w: Waypoint| p(w) && q(w)),
        spec_filter_points(spec_filter_points(g, p), p) == spec_filter_points(g, p),
{
    lemma_filter_points_compose(g, p, q);
    lemma_filter_points_compose(g, p, p);
    let pp = |w: Waypoint| p(w) && p(w);
    assert(pp =~= p);
}

/// Filtering keeps only accepted points, and drops every route, track
/// segment and track that is left without points: in the result each
/// waypoint, route point and track point is accepted by `keep`, and no
/// route, segment or track is empty.
pub proof fn lemma_filter_points_keeps_accepted(g: GpxV, keep: spec_fn(Waypoint) -> bool)
    ensures
        ({
            let r = spec_filter_points(g, keep);
            &&& forall|i: int| 0 <= i < r.waypoints.len() ==> keep(#[trigger] r.waypoints[i])
            &&& forall|i: int| #![trigger r.routes[i]] 0 <= i < r.routes.len() ==> {
                &&& r.routes[i].points.len() > 0
                &&& forall|j: int| 0 <= j < r.routes[i].points.len() ==> keep(#[trigger] r.routes[i].points[j])
            }
            &&& forall|i: int| #![trigger r.tracks[i]] 0 <= i < r.tracks.len() ==> {
                &&& r.tracks[i].segments.len() > 0
                &&& forall|k: int| #![trigger r.tracks[i].segments[k]] 0 <= k < r.tracks[i].segments.len() ==> {
                    &&& r.tracks[i].segments[k].points.len() > 0
                    &&& forall|j: int| 0 <= j < r.tracks[i].segments[k].points.len()
                        ==> keep(#[trigger] r.tracks[i].segments[k].points[j])
                }
            }
        }),
{
    let r = spec_filter_points(g, keep);
    lemma_filtered_points_accepted(g.waypoints, keep);
    let fr = |x: RouteV| filtered_route(x, keep);
    let ft = |x: TrackV| filtered_track(x, keep);
    let fs = |x: TrackSegmentV| filtered_segment(x, keep);
    assert forall|i: int| #![trigger r.routes[i]] 0 <= i < r.routes.len() implies {
        &&& r.routes[i].points.len() > 0
        &&& forall|j: int| 0 <= j < r.routes[i].points.len() ==> keep(#[trigger] r.routes[i].points[j])
    } by {
        let k = lemma_kept_image(g.routes, fr, route_nonempty(), i);
        lemma_filtered_points_accepted(g.routes[k].points, keep);
    }
    assert forall|i: int| #![trigger r.tracks[i]] 0 <= i < r.tracks.len() implies {
        &&& r.tracks[i].segments.len() > 0
        &&& forall|k: int| #![trigger r.tracks[i].segments[k]] 0 <= k < r.tracks[i].segments.len() ==> {
            &&& r.tracks[i].segments[k].points.len() > 0
            &&& forall|j: int| 0 <= j < r.tracks[i].segments[k].points.len()
                ==> keep(#[trigger] r.tracks[i].segments[k].points[j])
        }
    } by {
        let t = lemma_kept_image(g.tracks, ft, track_nonempty(), i);
        let segs = g.tracks[t].segments;
        assert forall|k: int| #![trigger r.tracks[i].segments[k]] 0 <= k < r.tracks[i].segments.len() implies {
            &&& r.tracks[i].segments[k].points.len() > 0
            &&& forall|j: int| 0 <= j < r.tracks[i].segments[k].points.len()
                ==> keep(#[trigger] r.tracks[i].segments[k].points[j])
        } by {
            let q = lemma_kept_image(segs, fs, segment_nonempty(), k);
            lemma_filtered_points_accepted(segs[q].points, keep);
        }
    }
}

} // verus!

verus! {

/// Whether a point lies in the time window: points without a time are kept;
/// others must not be before `start` nor after `end`.
pub open spec fn in_window(start: Option<Timestamp>, end: Option<Timestamp>) -> spec_fn(Waypoint) -> bool {
    |w: Waypoint| match w.time {
        None => true,
        Some(t) => !(start matches Some(s) && earlier(t, s)) && !(end matches Some(e) && earlier(e, t)),
    }
}

/// Trim a GPX document to a date/time range.
///
/// Points without a timestamp are kept.
pub fn trim(gpx: Gpx, start: Option<Timestamp>, end: Option<Timestamp>) -> (r: Gpx)
    ensures
        r@ == spec_filter_points(gpx@, in_window(start, end)),
{
    let keep = |p: &Waypoint| -> (b: bool)
        ensures
            b == in_window(start, end)(*p),
        {
            match p.time {
                None => true,
                Some(t) => {
                    let too_early = match start {
                        Some(s) => t.is_before(&s),
                        None => false,
                    };
                    let too_late = match end {
                        Some(e) => e.is_before(&t),
                        None => false,
                    };
                    !too_early && !too_late
                },
            }
        };
    filter_points_deciding(gpx, keep, Ghost(in_window(start, end)))
}

} // verus!

verus! {

// ================================================================ splitting

/// The runs of a point list, a new run starting at each point that `gap`
/// separates from the point before it. An empty list is one empty run.
pub open spec fn split_runs(ps: Seq<Waypoint>, gap: spec_fn(Waypoint, Waypoint) -> bool) -> Seq<Seq<Waypoint>>
    decreases ps.len(),
{
    if ps.len() <= 1 {
        seq![ps]
    } else {
        let prev = split_runs(ps.drop_last(), gap);
        if gap(ps[ps.len() - 2], ps.last()) {
            prev.push(seq![ps.last()])
        } else {
            prev.update(prev.len() - 1, prev.last().push(ps.last()))
        }
    }
}

/// The concatenation of runs.
pub open spec fn concat_runs(rs: Seq<Seq<Waypoint>>) -> Seq<Waypoint>
    decreases rs.len(),
{
    if rs.len() == 0 { Seq::empty() } else { concat_runs(rs.drop_last()) + rs.last() }
}

proof fn lemma_split_runs_shape(ps: Seq<Waypoint>, gap: spec_fn(Waypoint, Waypoint) -> bool)
    ensures
        split_runs(ps, gap).len() >= 1,
        ps.len() > 0 ==> split_runs(ps, gap).last().len() > 0 && split_runs(ps, gap).last().last() == ps.last(),
    decreases ps.len(),
{
    if ps.len() > 1 {
        lemma_split_runs_shape(ps.drop_last(), gap);
    }
}

/// Splitting never loses, adds or reorders points: the runs, put back
/// together, are the list.
pub proof fn lemma_split_runs_concat(ps: Seq<Waypoint>, gap: spec_fn(Waypoint, Waypoint) -> bool)
    ensures
        concat_runs(split_runs(ps, gap)) == ps,
    decreases ps.len(),
{
    if ps.len() <= 1 {
        assert(split_runs(ps, gap) == seq![ps]);
        assert(seq![ps].drop_last() =~= Seq::<Seq<Waypoint>>::empty());
        assert(concat_runs(seq![ps]) == concat_runs(seq![ps].drop_last()) + ps);
        assert(Seq::<Waypoint>::empty() + ps =~= ps);
    } else {
        let pre = ps.drop_last();
        lemma_split_runs_concat(pre, gap);
        lemma_split_runs_shape(pre, gap);
        let prev = split_runs(pre, gap);
        let x = ps.last();
        if gap(ps[ps.len() - 2], x) {
            let pushed = prev.push(seq![x]);
            assert(split_runs(ps, gap) == pushed);
            assert(pushed.drop_last() =~= prev);
            assert(pushed.last() == seq![x]);
            assert(concat_runs(pushed) == concat_runs(prev) + seq![x]);
            assert(concat_runs(prev) + seq![x] =~= ps);
        } else {
            let upd = prev.update(prev.len() - 1, prev.last().push(x));
            assert(split_runs(ps, gap) == upd);
            assert(upd.drop_last() =~= prev.drop_last());
            assert(upd.last() == prev.last().push(x));
            assert(concat_runs(prev) == concat_runs(prev.drop_last()) + prev.last());
            assert(concat_runs(upd) == concat_runs(prev.drop_last()) + prev.last().push(x));
            assert(concat_runs(prev.drop_last()) + prev.last().push(x) =~= (concat_runs(prev.drop_last()) + prev.last()).push(x));
            assert(pre.push(x) =~= ps);
        }
    }
}

/// `f` gives one answer for each pair of points.
pub open spec fn deterministic_pair<F: Fn(&Waypoint, &Waypoint) -> bool>(f: &F) -> bool {
    &&& forall|a: &Waypoint, b: &Waypoint| call_requires(*f, (a, b))
    &&& forall|a: &Waypoint, b: &Waypoint, x: bool, y: bool|
        call_ensures(*f, (a, b), x) && call_ensures(*f, (a, b), y) ==> x == y
}

/// The pairs of points for which `f` answers `true`.
pub open spec fn pair_answers_true<F: Fn(&Waypoint, &Waypoint) -> bool>(f: &F) -> spec_fn(Waypoint, Waypoint) -> bool {
    |a: Waypoint, b: Waypoint| call_ensures(*f, (&a, &b), true)
}

/// Every answer of `f` on a pair of points is what `g` says of it.
pub open spec fn separates<F: Fn(&Waypoint, &Waypoint) -> bool>(f: &F, g: spec_fn(Waypoint, Waypoint) -> bool) -> bool {
    forall|a: &Waypoint, b: &Waypoint, x: bool| call_ensures(*f, (a, b), x) ==> x == g(*a, *b)
}

fn split_points_by<F: Fn(&Waypoint, &Waypoint) -> bool>(
    points: Vec<Waypoint>,
    gap: &F,
    Ghost(g): Ghost<spec_fn(Waypoint, Waypoint) -> bool>,
) -> (r: Vec<Vec<Waypoint>>)
    requires
        forall|a: &Waypoint, b: &Waypoint| call_requires(*gap, (a, b)),
        separates(gap, g),
    ensures
        r@.len() == split_runs(points@, g).len(),
        forall|i: int| 0 <= i < r@.len() ==> (#[trigger] r@[i])@ == split_runs(points@, g)[i],
{
    let ghost ps = points@;
    let n = points.len();
    let mut src = reverse_vec(points);
    let mut done: Vec<Vec<Waypoint>> = Vec::new();
    let mut cur: Vec<Waypoint> = Vec::new();
    let mut k: usize = 0;
    assert(ps.take(0) =~= Seq::<Waypoint>::empty());
    while src.len() > 0
        invariant
            n == ps.len(),
            k + src@.len() == n,
            forall|i: int| 0 <= i < src@.len() ==> #[trigger] src@[i] == ps[n - 1 - i],
            forall|a: &Waypoint, b: &Waypoint| call_requires(*gap, (a, b)),
            separates(gap, g),
            split_runs(ps.take(k as int), g).len() == done@.len() + 1,
            forall|j: int| 0 <= j < done@.len() ==> (#[trigger] done@[j])@ == split_runs(ps.take(k as int), g)[j],
            cur@ == split_runs(ps.take(k as int), g).last(),
            k > 0 ==> cur@.len() > 0 && cur@.last() == ps[k - 1],
        decreases src.len(),
    {
        let p = src.pop().unwrap();
        assert(p == ps[k as int]);
        let ghost pre = ps.take(k as int);
        let ghost next = ps.take(k + 1);
        assert(next.drop_last() =~= pre);
        assert(next.last() == p);
        proof {
            lemma_split_runs_shape(pre, g);
        }
        if k == 0 {
            assert(next =~= seq![p]);
            cur.push(p);
            assert(cur@ =~= seq![p]);
        } else {
            let last = cur.len() - 1;
            let separated = gap(&cur[last], &p);
            assert(next[next.len() - 2] == ps[k - 1]);
            if separated {
                assert(g(ps[k - 1], p));
                let finished = cur;
                done.push(finished);
                cur = Vec::new();
                cur.push(p);
                assert(cur@ =~= seq![p]);
            } else {
                assert(!g(ps[k - 1], p));
                cur.push(p);
            }
        }
        k = k + 1;
    }
    assert(ps.take(n as int) =~= ps);
    done.push(cur);
    done
}

/// Splits a point list into runs, starting a new run at each point that
/// `gap` separates from the point before it.
pub fn split_points<F: Fn(&Waypoint, &Waypoint) -> bool>(points: Vec<Waypoint>, gap: F) -> (r: Vec<Vec<Waypoint>>)
    requires
        deterministic_pair(&gap),
    ensures
        r@.len() == split_runs(points@, pair_answers_true(&gap)).len(),
        forall|i: int| 0 <= i < r@.len() ==> (#[trigger] r@[i])@ == split_runs(points@, pair_answers_true(&gap))[i],
{
    let ghost g = pair_answers_true(&gap);
    proof {
        lemma_pair_answers_separate(&gap);
    }
    split_points_by(points, &gap, Ghost(g))
}

proof fn lemma_pair_answers_separate<F: Fn(&Waypoint, &Waypoint) -> bool>(f: &F)
    requires
        deterministic_pair(f),
    ensures
        separates(f, pair_answers_true(f)),
{
    assert forall|a: &Waypoint, b: &Waypoint, x: bool| call_ensures(*f, (a, b), x) implies x == pair_answers_true(f)(*a, *b) by {
        if !x && pair_answers_true(f)(*a, *b) {
            assert(call_ensures(*f, (a, b), true));
        }
    }
}

} // verus!

verus! {

// ================================================================ mapping points

/// `f` may be called on every point and gives one answer for each.
pub open spec fn deterministic_map<F: Fn(Waypoint) -> Waypoint>(f: &F) -> bool {
    &&& forall|w: Waypoint| call_requires(*f, (w,))
    &&& forall|w: Waypoint, a: Waypoint, b: Waypoint| call_ensures(*f, (w,), a) && call_ensures(*f, (w,), b) ==> a == b
}

/// The point that `f` gives for each point.
pub open spec fn image_of<F: Fn(Waypoint) -> Waypoint>(f: &F) -> spec_fn(Waypoint) -> Waypoint {
    |w: Waypoint| choose|o: Waypoint| call_ensures(*f, (w,), o)
}

/// Every answer of `f` on a point is what `t` says of it.
pub open spec fn maps_as<F: Fn(Waypoint) -> Waypoint>(f: &F, t: spec_fn(Waypoint) -> Waypoint) -> bool {
    forall|w: Waypoint, o: Waypoint| call_ensures(*f, (w,), o) ==> o == t(w)
}

/// A route with `t` applied to each point.
pub open spec fn mapped_route(r: RouteV, t: spec_fn(Waypoint) -> Waypoint) -> RouteV {
    RouteV { points: r.points.map_values(t), ..r }
}

/// A segment with `t` applied to each point.
pub open spec fn mapped_segment(s: TrackSegmentV, t: spec_fn(Waypoint) -> Waypoint) -> TrackSegmentV {
    TrackSegmentV { points: s.points.map_values(t), ..s }
}

/// A track with `t` applied to each point of each segment.
pub open spec fn mapped_track(x: TrackV, t: spec_fn(Waypoint) -> Waypoint) -> TrackV {
    TrackV { segments: x.segments.map_values(|s: TrackSegmentV| mapped_segment(s, t)), ..x }
}

/// The document with `t` applied to every waypoint, route point and track
/// point, and nothing else changed.
pub open spec fn spec_map_points(g: GpxV, t: spec_fn(Waypoint) -> Waypoint) -> GpxV {
    GpxV {
        waypoints: g.waypoints.map_values(t),
        routes: g.routes.map_values(|r: RouteV| mapped_route(r, t)),
        tracks: g.tracks.map_values(|x: TrackV| mapped_track(x, t)),
        ..g
    }
}

fn map_point_vec<F: Fn(Waypoint) -> Waypoint>(v: Vec<Waypoint>, f: &F, Ghost(t): Ghost<spec_fn(Waypoint) -> Waypoint>) -> (r: Vec<Waypoint>)
    requires
        forall|w: Waypoint| call_requires(*f, (w,)),
        maps_as(f, t),
    ensures
        r@ == v@.map_values(t),
{
    let ghost vs = v@;
    let n = v.len();
    let mut src = reverse_vec(v);
    let mut out: Vec<Waypoint> = Vec::new();
    while src.len() > 0
        invariant
            n == vs.len(),
            out@.len() + src@.len() == n,
            forall|i: int| 0 <= i < src@.len() ==> #[trigger] src@[i] == vs[n - 1 - i],
            forall|i: int| 0 <= i < out@.len() ==> #[trigger] out@[i] == t(vs[i]),
            forall|w: Waypoint| call_requires(*f, (w,)),
            maps_as(f, t),
        decreases src.len(),
    {
        let w = src.pop().unwrap();
        assert(w == vs[out@.len() as int]);
        let y = f(w);
        out.push(y);
    }
    assert(out@ =~= vs.map_values(t));
    out
}

fn map_route<F: Fn(Waypoint) -> Waypoint>(x: Route, f: &F, Ghost(t): Ghost<spec_fn(Waypoint) -> Waypoint>) -> (o: Route)
    requires
        forall|w: Waypoint| call_requires(*f, (w,)),
        maps_as(f, t),
    ensures
        o@ == mapped_route(x@, t),
{
    let Route { name, cmt, desc, src, links, number, route_type, extensions, points } = x;
    let points = map_point_vec(points, f, Ghost(t));
    Route { name, cmt, desc, src, links, number, route_type, extensions, points }
}

fn map_segment_vec<F: Fn(Waypoint) -> Waypoint>(v: Vec<TrackSegment>, f: &F, Ghost(t): Ghost<spec_fn(Waypoint) -> Waypoint>) -> (r: Vec<TrackSegment>)
    requires
        forall|w: Waypoint| call_requires(*f, (w,)),
        maps_as(f, t),
    ensures
        segment_views(r@) == segment_views(v@).map_values(|s: TrackSegmentV| mapped_segment(s, t)),
{
    let ghost vs = v@;
    let n = v.len();
    let mut src = reverse_vec(v);
    let mut out: Vec<TrackSegment> = Vec::new();
    while src.len() > 0
        invariant
            n == vs.len(),
            out@.len() + src@.len() == n,
            forall|i: int| 0 <= i < src@.len() ==> #[trigger] src@[i] == vs[n - 1 - i],
            forall|i: int| 0 <= i < out@.len() ==> (#[trigger] out@[i])@ == mapped_segment(vs[i]@, t),
            forall|w: Waypoint| call_requires(*f, (w,)),
            maps_as(f, t),
        decreases src.len(),
    {
        let s = src.pop().unwrap();
        assert(s == vs[out@.len() as int]);
        let TrackSegment { points, extensions } = s;
        let points = map_point_vec(points, f, Ghost(t));
        out.push(TrackSegment { points, extensions });
    }
    assert(segment_views(out@) =~= segment_views(vs).map_values(|s: TrackSegmentV| mapped_segment(s, t)));
    out
}

fn map_track<F: Fn(Waypoint) -> Waypoint>(x: Track, f: &F, Ghost(t): Ghost<spec_fn(Waypoint) -> Waypoint>) -> (o: Track)
    requires
        forall|w: Waypoint| call_requires(*f, (w,)),
        maps_as(f, t),
    ensures
        o@ == mapped_track(x@, t),
{
    let Track { name, cmt, desc, src, links, number, track_type, extensions, segments } = x;
    let segments = map_segment_vec(segments, f, Ghost(t));
    Track { name, cmt, desc, src, links, number, track_type, extensions, segments }
}

fn map_points_as<F: Fn(Waypoint) -> Waypoint>(gpx: Gpx, f: &F, Ghost(t): Ghost<spec_fn(Waypoint) -> Waypoint>) -> (r: Gpx)
    requires
        forall|w: Waypoint| call_requires(*f, (w,)),
        maps_as(f, t),
    ensures
        r@ == spec_map_points(gpx@, t),
{
    let ghost g = gpx@;
    let Gpx { version, creator, metadata, waypoints, routes, tracks, extensions } = gpx;
    let waypoints = map_point_vec(waypoints, f, Ghost(t));
    let ghost rs = routes@;
    let n = routes.len();
    let mut src = reverse_vec(routes);
    let mut out_routes: Vec<Route> = Vec::new();
    while src.len() > 0
        invariant
            n == rs.len(),
            out_routes@.len() + src@.len() == n,
            forall|i: int| 0 <= i < src@.len() ==> #[trigger] src@[i] == rs[n - 1 - i],
            forall|i: int| 0 <= i < out_routes@.len() ==> (#[trigger] out_routes@[i])@ == mapped_route(rs[i]@, t),
            forall|w: Waypoint| call_requires(*f, (w,)),
            maps_as(f, t),
        decreases src.len(),
    {
        let x = src.pop().unwrap();
        assert(x == rs[out_routes@.len() as int]);
        out_routes.push(map_route(x, f, Ghost(t)));
    }
    let ghost ts = tracks@;
    let m = tracks.len();
    let mut tsrc = reverse_vec(tracks);
    let mut out_tracks: Vec<Track> = Vec::new();
    while tsrc.len() > 0
        invariant
            m == ts.len(),
            out_tracks@.len() + tsrc@.len() == m,
            forall|i: int| 0 <= i < tsrc@.len() ==> #[trigger] tsrc@[i] == ts[m - 1 - i],
            forall|i: int| 0 <= i < out_tracks@.len() ==> (#[trigger] out_tracks@[i])@ == mapped_track(ts[i]@, t),
            forall|w: Waypoint| call_requires(*f, (w,)),
            maps_as(f, t),
        decreases tsrc.len(),
    {
        let x = tsrc.pop().unwrap();
        assert(x == ts[out_tracks@.len() as int]);
        out_tracks.push(map_track(x, f, Ghost(t)));
    }
    let r = Gpx { version, creator, metadata, waypoints, routes: out_routes, tracks: out_tracks, extensions };
    assert(route_views(r.routes@) =~= g.routes.map_values(|x: RouteV| mapped_route(x, t)));
    assert(track_views(r.tracks@) =~= g.tracks.map_values(|x: TrackV| mapped_track(x, t)));
    r
}

/// Applies `transform` to every waypoint, route point and track point;
/// everything else is kept as it is.
pub fn map_points<F: Fn(Waypoint) -> Waypoint>(gpx: Gpx, transform: F) -> (r: Gpx)
    requires
        deterministic_map(&transform),
    ensures
        r@ == spec_map_points(gpx@, image_of(&transform)),
{
    let ghost t = image_of(&transform);
    proof {
        assert forall|w: Waypoint, o: Waypoint| call_ensures(transform, (w,), o) implies o == t(w) by {
            let c = choose|c: Waypoint| call_ensures(transform, (w,), c);
            assert(call_ensures(transform, (w,), c));
        }
    }
    map_points_as(gpx, &transform, Ghost(t))
}

/// Mapping points keeps the shape of the document: the same number of
/// waypoints, routes and tracks, of points in each route, of segments in
/// each track and of points in each segment, and the same metadata.
pub proof fn lemma_map_points_keeps_shape(g: GpxV, t: spec_fn(Waypoint) -> Waypoint)
    ensures
        ({
            let r = spec_map_points(g, t);
            &&& r.metadata == g.metadata
            &&& r.waypoints.len() == g.waypoints.len()
            &&& r.routes.len() == g.routes.len()
            &&& r.tracks.len() == g.tracks.len()
            &&& forall|i: int| 0 <= i < g.routes.len() ==> (#[trigger] r.routes[i]).points.len() == g.routes[i].points.len()
            &&& forall|i: int| #![trigger r.tracks[i]] 0 <= i < g.tracks.len() ==> {
                &&& r.tracks[i].segments.len() == g.tracks[i].segments.len()
                &&& forall|k: int| 0 <= k < g.tracks[i].segments.len()
                    ==> (#[trigger] r.tracks[i].segments[k]).points.len() == g.tracks[i].segments[k].points.len()
            }
        }),
{
}

} // verus!

verus! {

// ================================================================ splitting tracks

/// A copy of an optional text.
pub(crate) fn copy_text(s: &Option<String>) -> (r: Option<String>)
    ensures
        r == *s,
{
    match s {
        Some(x) => Some(x.clone()),
        None => None,
    }
}

/// A copy of a segment's extensions.
fn copy_extensions(e: &Option<Extensions>) -> (r: Option<Extensions>)
    ensures
        r == *e,
{
    match e {
        None => None,
        Some(x) => {
            let track_point = match &x.track_point {
                Some(t) => Some(TrackPointExtension { atemp: t.atemp, wtemp: t.wtemp, depth: t.depth, hr: t.hr, cad: t.cad }),
                None => None,
            };
            let power_extension = match &x.power_extension {
                Some(p) => Some(PowerExtension { power_in_watts: p.power_in_watts }),
                None => None,
            };
            let track = match &x.track {
                Some(t) => Some(TrackExtension { display_color: copy_text(&t.display_color) }),
                None => None,
            };
            Some(Extensions { track_point, power: x.power, power_extension, track, inner_xml: x.inner_xml.clone() })
        },
    }
}

/// The segments that one segment splits into: one per run of its points,
/// each with the segment's extensions. A segment without points stays one
/// segment.
pub open spec fn split_segment_runs(s: TrackSegmentV, gap: spec_fn(Waypoint, Waypoint) -> bool) -> Seq<TrackSegmentV> {
    split_runs(s.points, gap).map_values(|run: Seq<Waypoint>| TrackSegmentV { points: run, extensions: s.extensions })
}

/// A track with each segment replaced, in order, by the segments it splits into.
pub open spec fn split_track(t: TrackV, gap: spec_fn(Waypoint, Waypoint) -> bool) -> TrackV {
    TrackV { segments: t.segments.map_values(|s: TrackSegmentV| split_segment_runs(s, gap)).flatten_alt(), ..t }
}

/// The document with every track segment split at gaps; waypoints, routes
/// and everything else are kept.
pub open spec fn spec_split(g: GpxV, gap: spec_fn(Waypoint, Waypoint) -> bool) -> GpxV {
    GpxV { tracks: g.tracks.map_values(|t: TrackV| split_track(t, gap)), ..g }
}

fn split_segment<F: Fn(&Waypoint, &Waypoint) -> bool>(
    seg: TrackSegment,
    gap: &F,
    Ghost(g): Ghost<spec_fn(Waypoint, Waypoint) -> bool>,
) -> (r: Vec<TrackSegment>)
    requires
        forall|a: &Waypoint, b: &Waypoint| call_requires(*gap, (a, b)),
        separates(gap, g),
    ensures
        segment_views(r@) == split_segment_runs(seg@, g),
{
    let ghost sv = seg@;
    let TrackSegment { points, extensions } = seg;
    let runs = split_points_by(points, gap, Ghost(g));
    let ghost rs = split_runs(sv.points, g);
    let n = runs.len();
    let mut src = reverse_vec(runs);
    let mut out: Vec<TrackSegment> = Vec::new();
    while src.len() > 0
        invariant
            n == rs.len(),
            out@.len() + src@.len() == n,
            forall|i: int| 0 <= i < src@.len() ==> (#[trigger] src@[i])@ == rs[n - 1 - i],
            forall|i: int| 0 <= i < out@.len() ==> (#[trigger] out@[i])@ == (TrackSegmentV { points: rs[i], extensions: sv.extensions }),
            extensions == sv.extensions,
        decreases src.len(),
    {
        let run = src.pop().unwrap();
        let e = copy_extensions(&extensions);
        out.push(TrackSegment { points: run, extensions: e });
    }
    assert(segment_views(out@) =~= split_segment_runs(sv, g));
    out
}

fn split_segments<F: Fn(&Waypoint, &Waypoint) -> bool>(
    segs: Vec<TrackSegment>,
    gap: &F,
    Ghost(g): Ghost<spec_fn(Waypoint, Waypoint) -> bool>,
) -> (r: Vec<TrackSegment>)
    requires
        forall|a: &Waypoint, b: &Waypoint| call_requires(*gap, (a, b)),
        separates(gap, g),
    ensures
        segment_views(r@) == segment_views(segs@).map_values(|s: TrackSegmentV| split_segment_runs(s, g)).flatten_alt(),
{
    let ghost vs = segment_views(segs@);
    let ghost parts = vs.map_values(|s: TrackSegmentV| split_segment_runs(s, g));
    let n = segs.len();
    let mut src = reverse_vec(segs);
    let mut out: Vec<TrackSegment> = Vec::new();
    let mut k: usize = 0;
    assert(parts.take(0) =~= Seq::<Seq<TrackSegmentV>>::empty());
    while src.len() > 0
        invariant
            n == vs.len(),
            parts.len() == n,
            parts == vs.map_values(|s: TrackSegmentV| split_segment_runs(s, g)),
            k + src@.len() == n,
            forall|i: int| 0 <= i < src@.len() ==> (#[trigger] src@[i])@ == vs[n - 1 - i],
            segment_views(out@) == parts.take(k as int).flatten_alt(),
            forall|a: &Waypoint, b: &Waypoint| call_requires(*gap, (a, b)),
            separates(gap, g),
        decreases src.len(),
    {
        let s = src.pop().unwrap();
        let ghost before = segment_views(out@);
        let pieces = split_segment(s, gap, Ghost(g));
        let ghost added = segment_views(pieces@);
        append_vec(&mut out, pieces);
        assert(parts.take(k + 1).drop_last() =~= parts.take(k as int));
        assert(parts.take(k + 1).last() == parts[k as int]);
        assert(segment_views(out@) =~= before + added);
        k = k + 1;
    }
    assert(parts.take(n as int) =~= parts);
    out
}

fn split_track_exec<F: Fn(&Waypoint, &Waypoint) -> bool>(
    x: Track,
    gap: &F,
    Ghost(g): Ghost<spec_fn(Waypoint, Waypoint) -> bool>,
) -> (o: Track)
    requires
        forall|a: &Waypoint, b: &Waypoint| call_requires(*gap, (a, b)),
        separates(gap, g),
    ensures
        o@ == split_track(x@, g),
{
    let Track { name, cmt, desc, src, links, number, track_type, extensions, segments } = x;
    let segments = split_segments(segments, gap, Ghost(g));
    Track { name, cmt, desc, src, links, number, track_type, extensions, segments }
}

/// Splits every track segment into runs, starting a new segment at each
/// point that `gap` separates from the point before it; each new segment
/// keeps the extensions of the segment it came from. Waypoints and routes
/// are left unchanged.
pub fn split_tracks<F: Fn(&Waypoint, &Waypoint) -> bool>(gpx: Gpx, gap: F) -> (r: Gpx)
    requires
        deterministic_pair(&gap),
    ensures
        r@ == spec_split(gpx@, pair_answers_true(&gap)),
{
    let ghost g = pair_answers_true(&gap);
    proof {
        lemma_pair_answers_separate(&gap);
    }
    let ghost gv = gpx@;
    let Gpx { version, creator, metadata, waypoints, routes, tracks, extensions } = gpx;
    let ghost ts = tracks@;
    let m = tracks.len();
    let mut tsrc = reverse_vec(tracks);
    let mut out: Vec<Track> = Vec::new();
    while tsrc.len() > 0
        invariant
            m == ts.len(),
            out@.len() + tsrc@.len() == m,
            forall|i: int| 0 <= i < tsrc@.len() ==> #[trigger] tsrc@[i] == ts[m - 1 - i],
            forall|i: int| 0 <= i < out@.len() ==> (#[trigger] out@[i])@ == split_track(ts[i]@, g),
            forall|a: &Waypoint, b: &Waypoint| call_requires(gap, (a, b)),
            separates(&gap, g),
        decreases tsrc.len(),
    {
        let x = tsrc.pop().unwrap();
        assert(x == ts[out@.len() as int]);
        out.push(split_track_exec(x, &gap, Ghost(g)));
    }
    let r = Gpx { version, creator, metadata, waypoints, routes, tracks: out, extensions };
    assert(track_views(r.tracks@) =~= gv.tracks.map_values(|t: TrackV| split_track(t, g)));
    r
}


/// The points of segments, one segment after another.
pub open spec fn segments_points(s: Seq<TrackSegmentV>) -> Seq<Waypoint>
    decreases s.len(),
{
    if s.len() == 0 { Seq::empty() } else { segments_points(s.drop_last()) + s.last().points }
}

proof fn lemma_segments_points_add(a: Seq<TrackSegmentV>, b: Seq<TrackSegmentV>)
    ensures
        segments_points(a + b) == segments_points(a) + segments_points(b),
    decreases b.len(),
{
    if b.len() == 0 {
        assert(a + b =~= a);
        assert(segments_points(a) + Seq::<Waypoint>::empty() =~= segments_points(a));
    } else {
        lemma_segments_points_add(a, b.drop_last());
        assert((a + b).drop_last() =~= a + b.drop_last());
        assert((a + b).last() == b.last());
        assert(segments_points(a) + segments_points(b.drop_last()) + b.last().points
            =~= segments_points(a) + (segments_points(b.drop_last()) + b.last().points));
    }
}

proof fn lemma_runs_as_segments(rs: Seq<Seq<Waypoint>>, e: Option<Extensions>)
    ensures
        segments_points(rs.map_values(|run: Seq<Waypoint>| TrackSegmentV { points: run, extensions: e })) == concat_runs(rs),
    decreases rs.len(),
{
    let f = |run: Seq<Waypoint>| TrackSegmentV { points: run, extensions: e };
    if rs.len() > 0 {
        lemma_runs_as_segments(rs.drop_last(), e);
        assert(rs.map_values(f).drop_last() =~= rs.drop_last().map_values(f));
    } else {
        assert(rs.map_values(f) =~= Seq::<TrackSegmentV>::empty());
    }
}

proof fn lemma_split_segments_points(segs: Seq<TrackSegmentV>, gap: spec_fn(Waypoint, Waypoint) -> bool)
    ensures
        segments_points(segs.map_values(|s: TrackSegmentV| split_segment_runs(s, gap)).flatten_alt()) == segments_points(segs),
    decreases segs.len(),
{
    let f = |s: TrackSegmentV| split_segment_runs(s, gap);
    let parts = segs.map_values(f);
    if segs.len() == 0 {
        assert(parts =~= Seq::<Seq<TrackSegmentV>>::empty());
    } else {
        lemma_split_segments_points(segs.drop_last(), gap);
        assert(parts.drop_last() =~= segs.drop_last().map_values(f));
        let last = segs.last();
        lemma_segments_points_add(parts.drop_last().flatten_alt(), parts.last());
        lemma_runs_as_segments(split_runs(last.points, gap), last.extensions);
        lemma_split_runs_concat(last.points, gap);
    }
}

/// Splitting only cuts segments: in each track, the points of all its
/// segments, one after another, are the same before and after, and the
/// waypoints and routes are unchanged.
pub proof fn lemma_split_keeps_points(g: GpxV, gap: spec_fn(Waypoint, Waypoint) -> bool)
    ensures
        spec_split(g, gap).waypoints == g.waypoints,
        spec_split(g, gap).routes == g.routes,
        spec_split(g, gap).tracks.len() == g.tracks.len(),
        forall|i: int| 0 <= i < g.tracks.len()
            ==> segments_points((#[trigger] spec_split(g, gap).tracks[i]).segments) == segments_points(g.tracks[i].segments),
{
    assert forall|i: int| 0 <= i < g.tracks.len()
        implies segments_points((#[trigger] spec_split(g, gap).tracks[i]).segments) == segments_points(g.tracks[i].segments) by {
        lemma_split_segments_points(g.tracks[i].segments, gap);
    }
}

} // verus!

verus! {

// ================================================================ edit choices

/// The structural edits that an edit request asks for: reversing everything,
/// or routes and/or tracks; stripping metadata fields; stripping extensions.
#[derive(Debug, Clone, Copy)]
pub struct StructuralEdits {
    pub reverse: bool,
    pub reverse_routes: bool,
    pub reverse_tracks: bool,
    pub strip: StripMetadataFields,
    pub strip_extensions: bool,
}

/// Whether any metadata field is asked to be stripped.
pub open spec fn strip_requested(f: StripMetadataFields) -> bool {
    f.strip_all || f.name || f.desc || f.author || f.copyright || f.time || f.keywords || f.links
}

/// The document after the structural edits, in order: reversing (all at
/// once, or routes then tracks), stripping metadata when any field is
/// asked for, then stripping extensions.
pub open spec fn spec_structural_edits(g: GpxV, e: StructuralEdits) -> GpxV {
    let reversed = if e.reverse {
        spec_reverse(g, true, true)
    } else {
        let r = if e.reverse_routes { spec_reverse(g, true, false) } else { g };
        if e.reverse_tracks { spec_reverse(r, false, true) } else { r }
    };
    let stripped = if strip_requested(e.strip) { spec_strip_metadata(reversed, e.strip) } else { reversed };
    if e.strip_extensions { spec_strip_extensions(stripped) } else { stripped }
}

/// Applies the structural edits of an edit request, in order.
pub fn apply_structural_edits(gpx: Gpx, edits: StructuralEdits) -> (r: Gpx)
    ensures
        r@ == spec_structural_edits(gpx@, edits),
{
    let mut g = gpx;
    if edits.reverse {
        g = reverse(g, true, true);
    } else {
        if edits.reverse_routes {
            g = reverse(g, true, false);
        }
        if edits.reverse_tracks {
            g = reverse(g, false, true);
        }
    }
    let f = edits.strip;
    if f.strip_all || f.name || f.desc || f.author || f.copyright || f.time || f.keywords || f.links {
        g = strip_metadata(g, f);
    }
    if edits.strip_extensions {
        g = strip_extensions(g);
    }
    g
}

} // verus!
