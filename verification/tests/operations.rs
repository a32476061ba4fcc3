use gpx_rs::model::{
    Binary64, Extensions, Gpx, Metadata, Route, Timestamp, Track, TrackPointExtension, TrackSegment, Waypoint,
};
use gpx_rs::operations::{
    apply_structural_edits, StructuralEdits,
    filter_points, map_points, merge, merge_with_creator, reverse, split_tracks, strip_extensions, strip_metadata, trim,
    SmoothOptions, StripMetadataFields,
};
use gpx_rs::types::{Link, PowerExtension};

fn pt(lat: f64, secs: Option<i64>) -> Waypoint {
    Waypoint {
        lat: Binary64 { bits: lat.to_bits() },
        lon: Binary64 { bits: 0f64.to_bits() },
        ele: None,
        time: secs.map(|s| Timestamp { seconds: s, nanos: 0 }),
        magvar: None,
        geoidheight: None,
        name: None,
        cmt: None,
        desc: None,
        src: None,
        links: Vec::new(),
        sym: None,
        waypoint_type: None,
        fix: None,
        sat: None,
        hdop: None,
        vdop: None,
        pdop: None,
        ageofdgpsdata: None,
        dgpsid: None,
        extensions: None,
    }
}

fn lat(w: &Waypoint) -> f64 {
    f64::from_bits(w.lat.bits)
}

fn sample() -> Gpx {
    let mut g = Gpx::default();
    g.version = Some("1.1".into());
    g.waypoints = vec![pt(1.0, Some(10)), pt(2.0, None)];
    g.routes = vec![Route { name: Some("r".into()), points: vec![pt(3.0, Some(5)), pt(4.0, Some(50))], ..Default::default() }];
    g.tracks = vec![Track {
        name: Some("t".into()),
        segments: vec![
            TrackSegment { points: vec![pt(5.0, Some(1)), pt(6.0, Some(2))], extensions: None },
            TrackSegment { points: vec![pt(7.0, Some(100))], extensions: None },
        ],
        ..Default::default()
    }];
    g.metadata = Some(Metadata {
        name: Some("m".into()),
        desc: Some("d".into()),
        links: vec![Link { href: "h".into(), text: None, link_type: None }],
        ..Default::default()
    });
    g
}

#[test]
fn reverse_tracks_reverses_segments_and_points() {
    let g = reverse(sample(), false, true);
    let t = &g.tracks[0];
    assert_eq!(t.segments.len(), 2);
    assert_eq!(lat(&t.segments[0].points[0]), 7.0);
    assert_eq!(lat(&t.segments[1].points[0]), 6.0);
    assert_eq!(lat(&t.segments[1].points[1]), 5.0);
    assert_eq!(lat(&g.routes[0].points[0]), 3.0);
}

#[test]
fn reverse_twice_is_identity() {
    let g = reverse(reverse(sample(), true, true), true, true);
    assert_eq!(g, sample());
    let r = reverse(sample(), true, false);
    assert_eq!(lat(&r.routes[0].points[0]), 4.0);
    assert_eq!(r.tracks, sample().tracks);
}

#[test]
fn strip_metadata_selected_fields() {
    let mut f = StripMetadataFields::default();
    f.name = true;
    f.links = true;
    let g = strip_metadata(sample(), f);
    let m = g.metadata.unwrap();
    assert_eq!(m.name, None);
    assert_eq!(m.desc.as_deref(), Some("d"));
    assert!(m.links.is_empty());
}

#[test]
fn strip_metadata_all_or_none_selected_removes_metadata() {
    assert!(strip_metadata(sample(), StripMetadataFields::all()).metadata.is_none());
    assert!(strip_metadata(sample(), StripMetadataFields::default()).metadata.is_none());
    let all = StripMetadataFields::all();
    assert!(all.strip_all && !all.name && !all.links);
}

#[test]
fn strip_extensions_everywhere() {
    let mut g = sample();
    let ext = Extensions {
        track_point: Some(TrackPointExtension { hr: Some(100), ..Default::default() }),
        power: None,
        power_extension: Some(PowerExtension { power_in_watts: Some(200) }),
        track: None,
        inner_xml: String::new(),
    };
    g.extensions = Some(ext.clone());
    g.waypoints[0].extensions = Some(ext.clone());
    g.tracks[0].segments[0].points[1].extensions = Some(ext.clone());
    g.tracks[0].extensions = Some(ext.clone());
    g.routes[0].extensions = Some(ext.clone());
    assert_eq!(g.waypoints[0].heart_rate(), Some(100));
    assert_eq!(g.waypoints[0].power_watts(), Some(200));
    let s = strip_extensions(g);
    assert!(s.extensions.is_none());
    assert!(s.waypoints[0].extensions.is_none());
    assert!(s.tracks[0].segments[0].points[1].extensions.is_none());
    assert!(s.tracks[0].extensions.is_none());
    assert!(s.routes[0].extensions.is_none());
    assert_eq!(s.waypoints[0].heart_rate(), None);
    assert_eq!(strip_extensions(s.clone()), s);
}

#[test]
fn merge_concatenates_in_order() {
    let a = sample();
    let mut b = Gpx::default();
    b.waypoints = vec![pt(9.0, None)];
    let m = merge(vec![a, b]);
    assert_eq!(m.waypoints.len(), 3);
    assert_eq!(lat(&m.waypoints[2]), 9.0);
    assert_eq!(m.routes.len(), 1);
    assert_eq!(m.tracks.len(), 1);
    assert!(m.metadata.is_none());
    assert!(m.version.is_none());
    let m = merge_with_creator(vec![sample()], Some("me".into()));
    assert_eq!(m.creator.as_deref(), Some("me"));
    assert_eq!(merge(Vec::new()), Gpx::default());
}

#[test]
fn trim_keeps_untimed_and_drops_empty_containers() {
    let g = trim(sample(), Some(Timestamp { seconds: 5, nanos: 0 }), Some(Timestamp { seconds: 60, nanos: 0 }));
    assert_eq!(g.waypoints.len(), 2);
    assert_eq!(g.routes[0].points.len(), 2);
    assert!(g.tracks.is_empty());
    let g = trim(sample(), None, Some(Timestamp { seconds: 1, nanos: 0 }));
    assert_eq!(g.waypoints.len(), 1);
    assert!(g.routes.is_empty());
    assert_eq!(g.tracks[0].segments.len(), 1);
    assert_eq!(g.tracks[0].segments[0].points.len(), 1);
}

#[test]
fn filter_points_by_latitude() {
    let g = filter_points(sample(), |p: &Waypoint| lat(p) > 4.5);
    assert!(g.waypoints.is_empty());
    assert!(g.routes.is_empty());
    assert_eq!(g.tracks[0].segments.len(), 2);
}

#[test]
fn smooth_options_default() {
    let o = SmoothOptions::default();
    assert_eq!((o.window, o.coordinates, o.elevations), (5, true, true));
}

#[test]
fn map_points_touches_every_point_and_nothing_else() {
    let g = map_points(sample(), |mut p: Waypoint| {
        p.name = Some(format!("at {}", lat(&p)));
        p
    });
    assert_eq!(g.waypoints.len(), 2);
    assert_eq!(g.waypoints[1].name.as_deref(), Some("at 2"));
    assert_eq!(g.routes[0].points[1].name.as_deref(), Some("at 4"));
    assert_eq!(g.tracks[0].segments[1].points[0].name.as_deref(), Some("at 7"));
    assert_eq!(g.tracks[0].segments.len(), 2);
    assert_eq!(g.metadata, sample().metadata);
    assert_eq!(g.routes[0].name.as_deref(), Some("r"));
}

#[test]
fn split_tracks_cuts_segments_at_gaps_only() {
    let mut g = sample();
    g.tracks[0].segments[0].extensions = Some(Extensions { power: Some(9), ..Default::default() });
    g.tracks[0].segments.push(TrackSegment { points: vec![], extensions: None });
    let out = split_tracks(g.clone(), |a: &Waypoint, b: &Waypoint| lat(b) - lat(a) > 0.5);
    assert_eq!(out.waypoints, g.waypoints);
    assert_eq!(out.routes, g.routes);
    let segs = &out.tracks[0].segments;
    let sizes: Vec<usize> = segs.iter().map(|s| s.points.len()).collect();
    assert_eq!(sizes, vec![1, 1, 1, 0]);
    assert_eq!(segs[0].extensions, g.tracks[0].segments[0].extensions);
    assert_eq!(segs[1].extensions, g.tracks[0].segments[0].extensions);
    let flat: Vec<f64> = segs.iter().flat_map(|s| s.points.iter().map(lat)).collect();
    assert_eq!(flat, vec![5.0, 6.0, 7.0]);
    let same = split_tracks(g.clone(), |_: &Waypoint, _: &Waypoint| false);
    assert_eq!(same.tracks, g.tracks);
}

#[test]
fn filtered_documents_hold_only_accepted_points() {
    let out = filter_points(sample(), |p: &Waypoint| lat(p) > 4.5);
    assert!(out.waypoints.is_empty());
    assert!(out.routes.is_empty());
    assert_eq!(out.tracks.len(), 1);
    assert!(out.tracks[0].segments.iter().all(|s| !s.points.is_empty() && s.points.iter().all(|p| lat(p) > 4.5)));
}

#[test]
fn filtering_twice_is_filtering_with_both() {
    let p = |w: &Waypoint| lat(w) > 1.5;
    let q = |w: &Waypoint| lat(w) < 6.5;
    let twice = filter_points(filter_points(sample(), p), q);
    let once = filter_points(sample(), |w: &Waypoint| lat(w) > 1.5 && lat(w) < 6.5);
    assert_eq!(twice, once);
    assert_eq!(filter_points(filter_points(sample(), p), p), filter_points(sample(), p));
}

#[test]
fn structural_edits_apply_in_order() {
    let none = StructuralEdits {
        reverse: false,
        reverse_routes: false,
        reverse_tracks: false,
        strip: StripMetadataFields::default(),
        strip_extensions: false,
    };
    assert_eq!(apply_structural_edits(sample(), none), sample());
    let all = StructuralEdits { reverse: true, strip: StripMetadataFields::all(), strip_extensions: true, ..none };
    let g = apply_structural_edits(sample(), all);
    assert_eq!(g, strip_extensions(strip_metadata(reverse(sample(), true, true), StripMetadataFields::all())));
    assert!(g.metadata.is_none());
    let routes_only = StructuralEdits { reverse_routes: true, ..none };
    assert_eq!(apply_structural_edits(sample(), routes_only), reverse(sample(), true, false));
}
