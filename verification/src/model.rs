//! The GPX document model.
//!
//! Floating-point quantities are held by their IEEE 754 bit patterns and
//! instants by their Unix time, so that the structural operations on a
//! document carry them through exactly; the arithmetic on them lives with
//! the callers that convert them.

use vstd::prelude::*;
use crate::types::{Copyright, Fix, Link, Person, PowerExtension, TrackExtension};

verus! {

/// An IEEE 754 double-precision value, held by its bit pattern.
#[derive(Debug, Clone, Copy, PartialEq, Eq, Structural)]
pub struct Binary64 {
    /// The 64 bits of the value.
    pub bits: u64,
}

/// A UTC instant: whole seconds since the Unix epoch, and nanoseconds within
/// the second (at least 10^9 only during a leap second).
#[derive(Debug, Clone, Copy, PartialEq, Eq, Structural)]
pub struct Timestamp {
    /// Seconds since 1970-01-01T00:00:00Z.
    pub seconds: i64,
    /// Nanoseconds past `seconds`.
    pub nanos: u32,
}

/// `a` is earlier than `b`.
pub open spec fn earlier(a: Timestamp, b: Timestamp) -> bool {
    a.seconds < b.seconds || (a.seconds == b.seconds && a.nanos < b.nanos)
}

impl Timestamp {
    /// Whether `self` is earlier than `other`.
    pub fn is_before(&self, other: &Timestamp) -> (r: bool)
        ensures
            r == earlier(*self, *other),
    {
        self.seconds < other.seconds || (self.seconds == other.seconds && self.nanos < other.nanos)
    }
}

/// Garmin Track Point Extension v1/v2 (`gpxtpx:TrackPointExtension`).
#[derive(Debug, Clone, PartialEq, Default)]
pub struct TrackPointExtension {
    /// Air temperature at the point, in degrees Celsius.
    pub atemp: Option<Binary64>,
    /// Water temperature at the point, in degrees Celsius.
    pub wtemp: Option<Binary64>,
    /// Depth below water surface, in meters.
    pub depth: Option<Binary64>,
    /// Heart rate in beats per minute.
    pub hr: Option<u8>,
    /// Cadence in revolutions per minute.
    pub cad: Option<u8>,
}

/// Extension elements from namespaces other than the GPX schema (`extensionsType`).
#[derive(Debug, Clone, PartialEq, Default)]
pub struct Extensions {
    /// Garmin / Strava track point extension.
    pub track_point: Option<TrackPointExtension>,
    /// Strava-style instantaneous power in watts.
    pub power: Option<u16>,
    /// Garmin power extension.
    pub power_extension: Option<PowerExtension>,
    /// Garmin track extension.
    pub track: Option<TrackExtension>,
    /// Raw inner XML for extension elements that are not modeled above.
    pub inner_xml: String,
}

impl Extensions {
    /// Heart rate from the track point extension, if present.
    pub fn heart_rate(&self) -> (r: Option<u8>)
        ensures
            r == (match self.track_point { Some(t) => t.hr, None => None }),
    {
        match &self.track_point {
            Some(t) => t.hr,
            None => None,
        }
    }

    /// Cadence from the track point extension, if present.
    pub fn cadence(&self) -> (r: Option<u8>)
        ensures
            r == (match self.track_point { Some(t) => t.cad, None => None }),
    {
        match &self.track_point {
            Some(t) => t.cad,
            None => None,
        }
    }

    /// Power in watts from Strava `<power>`, or else from the Garmin power extension.
    pub fn power_watts(&self) -> (r: Option<u16>)
        ensures
            r == (match self.power {
                Some(w) => Some(w),
                None => match self.power_extension { Some(p) => p.power_in_watts, None => None },
            }),
    {
        match self.power {
            Some(w) => Some(w),
            None => match &self.power_extension {
                Some(p) => p.power_in_watts,
                None => None,
            },
        }
    }

    /// Whether any typed or raw extension content is present.
    pub fn is_empty(&self) -> (r: bool)
        ensures
            r == (self.track_point is None && self.power is None && self.power_extension is None
                && self.track is None && self.inner_xml@.len() == 0),
    {
        self.track_point.is_none() && self.power.is_none() && self.power_extension.is_none()
            && self.track.is_none() && self.inner_xml.as_str().unicode_len() == 0
    }
}

/// Geographic bounds (`boundsType` in GPX 1.1).
#[derive(Debug, Clone, Copy, PartialEq, Eq, Structural)]
pub struct Bounds {
    pub minlat: Binary64,
    pub minlon: Binary64,
    pub maxlat: Binary64,
    pub maxlon: Binary64,
}

/// GPX file metadata (`metadataType` in GPX 1.1).
#[derive(Debug, Clone, PartialEq, Default)]
pub struct Metadata {
    pub name: Option<String>,
    pub desc: Option<String>,
    pub author: Option<Person>,
    pub copyright: Option<Copyright>,
    pub links: Vec<Link>,
    pub time: Option<Timestamp>,
    pub keywords: Option<String>,
    pub bounds: Option<Bounds>,
    pub extensions: Option<Extensions>,
}

/// A geographic point with optional metadata (`wptType`), used for `<wpt>`,
/// `<rtept>` and `<trkpt>`.
#[derive(Debug, Clone, PartialEq)]
pub struct Waypoint {
    pub lat: Binary64,
    pub lon: Binary64,
    pub ele: Option<Binary64>,
    pub time: Option<Timestamp>,
    pub magvar: Option<Binary64>,
    pub geoidheight: Option<Binary64>,
    pub name: Option<String>,
    pub cmt: Option<String>,
    pub desc: Option<String>,
    pub src: Option<String>,
    pub links: Vec<Link>,
    pub sym: Option<String>,
    pub waypoint_type: Option<String>,
    pub fix: Option<Fix>,
    pub sat: Option<u64>,
    pub hdop: Option<Binary64>,
    pub vdop: Option<Binary64>,
    pub pdop: Option<Binary64>,
    pub ageofdgpsdata: Option<Binary64>,
    pub dgpsid: Option<u16>,
    pub extensions: Option<Extensions>,
}

impl Waypoint {
    /// Garmin / Strava track point extension, if present.
    pub fn track_point_extension(&self) -> (r: Option<&TrackPointExtension>)
        ensures
            r == (match self.extensions { Some(e) => match e.track_point { Some(t) => Some(&t), None => None }, None => None }),
    {
        match &self.extensions {
            Some(e) => match &e.track_point {
                Some(t) => Some(t),
                None => None,
            },
            None => None,
        }
    }

    /// Garmin power extension, if present.
    pub fn power_extension(&self) -> (r: Option<&PowerExtension>)
        ensures
            r == (match self.extensions { Some(e) => match e.power_extension { Some(t) => Some(&t), None => None }, None => None }),
    {
        match &self.extensions {
            Some(e) => match &e.power_extension {
                Some(t) => Some(t),
                None => None,
            },
            None => None,
        }
    }

    /// Heart rate in beats per minute (`gpxtpx:hr`).
    pub fn heart_rate(&self) -> (r: Option<u8>)
        ensures
            r == (match self.extensions { Some(e) => match e.track_point { Some(t) => t.hr, None => None }, None => None }),
    {
        match &self.extensions {
            Some(e) => e.heart_rate(),
            None => None,
        }
    }

    /// Cadence in revolutions per minute (`gpxtpx:cad`).
    pub fn cadence(&self) -> (r: Option<u8>)
        ensures
            r == (match self.extensions { Some(e) => match e.track_point { Some(t) => t.cad, None => None }, None => None }),
    {
        match &self.extensions {
            Some(e) => e.cadence(),
            None => None,
        }
    }

    /// Instantaneous power in watts.
    pub fn power_watts(&self) -> (r: Option<u16>)
        ensures
            r == (match self.extensions {
                Some(e) => match e.power {
                    Some(w) => Some(w),
                    None => match e.power_extension { Some(p) => p.power_in_watts, None => None },
                },
                None => None,
            }),
    {
        match &self.extensions {
            Some(e) => e.power_watts(),
            None => None,
        }
    }
}

/// A route (`rteType`): an ordered list of route points.
#[derive(Debug, Clone, PartialEq, Default)]
pub struct Route {
    pub name: Option<String>,
    pub cmt: Option<String>,
    pub desc: Option<String>,
    pub src: Option<String>,
    pub links: Vec<Link>,
    pub number: Option<u64>,
    pub route_type: Option<String>,
    pub extensions: Option<Extensions>,
    pub points: Vec<Waypoint>,
}

/// A track segment (`trksegType`).
#[derive(Debug, Clone, PartialEq, Default)]
pub struct TrackSegment {
    pub points: Vec<Waypoint>,
    pub extensions: Option<Extensions>,
}

/// A track (`trkType`).
#[derive(Debug, Clone, PartialEq, Default)]
pub struct Track {
    pub name: Option<String>,
    pub cmt: Option<String>,
    pub desc: Option<String>,
    pub src: Option<String>,
    pub links: Vec<Link>,
    pub number: Option<u64>,
    pub track_type: Option<String>,
    pub extensions: Option<Extensions>,
    pub segments: Vec<TrackSegment>,
}

/// The root GPX document (`gpxType` in GPX 1.1).
#[derive(Debug, Clone, PartialEq, Default)]
pub struct Gpx {
    pub version: Option<String>,
    pub creator: Option<String>,
    pub metadata: Option<Metadata>,
    pub waypoints: Vec<Waypoint>,
    pub routes: Vec<Route>,
    pub tracks: Vec<Track>,
    pub extensions: Option<Extensions>,
}

// ================================================================ views

/// The content of metadata, its links as a sequence.
pub struct MetadataV {
    pub name: Option<String>,
    pub desc: Option<String>,
    pub author: Option<Person>,
    pub copyright: Option<Copyright>,
    pub links: Seq<Link>,
    pub time: Option<Timestamp>,
    pub keywords: Option<String>,
    pub bounds: Option<Bounds>,
    pub extensions: Option<Extensions>,
}

impl View for Metadata {
    type V = MetadataV;

    open spec fn view(&self) -> MetadataV {
        MetadataV {
            name: self.name,
            desc: self.desc,
            author: self.author,
            copyright: self.copyright,
            links: self.links@,
            time: self.time,
            keywords: self.keywords,
            bounds: self.bounds,
            extensions: self.extensions,
        }
    }
}

/// The content of a route, its lists as sequences.
pub struct RouteV {
    pub name: Option<String>,
    pub cmt: Option<String>,
    pub desc: Option<String>,
    pub src: Option<String>,
    pub links: Seq<Link>,
    pub number: Option<u64>,
    pub route_type: Option<String>,
    pub extensions: Option<Extensions>,
    pub points: Seq<Waypoint>,
}

impl View for Route {
    type V = RouteV;

    open spec fn view(&self) -> RouteV {
        RouteV {
            name: self.name,
            cmt: self.cmt,
            desc: self.desc,
            src: self.src,
            links: self.links@,
            number: self.number,
            route_type: self.route_type,
            extensions: self.extensions,
            points: self.points@,
        }
    }
}

/// The content of a track segment.
pub struct TrackSegmentV {
    pub points: Seq<Waypoint>,
    pub extensions: Option<Extensions>,
}

impl View for TrackSegment {
    type V = TrackSegmentV;

    open spec fn view(&self) -> TrackSegmentV {
        TrackSegmentV { points: self.points@, extensions: self.extensions }
    }
}

/// The content of a track, its segments by their content.
pub struct TrackV {
    pub name: Option<String>,
    pub cmt: Option<String>,
    pub desc: Option<String>,
    pub src: Option<String>,
    pub links: Seq<Link>,
    pub number: Option<u64>,
    pub track_type: Option<String>,
    pub extensions: Option<Extensions>,
    pub segments: Seq<TrackSegmentV>,
}

/// The content of each element of a sequence.
pub open spec fn segment_views(s: Seq<TrackSegment>) -> Seq<TrackSegmentV> {
    s.map_values(|x: TrackSegment| x@)
}

impl View for Track {
    type V = TrackV;

    open spec fn view(&self) -> TrackV {
        TrackV {
            name: self.name,
            cmt: self.cmt,
            desc: self.desc,
            src: self.src,
            links: self.links@,
            number: self.number,
            track_type: self.track_type,
            extensions: self.extensions,
            segments: segment_views(self.segments@),
        }
    }
}

/// The content of a document: metadata, and each route and track by its content.
pub struct GpxV {
    pub version: Option<String>,
    pub creator: Option<String>,
    pub metadata: Option<MetadataV>,
    pub waypoints: Seq<Waypoint>,
    pub routes: Seq<RouteV>,
    pub tracks: Seq<TrackV>,
    pub extensions: Option<Extensions>,
}

/// The content of each route.
pub open spec fn route_views(s: Seq<Route>) -> Seq<RouteV> {
    s.map_values(|x: Route| x@)
}

/// The content of each track.
pub open spec fn track_views(s: Seq<Track>) -> Seq<TrackV> {
    s.map_values(|x: Track| x@)
}

impl View for Gpx {
    type V = GpxV;

    open spec fn view(&self) -> GpxV {
        GpxV {
            version: self.version,
            creator: self.creator,
            metadata: match self.metadata { Some(m) => Some(m@), None => None },
            waypoints: self.waypoints@,
            routes: route_views(self.routes@),
            tracks: track_views(self.tracks@),
            extensions: self.extensions,
        }
    }
}

} // verus!
