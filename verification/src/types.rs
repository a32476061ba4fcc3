//! GPX 1.1 data types.

use vstd::prelude::*;

verus! {

/// Type of GPS fix (`fixType` in GPX 1.1).
///
/// Indicates the dimensionality and source of the GPS position fix.
#[derive(Debug, Clone, Copy, PartialEq, Eq, Structural)]
pub enum Fix {
    /// GPS had no fix.
    NoFix,
    /// 2D fix (latitude and longitude only).
    TwoD,
    /// 3D fix (latitude, longitude, and elevation).
    ThreeD,
    /// Differential GPS fix.
    Dgps,
    /// Military GPS signal used.
    Pps,
}

/// The schema spelling of each fix kind.
pub open spec fn fix_text(f: Fix) -> Seq<char> {
    match f {
        Fix::NoFix => "none"@,
        Fix::TwoD => "2d"@,
        Fix::ThreeD => "3d"@,
        Fix::Dgps => "dgps"@,
        Fix::Pps => "pps"@,
    }
}

/// The fix kinds in schema order.
pub open spec fn fix_values() -> Seq<Fix> {
    seq![Fix::NoFix, Fix::TwoD, Fix::ThreeD, Fix::Dgps, Fix::Pps]
}

/// The schema spelling of a fix kind.
pub fn fix_as_str(fix: Fix) -> (r: &'static str)
    ensures
        r@ == fix_text(fix),
{
    match fix {
        Fix::NoFix => "none",
        Fix::TwoD => "2d",
        Fix::ThreeD => "3d",
        Fix::Dgps => "dgps",
        Fix::Pps => "pps",
    }
}

/// The fix kinds in schema order.
pub fn fix_values_vec() -> (r: Vec<Fix>)
    ensures
        r@ == fix_values(),
{
    let r = vec![Fix::NoFix, Fix::TwoD, Fix::ThreeD, Fix::Dgps, Fix::Pps];
    assert(r@ =~= fix_values());
    r
}

/// Copyright holder information (`copyrightType` in GPX 1.1).
///
/// Describes who owns the data and under what license it may be used.
#[derive(Debug, Clone, PartialEq, Eq)]
pub struct Copyright {
    /// Name of the copyright holder.
    pub author: String,
    /// Year of copyright (ISO 8601 `gYear`, e.g. `"2026"`).
    pub year: Option<String>,
    /// URI of the license governing use of the file.
    pub license: Option<String>,
}

/// An email address split into id and domain (`emailType` in GPX 1.1).
///
/// The full address is `id@domain`.
#[derive(Debug, Clone, PartialEq, Eq)]
pub struct Email {
    /// Local part of the email address (before `@`).
    pub id: String,
    /// Domain part of the email address (after `@`).
    pub domain: String,
}

/// A link to an external resource (`linkType` in GPX 1.1).
#[derive(Debug, Clone, PartialEq, Eq)]
pub struct Link {
    /// URL of the linked resource.
    pub href: String,
    /// Human-readable text describing the link.
    pub text: Option<String>,
    /// MIME type or category of the linked resource (GPX `<type>` element).
    pub link_type: Option<String>,
}

/// A person or organization (`personType` in GPX 1.1).
#[derive(Debug, Clone, PartialEq, Eq, Default)]
pub struct Person {
    /// Name of the person or organization.
    pub name: Option<String>,
    /// Contact email address.
    pub email: Option<Email>,
    /// Link to a web page with more information.
    pub link: Option<Link>,
}

/// Garmin Power Extension v1 (`gpxpx:PowerExtension`).
#[derive(Debug, Clone, PartialEq, Eq, Default)]
pub struct PowerExtension {
    /// Instantaneous power in watts.
    pub power_in_watts: Option<u16>,
}

/// Garmin GPX Extensions v3 track extension (`gpxx:TrackExtension`).
#[derive(Debug, Clone, PartialEq, Eq, Default)]
pub struct TrackExtension {
    /// Display color hint for the track on a Garmin device.
    pub display_color: Option<String>,
}

/// `gpxtpx` namespace URI (Track Point Extension v1).
pub const GPXTPTX_NS_V1: &'static str = "http://www.garmin.com/xmlschemas/TrackPointExtension/v1";

/// `gpxtpx` namespace URI (Track Point Extension v2).
pub const GPXTPTX_NS_V2: &'static str = "http://www.garmin.com/xmlschemas/TrackPointExtension/v2";

/// `gpxpx` namespace URI (Power Extension v1).
pub const GPPXPX_NS_V1: &'static str = "http://www.garmin.com/xmlschemas/PowerExtension/v1";

/// `gpxx` namespace URI (GPX Extensions v3).
pub const GPXX_NS_V3: &'static str = "http://www.garmin.com/xmlschemas/GpxExtensions/v3";

} // verus!
