//! The GPX 1.1 rule table: which attributes and children each element type has.

use vstd::prelude::*;

verus! {

/// A check on the text of an attribute or a simple-content element.
#[derive(Debug, Clone, Copy, PartialEq, Eq, Structural)]
pub enum ContentCheck {
    /// `version` must be `1.1` (a warning otherwise).
    Version,
    /// An `xsd:dateTime` value.
    Time,
    /// An `xsd:decimal` value.
    Decimal,
    /// A `degreesType` value, in `[0, 360)`.
    Degrees,
    /// A `latitudeType` value, in `[-90, 90]`.
    Latitude,
    /// A `longitudeType` value, in `[-180, 180)`.
    Longitude,
    /// A `fixType` value.
    Fix,
    /// An `xsd:nonNegativeInteger` value.
    NonNegativeInt,
    /// A `dgpsStationType` value, in `[0, 1023]`.
    Dgpsid,
    /// An `xsd:gYear` value.
    GYear,
}

/// A complex element type of the schema.
#[derive(Debug, Clone, Copy, PartialEq, Eq, Structural)]
pub enum TypeName {
    Gpx,
    Metadata,
    Wpt,
    Rte,
    Trk,
    Trkseg,
    Person,
    Copyright,
    Link,
    Email,
    Bounds,
    /// `extensionsType`: any content, which must use a foreign namespace.
    Extensions,
}

/// A required attribute and the validator of its value.
#[derive(Debug, Clone, Copy)]
pub struct AttrRule {
    pub name: &'static str,
    pub validator: Option<ContentCheck>,
}

/// An allowed child element: its tag, how often it may occur (`None` for
/// unbounded), the validator of its text and its element type.
#[derive(Debug, Clone, Copy)]
pub struct ChildRule {
    pub tag: &'static str,
    pub max_occurs: Option<u32>,
    pub content: Option<ContentCheck>,
    pub element_type: Option<TypeName>,
}

/// The rules of one complex type, in schema order.
#[derive(Debug, Clone)]
pub struct ComplexType {
    pub attrs: Vec<AttrRule>,
    pub children: Vec<ChildRule>,
}

/// The content of an attribute rule: name and check.
pub type AttrV = (Seq<char>, Option<ContentCheck>);

/// The content of a child rule: tag, bound, check and type.
pub type ChildV = (Seq<char>, Option<u32>, Option<ContentCheck>, Option<TypeName>);

impl View for AttrRule {
    type V = AttrV;

    open spec fn view(&self) -> AttrV {
        (self.name@, self.validator)
    }
}

impl View for ChildRule {
    type V = ChildV;

    open spec fn view(&self) -> ChildV {
        (self.tag@, self.max_occurs, self.content, self.element_type)
    }
}

/// The views of a sequence of attribute rules.
pub open spec fn attr_views(s: Seq<AttrRule>) -> Seq<AttrV> {
    s.map_values(|r: AttrRule| r@)
}

/// The views of a sequence of child rules.
pub open spec fn child_views(s: Seq<ChildRule>) -> Seq<ChildV> {
    s.map_values(|r: ChildRule| r@)
}

/// A child that may occur at most `max` times.
pub open spec fn one(tag: &str, max: u32, content: Option<ContentCheck>, ty: Option<TypeName>) -> ChildV {
    (tag@, Some(max), content, ty)
}

/// A child that may occur any number of times.
pub open spec fn many(tag: &str, ty: Option<TypeName>) -> ChildV {
    (tag@, None, None, ty)
}

/// The attribute rules of each complex type (GPX 1.1).
#[verifier::opaque]
pub open spec fn spec_attr_rules(t: TypeName) -> Seq<AttrV> {
    match t {
        TypeName::Gpx => seq![("version"@, Some(ContentCheck::Version)), ("creator"@, None)],
        TypeName::Wpt => seq![("lat"@, Some(ContentCheck::Latitude)), ("lon"@, Some(ContentCheck::Longitude))],
        TypeName::Copyright => seq![("author"@, None)],
        TypeName::Link => seq![("href"@, None)],
        TypeName::Email => seq![("id"@, None), ("domain"@, None)],
        TypeName::Bounds => seq![
            ("minlat"@, Some(ContentCheck::Latitude)),
            ("minlon"@, Some(ContentCheck::Longitude)),
            ("maxlat"@, Some(ContentCheck::Latitude)),
            ("maxlon"@, Some(ContentCheck::Longitude)),
        ],
        _ => seq![],
    }
}

/// The child rules of each complex type (GPX 1.1), in schema order.
#[verifier::opaque]
pub open spec fn spec_child_rules(t: TypeName) -> Seq<ChildV> {
    match t {
        TypeName::Gpx => seq![
            one("metadata", 1, None, Some(TypeName::Metadata)),
            many("wpt", Some(TypeName::Wpt)),
            many("rte", Some(TypeName::Rte)),
            many("trk", Some(TypeName::Trk)),
            one("extensions", 1, None, Some(TypeName::Extensions)),
        ],
        TypeName::Metadata => seq![
            one("name", 1, None, None),
            one("desc", 1, None, None),
            one("author", 1, None, Some(TypeName::Person)),
            one("copyright", 1, None, Some(TypeName::Copyright)),
            many("link", Some(TypeName::Link)),
            one("time", 1, Some(ContentCheck::Time), None),
            one("keywords", 1, None, None),
            one("bounds", 1, None, Some(TypeName::Bounds)),
            one("extensions", 1, None, Some(TypeName::Extensions)),
        ],
        TypeName::Wpt => seq![
            one("ele", 1, Some(ContentCheck::Decimal), None),
            one("time", 1, Some(ContentCheck::Time), None),
            one("magvar", 1, Some(ContentCheck::Degrees), None),
            one("geoidheight", 1, Some(ContentCheck::Decimal), None),
            one("name", 1, None, None),
            one("cmt", 1, None, None),
            one("desc", 1, None, None),
            one("src", 1, None, None),
            many("link", Some(TypeName::Link)),
            one("sym", 1, None, None),
            one("type", 1, None, None),
            one("fix", 1, Some(ContentCheck::Fix), None),
            one("sat", 1, Some(ContentCheck::NonNegativeInt), None),
            one("hdop", 1, Some(ContentCheck::Decimal), None),
            one("vdop", 1, Some(ContentCheck::Decimal), None),
            one("pdop", 1, Some(ContentCheck::Decimal), None),
            one("ageofdgpsdata", 1, Some(ContentCheck::Decimal), None),
            one("dgpsid", 1, Some(ContentCheck::Dgpsid), None),
            one("extensions", 1, None, Some(TypeName::Extensions)),
        ],
        TypeName::Rte => seq![
            one("name", 1, None, None),
            one("cmt", 1, None, None),
            one("desc", 1, None, None),
            one("src", 1, None, None),
            many("link", Some(TypeName::Link)),
            one("number", 1, Some(ContentCheck::NonNegativeInt), None),
            one("type", 1, None, None),
            one("extensions", 1, None, Some(TypeName::Extensions)),
            many("rtept", Some(TypeName::Wpt)),
        ],
        TypeName::Trk => seq![
            one("name", 1, None, None),
            one("cmt", 1, None, None),
            one("desc", 1, None, None),
            one("src", 1, None, None),
            many("link", Some(TypeName::Link)),
            one("number", 1, Some(ContentCheck::NonNegativeInt), None),
            one("type", 1, None, None),
            one("extensions", 1, None, Some(TypeName::Extensions)),
            many("trkseg", Some(TypeName::Trkseg)),
        ],
        TypeName::Trkseg => seq![
            many("trkpt", Some(TypeName::Wpt)),
            one("extensions", 1, None, Some(TypeName::Extensions)),
        ],
        TypeName::Person => seq![
            one("name", 1, None, None),
            one("email", 1, None, Some(TypeName::Email)),
            one("link", 1, None, Some(TypeName::Link)),
        ],
        TypeName::Copyright => seq![
            one("year", 1, Some(ContentCheck::GYear), None),
            one("license", 1, None, None),
        ],
        TypeName::Link => seq![one("text", 1, None, None), one("type", 1, None, None)],
        _ => seq![],
    }
}

/// A child rule with an upper bound on its occurrences.
pub fn child(tag: &'static str, max_occurs: u32, content: Option<ContentCheck>, element_type: Option<TypeName>) -> (r: ChildRule)
    ensures
        r@ == one(tag, max_occurs, content, element_type),
        r.tag == tag,
{
    ChildRule { tag, max_occurs: Some(max_occurs), content, element_type }
}

/// A child rule without an upper bound on its occurrences.
pub fn child_unbounded(tag: &'static str, content: Option<ContentCheck>, element_type: Option<TypeName>) -> (r: ChildRule)
    ensures
        r@ == (tag@, None::<u32>, content, element_type),
        r.tag == tag,
{
    ChildRule { tag, max_occurs: None, content, element_type }
}

fn attr(name: &'static str, validator: Option<ContentCheck>) -> (r: AttrRule)
    ensures
        r@ == (name@, validator),
{
    AttrRule { name, validator }
}

/// The rules of a complex type; `None` for `extensionsType`, whose content is
/// checked by namespace only.
pub fn schema(element_type: TypeName) -> (r: Option<ComplexType>)
    ensures
        element_type == TypeName::Extensions <==> r is None,
        r matches Some(ct) ==> attr_views(ct.attrs@) == spec_attr_rules(element_type)
            && child_views(ct.children@) == spec_child_rules(element_type)
            && ct.children@.len() < 100,
{
    let (attrs, children) = match element_type {
        TypeName::Gpx => (
            vec![attr("version", Some(ContentCheck::Version)), attr("creator", None)],
            vec![
                child("metadata", 1, None, Some(TypeName::Metadata)),
                child_unbounded("wpt", None, Some(TypeName::Wpt)),
                child_unbounded("rte", None, Some(TypeName::Rte)),
                child_unbounded("trk", None, Some(TypeName::Trk)),
                child("extensions", 1, None, Some(TypeName::Extensions)),
            ],
        ),
        TypeName::Metadata => (
            vec![],
            vec![
                child("name", 1, None, None),
                child("desc", 1, None, None),
                child("author", 1, None, Some(TypeName::Person)),
                child("copyright", 1, None, Some(TypeName::Copyright)),
                child_unbounded("link", None, Some(TypeName::Link)),
                child("time", 1, Some(ContentCheck::Time), None),
                child("keywords", 1, None, None),
                child("bounds", 1, None, Some(TypeName::Bounds)),
                child("extensions", 1, None, Some(TypeName::Extensions)),
            ],
        ),
        TypeName::Wpt => (
            vec![attr("lat", Some(ContentCheck::Latitude)), attr("lon", Some(ContentCheck::Longitude))],
            vec![
                child("ele", 1, Some(ContentCheck::Decimal), None),
                child("time", 1, Some(ContentCheck::Time), None),
                child("magvar", 1, Some(ContentCheck::Degrees), None),
                child("geoidheight", 1, Some(ContentCheck::Decimal), None),
                child("name", 1, None, None),
                child("cmt", 1, None, None),
                child("desc", 1, None, None),
                child("src", 1, None, None),
                child_unbounded("link", None, Some(TypeName::Link)),
                child("sym", 1, None, None),
                child("type", 1, None, None),
                child("fix", 1, Some(ContentCheck::Fix), None),
                child("sat", 1, Some(ContentCheck::NonNegativeInt), None),
                child("hdop", 1, Some(ContentCheck::Decimal), None),
                child("vdop", 1, Some(ContentCheck::Decimal), None),
                child("pdop", 1, Some(ContentCheck::Decimal), None),
                child("ageofdgpsdata", 1, Some(ContentCheck::Decimal), None),
                child("dgpsid", 1, Some(ContentCheck::Dgpsid), None),
                child("extensions", 1, None, Some(TypeName::Extensions)),
            ],
        ),
        TypeName::Rte => (
            vec![],
            vec![
                child("name", 1, None, None),
                child("cmt", 1, None, None),
                child("desc", 1, None, None),
                child("src", 1, None, None),
                child_unbounded("link", None, Some(TypeName::Link)),
                child("number", 1, Some(ContentCheck::NonNegativeInt), None),
                child("type", 1, None, None),
                child("extensions", 1, None, Some(TypeName::Extensions)),
                child_unbounded("rtept", None, Some(TypeName::Wpt)),
            ],
        ),
        TypeName::Trk => (
            vec![],
            vec![
                child("name", 1, None, None),
                child("cmt", 1, None, None),
                child("desc", 1, None, None),
                child("src", 1, None, None),
                child_unbounded("link", None, Some(TypeName::Link)),
                child("number", 1, Some(ContentCheck::NonNegativeInt), None),
                child("type", 1, None, None),
                child("extensions", 1, None, Some(TypeName::Extensions)),
                child_unbounded("trkseg", None, Some(TypeName::Trkseg)),
            ],
        ),
        TypeName::Trkseg => (
            vec![],
            vec![
                child_unbounded("trkpt", None, Some(TypeName::Wpt)),
                child("extensions", 1, None, Some(TypeName::Extensions)),
            ],
        ),
        TypeName::Person => (
            vec![],
            vec![
                child("name", 1, None, None),
                child("email", 1, None, Some(TypeName::Email)),
                child("link", 1, None, Some(TypeName::Link)),
            ],
        ),
        TypeName::Copyright => (
            vec![attr("author", None)],
            vec![child("year", 1, Some(ContentCheck::GYear), None), child("license", 1, None, None)],
        ),
        TypeName::Link => (
            vec![attr("href", None)],
            vec![child("text", 1, None, None), child("type", 1, None, None)],
        ),
        TypeName::Email => (vec![attr("id", None), attr("domain", None)], vec![]),
        TypeName::Bounds => (
            vec![
                attr("minlat", Some(ContentCheck::Latitude)),
                attr("minlon", Some(ContentCheck::Longitude)),
                attr("maxlat", Some(ContentCheck::Latitude)),
                attr("maxlon", Some(ContentCheck::Longitude)),
            ],
            vec![],
        ),
        TypeName::Extensions => {
            return None;
        },
    };
    reveal(spec_attr_rules);
    reveal(spec_child_rules);
    assert(attr_views(attrs@) =~= spec_attr_rules(element_type));
    assert(child_views(children@) =~= spec_child_rules(element_type));
    Some(ComplexType { attrs, children })
}

} // verus!
