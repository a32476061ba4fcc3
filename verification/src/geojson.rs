//! GeoJSON documents: reading a GeoJSON text into a GPX document, and
//! describing a GPX document as GeoJSON features.

use vstd::prelude::*;
use crate::convert::ConvertError;
use crate::kml::{
    deterministic_reading, line_route, multi_track, named_point, new_point, opt_chars, reading_of, reads_as, reads_to,
    Coordinate,
};
use crate::model::{Binary64, Gpx, Route, Track, TrackSegment, Waypoint};
use crate::operations::copy_text;
use crate::text::str_eq;

verus! {

// ================================================================ JSON values

/// A JSON value as `serde_json` parsed it, with its compact JSON spelling.
#[derive(Debug)]
pub struct JsonValue {
    /// What the value is.
    pub kind: JsonKind,
    /// The value written as compact JSON, as `serde_json` displays it.
    pub text: String,
}

/// The kinds of JSON values; a number is held as the text `serde_json`
/// displays for it.
#[derive(Debug)]
pub enum JsonKind {
    Null,
    Bool(bool),
    Number(String),
    Text(String),
    Array(Vec<JsonValue>),
    Object(Vec<(String, JsonValue)>),
}

/// The content of a JSON value: what it is, and its compact spelling.
pub struct JsonNodeV {
    pub kind: JsonKindV,
    pub text: Seq<char>,
}

/// The content of each kind of JSON value.
pub enum JsonKindV {
    Null,
    Bool(bool),
    Number(Seq<char>),
    Text(Seq<char>),
    Array(Seq<JsonNodeV>),
    Object(Seq<(Seq<char>, JsonNodeV)>),
}

/// A `null` with no spelling.
pub open spec fn null_node() -> JsonNodeV {
    JsonNodeV { kind: JsonKindV::Null, text: Seq::empty() }
}

/// The content of a JSON value and of everything in it.
pub open spec fn json_view(v: JsonValue) -> JsonNodeV
    decreases v,
{
    JsonNodeV {
        kind: match v.kind {
            JsonKind::Null => JsonKindV::Null,
            JsonKind::Bool(b) => JsonKindV::Bool(b),
            JsonKind::Number(t) => JsonKindV::Number(t@),
            JsonKind::Text(s) => JsonKindV::Text(s@),
            JsonKind::Array(a) => JsonKindV::Array(
                Seq::new(a@.len(), |i: int| if 0 <= i < a@.len() { json_view(a@[i]) } else { null_node() }),
            ),
            JsonKind::Object(fs) => JsonKindV::Object(
                Seq::new(
                    fs@.len(),
                    |i: int| if 0 <= i < fs@.len() { (fs@[i].0@, json_view(fs@[i].1)) } else { (Seq::empty(), null_node()) },
                ),
            ),
        },
        text: v.text@,
    }
}

/// The content of each value.
pub open spec fn json_views(s: Seq<JsonValue>) -> Seq<JsonNodeV> {
    s.map_values(|x: JsonValue| json_view(x))
}

/// The content of an optional borrowed value.
pub open spec fn opt_json_view(v: Option<&JsonValue>) -> Option<JsonNodeV> {
    match v {
        Some(x) => Some(json_view(*x)),
        None => None,
    }
}

/// What `serde_json::from_str::<serde_json::Value>` reads from `data`: each
/// number as the text `serde_json` displays for it, each value with its
/// compact spelling; nothing when the text is not JSON. It depends on `data`
/// alone.
pub uninterp spec fn json_of(data: Seq<char>) -> Option<JsonNodeV>;

/// Declares `serde_json::Value`.
#[verifier::external_type_specification]
#[verifier::external_body]
pub struct ExJsonValue(serde_json::Value);

/// `serde_json::from_str::<serde_json::Value>`, with the value taken over one
/// for one by [`json_value_of`].
///
/// Trusted: the value is the one `json_of` names; a text that is not JSON
/// fails.
#[verifier::external_body]
fn parse_json(data: &str) -> (r: Result<JsonValue, serde_json::Error>)
    ensures
        match json_of(data@) {
            Some(v) => r matches Ok(t) && json_view(t) == v,
            None => r is Err,
        },
{
    match serde_json::from_str::<serde_json::Value>(data) {
        Ok(v) => Ok(json_value_of(&v)),
        Err(e) => Err(e),
    }
}

/// The one-for-one conversion that [`parse_json`] applies to a
/// `serde_json::Value`: each variant into the same variant, numbers and
/// whole values by their `Display` text.
#[verifier::external_body]
fn json_value_of(v: &serde_json::Value) -> JsonValue {
    let kind = match v {
        serde_json::Value::Null => JsonKind::Null,
        serde_json::Value::Bool(b) => JsonKind::Bool(*b),
        serde_json::Value::Number(n) => JsonKind::Number(n.to_string()),
        serde_json::Value::String(s) => JsonKind::Text(s.clone()),
        serde_json::Value::Array(a) => JsonKind::Array(a.iter().map(json_value_of).collect()),
        serde_json::Value::Object(m) => JsonKind::Object(m.iter().map(|(k, x)| (k.clone(), json_value_of(x))).collect()),
    };
    JsonValue { kind, text: v.to_string() }
}

/// The value of the first member named `key`.
pub open spec fn member(fields: Seq<(Seq<char>, JsonNodeV)>, key: Seq<char>) -> Option<JsonNodeV>
    decreases fields.len(),
{
    if fields.len() == 0 {
        None
    } else {
        match member(fields.drop_last(), key) {
            Some(v) => Some(v),
            None => if fields.last().0 == key { Some(fields.last().1) } else { None },
        }
    }
}

/// The member `key` of an object; nothing for other values.
pub open spec fn json_get(v: JsonNodeV, key: Seq<char>) -> Option<JsonNodeV> {
    match v.kind {
        JsonKindV::Object(fields) => member(fields, key),
        _ => None,
    }
}

/// A member of an optional value.
pub open spec fn opt_get(v: Option<JsonNodeV>, key: Seq<char>) -> Option<JsonNodeV> {
    match v {
        Some(x) => json_get(x, key),
        None => None,
    }
}

/// The text of a string value.
pub open spec fn json_str(v: Option<JsonNodeV>) -> Option<Seq<char>> {
    match v {
        Some(x) => match x.kind {
            JsonKindV::Text(s) => Some(s),
            _ => None,
        },
        None => None,
    }
}

/// The elements of an array value.
pub open spec fn json_array(v: Option<JsonNodeV>) -> Option<Seq<JsonNodeV>> {
    match v {
        Some(x) => match x.kind {
            JsonKindV::Array(a) => Some(a),
            _ => None,
        },
        None => None,
    }
}

proof fn lemma_member_prefix(fields: Seq<(Seq<char>, JsonNodeV)>, k: int, key: Seq<char>)
    requires
        0 <= k <= fields.len(),
        member(fields.take(k), key) is Some,
    ensures
        member(fields, key) == member(fields.take(k), key),
    decreases fields.len() - k,
{
    if k < fields.len() {
        assert(fields.drop_last().take(k) =~= fields.take(k));
        lemma_member_prefix(fields.drop_last(), k, key);
    } else {
        assert(fields.take(k) =~= fields);
    }
}

/// The member `key` of `v`, when `v` is an object that has one.
pub fn get<'a>(v: &'a JsonValue, key: &str) -> (r: Option<&'a JsonValue>)
    ensures
        opt_json_view(r) == json_get(json_view(*v), key@),
{
    match &v.kind {
        JsonKind::Object(fields) => {
            let ghost vf = Seq::new(
                fields@.len(),
                |i: int| if 0 <= i < fields@.len() { (fields@[i].0@, json_view(fields@[i].1)) } else { (Seq::empty(), null_node()) },
            );
            assert(json_view(*v).kind is Object);
            assert(json_view(*v).kind->Object_0 =~= vf);
            assert(json_get(json_view(*v), key@) == member(vf, key@));
            let mut k: usize = 0;
            while k < fields.len()
                invariant
                    k <= fields@.len(),
                    vf.len() == fields@.len(),
                    forall|i: int| 0 <= i < fields@.len() ==> #[trigger] vf[i] == (fields@[i].0@, json_view(fields@[i].1)),
                    json_get(json_view(*v), key@) == member(vf, key@),
                    member(vf.take(k as int), key@) is None,
                decreases fields.len() - k,
            {
                assert(vf.take(k + 1).drop_last() =~= vf.take(k as int));
                assert(vf.take(k + 1).last() == vf[k as int]);
                if str_eq(fields[k].0.as_str(), key) {
                    proof {
                        assert(member(vf.take(k + 1), key@) == Some(vf[k as int].1));
                        lemma_member_prefix(vf, k + 1, key@);
                    }
                    return Some(&fields[k].1);
                }
                k = k + 1;
            }
            assert(vf.take(k as int) =~= vf);
            None
        },
        _ => None,
    }
}

/// The text of `v`, when it is a string.
pub fn as_str(v: Option<&JsonValue>) -> (r: Option<&str>)
    ensures
        match r {
            Some(s) => json_str(opt_json_view(v)) == Some(s@),
            None => json_str(opt_json_view(v)) is None,
        },
{
    match v {
        Some(x) => match &x.kind {
            JsonKind::Text(s) => Some(s.as_str()),
            _ => None,
        },
        None => None,
    }
}

/// The elements of `v`, when it is an array.
pub fn as_array(v: Option<&JsonValue>) -> (r: Option<&Vec<JsonValue>>)
    ensures
        match r {
            Some(a) => json_array(opt_json_view(v)) == Some(json_views(a@)),
            None => json_array(opt_json_view(v)) is None,
        },
{
    match v {
        Some(x) => match &x.kind {
            JsonKind::Array(a) => {
                proof {
                    lemma_array_view(*x);
                }
                Some(a)
            },
            _ => None,
        },
        None => None,
    }
}

} // verus!

verus! {

// ================================================================ reading

/// Why a GeoJSON document could not be read: bad coordinates, or a geometry
/// that is not supported.
pub enum GeoError {
    Coordinates(Seq<char>),
    Geometry(Seq<char>),
}

/// The error value that reports `g`.
pub open spec fn error_matches(e: ConvertError, g: GeoError) -> bool {
    match g {
        GeoError::Coordinates(m) => e matches ConvertError::InvalidCoordinates(t) && t@ == m,
        GeoError::Geometry(m) => e matches ConvertError::UnsupportedGeometry(t) && t@ == m,
    }
}

/// `f` applied to each element in order, stopping at the first error.
pub open spec fn collect<A, B>(s: Seq<A>, f: spec_fn(A) -> Result<B, GeoError>) -> Result<Seq<B>, GeoError>
    decreases s.len(),
{
    if s.len() == 0 {
        Ok(Seq::empty())
    } else {
        match collect(s.drop_last(), f) {
            Err(e) => Err(e),
            Ok(bs) => match f(s.last()) {
                Err(e) => Err(e),
                Ok(b) => Ok(bs.push(b)),
            },
        }
    }
}

proof fn lemma_collect_error_prefix<A, B>(s: Seq<A>, k: int, f: spec_fn(A) -> Result<B, GeoError>)
    requires
        0 <= k <= s.len(),
        collect(s.take(k), f) is Err,
    ensures
        collect(s, f) == collect(s.take(k), f),
    decreases s.len() - k,
{
    if k < s.len() {
        assert(s.drop_last().take(k) =~= s.take(k));
        lemma_collect_error_prefix(s.drop_last(), k, f);
    } else {
        assert(s.take(k) =~= s);
    }
}

/// A coordinate component: a number, read as a double by `num`.
pub open spec fn spec_component(v: JsonNodeV, num: spec_fn(Seq<char>) -> Option<Binary64>) -> Result<Binary64, GeoError> {
    match v.kind {
        JsonKindV::Number(t) => match num(t) {
            Some(x) => Ok(x),
            None => Err(GeoError::Coordinates("expected number, got "@ + v.text)),
        },
        _ => Err(GeoError::Coordinates("expected number, got "@ + v.text)),
    }
}

/// A position `[lon, lat]` or `[lon, lat, ele]`; elements past the third are
/// ignored. The coordinate is (lat, lon, ele).
pub open spec fn spec_position(v: JsonNodeV, num: spec_fn(Seq<char>) -> Option<Binary64>) -> Result<Coordinate, GeoError> {
    match v.kind {
        JsonKindV::Array(a) => if a.len() < 2 {
            Err(GeoError::Coordinates("coordinate array must contain at least lon and lat"@))
        } else {
            match spec_component(a[0], num) {
                Err(e) => Err(e),
                Ok(lon) => match spec_component(a[1], num) {
                    Err(e) => Err(e),
                    Ok(lat) => if a.len() > 2 {
                        match spec_component(a[2], num) {
                            Err(e) => Err(e),
                            Ok(ele) => Ok((lat, lon, Some(ele))),
                        }
                    } else {
                        Ok((lat, lon, None))
                    },
                },
            }
        },
        _ => Err(GeoError::Coordinates("expected coordinate array"@)),
    }
}

/// Reads one position.
pub open spec fn position_reader(num: spec_fn(Seq<char>) -> Option<Binary64>) -> spec_fn(JsonNodeV) -> Result<Coordinate, GeoError> {
    |v: JsonNodeV| spec_position(v, num)
}

/// A line: an array of positions.
pub open spec fn spec_line(v: JsonNodeV, num: spec_fn(Seq<char>) -> Option<Binary64>) -> Result<Seq<Coordinate>, GeoError> {
    match v.kind {
        JsonKindV::Array(a) => collect(a, position_reader(num)),
        _ => Err(GeoError::Coordinates("expected coordinate array"@)),
    }
}

/// Reads one line.
pub open spec fn line_reader(num: spec_fn(Seq<char>) -> Option<Binary64>) -> spec_fn(JsonNodeV) -> Result<Seq<Coordinate>, GeoError> {
    |v: JsonNodeV| spec_line(v, num)
}

/// What one GeoJSON geometry or feature contributes to the document.
pub enum GeoItem {
    /// Waypoints, all with the same name and description.
    Points(Seq<Coordinate>, Option<Seq<char>>, Option<Seq<char>>),
    /// A route: name, description and points.
    Line(Option<Seq<char>>, Option<Seq<char>>, Seq<Coordinate>),
    /// A track: name, description and the points of each segment.
    Multi(Option<Seq<char>>, Option<Seq<char>>, Seq<Seq<Coordinate>>),
    /// Nothing (a feature without geometry).
    Nothing,
}

/// The hint that makes a line string a track.
pub open spec fn is_track_hint(hint: Option<Seq<char>>) -> bool {
    hint == Some("track"@) || hint == Some("trk"@)
}

/// What a geometry contributes, given the name, description and type hint
/// of its feature.
pub open spec fn spec_geometry(
    g: JsonNodeV,
    name: Option<Seq<char>>,
    desc: Option<Seq<char>>,
    hint: Option<Seq<char>>,
    num: spec_fn(Seq<char>) -> Option<Binary64>,
) -> Result<GeoItem, GeoError> {
    let coords = json_get(g, "coordinates"@);
    match json_str(json_get(g, "type"@)) {
        None => Err(GeoError::Geometry("missing type"@)),
        Some(t) => if t == "Point"@ {
            match coords {
                None => Err(GeoError::Coordinates("Point missing coordinates"@)),
                Some(c) => match spec_position(c, num) {
                    Err(e) => Err(e),
                    Ok(p) => Ok(GeoItem::Points(seq![p], name, desc)),
                },
            }
        } else if t == "MultiPoint"@ {
            match json_array(coords) {
                None => Err(GeoError::Coordinates("MultiPoint missing coordinates"@)),
                Some(a) => match collect(a, position_reader(num)) {
                    Err(e) => Err(e),
                    Ok(ps) => Ok(GeoItem::Points(ps, name, desc)),
                },
            }
        } else if t == "LineString"@ {
            match coords {
                None => Err(GeoError::Coordinates("LineString missing coordinates"@)),
                Some(c) => match spec_line(c, num) {
                    Err(e) => Err(e),
                    Ok(cs) => if is_track_hint(hint) {
                        Ok(GeoItem::Multi(name, desc, seq![cs]))
                    } else {
                        Ok(GeoItem::Line(name, desc, cs))
                    },
                },
            }
        } else if t == "MultiLineString"@ {
            match json_array(coords) {
                None => Err(GeoError::Coordinates("MultiLineString missing coordinates"@)),
                Some(a) => match collect(a, line_reader(num)) {
                    Err(e) => Err(e),
                    Ok(ls) => Ok(GeoItem::Multi(name, desc, ls)),
                },
            }
        } else {
            Err(GeoError::Geometry(t))
        },
    }
}

/// The first of two members that is present.
pub open spec fn either(a: Option<JsonNodeV>, b: Option<JsonNodeV>) -> Option<JsonNodeV> {
    match a {
        Some(x) => Some(x),
        None => b,
    }
}

/// What a feature contributes: its geometry, named by the `name` (else
/// `title`) property and described by `description` (else `desc`), with the
/// `gpx_type` property as hint; nothing when it has no geometry.
pub open spec fn spec_feature(f: JsonNodeV, num: spec_fn(Seq<char>) -> Option<Binary64>) -> Result<GeoItem, GeoError> {
    let props = json_get(f, "properties"@);
    let name = json_str(either(opt_get(props, "name"@), opt_get(props, "title"@)));
    let desc = json_str(either(opt_get(props, "description"@), opt_get(props, "desc"@)));
    let hint = json_str(opt_get(props, "gpx_type"@));
    match json_get(f, "geometry"@) {
        Some(g) => spec_geometry(g, name, desc, hint, num),
        None => Ok(GeoItem::Nothing),
    }
}

/// Reads one feature.
pub open spec fn feature_reader(num: spec_fn(Seq<char>) -> Option<Binary64>) -> spec_fn(JsonNodeV) -> Result<GeoItem, GeoError> {
    |f: JsonNodeV| spec_feature(f, num)
}

/// What a GeoJSON document contributes, item by item: the features of a
/// feature collection, a single feature, or a bare geometry.
pub open spec fn spec_geojson(v: JsonNodeV, num: spec_fn(Seq<char>) -> Option<Binary64>) -> Result<Seq<GeoItem>, GeoError> {
    match json_str(json_get(v, "type"@)) {
        None => Err(GeoError::Geometry("missing type"@)),
        Some(t) => if t == "FeatureCollection"@ {
            match json_array(json_get(v, "features"@)) {
                Some(fs) => collect(fs, feature_reader(num)),
                None => Ok(Seq::empty()),
            }
        } else if t == "Feature"@ {
            match spec_feature(v, num) {
                Err(e) => Err(e),
                Ok(i) => Ok(seq![i]),
            }
        } else if t == "Point"@ || t == "LineString"@ || t == "MultiPoint"@ || t == "MultiLineString"@ {
            match spec_geometry(v, None, None, None, num) {
                Err(e) => Err(e),
                Ok(i) => Ok(seq![i]),
            }
        } else {
            Err(GeoError::Geometry(t))
        },
    }
}

/// The waypoints of the items, in order: coordinate, name and description.
pub open spec fn item_points(items: Seq<GeoItem>) -> Seq<(Coordinate, Option<Seq<char>>, Option<Seq<char>>)>
    decreases items.len(),
{
    if items.len() == 0 {
        Seq::empty()
    } else {
        item_points(items.drop_last()) + match items.last() {
            GeoItem::Points(cs, n, d) => cs.map_values(|c: Coordinate| (c, n, d)),
            _ => Seq::empty(),
        }
    }
}

/// The routes of the items, in order.
pub open spec fn item_lines(items: Seq<GeoItem>) -> Seq<(Option<Seq<char>>, Option<Seq<char>>, Seq<Coordinate>)>
    decreases items.len(),
{
    if items.len() == 0 {
        Seq::empty()
    } else {
        item_lines(items.drop_last()) + match items.last() {
            GeoItem::Line(n, d, cs) => seq![(n, d, cs)],
            _ => Seq::empty(),
        }
    }
}

/// The tracks of the items, in order.
pub open spec fn item_tracks(items: Seq<GeoItem>) -> Seq<(Option<Seq<char>>, Option<Seq<char>>, Seq<Seq<Coordinate>>)>
    decreases items.len(),
{
    if items.len() == 0 {
        Seq::empty()
    } else {
        item_tracks(items.drop_last()) + match items.last() {
            GeoItem::Multi(n, d, ls) => seq![(n, d, ls)],
            _ => Seq::empty(),
        }
    }
}

/// The waypoints, routes and tracks built from the items, in order.
pub open spec fn geo_parts(ws: Seq<Waypoint>, rs: Seq<Route>, ts: Seq<Track>, items: Seq<GeoItem>) -> bool {
    let pts = item_points(items);
    let lines = item_lines(items);
    let multis = item_tracks(items);
    &&& ws.len() == pts.len()
    &&& forall|k: int| 0 <= k < pts.len() ==> named_point(#[trigger] ws[k], pts[k].0, pts[k].1, pts[k].2)
    &&& rs.len() == lines.len()
    &&& forall|k: int| 0 <= k < lines.len() ==> line_route(#[trigger] rs[k], lines[k].0, lines[k].1, lines[k].2)
    &&& ts.len() == multis.len()
    &&& forall|k: int| 0 <= k < multis.len() ==> multi_track(#[trigger] ts[k], multis[k].0, multis[k].1, multis[k].2)
}

/// The document built from the items, and nothing else.
pub open spec fn geo_document(g: Gpx, items: Seq<GeoItem>) -> bool {
    &&& g.version is None && g.creator is None && g.metadata is None && g.extensions is None
    &&& geo_parts(g.waypoints@, g.routes@, g.tracks@, items)
}

} // verus!

verus! {

fn coord_component<P: Fn(&str) -> Option<Binary64>>(
    v: &JsonValue,
    parse: &P,
    Ghost(num): Ghost<spec_fn(Seq<char>) -> Option<Binary64>>,
) -> (r: Result<Binary64, ConvertError>)
    requires
        reads_as(parse, num),
    ensures
        match spec_component(json_view(*v), num) {
            Ok(x) => r matches Ok(y) && y == x,
            Err(e) => r matches Err(ce) && error_matches(ce, e),
        },
{
    if let JsonKind::Number(t) = &v.kind {
        if let Some(x) = parse(t.as_str()) {
            return Ok(x);
        }
    }
    let mut m = "expected number, got ".to_owned();
    m.append(v.text.as_str());
    Err(ConvertError::InvalidCoordinates(m))
}

proof fn lemma_array_view(v: JsonValue)
    requires
        v.kind is Array,
    ensures
        json_view(v).kind == JsonKindV::Array(json_views(v.kind->Array_0@)),
{
    let a = v.kind->Array_0;
    assert(json_view(v).kind is Array);
    assert(json_view(v).kind->Array_0 =~= json_views(a@));
}

/// Reads a position `[lon, lat]` or `[lon, lat, ele]` as a point, reading
/// numbers with `parse`.
pub fn parse_geojson_point<P: Fn(&str) -> Option<Binary64>>(
    v: &JsonValue,
    parse: &P,
    Ghost(num): Ghost<spec_fn(Seq<char>) -> Option<Binary64>>,
) -> (r: Result<Waypoint, ConvertError>)
    requires
        reads_as(parse, num),
    ensures
        match spec_position(json_view(*v), num) {
            Ok(c) => r matches Ok(w) && crate::kml::plain_point(w, c),
            Err(e) => r matches Err(ce) && error_matches(ce, e),
        },
{
    let a = match &v.kind {
        JsonKind::Array(a) => a,
        _ => {
            return Err(ConvertError::InvalidCoordinates("expected coordinate array".to_owned()));
        },
    };
    proof {
        lemma_array_view(*v);
    }
    if a.len() < 2 {
        return Err(ConvertError::InvalidCoordinates("coordinate array must contain at least lon and lat".to_owned()));
    }
    let lon = match coord_component(&a[0], parse, Ghost(num)) {
        Ok(x) => x,
        Err(e) => {
            return Err(e);
        },
    };
    let lat = match coord_component(&a[1], parse, Ghost(num)) {
        Ok(x) => x,
        Err(e) => {
            return Err(e);
        },
    };
    let ele = if a.len() > 2 {
        match coord_component(&a[2], parse, Ghost(num)) {
            Ok(x) => Some(x),
            Err(e) => {
                return Err(e);
            },
        }
    } else {
        None
    };
    Ok(new_point((lat, lon, ele)))
}

fn parse_positions<P: Fn(&str) -> Option<Binary64>>(
    vs: &Vec<JsonValue>,
    parse: &P,
    Ghost(num): Ghost<spec_fn(Seq<char>) -> Option<Binary64>>,
) -> (r: Result<Vec<Waypoint>, ConvertError>)
    requires
        reads_as(parse, num),
    ensures
        match collect(json_views(vs@), position_reader(num)) {
            Ok(cs) => r matches Ok(ws) && crate::kml::plain_points(ws@, cs),
            Err(e) => r matches Err(ce) && error_matches(ce, e),
        },
{
    let ghost pr = position_reader(num);
    let ghost all = json_views(vs@);
    let mut out: Vec<Waypoint> = Vec::new();
    let ghost mut cs: Seq<Coordinate> = Seq::empty();
    let mut k: usize = 0;
    assert(all.take(0) =~= Seq::<JsonNodeV>::empty());
    while k < vs.len()
        invariant
            k <= vs@.len(),
            all == json_views(vs@),
            pr == position_reader(num),
            reads_as(parse, num),
            collect(all.take(k as int), pr) == Ok::<Seq<Coordinate>, GeoError>(cs),
            crate::kml::plain_points(out@, cs),
        decreases vs.len() - k,
    {
        assert(all.take(k + 1).drop_last() =~= all.take(k as int));
        assert(all.take(k + 1).last() == json_view(vs@[k as int]));
        assert(pr(json_view(vs@[k as int])) == spec_position(json_view(vs@[k as int]), num));
        match parse_geojson_point(&vs[k], parse, Ghost(num)) {
            Ok(w) => {
                let ghost c = spec_position(json_view(vs@[k as int]), num)->Ok_0;
                out.push(w);
                proof {
                    cs = cs.push(c);
                    assert forall|i: int| 0 <= i < out@.len() implies crate::kml::plain_point(#[trigger] out@[i], cs[i]) by {
                        if i < out@.len() - 1 {
                            assert(out@[i] == out@.drop_last()[i]);
                        }
                    }
                }
            },
            Err(e) => {
                proof {
                    lemma_collect_error_prefix(all, k + 1, pr);
                }
                return Err(e);
            },
        }
        k = k + 1;
    }
    assert(all.take(k as int) =~= all);
    Ok(out)
}

/// Reads a line: an array of positions, reading numbers with `parse`.
pub fn parse_geojson_line<P: Fn(&str) -> Option<Binary64>>(
    v: &JsonValue,
    parse: &P,
    Ghost(num): Ghost<spec_fn(Seq<char>) -> Option<Binary64>>,
) -> (r: Result<Vec<Waypoint>, ConvertError>)
    requires
        reads_as(parse, num),
    ensures
        match spec_line(json_view(*v), num) {
            Ok(cs) => r matches Ok(ws) && crate::kml::plain_points(ws@, cs),
            Err(e) => r matches Err(ce) && error_matches(ce, e),
        },
{
    match &v.kind {
        JsonKind::Array(a) => {
            proof {
                lemma_array_view(*v);
            }
            parse_positions(a, parse, Ghost(num))
        },
        _ => Err(ConvertError::InvalidCoordinates("expected coordinate array".to_owned())),
    }
}

fn parse_lines<P: Fn(&str) -> Option<Binary64>>(
    vs: &Vec<JsonValue>,
    parse: &P,
    Ghost(num): Ghost<spec_fn(Seq<char>) -> Option<Binary64>>,
) -> (r: Result<Vec<TrackSegment>, ConvertError>)
    requires
        reads_as(parse, num),
    ensures
        match collect(json_views(vs@), line_reader(num)) {
            Ok(ls) => r matches Ok(ss) && ss@.len() == ls.len() && forall|k: int| 0 <= k < ls.len() ==>
                (#[trigger] ss@[k]).extensions is None && crate::kml::plain_points(ss@[k].points@, ls[k]),
            Err(e) => r matches Err(ce) && error_matches(ce, e),
        },
{
    let ghost lr = line_reader(num);
    let ghost all = json_views(vs@);
    let mut out: Vec<TrackSegment> = Vec::new();
    let ghost mut ls: Seq<Seq<Coordinate>> = Seq::empty();
    let mut k: usize = 0;
    assert(all.take(0) =~= Seq::<JsonNodeV>::empty());
    while k < vs.len()
        invariant
            k <= vs@.len(),
            all == json_views(vs@),
            lr == line_reader(num),
            reads_as(parse, num),
            collect(all.take(k as int), lr) == Ok::<Seq<Seq<Coordinate>>, GeoError>(ls),
            out@.len() == ls.len(),
            forall|i: int| 0 <= i < ls.len() ==>
                (#[trigger] out@[i]).extensions is None && crate::kml::plain_points(out@[i].points@, ls[i]),
        decreases vs.len() - k,
    {
        assert(all.take(k + 1).drop_last() =~= all.take(k as int));
        assert(all.take(k + 1).last() == json_view(vs@[k as int]));
        assert(lr(json_view(vs@[k as int])) == spec_line(json_view(vs@[k as int]), num));
        match parse_geojson_line(&vs[k], parse, Ghost(num)) {
            Ok(points) => {
                let ghost l = spec_line(json_view(vs@[k as int]), num)->Ok_0;
                out.push(TrackSegment { points, extensions: None });
                proof {
                    ls = ls.push(l);
                    assert forall|i: int| 0 <= i < ls.len() implies
                        (#[trigger] out@[i]).extensions is None && crate::kml::plain_points(out@[i].points@, ls[i]) by {
                        if i < ls.len() - 1 {
                            assert(out@[i] == out@.drop_last()[i]);
                        }
                    }
                }
            },
            Err(e) => {
                proof {
                    lemma_collect_error_prefix(all, k + 1, lr);
                }
                return Err(e);
            },
        }
        k = k + 1;
    }
    assert(all.take(k as int) =~= all);
    Ok(out)
}

} // verus!

verus! {

/// What one geometry or feature became.
pub enum GeoBuilt {
    Points(Vec<Waypoint>),
    Line(Route),
    Multi(Track),
    Nothing,
}

/// The built value matches the item.
pub open spec fn built_matches(b: GeoBuilt, i: GeoItem) -> bool {
    match (b, i) {
        (GeoBuilt::Points(ws), GeoItem::Points(cs, n, d)) => ws@.len() == cs.len()
            && forall|k: int| 0 <= k < cs.len() ==> named_point(#[trigger] ws@[k], cs[k], n, d),
        (GeoBuilt::Line(r), GeoItem::Line(n, d, cs)) => line_route(r, n, d, cs),
        (GeoBuilt::Multi(t), GeoItem::Multi(n, d, ls)) => multi_track(t, n, d, ls),
        (GeoBuilt::Nothing, GeoItem::Nothing) => true,
        _ => false,
    }
}

/// Gives every point the name and description.
fn name_points(ws: Vec<Waypoint>, name: &Option<String>, desc: &Option<String>) -> (r: Vec<Waypoint>)
    ensures
        r@.len() == ws@.len(),
        forall|k: int| 0 <= k < ws@.len() ==> #[trigger] r@[k] == (Waypoint { name: *name, desc: *desc, ..ws@[k] }),
{
    let ghost vs = ws@;
    let n = ws.len();
    let mut src = crate::operations::reverse_vec(ws);
    let mut out: Vec<Waypoint> = Vec::new();
    while src.len() > 0
        invariant
            n == vs.len(),
            out@.len() + src@.len() == n,
            forall|i: int| 0 <= i < src@.len() ==> #[trigger] src@[i] == vs[n - 1 - i],
            forall|i: int| 0 <= i < out@.len() ==> #[trigger] out@[i] == (Waypoint { name: *name, desc: *desc, ..vs[i] }),
        decreases src.len(),
    {
        let mut w = src.pop().unwrap();
        assert(w == vs[out@.len() as int]);
        w.name = copy_text(name);
        w.desc = copy_text(desc);
        out.push(w);
    }
    out
}

fn track_of(name: Option<String>, desc: Option<String>, segments: Vec<TrackSegment>) -> (t: Track)
    ensures
        t.name == name && t.desc == desc && t.segments == segments,
        t.cmt is None && t.src is None && t.links@.len() == 0 && t.number is None && t.track_type is None,
        t.extensions is None,
{
    Track { name, cmt: None, desc, src: None, links: Vec::new(), number: None, track_type: None, extensions: None, segments }
}

fn route_of(name: Option<String>, desc: Option<String>, points: Vec<Waypoint>) -> (r: Route)
    ensures
        r.name == name && r.desc == desc && r.points == points,
        r.cmt is None && r.src is None && r.links@.len() == 0 && r.number is None && r.route_type is None,
        r.extensions is None,
{
    Route { name, cmt: None, desc, src: None, links: Vec::new(), number: None, route_type: None, extensions: None, points }
}

/// Reads a geometry with the name, description and type hint of its feature.
pub fn geometry_item<P: Fn(&str) -> Option<Binary64>>(
    g: &JsonValue,
    name: Option<String>,
    desc: Option<String>,
    hint: Option<&str>,
    parse: &P,
    Ghost(num): Ghost<spec_fn(Seq<char>) -> Option<Binary64>>,
) -> (r: Result<GeoBuilt, ConvertError>)
    requires
        reads_as(parse, num),
    ensures
        match spec_geometry(json_view(*g), opt_chars(name), opt_chars(desc), match hint { Some(h) => Some(h@), None => None }, num) {
            Ok(i) => r matches Ok(b) && built_matches(b, i),
            Err(e) => r matches Err(ce) && error_matches(ce, e),
        },
{
    let coords = get(g, "coordinates");
    let t = match as_str(get(g, "type")) {
        Some(t) => t,
        None => {
            return Err(ConvertError::UnsupportedGeometry("missing type".to_owned()));
        },
    };
    if str_eq(t, "Point") {
        match coords {
            None => Err(ConvertError::InvalidCoordinates("Point missing coordinates".to_owned())),
            Some(c) => match parse_geojson_point(c, parse, Ghost(num)) {
                Ok(w) => {
                    let mut w = w;
                    w.name = name;
                    w.desc = desc;
                    let v = vec![w];
                    Ok(GeoBuilt::Points(v))
                },
                Err(e) => Err(e),
            },
        }
    } else if str_eq(t, "MultiPoint") {
        match as_array(coords) {
            None => Err(ConvertError::InvalidCoordinates("MultiPoint missing coordinates".to_owned())),
            Some(a) => match parse_positions(a, parse, Ghost(num)) {
                Ok(ws) => Ok(GeoBuilt::Points(name_points(ws, &name, &desc))),
                Err(e) => Err(e),
            },
        }
    } else if str_eq(t, "LineString") {
        match coords {
            None => Err(ConvertError::InvalidCoordinates("LineString missing coordinates".to_owned())),
            Some(c) => match parse_geojson_line(c, parse, Ghost(num)) {
                Ok(points) => {
                    let track = match hint {
                        Some(h) => str_eq(h, "track") || str_eq(h, "trk"),
                        None => false,
                    };
                    if track {
                        let segments = vec![TrackSegment { points, extensions: None }];
                        Ok(GeoBuilt::Multi(track_of(name, desc, segments)))
                    } else {
                        Ok(GeoBuilt::Line(route_of(name, desc, points)))
                    }
                },
                Err(e) => Err(e),
            },
        }
    } else if str_eq(t, "MultiLineString") {
        match as_array(coords) {
            None => Err(ConvertError::InvalidCoordinates("MultiLineString missing coordinates".to_owned())),
            Some(a) => match parse_lines(a, parse, Ghost(num)) {
                Ok(segments) => Ok(GeoBuilt::Multi(track_of(name, desc, segments))),
                Err(e) => Err(e),
            },
        }
    } else {
        Err(ConvertError::UnsupportedGeometry(t.to_owned()))
    }
}

} // verus!

verus! {

fn owned_text(v: Option<&JsonValue>) -> (r: Option<String>)
    ensures
        opt_chars(r) == json_str(opt_json_view(v)),
{
    match as_str(v) {
        Some(s) => Some(s.to_owned()),
        None => None,
    }
}

/// Reads a feature: its geometry, named and described by its properties.
pub fn feature_item<P: Fn(&str) -> Option<Binary64>>(
    f: &JsonValue,
    parse: &P,
    Ghost(num): Ghost<spec_fn(Seq<char>) -> Option<Binary64>>,
) -> (r: Result<GeoBuilt, ConvertError>)
    requires
        reads_as(parse, num),
    ensures
        match spec_feature(json_view(*f), num) {
            Ok(i) => r matches Ok(b) && built_matches(b, i),
            Err(e) => r matches Err(ce) && error_matches(ce, e),
        },
{
    let props = get(f, "properties");
    let ghost pv = opt_json_view(props);
    let (name_v, desc_v, hint) = match props {
        Some(p) => {
            let n = match get(p, "name") {
                Some(x) => Some(x),
                None => get(p, "title"),
            };
            let d = match get(p, "description") {
                Some(x) => Some(x),
                None => get(p, "desc"),
            };
            (n, d, as_str(get(p, "gpx_type")))
        },
        None => (None, None, None),
    };
    proof {
        assert(opt_json_view(name_v) == either(opt_get(pv, "name"@), opt_get(pv, "title"@)));
        assert(opt_json_view(desc_v) == either(opt_get(pv, "description"@), opt_get(pv, "desc"@)));
        assert((match hint { Some(h) => Some(h@), None => None }) == json_str(opt_get(pv, "gpx_type"@)));
    }
    let name = owned_text(name_v);
    let desc = owned_text(desc_v);
    match get(f, "geometry") {
        Some(g) => geometry_item(g, name, desc, hint, parse, Ghost(num)),
        None => Ok(GeoBuilt::Nothing),
    }
}

proof fn lemma_geo_parts_push(ws: Seq<Waypoint>, rs: Seq<Route>, ts: Seq<Track>, items: Seq<GeoItem>, b: GeoBuilt, i: GeoItem)
    requires
        geo_parts(ws, rs, ts, items),
        built_matches(b, i),
    ensures
        geo_parts(
            match b { GeoBuilt::Points(v) => ws + v@, _ => ws },
            match b { GeoBuilt::Line(r) => rs.push(r), _ => rs },
            match b { GeoBuilt::Multi(t) => ts.push(t), _ => ts },
            items.push(i),
        ),
{
    let next = items.push(i);
    assert(next.drop_last() =~= items);
    assert(next.last() == i);
    let ws2 = match b { GeoBuilt::Points(v) => ws + v@, _ => ws };
    let rs2 = match b { GeoBuilt::Line(r) => rs.push(r), _ => rs };
    let ts2 = match b { GeoBuilt::Multi(t) => ts.push(t), _ => ts };
    let pts = item_points(items);
    let pts2 = item_points(next);
    let lines = item_lines(items);
    let lines2 = item_lines(next);
    let multis = item_tracks(items);
    let multis2 = item_tracks(next);
    assert forall|k: int| 0 <= k < pts2.len() implies named_point(#[trigger] ws2[k], pts2[k].0, pts2[k].1, pts2[k].2) by {
        if k < pts.len() {
            assert(pts2[k] == pts[k]);
            assert(ws2[k] == ws[k]);
        } else {
            match (b, i) {
                (GeoBuilt::Points(v), GeoItem::Points(cs, n, d)) => {
                    assert(ws2[k] == v@[k - ws.len()]);
                    assert(pts2[k] == (cs[k - pts.len()], n, d));
                },
                _ => {},
            }
        }
    }
    assert forall|k: int| 0 <= k < lines2.len() implies line_route(#[trigger] rs2[k], lines2[k].0, lines2[k].1, lines2[k].2) by {
        if k < lines.len() {
            assert(lines2[k] == lines[k]);
            assert(rs2[k] == rs[k]);
        }
    }
    assert forall|k: int| 0 <= k < multis2.len() implies multi_track(#[trigger] ts2[k], multis2[k].0, multis2[k].1, multis2[k].2) by {
        if k < multis.len() {
            assert(multis2[k] == multis[k]);
            assert(ts2[k] == ts[k]);
        }
    }
}

/// The parts of a document under construction.
struct Parts {
    waypoints: Vec<Waypoint>,
    routes: Vec<Route>,
    tracks: Vec<Track>,
}

fn add_built(parts: &mut Parts, b: GeoBuilt, Ghost(items): Ghost<Seq<GeoItem>>, Ghost(i): Ghost<GeoItem>)
    requires
        geo_parts(old(parts).waypoints@, old(parts).routes@, old(parts).tracks@, items),
        built_matches(b, i),
    ensures
        geo_parts(final(parts).waypoints@, final(parts).routes@, final(parts).tracks@, items.push(i)),
{
    proof {
        lemma_geo_parts_push(parts.waypoints@, parts.routes@, parts.tracks@, items, b, i);
    }
    match b {
        GeoBuilt::Points(v) => crate::operations::append_vec(&mut parts.waypoints, v),
        GeoBuilt::Line(r) => parts.routes.push(r),
        GeoBuilt::Multi(t) => parts.tracks.push(t),
        GeoBuilt::Nothing => {},
    }
}

/// Reads a parsed GeoJSON document into a GPX document: the features of a
/// feature collection, a single feature, or a bare geometry, contributing
/// waypoints, routes and tracks in document order.
pub fn gpx_from_geojson<P: Fn(&str) -> Option<Binary64>>(
    v: &JsonValue,
    parse: &P,
    Ghost(num): Ghost<spec_fn(Seq<char>) -> Option<Binary64>>,
) -> (r: Result<Gpx, ConvertError>)
    requires
        reads_as(parse, num),
    ensures
        match spec_geojson(json_view(*v), num) {
            Ok(items) => r matches Ok(g) && geo_document(g, items),
            Err(e) => r matches Err(ce) && error_matches(ce, e),
        },
{
    let mut parts = Parts { waypoints: Vec::new(), routes: Vec::new(), tracks: Vec::new() };
    let ghost mut items: Seq<GeoItem> = Seq::empty();
    let t = match as_str(get(v, "type")) {
        Some(t) => t,
        None => {
            return Err(ConvertError::UnsupportedGeometry("missing type".to_owned()));
        },
    };
    if str_eq(t, "FeatureCollection") {
        if let Some(fs) = as_array(get(v, "features")) {
            let ghost fr = feature_reader(num);
            let ghost all = json_views(fs@);
            let mut k: usize = 0;
            assert(all.take(0) =~= Seq::<JsonNodeV>::empty());
            assert(spec_geojson(json_view(*v), num) == collect(all, fr));
            while k < fs.len()
                invariant
                    k <= fs@.len(),
                    fr == feature_reader(num),
                    all == json_views(fs@),
                    reads_as(parse, num),
                    spec_geojson(json_view(*v), num) == collect(all, fr),
                    collect(all.take(k as int), fr) == Ok::<Seq<GeoItem>, GeoError>(items),
                    geo_parts(parts.waypoints@, parts.routes@, parts.tracks@, items),
                decreases fs.len() - k,
            {
                assert(all.take(k + 1).drop_last() =~= all.take(k as int));
                assert(all.take(k + 1).last() == json_view(fs@[k as int]));
                assert(fr(json_view(fs@[k as int])) == spec_feature(json_view(fs@[k as int]), num));
                match feature_item(&fs[k], parse, Ghost(num)) {
                    Ok(b) => {
                        let ghost i = spec_feature(json_view(fs@[k as int]), num)->Ok_0;
                        add_built(&mut parts, b, Ghost(items), Ghost(i));
                        proof {
                            items = items.push(i);
                        }
                    },
                    Err(e) => {
                        proof {
                            lemma_collect_error_prefix(all, k + 1, fr);
                        }
                        return Err(e);
                    },
                }
                k = k + 1;
            }
            assert(all.take(k as int) =~= all);
        }
    } else if str_eq(t, "Feature") {
        match feature_item(v, parse, Ghost(num)) {
            Ok(b) => {
                let ghost i = spec_feature(json_view(*v), num)->Ok_0;
                add_built(&mut parts, b, Ghost(items), Ghost(i));
                proof {
                    items = items.push(i);
                }
            },
            Err(e) => {
                return Err(e);
            },
        }
    } else if str_eq(t, "Point") || str_eq(t, "LineString") || str_eq(t, "MultiPoint") || str_eq(t, "MultiLineString") {
        match geometry_item(v, None, None, None, parse, Ghost(num)) {
            Ok(b) => {
                let ghost i = spec_geometry(json_view(*v), None, None, None, num)->Ok_0;
                add_built(&mut parts, b, Ghost(items), Ghost(i));
                proof {
                    items = items.push(i);
                }
            },
            Err(e) => {
                return Err(e);
            },
        }
    } else {
        return Err(ConvertError::UnsupportedGeometry(t.to_owned()));
    }
    let Parts { waypoints, routes, tracks } = parts;
    Ok(Gpx { version: None, creator: None, metadata: None, waypoints, routes, tracks, extensions: None })
}

} // verus!


verus! {

/// Reads a GeoJSON text into a GPX document, reading numbers with
/// `read_number`: text that is not JSON fails with the JSON error; otherwise
/// the features of a feature collection, a single feature, or a bare
/// geometry contribute waypoints, routes and tracks in document order.
pub fn parse_geojson<P: Fn(&str) -> Option<Binary64>>(data: &str, read_number: P) -> (r: Result<Gpx, ConvertError>)
    requires
        deterministic_reading(&read_number),
    ensures
        match json_of(data@) {
            None => r matches Err(ConvertError::Json(_)),
            Some(v) => match spec_geojson(v, reading_of(&read_number)) {
                Ok(items) => r matches Ok(g) && geo_document(g, items),
                Err(e) => r matches Err(ce) && error_matches(ce, e),
            },
        },
{
    let num = Ghost(reading_of(&read_number));
    assert(reads_as(&read_number, num@)) by {
        assert forall|s: &str, r: Option<Binary64>| call_ensures(read_number, (s,), r) implies r == (num@)(s@) by {
            assert(reads_to(&read_number, s@, r));
        }
    }
    match parse_json(data) {
        Ok(value) => gpx_from_geojson(&value, &read_number, num),
        Err(e) => Err(ConvertError::Json(e)),
    }
}

} // verus!

verus! {

// ================================================================ writing

/// The geometry of a feature: a position, or a line of positions. A
/// position is `[lon, lat]` or `[lon, lat, ele]`.
#[derive(Debug)]
pub enum GeoGeometry {
    Point(Vec<Binary64>),
    LineString(Vec<Vec<Binary64>>),
}

/// One GeoJSON feature describing a waypoint, a route or a track segment.
#[derive(Debug)]
pub struct GeoFeature {
    /// `waypoint`, `route` or `track`.
    pub gpx_type: &'static str,
    /// The `name` property.
    pub name: Option<String>,
    /// The `description` property.
    pub description: Option<String>,
    /// The `segment` property: the segment's index, for tracks with more
    /// than one segment.
    pub segment: Option<usize>,
    /// The geometry.
    pub geometry: GeoGeometry,
}

/// The content of a geometry.
pub enum GeometryV {
    Point(Seq<Binary64>),
    LineString(Seq<Seq<Binary64>>),
}

/// The content of a feature.
pub struct FeatureV {
    pub gpx_type: Seq<char>,
    pub name: Option<Seq<char>>,
    pub description: Option<Seq<char>>,
    pub segment: Option<nat>,
    pub geometry: GeometryV,
}

impl View for GeoFeature {
    type V = FeatureV;

    open spec fn view(&self) -> FeatureV {
        FeatureV {
            gpx_type: self.gpx_type@,
            name: opt_chars(self.name),
            description: opt_chars(self.description),
            segment: match self.segment { Some(k) => Some(k as nat), None => None },
            geometry: match self.geometry {
                GeoGeometry::Point(p) => GeometryV::Point(p@),
                GeoGeometry::LineString(ps) => GeometryV::LineString(ps@.map_values(|p: Vec<Binary64>| p@)),
            },
        }
    }
}

/// The position of a point: `[lon, lat]`, and its elevation when it has one.
pub open spec fn position_of(w: Waypoint) -> Seq<Binary64> {
    match w.ele {
        Some(e) => seq![w.lon, w.lat, e],
        None => seq![w.lon, w.lat],
    }
}

/// The positions of points.
pub open spec fn positions_of(ws: Seq<Waypoint>) -> Seq<Seq<Binary64>> {
    ws.map_values(|w: Waypoint| position_of(w))
}

/// The feature of a waypoint.
pub open spec fn waypoint_feature(w: Waypoint) -> FeatureV {
    FeatureV {
        gpx_type: "waypoint"@,
        name: opt_chars(w.name),
        description: opt_chars(w.desc),
        segment: None,
        geometry: GeometryV::Point(position_of(w)),
    }
}

/// The feature of a route.
pub open spec fn route_feature(r: Route) -> FeatureV {
    FeatureV {
        gpx_type: "route"@,
        name: opt_chars(r.name),
        description: opt_chars(r.desc),
        segment: None,
        geometry: GeometryV::LineString(positions_of(r.points@)),
    }
}

/// The features of a track: one per segment, numbered when there are
/// several.
pub open spec fn track_features(t: Track) -> Seq<FeatureV> {
    Seq::new(
        t.segments@.len(),
        |k: int| FeatureV {
            gpx_type: "track"@,
            name: opt_chars(t.name),
            description: opt_chars(t.desc),
            segment: if t.segments@.len() > 1 { Some(k as nat) } else { None },
            geometry: GeometryV::LineString(positions_of(t.segments@[k].points@)),
        },
    )
}

/// The features of the tracks, in order.
pub open spec fn tracks_features(ts: Seq<Track>) -> Seq<FeatureV>
    decreases ts.len(),
{
    if ts.len() == 0 { Seq::empty() } else { tracks_features(ts.drop_last()) + track_features(ts.last()) }
}

/// The features of a document: its waypoints, then its routes, then each
/// segment of each track.
pub open spec fn spec_features(g: Gpx) -> Seq<FeatureV> {
    g.waypoints@.map_values(|w: Waypoint| waypoint_feature(w)) + g.routes@.map_values(|r: Route| route_feature(r))
        + tracks_features(g.tracks@)
}

/// Every position of a feature is written alike: a waypoint's `Point` is its
/// longitude and latitude, followed by its elevation when it has one; and each
/// position of a route's or of a track segment's `LineString`, one per point
/// and in order, is the position that point's own waypoint feature gets.
pub proof fn lemma_feature_positions(w: Waypoint, r: Route, t: Track)
    ensures
        waypoint_feature(w).geometry == GeometryV::Point(
            seq![w.lon, w.lat] + match w.ele {
                Some(e) => seq![e],
                None => Seq::<Binary64>::empty(),
            },
        ),
        route_feature(r).geometry is LineString,
        route_feature(r).geometry->LineString_0.len() == r.points@.len(),
        forall|i: int|
            0 <= i < r.points@.len() ==> GeometryV::Point(#[trigger] route_feature(r).geometry->LineString_0[i])
                == waypoint_feature(r.points@[i]).geometry,
        forall|k: int|
            0 <= k < t.segments@.len() ==> (#[trigger] track_features(t)[k]).geometry is LineString
                && track_features(t)[k].geometry->LineString_0.len() == t.segments@[k].points@.len(),
        forall|k: int, i: int|
            0 <= k < t.segments@.len() && 0 <= i < t.segments@[k].points@.len() ==> GeometryV::Point(
                #[trigger] track_features(t)[k].geometry->LineString_0[i],
            ) == waypoint_feature(t.segments@[k].points@[i]).geometry,
{
    match w.ele {
        Some(e) => assert(position_of(w) =~= seq![w.lon, w.lat] + seq![e]),
        None => assert(position_of(w) =~= seq![w.lon, w.lat] + Seq::<Binary64>::empty()),
    }
}

/// The features of a document come in order: first one per waypoint, then one
/// per route, then those of the tracks; each waypoint or route feature is
/// labelled with its kind and carries the item's own name and description.
pub proof fn lemma_feature_order_and_labels(g: Gpx)
    ensures
        ({
            let fs = spec_features(g);
            let nw = g.waypoints@.len();
            let nr = g.routes@.len();
            &&& fs.len() == nw + nr + tracks_features(g.tracks@).len()
            &&& forall|i: int|
                0 <= i < nw ==> {
                    let w = #[trigger] g.waypoints@[i];
                    &&& fs[i] == waypoint_feature(w)
                    &&& fs[i].gpx_type == "waypoint"@
                    &&& fs[i].name == (match w.name { Some(n) => Some(n@), None => None::<Seq<char>> })
                    &&& fs[i].description == (match w.desc { Some(n) => Some(n@), None => None::<Seq<char>> })
                    &&& fs[i].segment is None
                }
            &&& forall|j: int|
                0 <= j < nr ==> {
                    let r = #[trigger] g.routes@[j];
                    &&& fs[nw + j] == route_feature(r)
                    &&& fs[nw + j].gpx_type == "route"@
                    &&& fs[nw + j].name == (match r.name { Some(n) => Some(n@), None => None::<Seq<char>> })
                    &&& fs[nw + j].description == (match r.desc { Some(n) => Some(n@), None => None::<Seq<char>> })
                    &&& fs[nw + j].segment is None
                }
            &&& fs.subrange((nw + nr) as int, fs.len() as int) == tracks_features(g.tracks@)
        }),
{
    let a = g.waypoints@.map_values(|w: Waypoint| waypoint_feature(w));
    let b = g.routes@.map_values(|r: Route| route_feature(r));
    let c = tracks_features(g.tracks@);
    assert((a + b + c).subrange((a.len() + b.len()) as int, (a + b + c).len() as int) =~= c);
}

/// The features of a track are labelled as such and carry the track's own
/// name and description; when the track has several segments they are
/// numbered from 0 in order, and otherwise they carry no number.
pub proof fn lemma_track_feature_labels(t: Track)
    ensures
        track_features(t).len() == t.segments@.len(),
        forall|k: int|
            0 <= k < t.segments@.len() ==> {
                let f = #[trigger] track_features(t)[k];
                &&& f.gpx_type == "track"@
                &&& f.name == (match t.name { Some(n) => Some(n@), None => None::<Seq<char>> })
                &&& f.description == (match t.desc { Some(n) => Some(n@), None => None::<Seq<char>> })
                &&& f.segment == (if t.segments@.len() > 1 { Some(k as nat) } else { None })
            },
{
}

/// The content of each feature.
pub open spec fn feature_views(fs: Seq<GeoFeature>) -> Seq<FeatureV> {
    fs.map_values(|f: GeoFeature| f@)
}

fn position(w: &Waypoint) -> (r: Vec<Binary64>)
    ensures
        r@ == position_of(*w),
{
    match w.ele {
        Some(e) => vec![w.lon, w.lat, e],
        None => vec![w.lon, w.lat],
    }
}

fn positions(ws: &Vec<Waypoint>) -> (r: Vec<Vec<Binary64>>)
    ensures
        r@.map_values(|p: Vec<Binary64>| p@) == positions_of(ws@),
{
    let mut out: Vec<Vec<Binary64>> = Vec::new();
    let mut k: usize = 0;
    while k < ws.len()
        invariant
            k <= ws@.len(),
            out@.len() == k,
            forall|i: int| 0 <= i < k ==> (#[trigger] out@[i])@ == position_of(ws@[i]),
        decreases ws.len() - k,
    {
        out.push(position(&ws[k]));
        k = k + 1;
    }
    assert(out@.map_values(|p: Vec<Binary64>| p@) =~= positions_of(ws@));
    out
}

fn push_track_features(out: &mut Vec<GeoFeature>, t: &Track)
    ensures
        feature_views(final(out)@) == feature_views(old(out)@) + track_features(*t),
{
    let ghost start = feature_views(out@);
    let n = t.segments.len();
    let mut k: usize = 0;
    while k < n
        invariant
            n == t.segments@.len(),
            k <= n,
            feature_views(out@) == start + track_features(*t).take(k as int),
        decreases n - k,
    {
        let segment = if n > 1 { Some(k) } else { None };
        let f = GeoFeature {
            gpx_type: "track",
            name: copy_text(&t.name),
            description: copy_text(&t.desc),
            segment,
            geometry: GeoGeometry::LineString(positions(&t.segments[k].points)),
        };
        let ghost before = feature_views(out@);
        out.push(f);
        proof {
            reveal_strlit("track");
            assert(f@ == track_features(*t)[k as int]);
            assert(track_features(*t).take(k + 1) =~= track_features(*t).take(k as int).push(f@));
            assert(feature_views(out@) =~= before.push(f@));
        }
        k = k + 1;
    }
    assert(track_features(*t).take(n as int) =~= track_features(*t));
}

/// The GeoJSON features that describe a document: one per waypoint, one per
/// route and one per track segment, in that order.
pub fn geojson_features(gpx: &Gpx) -> (r: Vec<GeoFeature>)
    ensures
        feature_views(r@) == spec_features(*gpx),
{
    let mut out: Vec<GeoFeature> = Vec::new();
    let mut k: usize = 0;
    while k < gpx.waypoints.len()
        invariant
            k <= gpx.waypoints@.len(),
            feature_views(out@) == gpx.waypoints@.take(k as int).map_values(|w: Waypoint| waypoint_feature(w)),
        decreases gpx.waypoints.len() - k,
    {
        let w = &gpx.waypoints[k];
        let f = GeoFeature {
            gpx_type: "waypoint",
            name: copy_text(&w.name),
            description: copy_text(&w.desc),
            segment: None,
            geometry: GeoGeometry::Point(position(w)),
        };
        proof {
            reveal_strlit("waypoint");
        }
        let ghost before = feature_views(out@);
        out.push(f);
        assert(gpx.waypoints@.take(k + 1).map_values(|w: Waypoint| waypoint_feature(w))
            =~= before.push(waypoint_feature(*w)));
        assert(feature_views(out@) =~= before.push(f@));
        k = k + 1;
    }
    assert(gpx.waypoints@.take(k as int) =~= gpx.waypoints@);
    let ghost after_points = feature_views(out@);
    let mut k: usize = 0;
    while k < gpx.routes.len()
        invariant
            k <= gpx.routes@.len(),
            feature_views(out@) == after_points + gpx.routes@.take(k as int).map_values(|r: Route| route_feature(r)),
        decreases gpx.routes.len() - k,
    {
        let r = &gpx.routes[k];
        let f = GeoFeature {
            gpx_type: "route",
            name: copy_text(&r.name),
            description: copy_text(&r.desc),
            segment: None,
            geometry: GeoGeometry::LineString(positions(&r.points)),
        };
        proof {
            reveal_strlit("route");
        }
        let ghost before = feature_views(out@);
        out.push(f);
        assert(gpx.routes@.take(k + 1).map_values(|r: Route| route_feature(r))
            =~= gpx.routes@.take(k as int).map_values(|r: Route| route_feature(r)).push(route_feature(*r)));
        assert(feature_views(out@) =~= before.push(f@));
        k = k + 1;
    }
    assert(gpx.routes@.take(k as int) =~= gpx.routes@);
    let ghost after_routes = feature_views(out@);
    let mut k: usize = 0;
    assert(gpx.tracks@.take(0) =~= Seq::<Track>::empty());
    while k < gpx.tracks.len()
        invariant
            k <= gpx.tracks@.len(),
            feature_views(out@) == after_routes + tracks_features(gpx.tracks@.take(k as int)),
        decreases gpx.tracks.len() - k,
    {
        push_track_features(&mut out, &gpx.tracks[k]);
        assert(gpx.tracks@.take(k + 1).drop_last() =~= gpx.tracks@.take(k as int));
        k = k + 1;
    }
    assert(gpx.tracks@.take(k as int) =~= gpx.tracks@);
    out
}

} // verus!
