//! Format names and the KML text writer used when converting between GPX,
//! GeoJSON and KML.

use vstd::prelude::*;
use crate::error::ParseError;
use crate::text::{ascii_lowercase, push_char, to_ascii_lower};

verus! {

/// Canonical name of the GPX format.
pub const GPX_FORMAT: &'static str = "gpx";
/// Canonical name of the GeoJSON format.
pub const GEOJSON_FORMAT: &'static str = "geojson";
/// The `.json` extension, read as GeoJSON.
pub const JSON_FORMAT: &'static str = "json";
/// Canonical name of the KML format.
pub const KML_FORMAT: &'static str = "kml";
/// The KML 2.2 namespace URI.
pub const KML_NS: &'static str = "http://www.opengis.net/kml/2.2";

/// Errors raised while converting between GPX, GeoJSON, and KML.
#[derive(Debug)]
pub enum ConvertError {
    Io(std::io::Error),
    Parse(ParseError),
    Json(serde_json::Error),
    Xml(String),
    UnsupportedFormat(String),
    UnsupportedGeometry(String),
    InvalidCoordinates(String),
    MissingFormat,
}

/// The extension of a path, as `Path::extension` reads it, when it is
/// valid UTF-8.
pub uninterp spec fn path_extension_of(path: Seq<char>) -> Option<Seq<char>>;

/// `Path::new(path).extension()` followed by `OsStr::to_str`.
///
/// Trusted: the result is named by `path_extension_of`; Rust documents the
/// extension as the part of the last path component after its final `.`
/// (none for a component that starts with its only `.`), which is not
/// restated here.
#[verifier::external_body]
fn path_extension(path: &str) -> (r: Option<String>)
    ensures
        match r {
            Some(e) => path_extension_of(path@) == Some(e@),
            None => path_extension_of(path@) is None,
        },
{
    std::path::Path::new(path).extension().and_then(|e| e.to_str()).map(|e| e.to_string())
}

/// The format that a file extension names, compared without ASCII case.
pub open spec fn spec_format_for_extension(ext: Seq<char>) -> Option<Seq<char>> {
    let l = ascii_lowercase(ext);
    if l == "gpx"@ {
        Some("gpx"@)
    } else if l == "geojson"@ {
        Some("geojson"@)
    } else if l == "json"@ {
        Some("json"@)
    } else if l == "kml"@ {
        Some("kml"@)
    } else {
        None
    }
}

fn eq_str(a: &String, b: &str) -> (r: bool)
    ensures
        r == (a@ == b@),
{
    crate::text::str_eq(a.as_str(), b)
}

/// The supported format named by a file extension, if any.
pub fn format_for_extension(ext: &str) -> (r: Option<&'static str>)
    ensures
        match r {
            Some(f) => spec_format_for_extension(ext@) == Some(f@),
            None => spec_format_for_extension(ext@) is None,
        },
{
    let l = to_ascii_lower(ext);
    if eq_str(&l, GPX_FORMAT) {
        Some(GPX_FORMAT)
    } else if eq_str(&l, GEOJSON_FORMAT) {
        Some(GEOJSON_FORMAT)
    } else if eq_str(&l, JSON_FORMAT) {
        Some(JSON_FORMAT)
    } else if eq_str(&l, KML_FORMAT) {
        Some(KML_FORMAT)
    } else {
        None
    }
}

/// The format detected from a path's extension.
pub open spec fn spec_detect_format(path: Seq<char>) -> Option<Seq<char>> {
    match path_extension_of(path) {
        Some(e) => spec_format_for_extension(e),
        None => None,
    }
}

/// Detect a supported format from a file extension.
pub fn detect_format(path: &str) -> (r: Option<&'static str>)
    ensures
        match r {
            Some(f) => spec_detect_format(path@) == Some(f@),
            None => spec_detect_format(path@) is None,
        },
{
    match path_extension(path) {
        Some(e) => format_for_extension(e.as_str()),
        None => None,
    }
}

/// The canonical format for an explicitly given format name: `gpx`,
/// `geojson` (also for `json`) or `kml`, compared without ASCII case.
pub open spec fn spec_normalize_format(format: Seq<char>) -> Option<Seq<char>> {
    let l = ascii_lowercase(format);
    if l == "gpx"@ {
        Some("gpx"@)
    } else if l == "geojson"@ || l == "json"@ {
        Some("geojson"@)
    } else if l == "kml"@ {
        Some("kml"@)
    } else {
        None
    }
}

/// Normalizes an explicitly given format name.
pub fn normalize_format(format: &str) -> (r: Result<&'static str, ConvertError>)
    ensures
        match r {
            Ok(f) => spec_normalize_format(format@) == Some(f@),
            Err(e) => spec_normalize_format(format@) is None
                && (e matches ConvertError::UnsupportedFormat(other) && other@ == ascii_lowercase(format@)),
        },
{
    let l = to_ascii_lower(format);
    if eq_str(&l, GPX_FORMAT) {
        Ok(GPX_FORMAT)
    } else if eq_str(&l, GEOJSON_FORMAT) || eq_str(&l, JSON_FORMAT) {
        Ok(GEOJSON_FORMAT)
    } else if eq_str(&l, KML_FORMAT) {
        Ok(KML_FORMAT)
    } else {
        Err(ConvertError::UnsupportedFormat(l))
    }
}

/// Whether a format can be had for one side of a conversion: the explicit
/// name is a known one, or, without one, the path's extension is.
pub open spec fn format_resolves(explicit: Option<&str>, path: Seq<char>) -> bool {
    match explicit {
        Some(f) => spec_normalize_format(f@) is Some,
        None => spec_detect_format(path) is Some,
    }
}

/// What resolving one side of a conversion gives: the explicit format,
/// normalized, or else the one detected from the path; an unknown explicit
/// name fails with that name in lower case, an undetectable path with
/// `MissingFormat`.
pub open spec fn resolves_to(explicit: Option<&str>, path: Seq<char>, r: Result<String, ConvertError>) -> bool {
    match explicit {
        Some(f) => match r {
            Ok(s) => spec_normalize_format(f@) == Some(s@),
            Err(e) => spec_normalize_format(f@) is None
                && (e matches ConvertError::UnsupportedFormat(other) && other@ == ascii_lowercase(f@)),
        },
        None => match r {
            Ok(s) => spec_detect_format(path) == Some(s@),
            Err(e) => spec_detect_format(path) is None && e is MissingFormat,
        },
    }
}

/// The format to use for one side of a conversion: the explicit one,
/// normalized, or else the one detected from the path.
pub fn resolve_format(explicit: Option<&str>, path: &str) -> (r: Result<String, ConvertError>)
    ensures
        resolves_to(explicit, path@, r),
        r is Ok == format_resolves(explicit, path@),
{
    if let Some(format) = explicit {
        return match normalize_format(format) {
            Ok(f) => Ok(f.to_owned()),
            Err(e) => Err(e),
        };
    }
    match detect_format(path) {
        Some(f) => Ok(f.to_owned()),
        None => Err(ConvertError::MissingFormat),
    }
}

/// The input and output formats of a conversion, each resolved from its
/// explicit name or its path; when both sides fail, the input side's error
/// is the one returned.
pub fn conversion_formats(
    input: &str,
    output: &str,
    input_format: Option<&str>,
    output_format: Option<&str>,
) -> (r: Result<(String, String), ConvertError>)
    ensures
        r is Ok == (format_resolves(input_format, input@) && format_resolves(output_format, output@)),
        match r {
            Ok((i, o)) => resolves_to(input_format, input@, Ok(i)) && resolves_to(output_format, output@, Ok(o)),
            Err(e) => if format_resolves(input_format, input@) {
                resolves_to(output_format, output@, Err(e))
            } else {
                resolves_to(input_format, input@, Err(e))
            },
        },
{
    let in_fmt = match resolve_format(input_format, input) {
        Ok(f) => f,
        Err(e) => {
            return Err(e);
        },
    };
    let out_fmt = match resolve_format(output_format, output) {
        Ok(f) => f,
        Err(e) => {
            return Err(e);
        },
    };
    Ok((in_fmt, out_fmt))
}

// ================================================================ KML text

/// `value` with `&`, `<` and `>` written as entities.
pub open spec fn spec_escape_xml(value: Seq<char>) -> Seq<char>
    decreases value.len(),
{
    if value.len() == 0 {
        Seq::empty()
    } else {
        let c = value.last();
        let tail = if c == '&' {
            "&amp;"@
        } else if c == '<' {
            "&lt;"@
        } else if c == '>' {
            "&gt;"@
        } else {
            seq![c]
        };
        spec_escape_xml(value.drop_last()) + tail
    }
}

/// Escapes `&`, `<` and `>` for KML element text.
pub fn escape_xml(value: &str) -> (r: String)
    ensures
        r@ == spec_escape_xml(value@),
{
    let n = value.unicode_len();
    let mut r = String::new();
    let mut i: usize = 0;
    while i < n
        invariant
            n == value@.len(),
            i <= n,
            r@ == spec_escape_xml(value@.take(i as int)),
        decreases n - i,
    {
        let c = value.get_char(i);
        assert(value@.take(i + 1).drop_last() =~= value@.take(i as int));
        if c == '&' {
            r.append("&amp;");
        } else if c == '<' {
            r.append("&lt;");
        } else if c == '>' {
            r.append("&gt;");
        } else {
            push_char(&mut r, c);
            assert(r@ =~= spec_escape_xml(value@.take(i as int)) + seq![c]);
        }
        i = i + 1;
    }
    assert(value@.take(n as int) =~= value@);
    r
}

/// Two spaces per level of depth.
pub open spec fn indent_text(depth: nat) -> Seq<char>
    decreases depth,
{
    if depth == 0 { Seq::empty() } else { indent_text((depth - 1) as nat) + "  "@ }
}

fn push_indent(out: &mut String, depth: usize)
    ensures
        final(out)@ == old(out)@ + indent_text(depth as nat),
{
    let mut i: usize = 0;
    while i < depth
        invariant
            i <= depth,
            out@ == old(out)@ + indent_text(i as nat),
        decreases depth - i,
    {
        out.append("  ");
        i = i + 1;
        assert(out@ =~= old(out)@ + indent_text(i as nat));
    }
}

/// The indentation written before a KML line when printing prettily.
pub open spec fn kml_lead(pretty: bool, depth: nat) -> Seq<char> {
    if pretty { indent_text(depth) } else { Seq::empty() }
}

/// The line break written after a KML line when printing prettily.
pub open spec fn kml_break(pretty: bool) -> Seq<char> {
    if pretty { "\n"@ } else { Seq::empty() }
}

/// `<tag>` on a line of its own.
pub open spec fn spec_kml_tag_open(tag: Seq<char>, pretty: bool, depth: nat) -> Seq<char> {
    kml_lead(pretty, depth) + "<"@ + tag + ">"@ + kml_break(pretty)
}

/// `</tag>` on a line of its own.
pub open spec fn spec_kml_tag_close(tag: Seq<char>, pretty: bool, depth: nat) -> Seq<char> {
    kml_lead(pretty, depth) + "</"@ + tag + ">"@ + kml_break(pretty)
}

/// `<tag>value</tag>` on a line of its own, the value escaped.
pub open spec fn spec_kml_text(tag: Seq<char>, value: Seq<char>, pretty: bool, depth: nat) -> Seq<char> {
    kml_lead(pretty, depth) + "<"@ + tag + ">"@ + spec_escape_xml(value) + "</"@ + tag + ">"@ + kml_break(pretty)
}

fn push_lead(out: &mut String, pretty: bool, depth: usize)
    ensures
        final(out)@ == old(out)@ + kml_lead(pretty, depth as nat),
{
    if pretty {
        push_indent(out, depth);
    } else {
        assert(out@ =~= out@ + Seq::<char>::empty());
    }
}

fn push_break(out: &mut String, pretty: bool)
    ensures
        final(out)@ == old(out)@ + kml_break(pretty),
{
    if pretty {
        push_char(out, '\n');
        assert(out@ =~= old(out)@ + "\n"@) by {
            reveal_strlit("\n");
        }
    } else {
        assert(out@ =~= out@ + Seq::<char>::empty());
    }
}

/// Writes an opening KML tag.
pub fn write_kml_tag_open(tag: &str, out: &mut String, pretty: bool, depth: usize)
    ensures
        final(out)@ == old(out)@ + spec_kml_tag_open(tag@, pretty, depth as nat),
{
    push_lead(out, pretty, depth);
    out.append("<");
    out.append(tag);
    out.append(">");
    push_break(out, pretty);
    assert(out@ =~= old(out)@ + spec_kml_tag_open(tag@, pretty, depth as nat));
}

/// Writes a closing KML tag.
pub fn write_kml_tag_close(tag: &str, out: &mut String, pretty: bool, depth: usize)
    ensures
        final(out)@ == old(out)@ + spec_kml_tag_close(tag@, pretty, depth as nat),
{
    push_lead(out, pretty, depth);
    out.append("</");
    out.append(tag);
    out.append(">");
    push_break(out, pretty);
    assert(out@ =~= old(out)@ + spec_kml_tag_close(tag@, pretty, depth as nat));
}

/// Writes a KML element holding escaped text.
pub fn write_kml_text(tag: &str, value: &str, out: &mut String, pretty: bool, depth: usize)
    ensures
        final(out)@ == old(out)@ + spec_kml_text(tag@, value@, pretty, depth as nat),
{
    push_lead(out, pretty, depth);
    out.append("<");
    out.append(tag);
    out.append(">");
    let escaped = escape_xml(value);
    out.append(escaped.as_str());
    out.append("</");
    out.append(tag);
    out.append(">");
    push_break(out, pretty);
    assert(out@ =~= old(out)@ + spec_kml_text(tag@, value@, pretty, depth as nat));
}

/// Writes a KML text element when there is a value; nothing otherwise.
pub fn write_kml_optional_text(tag: &str, value: Option<&str>, out: &mut String, pretty: bool, depth: usize)
    ensures
        match value {
            Some(v) => final(out)@ == old(out)@ + spec_kml_text(tag@, v@, pretty, depth as nat),
            None => final(out)@ == old(out)@,
        },
{
    if let Some(v) = value {
        write_kml_text(tag, v, out, pretty, depth);
    }
}

/// Opens a `Placemark`.
pub fn write_kml_placemark_start(out: &mut String, pretty: bool, depth: usize)
    ensures
        final(out)@ == old(out)@ + spec_kml_tag_open("Placemark"@, pretty, depth as nat),
{
    write_kml_tag_open("Placemark", out, pretty, depth);
}

/// Closes a `Placemark`.
pub fn write_kml_placemark_end(out: &mut String, pretty: bool, depth: usize)
    ensures
        final(out)@ == old(out)@ + spec_kml_tag_close("Placemark"@, pretty, depth as nat),
{
    write_kml_tag_close("Placemark", out, pretty, depth);
}

} // verus!

verus! {

/// `Display` of a JSON error. Nothing is stated of the text: serde_json
/// composes it from the error's kind and position.
#[verifier::external_body]
fn json_error_text(e: &serde_json::Error) -> String {
    format!("{e}")
}

/// How a conversion error reads, for the variants that carry only text.
pub open spec fn convert_error_text(e: ConvertError) -> Option<Seq<char>> {
    match e {
        ConvertError::Xml(m) => Some("XML error: "@ + m@),
        ConvertError::UnsupportedFormat(f) => Some("unsupported format: "@ + f@),
        ConvertError::UnsupportedGeometry(k) => Some("unsupported geometry type: "@ + k@),
        ConvertError::InvalidCoordinates(m) => Some("invalid coordinates: "@ + m@),
        ConvertError::MissingFormat => Some("could not detect file format from extension"@),
        ConvertError::Parse(p) => crate::error::parse_error_text(p),
        _ => None,
    }
}

impl ConvertError {
    /// The error as text.
    pub fn message(&self) -> (r: String)
        ensures
            convert_error_text(*self) matches Some(t) ==> r@ == t,
            self is Io ==> r@.len() >= 11 && r@.take(11) == "I/O error: "@,
            self is Json ==> r@.len() >= 12 && r@.take(12) == "JSON error: "@,
    {
        let mut out = String::new();
        match self {
            ConvertError::Io(e) => {
                out.append("I/O error: ");
                let t = crate::error::io_error_text(e);
                out.append(t.as_str());
                proof {
                    reveal_strlit("I/O error: ");
                }
                assert(out@.take(11) =~= "I/O error: "@);
            },
            ConvertError::Parse(p) => {
                out = p.message();
            },
            ConvertError::Json(e) => {
                out.append("JSON error: ");
                let t = json_error_text(e);
                out.append(t.as_str());
                proof {
                    reveal_strlit("JSON error: ");
                }
                assert(out@.take(12) =~= "JSON error: "@);
            },
            ConvertError::Xml(m) => {
                out.append("XML error: ");
                out.append(m.as_str());
            },
            ConvertError::UnsupportedFormat(f) => {
                out.append("unsupported format: ");
                out.append(f.as_str());
            },
            ConvertError::UnsupportedGeometry(k) => {
                out.append("unsupported geometry type: ");
                out.append(k.as_str());
            },
            ConvertError::InvalidCoordinates(m) => {
                out.append("invalid coordinates: ");
                out.append(m.as_str());
            },
            ConvertError::MissingFormat => {
                out.append("could not detect file format from extension");
            },
        }
        assert(convert_error_text(*self) matches Some(t) ==> out@ =~= t);
        out
    }
}

} // verus!
