//! Errors raised while reading GPX values, and the outside error types they carry.

use vstd::prelude::*;

verus! {

/// `std::io::Error`, carried through unchanged.
#[verifier::external_type_specification]
#[verifier::external_body]
pub struct ExIoError(std::io::Error);

/// `quick_xml::DeError`, carried through unchanged.
#[verifier::external_type_specification]
#[verifier::external_body]
pub struct ExDeError(quick_xml::DeError);

/// `serde_json::Error`, carried through unchanged.
#[verifier::external_type_specification]
#[verifier::external_body]
pub struct ExJsonError(serde_json::Error);

/// Why a GPX document or one of its values could not be read.
#[derive(Debug)]
pub enum ParseError {
    /// The XML deserializer failed.
    De(quick_xml::DeError),
    /// Reading the input failed.
    Io(std::io::Error),
    /// A required attribute is absent.
    MissingAttribute { element: &'static str, attribute: &'static str },
    /// An attribute (or a numeric child) does not hold a valid value.
    InvalidAttribute { element: &'static str, attribute: &'static str, value: String },
    /// A timestamp is not RFC 3339.
    InvalidTime(String),
    /// An element holds a value outside its enumeration.
    InvalidValue { element: &'static str, value: String },
    /// The document ended inside an element.
    UnexpectedEof,
}

} // verus!

verus! {

/// `Display` of an I/O error. Nothing is stated of the text: it comes from
/// the operating system.
#[verifier::external_body]
pub(crate) fn io_error_text(e: &std::io::Error) -> String {
    format!("{e}")
}

/// `Display` of a deserializer error. Nothing is stated of the text:
/// quick_xml composes it from the error's kind and position.
#[verifier::external_body]
pub(crate) fn de_error_text(e: &quick_xml::DeError) -> String {
    format!("{e}")
}

/// How a parse error reads, for the variants that carry no outside error.
pub open spec fn parse_error_text(e: ParseError) -> Option<Seq<char>> {
    match e {
        ParseError::MissingAttribute { element, attribute } => Some(
            "missing attribute `"@ + attribute@ + "` on `<"@ + element@ + ">`"@,
        ),
        ParseError::InvalidAttribute { element, attribute, value } => Some(
            "invalid attribute `"@ + attribute@ + "` on `<"@ + element@ + ">`: `"@ + value@ + "`"@,
        ),
        ParseError::InvalidTime(value) => Some("invalid GPX time: `"@ + value@ + "`"@),
        ParseError::InvalidValue { element, value } => Some(
            "invalid value for `<"@ + element@ + ">`: `"@ + value@ + "`"@,
        ),
        ParseError::UnexpectedEof => Some("unexpected end of GPX document"@),
        _ => None,
    }
}

impl ParseError {
    /// The error as text; an error from the deserializer or from reading
    /// is prefixed with where it came from.
    pub fn message(&self) -> (r: String)
        ensures
            parse_error_text(*self) matches Some(t) ==> r@ == t,
            self is De ==> r@.len() >= 27 && r@.take(27) == "GPX deserialization error: "@,
            self is Io ==> r@.len() >= 15 && r@.take(15) == "GPX I/O error: "@,
    {
        let mut out = String::new();
        match self {
            ParseError::De(e) => {
                out.append("GPX deserialization error: ");
                let t = de_error_text(e);
                out.append(t.as_str());
                proof {
                    reveal_strlit("GPX deserialization error: ");
                }
                assert(out@.take(27) =~= "GPX deserialization error: "@);
            },
            ParseError::Io(e) => {
                out.append("GPX I/O error: ");
                let t = io_error_text(e);
                out.append(t.as_str());
                proof {
                    reveal_strlit("GPX I/O error: ");
                }
                assert(out@.take(15) =~= "GPX I/O error: "@);
            },
            ParseError::MissingAttribute { element, attribute } => {
                out.append("missing attribute `");
                out.append(attribute);
                out.append("` on `<");
                out.append(element);
                out.append(">`");
            },
            ParseError::InvalidAttribute { element, attribute, value } => {
                out.append("invalid attribute `");
                out.append(attribute);
                out.append("` on `<");
                out.append(element);
                out.append(">`: `");
                out.append(value.as_str());
                out.append("`");
            },
            ParseError::InvalidTime(value) => {
                out.append("invalid GPX time: `");
                out.append(value.as_str());
                out.append("`");
            },
            ParseError::InvalidValue { element, value } => {
                out.append("invalid value for `<");
                out.append(element);
                out.append(">`: `");
                out.append(value.as_str());
                out.append("`");
            },
            ParseError::UnexpectedEof => {
                out.append("unexpected end of GPX document");
            },
        }
        assert(parse_error_text(*self) matches Some(t) ==> out@ =~= t);
        out
    }
}

} // verus!
