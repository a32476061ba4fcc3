//! Trusted access to the `quick_xml` pull parser.
//!
//! Each item here makes one call into `quick_xml` (or into std's UTF-8
//! decoding) and converts its result into plain values. The events of a
//! document are a function of its text alone; they are named by
//! `xml_events_of`, and the reader's contracts say which of them it reports.

use vstd::prelude::*;
use quick_xml::events::attributes::{AttrError, Attribute, Attributes};
use quick_xml::events::{BytesCData, BytesStart, BytesText, Event};
use quick_xml::name::ResolveResult;
use quick_xml::NsReader;

verus! {

/// Declares `quick_xml::NsReader` (a namespace-aware pull parser).
#[verifier::external_type_specification]
#[verifier::external_body]
#[verifier::reject_recursive_types(R)]
pub struct ExNsReader<R>(NsReader<R>);

/// Declares `quick_xml::events::BytesStart` (an opening or empty tag).
#[verifier::external_type_specification]
#[verifier::external_body]
pub struct ExBytesStart<'a>(BytesStart<'a>);

/// Declares `quick_xml::events::BytesText` (character data).
#[verifier::external_type_specification]
#[verifier::external_body]
pub struct ExBytesText<'a>(BytesText<'a>);

/// Declares `quick_xml::events::BytesCData` (a CDATA section).
#[verifier::external_type_specification]
#[verifier::external_body]
pub struct ExBytesCData<'a>(BytesCData<'a>);

/// Declares `quick_xml::events::attributes::Attributes` (an attribute iterator).
#[verifier::external_type_specification]
#[verifier::external_body]
pub struct ExAttributes<'a>(Attributes<'a>);

/// Declares `quick_xml::events::attributes::Attribute` (one `key="value"` pair),
/// the item type of the attribute iterator.
#[verifier::external_type_specification]
#[verifier::external_body]
pub struct ExAttribute<'a>(Attribute<'a>);

/// Declares `quick_xml::events::attributes::AttrError` (a malformed attribute),
/// the error type of the attribute iterator.
#[verifier::external_type_specification]
#[verifier::external_body]
pub struct ExAttrError(AttrError);

/// One event of the pull parser, with its payload taken over as owned data;
/// a start or empty-element tag comes with the bytes of the namespace it
/// resolves to (empty when none is bound).
pub enum NsEvent {
    Start(Vec<u8>, BytesStart<'static>),
    Empty(Vec<u8>, BytesStart<'static>),
    End,
    Text(BytesText<'static>),
    CData(BytesCData<'static>),
    Eof,
    Other,
    Failed(String),
}

/// The content of an event.
pub enum XmlEventV {
    Start(Seq<u8>, BytesStart<'static>),
    Empty(Seq<u8>, BytesStart<'static>),
    End,
    Text(BytesText<'static>),
    CData(BytesCData<'static>),
    Eof,
    Other,
    Failed(Seq<char>),
}

/// The content of an event.
pub open spec fn event_view(e: NsEvent) -> XmlEventV {
    match e {
        NsEvent::Start(n, t) => XmlEventV::Start(n@, t),
        NsEvent::Empty(n, t) => XmlEventV::Empty(n@, t),
        NsEvent::End => XmlEventV::End,
        NsEvent::Text(t) => XmlEventV::Text(t),
        NsEvent::CData(c) => XmlEventV::CData(c),
        NsEvent::Eof => XmlEventV::Eof,
        NsEvent::Other => XmlEventV::Other,
        NsEvent::Failed(m) => XmlEventV::Failed(m@),
    }
}

/// The end of input, or an error.
pub open spec fn is_last_event(e: XmlEventV) -> bool {
    e is Eof || e is Failed
}

/// A sequence of events that ends with its only end of input or error.
pub open spec fn ends_at_last(s: Seq<(u64, XmlEventV)>) -> bool {
    &&& s.len() > 0
    &&& is_last_event(s.last().1)
    &&& forall|i: int| 0 <= i < s.len() - 1 ==> !is_last_event(#[trigger] s[i].1)
}

/// The events that `NsReader::from_str` reports for `data`, in order, up to
/// and including the first end of input or error, each with the reader's
/// `buffer_position` just before it was read.
pub uninterp spec fn xml_events_of(data: Seq<char>) -> Seq<(u64, XmlEventV)>;

/// The events, with their positions, that a reader has still to report, up
/// to and including the first end of input or error.
pub uninterp spec fn ns_pending(reader: NsReader<&[u8]>) -> Seq<(u64, XmlEventV)>;

/// The local name of a tag, as bytes (`BytesStart::local_name`).
pub uninterp spec fn tag_local_of(e: BytesStart<'static>) -> Seq<u8>;

/// The bytes of a text event, still escaped.
pub uninterp spec fn text_bytes_of(e: BytesText<'static>) -> Seq<u8>;

/// The bytes of a CDATA section.
pub uninterp spec fn cdata_bytes_of(e: BytesCData<'static>) -> Seq<u8>;

/// What `BytesText::unescape` gives for escaped UTF-8 text: the text with
/// entity and character references replaced, or the error's display text.
pub uninterp spec fn unescape_of(bytes: Seq<u8>) -> Result<Seq<char>, Seq<char>>;

/// What `BytesCData::escape` gives for the bytes of a CDATA section: the
/// bytes of the escaped text, or the error's display text.
pub uninterp spec fn cdata_escape_of(bytes: Seq<u8>) -> Result<Seq<u8>, Seq<char>>;

/// What `String::from_utf8_lossy` gives for some bytes.
pub uninterp spec fn lossy_of(bytes: Seq<u8>) -> Seq<char>;

/// What `std::str::from_utf8` gives for some bytes, or the empty text when
/// they are not valid UTF-8.
pub uninterp spec fn utf8_or_empty_of(bytes: Seq<u8>) -> Seq<char>;

/// One step of an attribute iterator: the end of the list, a malformed
/// entry, or an attribute's local key (decoded lossily) with its value
/// decoded and unescaped, or the message of why that failed.
pub enum AttrItem {
    Done,
    Malformed,
    Attr(String, Result<String, String>),
}

/// One entry of a tag's attribute list: malformed, or an attribute's local
/// key with its decoded and unescaped value (or the error message).
pub enum AttrEntryV {
    Malformed,
    Attr(Seq<char>, Result<Seq<char>, Seq<char>>),
}

/// The content of an iterator step that is an entry.
pub open spec fn attr_item_is(item: AttrItem, entry: AttrEntryV) -> bool {
    match (item, entry) {
        (AttrItem::Malformed, AttrEntryV::Malformed) => true,
        (AttrItem::Attr(k, Ok(v)), AttrEntryV::Attr(k2, Ok(v2))) => k@ == k2 && v@ == v2,
        (AttrItem::Attr(k, Err(m)), AttrEntryV::Attr(k2, Err(m2))) => k@ == k2 && m@ == m2,
        _ => false,
    }
}

/// The entries that `BytesStart::attributes` yields for a tag, in order.
pub uninterp spec fn tag_attributes(e: BytesStart<'static>) -> Seq<AttrEntryV>;

/// The entries that an attribute iterator has still to yield.
pub uninterp spec fn attributes_pending(it: Attributes<'_>) -> Seq<AttrEntryV>;

/// `NsReader::from_str`: a reader over `data`, with the default configuration
/// (text is not trimmed).
///
/// Trusted: the events it will report are the ones `xml_events_of` names for
/// `data`; they are finitely many, since each event other than the end of
/// input or an error consumes input.
#[verifier::external_body]
pub(crate) fn ns_reader_from_str(data: &str) -> (r: NsReader<&[u8]>)
    ensures
        ns_pending(r) == xml_events_of(data@),
        ends_at_last(ns_pending(r)),
{
    NsReader::from_str(data)
}

/// `NsReader::buffer_position`: the byte offset that the reader has reached.
///
/// Trusted: while events remain, it is the position recorded for the next one.
#[verifier::external_body]
pub(crate) fn ns_reader_position(reader: &NsReader<&[u8]>) -> (r: u64)
    ensures
        ns_pending(*reader).len() > 0 ==> r == ns_pending(*reader)[0].0,
{
    reader.buffer_position()
}

/// `NsReader::read_resolved_event_into`: the next event, with the namespace
/// of a tag resolved; an error is kept as its display text.
///
/// Trusted: while events remain, the event is the first of them, and the
/// reader then has the rest still to report.
#[verifier::external_body]
pub(crate) fn ns_read_event(reader: &mut NsReader<&[u8]>, buf: &mut Vec<u8>) -> (r: NsEvent)
    ensures
        ns_pending(*old(reader)).len() > 0 ==> {
            &&& event_view(r) == ns_pending(*old(reader))[0].1
            &&& ns_pending(*final(reader)) == ns_pending(*old(reader)).drop_first()
        },
{
    let (n, ev) = match reader.read_resolved_event_into(buf) {
        Ok(x) => x,
        Err(x) => return NsEvent::Failed(x.to_string()),
    };
    let ns = match n { ResolveResult::Bound(b) => b.0.to_vec(), _ => Vec::new() };
    match ev {
        Event::Start(e) => NsEvent::Start(ns, e.into_owned()),
        Event::Empty(e) => NsEvent::Empty(ns, e.into_owned()),
        Event::End(_) => NsEvent::End,
        Event::Text(e) => NsEvent::Text(e.into_owned()),
        Event::CData(e) => NsEvent::CData(e.into_owned()),
        Event::Eof => NsEvent::Eof,
        _ => NsEvent::Other,
    }
}

/// `BytesStart::local_name`: the tag name without its prefix, as bytes.
#[verifier::external_body]
pub(crate) fn tag_local_name(e: &BytesStart<'static>) -> (r: Vec<u8>)
    ensures
        r@ == tag_local_of(*e),
{
    e.local_name().as_ref().to_vec()
}

/// `BytesText::unescape`: the text with references replaced; an error is
/// kept as its display text.
#[verifier::external_body]
pub(crate) fn text_unescape(e: &BytesText<'static>) -> (r: Result<String, String>)
    ensures
        unescape_of(text_bytes_of(*e)) == match r { Ok(t) => Ok(t@), Err(m) => Err::<Seq<char>, Seq<char>>(m@) },
{
    e.unescape().map(|v| v.into_owned()).map_err(|err| err.to_string())
}

/// The bytes of a text with `<`, `>`, `&`, `'` and `"` written as the
/// entities `&lt;`, `&gt;`, `&amp;`, `&apos;` and `&quot;`.
pub open spec fn escaped_bytes(b: Seq<u8>) -> Seq<u8>
    decreases b.len(),
{
    if b.len() == 0 {
        Seq::empty()
    } else {
        let c = b.last();
        escaped_bytes(b.drop_last()) + if c == 60u8 {
            seq![38u8, 108u8, 116u8, 59u8]
        } else if c == 62u8 {
            seq![38u8, 103u8, 116u8, 59u8]
        } else if c == 38u8 {
            seq![38u8, 97u8, 109u8, 112u8, 59u8]
        } else if c == 39u8 {
            seq![38u8, 97u8, 112u8, 111u8, 115u8, 59u8]
        } else if c == 34u8 {
            seq![38u8, 113u8, 117u8, 111u8, 116u8, 59u8]
        } else {
            seq![c]
        }
    }
}

/// `BytesCData::escape`: the section as escaped text, as bytes; an error is
/// kept as its display text.
///
/// Trusted: the result is the one `cdata_escape_of` names; when the section
/// is read, its bytes come back with the five XML escapes applied (the
/// section decodes as UTF-8 first, whose failure is the error).
#[verifier::external_body]
pub(crate) fn cdata_escape(e: BytesCData<'static>) -> (r: Result<Vec<u8>, String>)
    ensures
        cdata_escape_of(cdata_bytes_of(e)) == match r { Ok(b) => Ok(b@), Err(m) => Err::<Seq<u8>, Seq<char>>(m@) },
        r matches Ok(b) ==> b@ == escaped_bytes(cdata_bytes_of(e)),
{
    e.escape().map(|t| t.to_vec()).map_err(|err| err.to_string())
}

/// `String::from_utf8_lossy`: the text of some bytes, with invalid
/// sequences replaced.
#[verifier::external_body]
pub(crate) fn lossy_text(bytes: &[u8]) -> (r: String)
    ensures
        r@ == lossy_of(bytes@),
{
    String::from_utf8_lossy(bytes).into_owned()
}

/// `std::str::from_utf8`: the text of some bytes, or the empty text when
/// they are not valid UTF-8.
#[verifier::external_body]
pub(crate) fn utf8_or_empty(bytes: &[u8]) -> (r: String)
    ensures
        r@ == utf8_or_empty_of(bytes@),
{
    std::str::from_utf8(bytes).unwrap_or_default().to_owned()
}

/// `BytesStart::attributes`: an iterator over the tag's attributes.
///
/// Trusted: it has all the entries that `tag_attributes` names still to yield.
#[verifier::external_body]
pub(crate) fn start_attributes<'a>(e: &'a BytesStart<'static>) -> (r: Attributes<'a>)
    ensures
        attributes_pending(r) == tag_attributes(*e),
{
    e.attributes()
}

/// `Iterator::next` on `Attributes`; an attribute is converted into its
/// local key (`QName::local_name`, decoded lossily) and its value
/// (`Attribute::decode_and_unescape_value` with the reader's decoder, which
/// without the `encoding` feature is UTF-8 whatever the reader; an error kept
/// as its display text).
///
/// Trusted: the step is the first pending entry, and the rest stay pending;
/// with nothing pending the iterator is done (it is fused).
#[verifier::external_body]
pub(crate) fn next_attribute<'a>(reader: &NsReader<&[u8]>, attrs: &mut Attributes<'a>) -> (r: AttrItem)
    ensures
        attributes_pending(*old(attrs)).len() > 0 ==> {
            &&& attr_item_is(r, attributes_pending(*old(attrs))[0])
            &&& attributes_pending(*final(attrs)) == attributes_pending(*old(attrs)).drop_first()
        },
        attributes_pending(*old(attrs)).len() == 0 ==> r is Done,
{
    match attrs.next() {
        None => AttrItem::Done,
        Some(Err(_)) => AttrItem::Malformed,
        Some(Ok(a)) => AttrItem::Attr(
            String::from_utf8_lossy(a.key.local_name().as_ref()).into_owned(),
            a.decode_and_unescape_value(reader.decoder()).map(|v| v.into_owned()).map_err(|e| e.to_string()),
        ),
    }
}

} // verus!
