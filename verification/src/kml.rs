//! Reading the placemarks of a KML 2.2 document.
//!
//! The reader's events drive a small state machine ([`KmlState::step`]) that
//! collects, for each `Placemark`, its name, description and the raw text of
//! its coordinates.

use vstd::prelude::*;
use quick_xml::events::Event;
use quick_xml::Reader;
use crate::convert::{ConvertError, KML_NS};
use crate::model::{Binary64, Waypoint};
use crate::text::{chars_of, str_eq, string_from_chars, trim, trim_chars};
use crate::values::{remove_all, remove_occurrences};

verus! {

// ================================================================ namespace

/// ` xmlns="<KML namespace>"`, with the given quote.
pub open spec fn kml_namespace_attr(quote: char) -> Seq<char> {
    " xmlns="@ + seq![quote] + KML_NS@ + seq![quote]
}

/// The document with the default KML namespace declaration taken out, first
/// in its double-quoted, then in its single-quoted form.
pub open spec fn spec_strip_kml_namespace(xml: Seq<char>) -> Seq<char> {
    remove_all(remove_all(xml, kml_namespace_attr('"')), kml_namespace_attr('\''))
}

fn kml_attr(quote: char) -> (r: Vec<char>)
    ensures
        r@ == kml_namespace_attr(quote),
{
    let mut v = chars_of(" xmlns=");
    v.push(quote);
    let ns = chars_of(KML_NS);
    let mut k: usize = 0;
    let ghost start = v@;
    assert(v@ =~= start + ns@.take(0));
    while k < ns.len()
        invariant
            k <= ns@.len(),
            v@ == start + ns@.take(k as int),
        decreases ns.len() - k,
    {
        v.push(ns[k]);
        k = k + 1;
        assert(v@ =~= start + ns@.take(k as int));
    }
    assert(ns@.take(ns@.len() as int) =~= ns@);
    v.push(quote);
    assert(v@ =~= kml_namespace_attr(quote));
    v
}

/// Removes the default KML namespace declaration, so that element names
/// can be matched without their namespace.
pub fn strip_kml_namespace(xml: &str) -> (r: String)
    ensures
        r@ == spec_strip_kml_namespace(xml@),
{
    let chars = chars_of(xml);
    let double = kml_attr('"');
    let single = kml_attr('\'');
    let once = remove_occurrences(chars.as_slice(), double.as_slice());
    let twice = remove_occurrences(once.as_slice(), single.as_slice());
    string_from_chars(twice.as_slice())
}

// ================================================================ placemarks

/// What was collected for one `Placemark`.
#[derive(Debug, Default)]
pub struct KmlPlacemarkData {
    pub name: Option<String>,
    pub description: Option<String>,
    /// Raw coordinates text of a `Point`.
    pub point: Option<String>,
    /// Raw coordinates text of a `LineString`.
    pub line_string: Option<String>,
    /// Raw coordinates text of each line of a `MultiGeometry`.
    pub multi_geometry: Option<Vec<String>>,
}

/// The content of a placemark.
pub struct PlacemarkV {
    pub name: Option<Seq<char>>,
    pub description: Option<Seq<char>>,
    pub point: Option<Seq<char>>,
    pub line_string: Option<Seq<char>>,
    pub multi_geometry: Option<Seq<Seq<char>>>,
}

/// The content of an optional string.
pub open spec fn opt_chars(s: Option<String>) -> Option<Seq<char>> {
    match s {
        Some(v) => Some(v@),
        None => None,
    }
}

/// The contents of a list of strings.
pub open spec fn string_views(s: Seq<String>) -> Seq<Seq<char>> {
    s.map_values(|x: String| x@)
}

impl View for KmlPlacemarkData {
    type V = PlacemarkV;

    open spec fn view(&self) -> PlacemarkV {
        PlacemarkV {
            name: opt_chars(self.name),
            description: opt_chars(self.description),
            point: opt_chars(self.point),
            line_string: opt_chars(self.line_string),
            multi_geometry: match self.multi_geometry {
                Some(v) => Some(string_views(v@)),
                None => None,
            },
        }
    }
}

/// A placemark with nothing collected yet.
pub open spec fn empty_placemark() -> PlacemarkV {
    PlacemarkV { name: None, description: None, point: None, line_string: None, multi_geometry: None }
}

/// The state of the reader: placemarks finished so far, the one being read,
/// the names of the open elements, and the coordinates text being gathered.
pub struct KmlState {
    pub placemarks: Vec<KmlPlacemarkData>,
    pub current: Option<KmlPlacemarkData>,
    pub element_stack: Vec<String>,
    pub text: String,
}

/// The content of a reader state.
pub struct KmlStateV {
    pub placemarks: Seq<PlacemarkV>,
    pub current: Option<PlacemarkV>,
    pub stack: Seq<Seq<char>>,
    pub text: Seq<char>,
}

/// The content of each placemark.
pub open spec fn placemark_views(s: Seq<KmlPlacemarkData>) -> Seq<PlacemarkV> {
    s.map_values(|p: KmlPlacemarkData| p@)
}

impl View for KmlState {
    type V = KmlStateV;

    open spec fn view(&self) -> KmlStateV {
        KmlStateV {
            placemarks: placemark_views(self.placemarks@),
            current: match self.current {
                Some(p) => Some(p@),
                None => None,
            },
            stack: string_views(self.element_stack@),
            text: self.text@,
        }
    }
}

/// One thing the reader reports, as the state machine sees it.
pub enum KmlInput {
    /// A start tag or an empty-element tag, by local name.
    Open(String),
    /// Unescaped character data, or why it could not be unescaped.
    Text(Result<String, String>),
    /// An end tag, by local name.
    Close(String),
    /// Anything that changes nothing.
    Skip,
}

/// The content of an input.
pub enum KmlInputV {
    Open(Seq<char>),
    Text(Result<Seq<char>, Seq<char>>),
    Close(Seq<char>),
    Skip,
}

impl View for KmlInput {
    type V = KmlInputV;

    open spec fn view(&self) -> KmlInputV {
        match self {
            KmlInput::Open(n) => KmlInputV::Open(n@),
            KmlInput::Text(Ok(t)) => KmlInputV::Text(Ok(t@)),
            KmlInput::Text(Err(m)) => KmlInputV::Text(Err(m@)),
            KmlInput::Close(n) => KmlInputV::Close(n@),
            KmlInput::Skip => KmlInputV::Skip,
        }
    }
}

/// The innermost open element is `tag`.
pub open spec fn top_is(s: KmlStateV, tag: Seq<char>) -> bool {
    s.stack.len() > 0 && s.stack.last() == tag
}

/// Whether character data matters in this state: inside `coordinates`, or
/// inside a `name` or `description` of a placemark.
pub open spec fn spec_needs_text(s: KmlStateV) -> bool {
    top_is(s, "coordinates"@) || ((top_is(s, "name"@) || top_is(s, "description"@)) && s.current is Some)
}

/// The state after an opening tag.
pub open spec fn spec_open(s: KmlStateV, name: Seq<char>) -> KmlStateV {
    let cur = if name == "Placemark"@ { Some(empty_placemark()) } else { s.current };
    KmlStateV {
        current: match cur {
            Some(p) => Some(
                if name == "MultiGeometry"@ && p.multi_geometry is None {
                    PlacemarkV { multi_geometry: Some(Seq::empty()), ..p }
                } else {
                    p
                },
            ),
            None => None,
        },
        text: if cur is Some && name == "coordinates"@ { Seq::empty() } else { s.text },
        stack: s.stack.push(name),
        ..s
    }
}

/// The state after character data.
pub open spec fn spec_text(s: KmlStateV, t: Result<Seq<char>, Seq<char>>) -> Result<KmlStateV, Seq<char>> {
    if !spec_needs_text(s) {
        Ok(s)
    } else {
        match t {
            Err(m) => Err(m),
            Ok(v) => if top_is(s, "coordinates"@) {
                Ok(KmlStateV { text: s.text + v, ..s })
            } else {
                let p = s.current.unwrap();
                Ok(KmlStateV {
                    current: Some(
                        if top_is(s, "name"@) {
                            PlacemarkV { name: Some(v), ..p }
                        } else {
                            PlacemarkV { description: Some(v), ..p }
                        },
                    ),
                    ..s
                })
            },
        }
    }
}

/// A placemark after its coordinates were read inside the open elements `stack`.
pub open spec fn attach_coordinates(p: PlacemarkV, stack: Seq<Seq<char>>, coords: Seq<char>) -> PlacemarkV {
    if stack.contains("MultiGeometry"@) {
        match p.multi_geometry {
            Some(l) => PlacemarkV { multi_geometry: Some(l.push(coords)), ..p },
            None => p,
        }
    } else if stack.contains("LineString"@) {
        PlacemarkV { line_string: Some(coords), ..p }
    } else if stack.contains("Point"@) {
        PlacemarkV { point: Some(coords), ..p }
    } else {
        p
    }
}

/// The state after a closing tag.
pub open spec fn spec_close(s: KmlStateV, name: Seq<char>) -> KmlStateV {
    let s1 = if name == "coordinates"@ {
        KmlStateV {
            current: match s.current {
                Some(p) => Some(attach_coordinates(p, s.stack, trim(s.text))),
                None => None,
            },
            text: Seq::empty(),
            ..s
        }
    } else {
        s
    };
    let s2 = if name == "Placemark"@ {
        match s1.current {
            Some(p) => KmlStateV { placemarks: s1.placemarks.push(p), current: None, ..s1 },
            None => s1,
        }
    } else {
        s1
    };
    KmlStateV { stack: if s2.stack.len() > 0 { s2.stack.drop_last() } else { s2.stack }, ..s2 }
}

/// One step of the state machine: the new state, or the message of a text
/// that could not be unescaped.
pub open spec fn spec_step(s: KmlStateV, input: KmlInputV) -> Result<KmlStateV, Seq<char>> {
    match input {
        KmlInputV::Open(name) => Ok(spec_open(s, name)),
        KmlInputV::Text(t) => spec_text(s, t),
        KmlInputV::Close(name) => Ok(spec_close(s, name)),
        KmlInputV::Skip => Ok(s),
    }
}

/// The state after a sequence of inputs, or the first error.
pub open spec fn spec_run(s: KmlStateV, inputs: Seq<KmlInputV>) -> Result<KmlStateV, Seq<char>>
    decreases inputs.len(),
{
    if inputs.len() == 0 {
        Ok(s)
    } else {
        match spec_run(s, inputs.drop_last()) {
            Ok(t) => spec_step(t, inputs.last()),
            Err(m) => Err(m),
        }
    }
}

/// The state before the first event.
pub open spec fn initial_state() -> KmlStateV {
    KmlStateV { placemarks: Seq::empty(), current: None, stack: Seq::empty(), text: Seq::empty() }
}

fn stack_contains(stack: &Vec<String>, tag: &str) -> (r: bool)
    ensures
        r == string_views(stack@).contains(tag@),
{
    let mut i: usize = 0;
    while i < stack.len()
        invariant
            i <= stack@.len(),
            forall|j: int| 0 <= j < i ==> stack@[j]@ != tag@,
        decreases stack.len() - i,
    {
        if str_eq(stack[i].as_str(), tag) {
            assert(string_views(stack@)[i as int] == tag@);
            return true;
        }
        i = i + 1;
    }
    assert forall|j: int| 0 <= j < string_views(stack@).len() implies string_views(stack@)[j] != tag@ by {
        assert(string_views(stack@)[j] == stack@[j]@);
    }
    false
}

fn top_equals(stack: &Vec<String>, tag: &str) -> (r: bool)
    ensures
        r == (string_views(stack@).len() > 0 && string_views(stack@).last() == tag@),
{
    if stack.len() == 0 {
        return false;
    }
    str_eq(stack[stack.len() - 1].as_str(), tag)
}

impl KmlState {
    /// The state before the first event.
    pub fn new() -> (r: Self)
        ensures
            r@ == initial_state(),
    {
        let r = KmlState { placemarks: Vec::new(), current: None, element_stack: Vec::new(), text: String::new() };
        assert(r@.placemarks =~= Seq::<PlacemarkV>::empty());
        assert(r@.stack =~= Seq::<Seq<char>>::empty());
        r
    }

    /// Whether character data matters in this state.
    pub fn needs_text(&self) -> (r: bool)
        ensures
            r == spec_needs_text(self@),
    {
        top_equals(&self.element_stack, "coordinates")
            || ((top_equals(&self.element_stack, "name") || top_equals(&self.element_stack, "description"))
            && self.current.is_some())
    }

    fn open(&mut self, name: String)
        ensures
            final(self)@ == spec_open(old(self)@, name@),
    {
        let ghost s = self@;
        if str_eq(name.as_str(), "Placemark") {
            self.current = Some(KmlPlacemarkData::default_data());
        }
        let is_multi = str_eq(name.as_str(), "MultiGeometry");
        let is_coords = str_eq(name.as_str(), "coordinates");
        match &mut self.current {
            Some(p) => {
                if is_multi && p.multi_geometry.is_none() {
                    p.multi_geometry = Some(Vec::new());
                    assert(string_views(Seq::<String>::empty()) =~= Seq::<Seq<char>>::empty());
                }
                if is_coords {
                    self.text = String::new();
                }
            },
            None => {},
        }
        let ghost before = self.element_stack@;
        self.element_stack.push(name);
        assert(string_views(self.element_stack@) =~= string_views(before).push(name@));
        assert(self@.placemarks == s.placemarks);
    }

    fn close(&mut self, name: String)
        ensures
            final(self)@ == spec_close(old(self)@, name@),
    {
        let ghost s = self@;
        if str_eq(name.as_str(), "coordinates") {
            let in_multi = stack_contains(&self.element_stack, "MultiGeometry");
            let in_line = stack_contains(&self.element_stack, "LineString");
            let in_point = stack_contains(&self.element_stack, "Point");
            let raw = chars_of(self.text.as_str());
            let trimmed = trim_chars(raw.as_slice());
            let coords = string_from_chars(trimmed.as_slice());
            match &mut self.current {
                Some(p) => {
                    if in_multi {
                        match &mut p.multi_geometry {
                            Some(lines) => {
                                let ghost before = lines@;
                                lines.push(coords);
                                assert(string_views(lines@) =~= string_views(before).push(coords@));
                            },
                            None => {},
                        }
                    } else if in_line {
                        p.line_string = Some(coords);
                    } else if in_point {
                        p.point = Some(coords);
                    }
                },
                None => {},
            }
            self.text = String::new();
        }
        let ghost s1 = self@;
        if str_eq(name.as_str(), "Placemark") {
            match self.current.take() {
                Some(p) => {
                    let ghost before = self.placemarks@;
                    self.placemarks.push(p);
                    assert(placemark_views(self.placemarks@) =~= placemark_views(before).push(p@));
                },
                None => {},
            }
        }
        let ghost s2 = self@;
        let ghost before = self.element_stack@;
        if self.element_stack.len() > 0 {
            let _ = self.element_stack.pop();
            assert(string_views(self.element_stack@) =~= string_views(before).drop_last());
        }
    }

    fn text_input(&mut self, t: Result<String, String>) -> (r: Result<(), String>)
        ensures
            match spec_text(old(self)@, match t { Ok(v) => Ok(v@), Err(m) => Err(m@) }) {
                Ok(s) => r is Ok && final(self)@ == s,
                Err(m) => r matches Err(e) && e@ == m,
            },
    {
        if !self.needs_text() {
            return Ok(());
        }
        let v = match t {
            Ok(v) => v,
            Err(m) => {
                return Err(m);
            },
        };
        if top_equals(&self.element_stack, "coordinates") {
            self.text.append(v.as_str());
            return Ok(());
        }
        let is_name = top_equals(&self.element_stack, "name");
        match &mut self.current {
            Some(p) => {
                if is_name {
                    p.name = Some(v);
                } else {
                    p.description = Some(v);
                }
            },
            None => {},
        }
        Ok(())
    }

    /// Applies one input to the state.
    pub fn step(&mut self, input: KmlInput) -> (r: Result<(), ConvertError>)
        ensures
            match spec_step(old(self)@, input@) {
                Ok(s) => r is Ok && final(self)@ == s,
                Err(m) => r matches Err(ConvertError::Xml(e)) && e@ == m,
            },
    {
        match input {
            KmlInput::Open(name) => {
                self.open(name);
                Ok(())
            },
            KmlInput::Text(t) => match self.text_input(t) {
                Ok(()) => Ok(()),
                Err(m) => Err(ConvertError::Xml(m)),
            },
            KmlInput::Close(name) => {
                self.close(name);
                Ok(())
            },
            KmlInput::Skip => Ok(()),
        }
    }
}

impl KmlPlacemarkData {
    /// A placemark with nothing collected yet.
    pub fn default_data() -> (r: Self)
        ensures
            r@ == empty_placemark(),
    {
        KmlPlacemarkData { name: None, description: None, point: None, line_string: None, multi_geometry: None }
    }
}

// ================================================================ reader

/// Declares `quick_xml::Reader`.
#[verifier::external_type_specification]
#[verifier::external_body]
#[verifier::reject_recursive_types(R)]
pub struct ExReader<R>(Reader<R>);

/// One event of the KML reader: tag names are taken by their local name,
/// decoded lossily, and text comes unescaped (or with the message of why it
/// could not be).
pub enum KmlEvent {
    Start(String),
    Empty(String),
    End(String),
    Text(Result<String, String>),
    Eof,
    Other,
    Failed(String),
}

/// The content of a reader event.
pub enum KmlEventV {
    Start(Seq<char>),
    Empty(Seq<char>),
    End(Seq<char>),
    Text(Result<Seq<char>, Seq<char>>),
    Eof,
    Other,
    Failed(Seq<char>),
}

impl View for KmlEvent {
    type V = KmlEventV;

    open spec fn view(&self) -> KmlEventV {
        match self {
            KmlEvent::Start(n) => KmlEventV::Start(n@),
            KmlEvent::Empty(n) => KmlEventV::Empty(n@),
            KmlEvent::End(n) => KmlEventV::End(n@),
            KmlEvent::Text(Ok(t)) => KmlEventV::Text(Ok(t@)),
            KmlEvent::Text(Err(m)) => KmlEventV::Text(Err(m@)),
            KmlEvent::Eof => KmlEventV::Eof,
            KmlEvent::Other => KmlEventV::Other,
            KmlEvent::Failed(m) => KmlEventV::Failed(m@),
        }
    }
}

/// The events that `quick_xml`'s `Reader`, with `trim_text(true)`, reads from
/// `data`, in order, up to and including the first end of input or error.
pub uninterp spec fn kml_events_of(data: Seq<char>) -> Seq<KmlEventV>;

/// The events that a reader has still to report, up to and including the
/// first end of input or error.
pub uninterp spec fn kml_pending(reader: Reader<&[u8]>) -> Seq<KmlEventV>;

/// The end of input, or an error.
pub open spec fn is_final_event(e: KmlEventV) -> bool {
    e is Eof || e is Failed
}

/// A sequence of events that ends with its only end of input or error.
pub open spec fn ends_once(s: Seq<KmlEventV>) -> bool {
    &&& s.len() > 0
    &&& is_final_event(s.last())
    &&& forall|i: int| 0 <= i < s.len() - 1 ==> !is_final_event(#[trigger] s[i])
}

/// `Reader::from_str` with `trim_text(true)`: a reader over `data` that
/// drops leading and trailing white space of text events.
///
/// Trusted: the events it will report are the ones `kml_events_of` names for
/// `data`; they are finitely many, since each event other than the end of
/// input or an error consumes input.
#[verifier::external_body]
fn kml_reader(data: &str) -> (r: Reader<&[u8]>)
    ensures
        kml_pending(r) == kml_events_of(data@),
        ends_once(kml_pending(r)),
{
    let mut reader = Reader::from_str(data);
    reader.config_mut().trim_text(true);
    reader
}

/// `Reader::read_event`: the next event, with the text of a text event
/// unescaped (`BytesText::unescape`); an error is kept as its display text.
///
/// Trusted: while events remain, the event is the first of them, and the
/// reader then has the rest still to report.
#[verifier::external_body]
fn kml_read_event(reader: &mut Reader<&[u8]>) -> (r: KmlEvent)
    ensures
        kml_pending(*old(reader)).len() > 0 ==> {
            &&& r@ == kml_pending(*old(reader))[0]
            &&& kml_pending(*final(reader)) == kml_pending(*old(reader)).drop_first()
        },
{
    match reader.read_event() {
        Ok(Event::Start(e)) => KmlEvent::Start(String::from_utf8_lossy(e.local_name().as_ref()).into_owned()),
        Ok(Event::Empty(e)) => KmlEvent::Empty(String::from_utf8_lossy(e.local_name().as_ref()).into_owned()),
        Ok(Event::End(e)) => KmlEvent::End(String::from_utf8_lossy(e.local_name().as_ref()).into_owned()),
        Ok(Event::Text(e)) => KmlEvent::Text(e.unescape().map(|v| v.into_owned()).map_err(|err| err.to_string())),
        Ok(Event::Eof) => KmlEvent::Eof,
        Ok(_) => KmlEvent::Other,
        Err(err) => KmlEvent::Failed(err.to_string()),
    }
}

/// What the state machine makes of an event other than the end of input or
/// an error.
pub open spec fn event_input(e: KmlEventV) -> KmlInputV {
    match e {
        KmlEventV::Start(n) => KmlInputV::Open(n),
        KmlEventV::Empty(n) => KmlInputV::Open(n),
        KmlEventV::End(n) => KmlInputV::Close(n),
        KmlEventV::Text(t) => KmlInputV::Text(t),
        _ => KmlInputV::Skip,
    }
}

/// The placemarks collected from `s` on, reading the events in order until
/// the end of input; the message of the first reader error or of a text that
/// could not be unescaped.
pub open spec fn spec_read_placemarks(s: KmlStateV, events: Seq<KmlEventV>) -> Result<Seq<PlacemarkV>, Seq<char>>
    decreases events.len(),
{
    if events.len() == 0 {
        Ok(s.placemarks)
    } else {
        match events[0] {
            KmlEventV::Eof => Ok(s.placemarks),
            KmlEventV::Failed(m) => Err(m),
            e => match spec_step(s, event_input(e)) {
                Err(m) => Err(m),
                Ok(t) => spec_read_placemarks(t, events.drop_first()),
            },
        }
    }
}

/// The placemarks of a KML document, as its events give them.
pub open spec fn spec_placemarks(data: Seq<char>) -> Result<Seq<PlacemarkV>, Seq<char>> {
    spec_read_placemarks(initial_state(), kml_events_of(data))
}

/// Reads the placemarks of a KML document (its default namespace already
/// taken out): the state machine runs over the reader's events until the
/// end of input; a reader error or a text that cannot be unescaped fails.
pub fn parse_kml_placemarks(data: &str) -> (r: Result<Vec<KmlPlacemarkData>, ConvertError>)
    ensures
        match spec_placemarks(data@) {
            Ok(ps) => r matches Ok(v) && placemark_views(v@) == ps,
            Err(m) => r matches Err(ConvertError::Xml(t)) && t@ == m,
        },
{
    let mut reader = kml_reader(data);
    let mut state = KmlState::new();
    loop
        invariant
            ends_once(kml_pending(reader)),
            spec_placemarks(data@) == spec_read_placemarks(state@, kml_pending(reader)),
        decreases kml_pending(reader).len(),
    {
        let ghost p = kml_pending(reader);
        let ev = kml_read_event(&mut reader);
        let input = match ev {
            KmlEvent::Start(name) => KmlInput::Open(name),
            KmlEvent::Empty(name) => KmlInput::Open(name),
            KmlEvent::End(name) => KmlInput::Close(name),
            KmlEvent::Text(t) => KmlInput::Text(t),
            KmlEvent::Eof => {
                return Ok(state.placemarks);
            },
            KmlEvent::Other => KmlInput::Skip,
            KmlEvent::Failed(m) => {
                return Err(ConvertError::Xml(m));
            },
        };
        assert(input@ == event_input(p[0]));
        assert(!is_final_event(p[0]));
        match state.step(input) {
            Ok(()) => {},
            Err(e) => {
                return Err(e);
            },
        }
        proof {
            let rest = p.drop_first();
            assert(p.len() > 1);
            assert forall|i: int| 0 <= i < rest.len() - 1 implies !is_final_event(#[trigger] rest[i]) by {
                assert(rest[i] == p[i + 1]);
            }
            assert(rest.last() == p.last());
        }
    }
}

} // verus!

verus! {

// ================================================================ coordinates

/// The length of the leading run of characters that are not white space.
pub open spec fn word_len(s: Seq<char>) -> nat
    decreases s.len(),
{
    if s.len() == 0 || crate::text::is_white(s[0]) { 0 } else { 1 + word_len(s.drop_first()) }
}

/// The words of `s`: its maximal runs of non-white characters
/// (`str::split_whitespace`).
pub open spec fn words(s: Seq<char>) -> Seq<Seq<char>>
    decreases s.len(),
{
    if s.len() == 0 {
        Seq::empty()
    } else if crate::text::is_white(s[0]) {
        words(s.drop_first())
    } else {
        let k = word_len(s);
        if 0 < k <= s.len() { seq![s.take(k as int)] + words(s.skip(k as int)) } else { Seq::empty() }
    }
}

/// The pieces of `s` between commas (`str::split(',')`): always at least one.
pub open spec fn comma_pieces(s: Seq<char>) -> Seq<Seq<char>>
    decreases s.len(),
{
    if s.len() == 0 {
        seq![Seq::empty()]
    } else if s.last() == ',' {
        comma_pieces(s.drop_last()).push(Seq::empty())
    } else {
        let p = comma_pieces(s.drop_last());
        p.update(p.len() - 1, p.last().push(s.last()))
    }
}

} // verus!

verus! {

/// A coordinate triple: latitude, longitude and optional elevation.
pub type Coordinate = (Binary64, Binary64, Option<Binary64>);

/// What `parse` reads every number as.
pub open spec fn reads_as<P: Fn(&str) -> Option<Binary64>>(parse: &P, num: spec_fn(Seq<char>) -> Option<Binary64>) -> bool {
    &&& forall|s: &str| call_requires(*parse, (s,))
    &&& forall|s: &str, r: Option<Binary64>| call_ensures(*parse, (s,), r) ==> r == num(s@)
}

/// The error message of a token without enough parts.
pub open spec fn too_few_parts_message(tok: Seq<char>) -> Seq<char> {
    "expected lon,lat[,ele], got `"@ + tok + "`"@
}

/// The error message of a token with a part that is not a number: the
/// message's opening, naming the part, then the token.
pub open spec fn invalid_part_message(opening: Seq<char>, tok: Seq<char>) -> Seq<char> {
    opening + tok + "`"@
}

/// The coordinate a token `lon,lat[,ele]` spells, or the error message.
pub open spec fn token_coordinate(tok: Seq<char>, num: spec_fn(Seq<char>) -> Option<Binary64>) -> Result<Coordinate, Seq<char>> {
    let parts = comma_pieces(tok);
    if parts.len() < 2 {
        Err(too_few_parts_message(tok))
    } else {
        match num(trim(parts[0])) {
            None => Err(invalid_part_message("invalid longitude `"@, tok)),
            Some(lon) => match num(trim(parts[1])) {
                None => Err(invalid_part_message("invalid latitude `"@, tok)),
                Some(lat) => if parts.len() > 2 && trim(parts[2]).len() > 0 {
                    match num(trim(parts[2])) {
                        None => Err(invalid_part_message("invalid elevation `"@, tok)),
                        Some(ele) => Ok((lat, lon, Some(ele))),
                    }
                } else {
                    Ok((lat, lon, None))
                },
            },
        }
    }
}

/// The coordinates of the tokens, in order, or the first error.
pub open spec fn tokens_coordinates(toks: Seq<Seq<char>>, num: spec_fn(Seq<char>) -> Option<Binary64>) -> Result<Seq<Coordinate>, Seq<char>>
    decreases toks.len(),
{
    if toks.len() == 0 {
        Ok(Seq::empty())
    } else {
        match tokens_coordinates(toks.drop_last(), num) {
            Err(m) => Err(m),
            Ok(cs) => match token_coordinate(toks.last(), num) {
                Err(m) => Err(m),
                Ok(c) => Ok(cs.push(c)),
            },
        }
    }
}

/// A point that holds the coordinate and nothing else.
pub open spec fn plain_point(w: Waypoint, c: Coordinate) -> bool {
    &&& w.lat == c.0 && w.lon == c.1 && w.ele == c.2
    &&& w.time is None && w.magvar is None && w.geoidheight is None
    &&& w.name is None && w.cmt is None && w.desc is None && w.src is None && w.links@.len() == 0
    &&& w.sym is None && w.waypoint_type is None && w.fix is None && w.sat is None
    &&& w.hdop is None && w.vdop is None && w.pdop is None && w.ageofdgpsdata is None && w.dgpsid is None
    &&& w.extensions is None
}

/// Each point holds the coordinate at its position, and nothing else.
pub open spec fn plain_points(ws: Seq<Waypoint>, cs: Seq<Coordinate>) -> bool {
    ws.len() == cs.len() && forall|i: int| 0 <= i < ws.len() ==> plain_point(#[trigger] ws[i], cs[i])
}

/// A point with the given coordinate and nothing else.
pub fn new_point(c: (Binary64, Binary64, Option<Binary64>)) -> (w: Waypoint)
    ensures
        plain_point(w, c),
{
    Waypoint {
        lat: c.0,
        lon: c.1,
        ele: c.2,
        time: None,
        magvar: None,
        geoidheight: None,
        name: None,
        cmt: None,
        desc: None,
        src: None,
        links: Vec::new(),
        sym: None,
        waypoint_type: None,
        fix: None,
        sat: None,
        hdop: None,
        vdop: None,
        pdop: None,
        ageofdgpsdata: None,
        dgpsid: None,
        extensions: None,
    }
}

proof fn lemma_comma_pieces_nonempty(s: Seq<char>)
    ensures
        comma_pieces(s).len() >= 1,
    decreases s.len(),
{
    if s.len() > 0 {
        lemma_comma_pieces_nonempty(s.drop_last());
    }
}

/// Splits a token at its commas.
fn split_commas(tok: &[char]) -> (r: Vec<Vec<char>>)
    ensures
        r@.len() == comma_pieces(tok@).len(),
        forall|i: int| 0 <= i < r@.len() ==> (#[trigger] r@[i])@ == comma_pieces(tok@)[i],
{
    let mut done: Vec<Vec<char>> = Vec::new();
    let mut cur: Vec<char> = Vec::new();
    let mut i: usize = 0;
    assert(tok@.take(0) =~= Seq::<char>::empty());
    while i < tok.len()
        invariant
            i <= tok@.len(),
            comma_pieces(tok@.take(i as int)).len() == done@.len() + 1,
            forall|j: int| 0 <= j < done@.len() ==> (#[trigger] done@[j])@ == comma_pieces(tok@.take(i as int))[j],
            cur@ == comma_pieces(tok@.take(i as int)).last(),
        decreases tok.len() - i,
    {
        let c = tok[i];
        let ghost prev = tok@.take(i as int);
        assert(tok@.take(i + 1).drop_last() =~= prev);
        assert(tok@.take(i + 1).last() == c);
        proof { lemma_comma_pieces_nonempty(prev); }
        if c == ',' {
            let finished = cur;
            done.push(finished);
            cur = Vec::new();
            assert(cur@ =~= Seq::<char>::empty());
        } else {
            cur.push(c);
        }
        i = i + 1;
    }
    assert(tok@.take(tok@.len() as int) =~= tok@);
    done.push(cur);
    done
}

fn trimmed_str(v: &Vec<char>) -> (r: String)
    ensures
        r@ == trim(v@),
{
    let t = trim_chars(v.as_slice());
    string_from_chars(t.as_slice())
}

/// Reads one `lon,lat[,ele]` token.
pub fn parse_kml_token<P: Fn(&str) -> Option<Binary64>>(
    tok: &[char],
    parse: &P,
    Ghost(num): Ghost<spec_fn(Seq<char>) -> Option<Binary64>>,
) -> (r: Result<(Binary64, Binary64, Option<Binary64>), ConvertError>)
    requires
        reads_as(parse, num),
    ensures
        match token_coordinate(tok@, num) {
            Ok(c) => r matches Ok(x) && x == c,
            Err(m) => r matches Err(ConvertError::InvalidCoordinates(e)) && e@ == m,
        },
{
    let parts = split_commas(tok);
    let token = string_from_chars(tok);
    if parts.len() < 2 {
        let mut m = String::new();
        m.append("expected lon,lat[,ele], got `");
        m.append(token.as_str());
        m.append("`");
        assert(m@ =~= too_few_parts_message(tok@));
        return Err(ConvertError::InvalidCoordinates(m));
    }
    let lon_text = trimmed_str(&parts[0]);
    let lon = match parse(lon_text.as_str()) {
        Some(x) => x,
        None => {
            let m = crate::text::concat3("invalid longitude `", token.as_str(), "`");
            assert(m@ =~= invalid_part_message("invalid longitude `"@, tok@));
            return Err(ConvertError::InvalidCoordinates(m));
        },
    };
    let lat_text = trimmed_str(&parts[1]);
    let lat = match parse(lat_text.as_str()) {
        Some(x) => x,
        None => {
            let m = crate::text::concat3("invalid latitude `", token.as_str(), "`");
            assert(m@ =~= invalid_part_message("invalid latitude `"@, tok@));
            return Err(ConvertError::InvalidCoordinates(m));
        },
    };
    if parts.len() > 2 {
        let ele_text = trimmed_str(&parts[2]);
        if ele_text.as_str().unicode_len() > 0 {
            return match parse(ele_text.as_str()) {
                Some(e) => Ok((lat, lon, Some(e))),
                None => {
                    let m = crate::text::concat3("invalid elevation `", token.as_str(), "`");
                    assert(m@ =~= invalid_part_message("invalid elevation `"@, tok@));
                    Err(ConvertError::InvalidCoordinates(m))
                },
            };
        }
    }
    Ok((lat, lon, None))
}

proof fn lemma_word_len(s: Seq<char>, i: int, j: int)
    requires
        0 <= i <= j <= s.len(),
        forall|k: int| i <= k < j ==> !crate::text::is_white(#[trigger] s[k]),
        j == s.len() || crate::text::is_white(s[j]),
    ensures
        word_len(s.skip(i)) == j - i,
    decreases j - i,
{
    if i < j {
        assert(s.skip(i).drop_first() =~= s.skip(i + 1));
        lemma_word_len(s, i + 1, j);
    } else {
        if j < s.len() {
            assert(s.skip(i)[0] == s[j]);
        }
    }
}

/// Reads the coordinates text of a geometry: white-space separated
/// `lon,lat[,ele]` tokens.
pub fn parse_kml_coordinates<P: Fn(&str) -> Option<Binary64>>(
    raw: &str,
    parse: &P,
    Ghost(num): Ghost<spec_fn(Seq<char>) -> Option<Binary64>>,
) -> (r: Result<Vec<Waypoint>, ConvertError>)
    requires
        reads_as(parse, num),
    ensures
        match tokens_coordinates(words(raw@), num) {
            Ok(cs) => r matches Ok(ws) && plain_points(ws@, cs),
            Err(m) => r matches Err(ConvertError::InvalidCoordinates(e)) && e@ == m,
        },
{
    let s = chars_of(raw);
    let n = s.len();
    let mut points: Vec<Waypoint> = Vec::new();
    let ghost mut done: Seq<Seq<char>> = Seq::empty();
    let ghost mut cs: Seq<Coordinate> = Seq::empty();
    let mut i: usize = 0;
    assert(s@.skip(0) =~= s@);
    while i < n
        invariant
            n == s@.len(),
            s@ == raw@,
            i <= n,
            reads_as(parse, num),
            done + words(s@.skip(i as int)) == words(s@),
            tokens_coordinates(done, num) == Ok::<Seq<Coordinate>, Seq<char>>(cs),
            plain_points(points@, cs),
        decreases n - i,
    {
        if crate::text::char_is_white(s[i]) {
            assert(s@.skip(i as int).drop_first() =~= s@.skip(i + 1));
            i = i + 1;
        } else {
            let mut j = i;
            while j < n && !crate::text::char_is_white(s[j])
                invariant
                    i <= j <= n,
                    n == s@.len(),
                    forall|k: int| i <= k < j ==> !crate::text::is_white(#[trigger] s@[k]),
                decreases n - j,
            {
                j = j + 1;
            }
            proof { lemma_word_len(s@, i as int, j as int); }
            let tok = crate::decimal::copy_range(s.as_slice(), i, j);
            let ghost rest = s@.skip(i as int);
            assert(rest.take((j - i) as int) =~= tok@);
            assert(rest.skip((j - i) as int) =~= s@.skip(j as int));
            assert(words(rest) == seq![tok@] + words(s@.skip(j as int)));
            let c = parse_kml_token(tok.as_slice(), parse, Ghost(num));
            let ghost next = done.push(tok@);
            assert(next.drop_last() =~= done);
            assert(done + words(rest) =~= next + words(s@.skip(j as int)));
            match c {
                Ok(c) => {
                    points.push(new_point(c));
                    proof {
                        done = next;
                        cs = cs.push(c);
                    }
                },
                Err(e) => {
                    proof {
                        let whole = words(s@);
                        assert(whole.take(next.len() as int) =~= next);
                        lemma_tokens_error_prefix(next, whole, num);
                    }
                    return Err(e);
                },
            }
            i = j;
        }
    }
    assert(s@.skip(n as int) =~= Seq::<char>::empty());
    assert(done + Seq::<Seq<char>>::empty() =~= done);
    Ok(points)
}

/// An error in a prefix of the tokens is the error of all of them.
proof fn lemma_tokens_error_prefix(pre: Seq<Seq<char>>, all: Seq<Seq<char>>, num: spec_fn(Seq<char>) -> Option<Binary64>)
    requires
        pre.len() <= all.len(),
        all.take(pre.len() as int) == pre,
        tokens_coordinates(pre, num) is Err,
    ensures
        tokens_coordinates(all, num) == tokens_coordinates(pre, num),
    decreases all.len() - pre.len(),
{
    if all.len() > pre.len() {
        let shorter = all.drop_last();
        assert(shorter.take(pre.len() as int) =~= pre);
        lemma_tokens_error_prefix(pre, shorter, num);
    } else {
        assert(all =~= pre);
    }
}

} // verus!

verus! {

// ================================================================ documents

/// What a placemark contributes to the document.
pub enum KmlItem {
    /// A waypoint: its coordinate, name and description.
    Point(Coordinate, Option<Seq<char>>, Option<Seq<char>>),
    /// A route: name, description and points.
    Line(Option<Seq<char>>, Option<Seq<char>>, Seq<Coordinate>),
    /// A track: name, description and the points of each segment.
    Multi(Option<Seq<char>>, Option<Seq<char>>, Seq<Seq<Coordinate>>),
    /// Nothing (no geometry).
    Nothing,
}

/// The coordinates of each line of a multi-geometry, or the first error.
pub open spec fn lines_coordinates(lines: Seq<Seq<char>>, num: spec_fn(Seq<char>) -> Option<Binary64>) -> Result<Seq<Seq<Coordinate>>, Seq<char>>
    decreases lines.len(),
{
    if lines.len() == 0 {
        Ok(Seq::empty())
    } else {
        match lines_coordinates(lines.drop_last(), num) {
            Err(m) => Err(m),
            Ok(ls) => match tokens_coordinates(words(lines.last()), num) {
                Err(m) => Err(m),
                Ok(cs) => Ok(ls.push(cs)),
            },
        }
    }
}

/// The message of a point placemark without coordinates.
pub open spec fn empty_point_message() -> Seq<char> {
    "Point placemark has no coordinates"@
}

/// What a placemark becomes: a point wins over a line string, which wins
/// over a multi-geometry.
pub open spec fn placemark_item(p: PlacemarkV, num: spec_fn(Seq<char>) -> Option<Binary64>) -> Result<KmlItem, Seq<char>> {
    match p.point {
        Some(raw) => match tokens_coordinates(words(raw), num) {
            Err(m) => Err(m),
            Ok(cs) => if cs.len() == 0 {
                Err(empty_point_message())
            } else {
                Ok(KmlItem::Point(cs[0], p.name, p.description))
            },
        },
        None => match p.line_string {
            Some(raw) => match tokens_coordinates(words(raw), num) {
                Err(m) => Err(m),
                Ok(cs) => Ok(KmlItem::Line(p.name, p.description, cs)),
            },
            None => match p.multi_geometry {
                Some(lines) => match lines_coordinates(lines, num) {
                    Err(m) => Err(m),
                    Ok(ls) => Ok(KmlItem::Multi(p.name, p.description, ls)),
                },
                None => Ok(KmlItem::Nothing),
            },
        },
    }
}

/// What the placemarks become, in order, or the first error.
pub open spec fn placemark_items(ps: Seq<PlacemarkV>, num: spec_fn(Seq<char>) -> Option<Binary64>) -> Result<Seq<KmlItem>, Seq<char>>
    decreases ps.len(),
{
    if ps.len() == 0 {
        Ok(Seq::empty())
    } else {
        match placemark_items(ps.drop_last(), num) {
            Err(m) => Err(m),
            Ok(items) => match placemark_item(ps.last(), num) {
                Err(m) => Err(m),
                Ok(i) => Ok(items.push(i)),
            },
        }
    }
}

/// The waypoint of an item that is a point.
pub open spec fn is_point_item(i: KmlItem) -> bool {
    i is Point
}

/// A route's or track's descriptive fields are those given, and nothing else is set.
pub open spec fn named_point(w: Waypoint, c: Coordinate, name: Option<Seq<char>>, desc: Option<Seq<char>>) -> bool {
    plain_point(Waypoint { name: None, desc: None, ..w }, c) && opt_chars(w.name) == name && opt_chars(w.desc) == desc
}

/// A route made from a line string.
pub open spec fn line_route(r: crate::model::Route, name: Option<Seq<char>>, desc: Option<Seq<char>>, cs: Seq<Coordinate>) -> bool {
    &&& opt_chars(r.name) == name && opt_chars(r.desc) == desc
    &&& r.cmt is None && r.src is None && r.links@.len() == 0 && r.number is None && r.route_type is None
    &&& r.extensions is None
    &&& plain_points(r.points@, cs)
}

/// A track made from a multi-geometry: one segment per line.
pub open spec fn multi_track(t: crate::model::Track, name: Option<Seq<char>>, desc: Option<Seq<char>>, ls: Seq<Seq<Coordinate>>) -> bool {
    &&& opt_chars(t.name) == name && opt_chars(t.desc) == desc
    &&& t.cmt is None && t.src is None && t.links@.len() == 0 && t.number is None && t.track_type is None
    &&& t.extensions is None
    &&& t.segments@.len() == ls.len()
    &&& forall|k: int| 0 <= k < ls.len() ==> (#[trigger] t.segments@[k]).extensions is None
        && plain_points(t.segments@[k].points@, ls[k])
}

/// The points, routes and tracks built from the items, in the order of
/// their placemarks.
pub open spec fn parts_match(ws: Seq<Waypoint>, rs: Seq<crate::model::Route>, ts: Seq<crate::model::Track>, items: Seq<KmlItem>) -> bool {
    let pts = items.filter(|i: KmlItem| i is Point);
    let lines = items.filter(|i: KmlItem| i is Line);
    let multis = items.filter(|i: KmlItem| i is Multi);
    &&& ws.len() == pts.len()
    &&& forall|k: int| 0 <= k < pts.len() ==> (pts[k] matches KmlItem::Point(c, n, d) && named_point(#[trigger] ws[k], c, n, d))
    &&& rs.len() == lines.len()
    &&& forall|k: int| 0 <= k < lines.len() ==> (lines[k] matches KmlItem::Line(n, d, cs) && line_route(#[trigger] rs[k], n, d, cs))
    &&& ts.len() == multis.len()
    &&& forall|k: int| 0 <= k < multis.len() ==> (multis[k] matches KmlItem::Multi(n, d, ls) && multi_track(#[trigger] ts[k], n, d, ls))
}

/// The document built from the items: points, routes and tracks in the
/// order of their placemarks, and nothing else.
pub open spec fn document_of(g: crate::model::Gpx, items: Seq<KmlItem>) -> bool {
    &&& g.version is None && g.creator is None && g.metadata is None && g.extensions is None
    &&& parts_match(g.waypoints@, g.routes@, g.tracks@, items)
}

} // verus!

verus! {

/// What one placemark became.
pub enum KmlGeometry {
    Point(Waypoint),
    Line(crate::model::Route),
    Multi(crate::model::Track),
    Nothing,
}

/// The built element matches the item.
pub open spec fn geometry_matches(g: KmlGeometry, i: KmlItem) -> bool {
    match (g, i) {
        (KmlGeometry::Point(w), KmlItem::Point(c, n, d)) => named_point(w, c, n, d),
        (KmlGeometry::Line(r), KmlItem::Line(n, d, cs)) => line_route(r, n, d, cs),
        (KmlGeometry::Multi(t), KmlItem::Multi(n, d, ls)) => multi_track(t, n, d, ls),
        (KmlGeometry::Nothing, KmlItem::Nothing) => true,
        _ => false,
    }
}

proof fn lemma_lines_error_prefix(pre: Seq<Seq<char>>, all: Seq<Seq<char>>, num: spec_fn(Seq<char>) -> Option<Binary64>)
    requires
        pre.len() <= all.len(),
        all.take(pre.len() as int) == pre,
        lines_coordinates(pre, num) is Err,
    ensures
        lines_coordinates(all, num) == lines_coordinates(pre, num),
    decreases all.len() - pre.len(),
{
    if all.len() > pre.len() {
        let shorter = all.drop_last();
        assert(shorter.take(pre.len() as int) =~= pre);
        lemma_lines_error_prefix(pre, shorter, num);
    } else {
        assert(all =~= pre);
    }
}

fn lines_to_segments<P: Fn(&str) -> Option<Binary64>>(
    lines: Vec<String>,
    parse: &P,
    Ghost(num): Ghost<spec_fn(Seq<char>) -> Option<Binary64>>,
) -> (r: Result<Vec<crate::model::TrackSegment>, ConvertError>)
    requires
        reads_as(parse, num),
    ensures
        match lines_coordinates(string_views(lines@), num) {
            Ok(ls) => r matches Ok(ss) && ss@.len() == ls.len() && forall|k: int| 0 <= k < ls.len() ==>
                (#[trigger] ss@[k]).extensions is None && plain_points(ss@[k].points@, ls[k]),
            Err(m) => r matches Err(ConvertError::InvalidCoordinates(e)) && e@ == m,
        },
{
    let ghost all = string_views(lines@);
    let n = lines.len();
    let mut src = crate::operations::reverse_vec(lines);
    let mut out: Vec<crate::model::TrackSegment> = Vec::new();
    let ghost mut ls: Seq<Seq<Coordinate>> = Seq::empty();
    let mut k: usize = 0;
    while src.len() > 0
        invariant
            n == all.len(),
            all == string_views(lines@),
            k + src@.len() == n,
            forall|i: int| 0 <= i < src@.len() ==> (#[trigger] src@[i])@ == all[n - 1 - i],
            reads_as(parse, num),
            lines_coordinates(all.take(k as int), num) == Ok::<Seq<Seq<Coordinate>>, Seq<char>>(ls),
            out@.len() == ls.len(),
            forall|i: int| 0 <= i < ls.len() ==> (#[trigger] out@[i]).extensions is None && plain_points(out@[i].points@, ls[i]),
        decreases src.len(),
    {
        let line = src.pop().unwrap();
        assert(line@ == all[k as int]);
        assert(all.take(k + 1).drop_last() =~= all.take(k as int));
        match parse_kml_coordinates(line.as_str(), parse, Ghost(num)) {
            Ok(points) => {
                let ghost cs = tokens_coordinates(words(line@), num)->Ok_0;
                out.push(crate::model::TrackSegment { points, extensions: None });
                proof { ls = ls.push(cs); }
            },
            Err(e) => {
                proof {
                    assert(all.take(k + 1).last() == line@);
                    assert(lines_coordinates(all.take(k + 1), num) is Err);
                    assert(all.take(n as int).take(k + 1) =~= all.take(k + 1));
                    assert(all.take(n as int) =~= all);
                    lemma_lines_error_prefix(all.take(k + 1), all, num);
                }
                return Err(e);
            },
        }
        k = k + 1;
    }
    assert(all.take(n as int) =~= all);
    Ok(out)
}

fn placemark_geometry<P: Fn(&str) -> Option<Binary64>>(
    p: KmlPlacemarkData,
    parse: &P,
    Ghost(num): Ghost<spec_fn(Seq<char>) -> Option<Binary64>>,
) -> (r: Result<KmlGeometry, ConvertError>)
    requires
        reads_as(parse, num),
    ensures
        match placemark_item(p@, num) {
            Ok(i) => r matches Ok(g) && geometry_matches(g, i),
            Err(m) => r matches Err(ConvertError::InvalidCoordinates(e)) && e@ == m,
        },
{
    let KmlPlacemarkData { name, description, point, line_string, multi_geometry } = p;
    if let Some(raw) = point {
        let points = match parse_kml_coordinates(raw.as_str(), parse, Ghost(num)) {
            Ok(ps) => ps,
            Err(e) => {
                return Err(e);
            },
        };
        if points.len() == 0 {
            return Err(ConvertError::InvalidCoordinates("Point placemark has no coordinates".to_owned()));
        }
        let ghost first = points@[0];
        let mut rev = crate::operations::reverse_vec(points);
        let mut w = rev.pop().unwrap();
        assert(w == first);
        w.name = name;
        w.desc = description;
        return Ok(KmlGeometry::Point(w));
    }
    if let Some(raw) = line_string {
        let points = match parse_kml_coordinates(raw.as_str(), parse, Ghost(num)) {
            Ok(ps) => ps,
            Err(e) => {
                return Err(e);
            },
        };
        return Ok(KmlGeometry::Line(crate::model::Route {
            name,
            cmt: None,
            desc: description,
            src: None,
            links: Vec::new(),
            number: None,
            route_type: None,
            extensions: None,
            points,
        }));
    }
    if let Some(lines) = multi_geometry {
        let segments = match lines_to_segments(lines, parse, Ghost(num)) {
            Ok(ss) => ss,
            Err(e) => {
                return Err(e);
            },
        };
        return Ok(KmlGeometry::Multi(crate::model::Track {
            name,
            cmt: None,
            desc: description,
            src: None,
            links: Vec::new(),
            number: None,
            track_type: None,
            extensions: None,
            segments,
        }));
    }
    Ok(KmlGeometry::Nothing)
}

} // verus!

verus! {

proof fn lemma_items_error_prefix(pre: Seq<PlacemarkV>, all: Seq<PlacemarkV>, num: spec_fn(Seq<char>) -> Option<Binary64>)
    requires
        pre.len() <= all.len(),
        all.take(pre.len() as int) == pre,
        placemark_items(pre, num) is Err,
    ensures
        placemark_items(all, num) == placemark_items(pre, num),
    decreases all.len() - pre.len(),
{
    if all.len() > pre.len() {
        let shorter = all.drop_last();
        assert(shorter.take(pre.len() as int) =~= pre);
        lemma_items_error_prefix(pre, shorter, num);
    } else {
        assert(all =~= pre);
    }
}

proof fn lemma_parts_push(
    ws: Seq<Waypoint>,
    rs: Seq<crate::model::Route>,
    ts: Seq<crate::model::Track>,
    items: Seq<KmlItem>,
    g: KmlGeometry,
    i: KmlItem,
)
    requires
        parts_match(ws, rs, ts, items),
        geometry_matches(g, i),
    ensures
        parts_match(
            match g { KmlGeometry::Point(w) => ws.push(w), _ => ws },
            match g { KmlGeometry::Line(r) => rs.push(r), _ => rs },
            match g { KmlGeometry::Multi(t) => ts.push(t), _ => ts },
            items.push(i),
        ),
{
    reveal_with_fuel(Seq::<_>::filter, 1);
    let next = items.push(i);
    assert(next.drop_last() =~= items);
    let ws2 = match g { KmlGeometry::Point(w) => ws.push(w), _ => ws };
    let rs2 = match g { KmlGeometry::Line(r) => rs.push(r), _ => rs };
    let ts2 = match g { KmlGeometry::Multi(t) => ts.push(t), _ => ts };
    let pts = items.filter(|x: KmlItem| x is Point);
    let pts2 = next.filter(|x: KmlItem| x is Point);
    let lines = items.filter(|x: KmlItem| x is Line);
    let lines2 = next.filter(|x: KmlItem| x is Line);
    let multis = items.filter(|x: KmlItem| x is Multi);
    let multis2 = next.filter(|x: KmlItem| x is Multi);
    assert forall|k: int| 0 <= k < pts2.len() implies (pts2[k] matches KmlItem::Point(c, n, d) && named_point(#[trigger] ws2[k], c, n, d)) by {
        if k < pts.len() {
            assert(pts2[k] == pts[k]);
            assert(ws2[k] == ws[k]);
        }
    }
    assert forall|k: int| 0 <= k < lines2.len() implies (lines2[k] matches KmlItem::Line(n, d, cs) && line_route(#[trigger] rs2[k], n, d, cs)) by {
        if k < lines.len() {
            assert(lines2[k] == lines[k]);
            assert(rs2[k] == rs[k]);
        }
    }
    assert forall|k: int| 0 <= k < multis2.len() implies (multis2[k] matches KmlItem::Multi(n, d, ls) && multi_track(#[trigger] ts2[k], n, d, ls)) by {
        if k < multis.len() {
            assert(multis2[k] == multis[k]);
            assert(ts2[k] == ts[k]);
        }
    }
}

/// Builds the document that the placemarks describe, reading numbers with `parse`.
pub fn gpx_from_placemarks<P: Fn(&str) -> Option<Binary64>>(
    placemarks: Vec<KmlPlacemarkData>,
    parse: &P,
    Ghost(num): Ghost<spec_fn(Seq<char>) -> Option<Binary64>>,
) -> (r: Result<crate::model::Gpx, ConvertError>)
    requires
        reads_as(parse, num),
    ensures
        match placemark_items(placemark_views(placemarks@), num) {
            Ok(items) => r matches Ok(g) && document_of(g, items),
            Err(m) => r matches Err(ConvertError::InvalidCoordinates(e)) && e@ == m,
        },
{
    let ghost all = placemark_views(placemarks@);
    let n = placemarks.len();
    let mut src = crate::operations::reverse_vec(placemarks);
    let mut waypoints: Vec<Waypoint> = Vec::new();
    let mut routes: Vec<crate::model::Route> = Vec::new();
    let mut tracks: Vec<crate::model::Track> = Vec::new();
    let ghost mut items: Seq<KmlItem> = Seq::empty();
    let mut k: usize = 0;
    proof {
        reveal_with_fuel(Seq::<_>::filter, 1);
        assert(all.take(0) =~= Seq::<PlacemarkV>::empty());
    }
    while src.len() > 0
        invariant
            n == all.len(),
            all == placemark_views(placemarks@),
            k + src@.len() == n,
            forall|i: int| 0 <= i < src@.len() ==> (#[trigger] src@[i])@ == all[n - 1 - i],
            reads_as(parse, num),
            placemark_items(all.take(k as int), num) == Ok::<Seq<KmlItem>, Seq<char>>(items),
            parts_match(waypoints@, routes@, tracks@, items),
        decreases src.len(),
    {
        let p = src.pop().unwrap();
        assert(p@ == all[k as int]);
        assert(all.take(k + 1).drop_last() =~= all.take(k as int));
        assert(all.take(k + 1).last() == p@);
        let ghost pv = p@;
        match placemark_geometry(p, parse, Ghost(num)) {
            Ok(g) => {
                let ghost i = placemark_item(pv, num)->Ok_0;
                proof {
                    lemma_parts_push(waypoints@, routes@, tracks@, items, g, i);
                }
                match g {
                    KmlGeometry::Point(w) => waypoints.push(w),
                    KmlGeometry::Line(r) => routes.push(r),
                    KmlGeometry::Multi(t) => tracks.push(t),
                    KmlGeometry::Nothing => {},
                }
                proof {
                    items = items.push(i);
                }
            },
            Err(e) => {
                proof {
                    assert(placemark_items(all.take(k + 1), num) is Err);
                    assert(all.take(n as int) =~= all);
                    assert(all.take(k + 1) =~= all.take(n as int).take(k + 1));
                    lemma_items_error_prefix(all.take(k + 1), all, num);
                }
                return Err(e);
            },
        }
        k = k + 1;
    }
    assert(all.take(n as int) =~= all);
    Ok(crate::model::Gpx { version: None, creator: None, metadata: None, waypoints, routes, tracks, extensions: None })
}

/// `parse` answers one reading for each text.
pub open spec fn deterministic_reading<P: Fn(&str) -> Option<Binary64>>(parse: &P) -> bool {
    &&& forall|s: &str| call_requires(*parse, (s,))
    &&& forall|s1: &str, s2: &str, a: Option<Binary64>, b: Option<Binary64>|
        s1@ == s2@ && call_ensures(*parse, (s1,), a) && call_ensures(*parse, (s2,), b) ==> a == b
}

/// `parse` can answer `r` for a text `t`.
pub open spec fn reads_to<P: Fn(&str) -> Option<Binary64>>(parse: &P, t: Seq<char>, r: Option<Binary64>) -> bool {
    exists|s: &str| s@ == t && #[trigger] call_ensures(*parse, (s,), r)
}

/// The reading that `parse` gives each text.
pub open spec fn reading_of<P: Fn(&str) -> Option<Binary64>>(parse: &P) -> spec_fn(Seq<char>) -> Option<Binary64> {
    |t: Seq<char>| choose|r: Option<Binary64>| #[trigger] reads_to(parse, t, r)
}

/// Reads a KML document into a GPX document, reading numbers with `parse`.
///
/// The default namespace is taken out, the placemarks are read, and the
/// document is built from them.
pub fn parse_kml<P: Fn(&str) -> Option<Binary64>>(data: &str, parse: P) -> (r: Result<crate::model::Gpx, ConvertError>)
    requires
        deterministic_reading(&parse),
    ensures
        match spec_placemarks(spec_strip_kml_namespace(data@)) {
            Err(m) => r matches Err(ConvertError::Xml(t)) && t@ == m,
            Ok(ps) => match placemark_items(ps, reading_of(&parse)) {
                Ok(items) => r matches Ok(g) && document_of(g, items),
                Err(m) => r matches Err(ConvertError::InvalidCoordinates(t)) && t@ == m,
            },
        },
{
    let num = Ghost(reading_of(&parse));
    assert(reads_as(&parse, num@)) by {
        assert forall|s: &str, r: Option<Binary64>| call_ensures(parse, (s,), r) implies r == (num@)(s@) by {
            assert(reads_to(&parse, s@, r));
        }
    }
    let stripped = strip_kml_namespace(data);
    let placemarks = match parse_kml_placemarks(stripped.as_str()) {
        Ok(ps) => ps,
        Err(e) => {
            return Err(e);
        },
    };
    let r = gpx_from_placemarks(placemarks, &parse, num);
    r
}

} // verus!
