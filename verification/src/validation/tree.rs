//! The element tree that the validator walks, and how it is read from XML text.

use vstd::prelude::*;
use vstd::string::*;
use crate::text::{concat2, count_byte, count_byte_prefix};
use crate::xml_events::{
    attributes_pending, cdata_bytes_of, cdata_escape, cdata_escape_of, ends_at_last, is_last_event, lossy_of,
    lossy_text, next_attribute, ns_pending, ns_read_event, ns_reader_from_str, ns_reader_position, start_attributes,
    tag_attributes, tag_local_name, tag_local_of, text_bytes_of, text_unescape, unescape_of, utf8_or_empty,
    utf8_or_empty_of, xml_events_of, AttrEntryV, AttrItem, NsEvent, XmlEventV,
};
use quick_xml::events::BytesStart;
use quick_xml::NsReader;

verus! {

/// One element of a parsed document.
#[derive(Debug)]
pub struct XmlNode {
    /// Namespace URI the element is bound to, empty when unbound.
    pub namespace: String,
    /// Tag name without prefix.
    pub local: String,
    /// Attributes as (local key, unescaped value), in document order.
    pub attrs: Vec<(String, String)>,
    /// Concatenated character data directly inside the element.
    pub text: String,
    /// Child elements in document order.
    pub children: Vec<XmlNode>,
    /// 1-based line of the element's start tag.
    pub line: Option<u32>,
}

/// Prefix of every message about input that is not well-formed XML.
pub const NOT_WELL_FORMED: &'static str = "not well-formed XML: ";

/// Message for an end tag without a matching start tag.
pub const UNEXPECTED_END: &'static str = "unexpected end element";

/// The 1-based line on which byte `offset` of `source` lies: one more than the
/// number of newline bytes before it (offsets past the end count the whole text).
pub open spec fn spec_line_number(source: Seq<u8>, offset: nat) -> nat {
    let end = if offset < source.len() { offset } else { source.len() };
    1 + count_byte(source.take(end as int), 10u8)
}

/// The line on which byte `byte_offset` of `source` lies.
pub fn line_number(source: &str, byte_offset: usize) -> (r: u32)
    requires
        count_byte(source.spec_bytes(), 10u8) < u32::MAX,
    ensures
        r == spec_line_number(source.spec_bytes(), byte_offset as nat),
{
    let bytes = source.as_bytes();
    let end = if byte_offset < bytes.len() { byte_offset } else { bytes.len() };
    let n = count_byte_prefix(bytes, 10u8, end);
    proof {
        lemma_count_prefix_le(source.spec_bytes(), end as int);
    }
    1 + n as u32
}

proof fn lemma_count_prefix_le(s: Seq<u8>, end: int)
    requires
        0 <= end <= s.len(),
    ensures
        count_byte(s.take(end), 10u8) <= count_byte(s, 10u8),
    decreases s.len() - end,
{
    if end < s.len() {
        lemma_count_prefix_le(s, end + 1);
        assert(s.take(end + 1).drop_last() =~= s.take(end));
    } else {
        assert(s.take(end) =~= s);
    }
}

/// Attaches a finished element: to the innermost open element when there is
/// one, otherwise as the document root.
pub fn push_node(node: XmlNode, stack: &mut Vec<XmlNode>, root: &mut Option<XmlNode>)
    ensures
        old(stack)@.len() > 0 ==> {
            let n = old(stack)@.len() - 1;
            &&& final(stack)@.len() == old(stack)@.len()
            &&& final(stack)@.take(n) == old(stack)@.take(n)
            &&& final(stack)@[n].children@ == old(stack)@[n].children@.push(node)
            &&& final(stack)@[n].namespace == old(stack)@[n].namespace
            &&& final(stack)@[n].local == old(stack)@[n].local
            &&& final(stack)@[n].attrs == old(stack)@[n].attrs
            &&& final(stack)@[n].text == old(stack)@[n].text
            &&& final(stack)@[n].line == old(stack)@[n].line
            &&& *final(root) == *old(root)
        },
        old(stack)@.len() == 0 ==> final(stack)@ == old(stack)@ && *final(root) == Some(node),
        state_of(final(stack)@, *final(root)) == tree_push(node_view(node), state_of(old(stack)@, *old(root))),
{
    let ghost nv = node_view(node);
    if stack.len() > 0 {
        let ghost before = stack@;
        let mut parent = stack.pop().unwrap();
        let ghost p0 = parent;
        parent.children.push(node);
        proof {
            lemma_view_child_pushed(p0, parent, node);
        }
        stack.push(parent);
        assert(stack@.take(stack@.len() - 1) =~= old(stack)@.take(old(stack)@.len() - 1));
        proof {
            lemma_views_last_replaced(before, stack@);
            assert(node_views(before).last() == node_view(p0));
        }
    } else {
        *root = Some(node);
    }
}

/// Appends character data to the innermost open element, if any.
pub fn append_text(stack: &mut Vec<XmlNode>, text: &str)
    ensures
        old(stack)@.len() > 0 ==> {
            let n = old(stack)@.len() - 1;
            &&& final(stack)@.len() == old(stack)@.len()
            &&& final(stack)@.take(n) == old(stack)@.take(n)
            &&& final(stack)@[n].text@ == old(stack)@[n].text@ + text@
            &&& final(stack)@[n].children == old(stack)@[n].children
            &&& final(stack)@[n].namespace == old(stack)@[n].namespace
            &&& final(stack)@[n].local == old(stack)@[n].local
            &&& final(stack)@[n].attrs == old(stack)@[n].attrs
            &&& final(stack)@[n].line == old(stack)@[n].line
        },
        old(stack)@.len() == 0 ==> final(stack)@ == old(stack)@,
        node_views(final(stack)@) == tree_text(state_of(old(stack)@, None), text@).stack,
{
    if stack.len() > 0 {
        let ghost before = stack@;
        let mut node = stack.pop().unwrap();
        let ghost n0 = node;
        node.text.append(text);
        proof {
            lemma_view_text_appended(n0, node, text@);
        }
        stack.push(node);
        assert(stack@.take(stack@.len() - 1) =~= old(stack)@.take(old(stack)@.len() - 1));
        proof {
            lemma_views_last_replaced(before, stack@);
            assert(node_views(before).last() == node_view(n0));
        }
    }
}

/// Closes the innermost open element and attaches it to its parent (or makes
/// it the root). Fails when no element is open.
pub fn close_element(stack: &mut Vec<XmlNode>, root: &mut Option<XmlNode>) -> (r: Result<(), String>)
    ensures
        old(stack)@.len() == 0 <==> r is Err,
        r matches Err(m) ==> m@ == UNEXPECTED_END@ && final(stack)@ == old(stack)@ && *final(root) == *old(root),
        r is Ok ==> {
            let closed = old(stack)@.last();
            let rest = old(stack)@.drop_last();
            &&& rest.len() > 0 ==> {
                let n = rest.len() - 1;
                &&& final(stack)@.len() == rest.len()
                &&& final(stack)@.take(n) == rest.take(n)
                &&& final(stack)@[n].children@ == rest[n].children@.push(closed)
                &&& final(stack)@[n].local == rest[n].local
                &&& *final(root) == *old(root)
            }
            &&& rest.len() == 0 ==> final(stack)@.len() == 0 && *final(root) == Some(closed)
        },
        match tree_close(state_of(old(stack)@, *old(root))) {
            Ok(st) => r is Ok && state_of(final(stack)@, *final(root)) == st,
            Err(m) => r matches Err(e) && e@ == m,
        },
{
    proof {
        if old(stack)@.len() > 0 {
            assert(node_views(old(stack)@.drop_last()) =~= node_views(old(stack)@).drop_last());
        }
    }
    match stack.pop() {
        Some(node) => {
            push_node(node, stack, root);
            Ok(())
        },
        None => Err(UNEXPECTED_END.to_owned()),
    }
}

/// The attributes read from a list of entries, in order: malformed entries
/// are skipped; a value that cannot be decoded fails with its message after
/// `not well-formed XML: `.
pub open spec fn spec_attributes(entries: Seq<AttrEntryV>) -> Result<Seq<(Seq<char>, Seq<char>)>, Seq<char>>
    decreases entries.len(),
{
    if entries.len() == 0 {
        Ok(Seq::empty())
    } else {
        match entries[0] {
            AttrEntryV::Malformed => spec_attributes(entries.drop_first()),
            AttrEntryV::Attr(k, Ok(v)) => match spec_attributes(entries.drop_first()) {
                Ok(rest) => Ok(seq![(k, v)] + rest),
                Err(m) => Err(m),
            },
            AttrEntryV::Attr(_, Err(m)) => Err(NOT_WELL_FORMED@ + m),
        }
    }
}

/// The contents of key-value pairs.
pub open spec fn attr_pair_views(s: Seq<(String, String)>) -> Seq<(Seq<char>, Seq<char>)> {
    s.map_values(|p: (String, String)| (p.0@, p.1@))
}

proof fn lemma_attributes_error_prefix(entries: Seq<AttrEntryV>)
    ensures
        spec_attributes(entries) matches Err(m) ==> m.take(NOT_WELL_FORMED@.len() as int) == NOT_WELL_FORMED@,
    decreases entries.len(),
{
    if entries.len() > 0 {
        lemma_attributes_error_prefix(entries.drop_first());
        match entries[0] {
            AttrEntryV::Attr(_, Err(m)) => {
                assert((NOT_WELL_FORMED@ + m).take(NOT_WELL_FORMED@.len() as int) =~= NOT_WELL_FORMED@);
            },
            _ => {},
        }
    }
}

/// Reads the attributes of a tag as (local key, unescaped value) pairs; an
/// entry that the tokenizer reports as malformed is skipped.
fn collect_attributes(reader: &NsReader<&[u8]>, e: &BytesStart<'static>) -> (r: Result<Vec<(String, String)>, String>)
    ensures
        match spec_attributes(tag_attributes(*e)) {
            Ok(ps) => r matches Ok(v) && attr_pair_views(v@) == ps,
            Err(m) => r matches Err(t) && t@ == m,
        },
        r matches Err(m) ==> m@.take(NOT_WELL_FORMED@.len() as int) == NOT_WELL_FORMED@,
{
    proof {
        lemma_attributes_error_prefix(tag_attributes(*e));
    }
    let mut it = start_attributes(e);
    let mut attrs: Vec<(String, String)> = Vec::new();
    loop
        invariant
            spec_attributes(tag_attributes(*e)) == match spec_attributes(attributes_pending(it)) {
                Ok(rest) => Ok(attr_pair_views(attrs@) + rest),
                Err(m) => Err(m),
            },
            spec_attributes(tag_attributes(*e)) matches Err(m) ==> m.take(NOT_WELL_FORMED@.len() as int) == NOT_WELL_FORMED@,
        decreases attributes_pending(it).len(),
    {
        let ghost p = attributes_pending(it);
        match next_attribute(reader, &mut it) {
            AttrItem::Done => {
                assert(p.len() == 0);
                assert(attr_pair_views(attrs@) + Seq::<(Seq<char>, Seq<char>)>::empty() =~= attr_pair_views(attrs@));
                return Ok(attrs);
            },
            AttrItem::Malformed => {},
            AttrItem::Attr(key, value) => {
                match value {
                    Ok(v) => {
                        let ghost before = attr_pair_views(attrs@);
                        let ghost kv = (key@, v@);
                        attrs.push((key, v));
                        proof {
                            assert(attr_pair_views(attrs@) =~= before.push(kv));
                            match spec_attributes(p.drop_first()) {
                                Ok(rest) => {
                                    assert(before + (seq![kv] + rest) =~= before.push(kv) + rest);
                                },
                                Err(_) => {},
                            }
                        }
                    },
                    Err(err) => {
                        let m = concat2(NOT_WELL_FORMED, err.as_str());
                        return Err(m);
                    },
                }
            },
        }
    }
}

/// A message of the form `not well-formed XML: <detail>`.
fn not_well_formed(detail: &str) -> (r: String)
    ensures
        r@ == NOT_WELL_FORMED@ + detail@,
        r@.take(NOT_WELL_FORMED@.len() as int) == NOT_WELL_FORMED@,
{
    let r = concat2(NOT_WELL_FORMED, detail);
    assert(r@.take(NOT_WELL_FORMED@.len() as int) =~= NOT_WELL_FORMED@);
    r
}

/// Whether `m` is one of the messages with which reading a tree can fail.
pub open spec fn is_tree_error(m: Seq<char>) -> bool {
    ||| m == UNEXPECTED_END@
    ||| m.take(NOT_WELL_FORMED@.len() as int) == NOT_WELL_FORMED@
}

/// A new element read from a tag: its namespace and local name decoded
/// lossily, its attributes, and the line it starts on; the attributes'
/// error when they cannot be read.
pub open spec fn start_node(ns: Seq<u8>, local: Seq<u8>, tag: BytesStart<'static>, line: u32) -> Result<NodeV, Seq<char>> {
    match spec_attributes(tag_attributes(tag)) {
        Ok(attrs) => Ok(NodeV {
            namespace: lossy_of(ns),
            local: lossy_of(local),
            attrs,
            text: Seq::empty(),
            children: Seq::empty(),
            line: Some(line),
        }),
        Err(m) => Err(m),
    }
}

/// Character data for the innermost open element: ignored when none is
/// open, appended when it could be read, an error otherwise.
pub open spec fn tree_chars(st: TreeState, t: Result<Seq<char>, Seq<char>>) -> Result<TreeState, Seq<char>> {
    if st.stack.len() == 0 {
        Ok(st)
    } else {
        match t {
            Ok(v) => Ok(tree_text(st, v)),
            Err(m) => Err(NOT_WELL_FORMED@ + m),
        }
    }
}

/// One event other than the end of input or an error, read on `line`.
pub open spec fn tree_step(st: TreeState, line: u32, ev: XmlEventV) -> Result<TreeState, Seq<char>> {
    match ev {
        XmlEventV::Start(n, t) => match start_node(n, tag_local_of(t), t, line) {
            Ok(node) => Ok(TreeState { stack: st.stack.push(node), ..st }),
            Err(m) => Err(m),
        },
        XmlEventV::Empty(n, t) => match start_node(n, tag_local_of(t), t, line) {
            Ok(node) => Ok(tree_push(node, st)),
            Err(m) => Err(m),
        },
        XmlEventV::End => tree_close(st),
        XmlEventV::Text(e) => tree_chars(st, unescape_of(text_bytes_of(e))),
        XmlEventV::CData(e) => tree_chars(
            st,
            match cdata_escape_of(cdata_bytes_of(e)) {
                Ok(b) => Ok(utf8_or_empty_of(b)),
                Err(m) => Err(m),
            },
        ),
        _ => Ok(st),
    }
}

/// The line of the byte at which an event starts.
pub open spec fn event_line(source: Seq<u8>, pos: u64) -> u32 {
    spec_line_number(source, (pos as usize) as nat) as u32
}

/// The root, once the input has ended.
pub open spec fn tree_finish(st: TreeState) -> Result<NodeV, Seq<char>> {
    match st.root {
        Some(n) => Ok(n),
        None => Err(NOT_WELL_FORMED@ + "no root element"@),
    }
}

/// The tree read from `st` on, taking the events in order until the end of
/// input; the message of the first error.
pub open spec fn tree_run(st: TreeState, events: Seq<(u64, XmlEventV)>, source: Seq<u8>) -> Result<NodeV, Seq<char>>
    decreases events.len(),
{
    if events.len() == 0 {
        tree_finish(st)
    } else {
        match events[0].1 {
            XmlEventV::Eof => tree_finish(st),
            XmlEventV::Failed(m) => Err(NOT_WELL_FORMED@ + m),
            e => match tree_step(st, event_line(source, events[0].0), e) {
                Err(m) => Err(m),
                Ok(next) => tree_run(next, events.drop_first(), source),
            },
        }
    }
}

/// Nothing open, no root.
pub open spec fn initial_tree() -> TreeState {
    TreeState { stack: Seq::empty(), root: None }
}

/// The tree of a document, as its events give it.
pub open spec fn spec_tree(data: &str) -> Result<NodeV, Seq<char>> {
    tree_run(initial_tree(), xml_events_of(data@), data.spec_bytes())
}

proof fn lemma_prefixed_is_tree_error(m: Seq<char>)
    ensures
        is_tree_error(NOT_WELL_FORMED@ + m),
{
    assert((NOT_WELL_FORMED@ + m).take(NOT_WELL_FORMED@.len() as int) =~= NOT_WELL_FORMED@);
}

proof fn lemma_tree_run_error(st: TreeState, events: Seq<(u64, XmlEventV)>, source: Seq<u8>)
    ensures
        tree_run(st, events, source) matches Err(m) ==> is_tree_error(m),
    decreases events.len(),
{
    lemma_prefixed_is_tree_error("no root element"@);
    if events.len() > 0 {
        match events[0].1 {
            XmlEventV::Failed(m) => lemma_prefixed_is_tree_error(m),
            XmlEventV::Start(n, t) => {
                lemma_attributes_error_prefix(tag_attributes(t));
                if let Err(m) = start_node(n, tag_local_of(t), t, event_line(source, events[0].0)) {
                    assert(spec_attributes(tag_attributes(t)) == Err::<Seq<(Seq<char>, Seq<char>)>, Seq<char>>(m));
                }
            },
            XmlEventV::Empty(n, t) => {
                lemma_attributes_error_prefix(tag_attributes(t));
                if let Err(m) = start_node(n, tag_local_of(t), t, event_line(source, events[0].0)) {
                    assert(spec_attributes(tag_attributes(t)) == Err::<Seq<(Seq<char>, Seq<char>)>, Seq<char>>(m));
                }
            },
            XmlEventV::Text(e) => {
                if let Err(m) = unescape_of(text_bytes_of(e)) {
                    lemma_prefixed_is_tree_error(m);
                }
            },
            XmlEventV::CData(e) => {
                if let Err(m) = cdata_escape_of(cdata_bytes_of(e)) {
                    lemma_prefixed_is_tree_error(m);
                }
            },
            _ => {},
        }
        if !is_last_event(events[0].1) {
            if let Ok(next) = tree_step(st, event_line(source, events[0].0), events[0].1) {
                lemma_tree_run_error(next, events.drop_first(), source);
            }
        }
    }
}

proof fn lemma_fresh_view(n: XmlNode)
    requires
        n.children@.len() == 0,
    ensures
        node_view(n).children == Seq::<NodeV>::empty(),
{
    assert(node_view(n).children =~= Seq::<NodeV>::empty());
}

/// Reads `data` into an element tree, recording each element's start line:
/// the reader's events are taken in order until the end of input. An
/// unmatched end tag fails with `unexpected end element`; a reader error,
/// text or attributes that cannot be decoded, and a document without a root
/// element fail with a message that starts with `not well-formed XML: `.
pub fn parse_xml_tree(data: &str) -> (r: Result<XmlNode, String>)
    requires
        count_byte(data.spec_bytes(), 10u8) < u32::MAX,
    ensures
        match spec_tree(data) {
            Ok(n) => r matches Ok(x) && node_view(x) == n,
            Err(m) => r matches Err(t) && t@ == m,
        },
        r matches Err(m) ==> is_tree_error(m@),
{
    proof {
        lemma_tree_run_error(initial_tree(), xml_events_of(data@), data.spec_bytes());
    }
    let mut reader = ns_reader_from_str(data);
    let mut buf: Vec<u8> = Vec::new();
    let mut stack: Vec<XmlNode> = Vec::new();
    let mut root: Option<XmlNode> = None;
    assert(state_of(stack@, root) == initial_tree()) by {
        assert(node_views(stack@) =~= Seq::<NodeV>::empty());
    }
    loop
        invariant
            ends_at_last(ns_pending(reader)),
            count_byte(data.spec_bytes(), 10u8) < u32::MAX,
            spec_tree(data) == tree_run(state_of(stack@, root), ns_pending(reader), data.spec_bytes()),
        decreases ns_pending(reader).len(),
    {
        let ghost p = ns_pending(reader);
        let ghost st = state_of(stack@, root);
        let pos = ns_reader_position(&reader);
        let line = line_number(data, pos as usize);
        assert(line == event_line(data.spec_bytes(), p[0].0));
        let ev = ns_read_event(&mut reader, &mut buf);
        match ev {
            NsEvent::Start(ns, tag) => {
                let namespace = lossy_text(ns.as_slice());
                let local_bytes = tag_local_name(&tag);
                let local = lossy_text(local_bytes.as_slice());
                let attrs = match collect_attributes(&reader, &tag) {
                    Ok(a) => a,
                    Err(m) => {
                        return Err(m);
                    },
                };
                let node = XmlNode { namespace, local, attrs, text: String::new(), children: Vec::new(), line: Some(line) };
                proof {
                    lemma_fresh_view(node);
                }
                let ghost before = stack@;
                stack.push(node);
                assert(node_views(stack@) =~= node_views(before).push(node_view(node)));
            },
            NsEvent::Empty(ns, tag) => {
                let namespace = lossy_text(ns.as_slice());
                let local_bytes = tag_local_name(&tag);
                let local = lossy_text(local_bytes.as_slice());
                let attrs = match collect_attributes(&reader, &tag) {
                    Ok(a) => a,
                    Err(m) => {
                        return Err(m);
                    },
                };
                let node = XmlNode { namespace, local, attrs, text: String::new(), children: Vec::new(), line: Some(line) };
                proof {
                    lemma_fresh_view(node);
                }
                push_node(node, &mut stack, &mut root);
            },
            NsEvent::End => {
                match close_element(&mut stack, &mut root) {
                    Ok(()) => {},
                    Err(m) => {
                        return Err(m);
                    },
                }
            },
            NsEvent::Text(e) => {
                if stack.len() > 0 {
                    match text_unescape(&e) {
                        Ok(v) => append_text(&mut stack, v.as_str()),
                        Err(err) => {
                            return Err(not_well_formed(err.as_str()));
                        },
                    }
                }
            },
            NsEvent::CData(e) => {
                if stack.len() > 0 {
                    match cdata_escape(e) {
                        Ok(bytes) => {
                            let v = utf8_or_empty(bytes.as_slice());
                            append_text(&mut stack, v.as_str());
                        },
                        Err(err) => {
                            return Err(not_well_formed(err.as_str()));
                        },
                    }
                }
            },
            NsEvent::Eof => {
                return match root {
                    Some(node) => Ok(node),
                    None => Err(not_well_formed("no root element")),
                };
            },
            NsEvent::Other => {},
            NsEvent::Failed(err) => {
                return Err(not_well_formed(err.as_str()));
            },
        }
        buf.clear();
        proof {
            let rest = p.drop_first();
            assert(!is_last_event(p[0].1));
            assert(p.len() > 1);
            assert forall|i: int| 0 <= i < rest.len() - 1 implies !is_last_event(#[trigger] rest[i].1) by {
                assert(rest[i] == p[i + 1]);
            }
            assert(rest.last() == p.last());
        }
    }
}

} // verus!

verus! {

// ================================================================ the tree as values

/// The content of an element: namespace, local name, attributes, text,
/// children and start line.
pub struct NodeV {
    pub namespace: Seq<char>,
    pub local: Seq<char>,
    pub attrs: Seq<(Seq<char>, Seq<char>)>,
    pub text: Seq<char>,
    pub children: Seq<NodeV>,
    pub line: Option<u32>,
}

/// The content of an element and of all its descendants.
pub open spec fn node_view(n: XmlNode) -> NodeV
    decreases n,
{
    NodeV {
        namespace: n.namespace@,
        local: n.local@,
        attrs: attr_pair_views(n.attrs@),
        text: n.text@,
        children: Seq::new(
            n.children@.len(),
            |i: int| if 0 <= i < n.children@.len() { node_view(n.children@[i]) } else { empty_node() },
        ),
        line: n.line,
    }
}

/// An element with nothing in it.
pub open spec fn empty_node() -> NodeV {
    NodeV { namespace: Seq::empty(), local: Seq::empty(), attrs: Seq::empty(), text: Seq::empty(), children: Seq::empty(), line: None }
}

/// The content of each element.
pub open spec fn node_views(s: Seq<XmlNode>) -> Seq<NodeV> {
    s.map_values(|n: XmlNode| node_view(n))
}

/// The content of an optional element.
pub open spec fn opt_node_view(o: Option<XmlNode>) -> Option<NodeV> {
    match o {
        Some(n) => Some(node_view(n)),
        None => None,
    }
}

/// The elements still open, innermost last, and the root once it is closed.
pub struct TreeState {
    pub stack: Seq<NodeV>,
    pub root: Option<NodeV>,
}

/// Attaches a finished element to the innermost open one, or makes it the root.
pub open spec fn tree_push(n: NodeV, st: TreeState) -> TreeState {
    if st.stack.len() > 0 {
        let last = st.stack.last();
        TreeState { stack: st.stack.update(st.stack.len() - 1, NodeV { children: last.children.push(n), ..last }), ..st }
    } else {
        TreeState { root: Some(n), ..st }
    }
}

/// Appends text to the innermost open element, if any.
pub open spec fn tree_text(st: TreeState, t: Seq<char>) -> TreeState {
    if st.stack.len() > 0 {
        let last = st.stack.last();
        TreeState { stack: st.stack.update(st.stack.len() - 1, NodeV { text: last.text + t, ..last }), ..st }
    } else {
        st
    }
}

/// Closes the innermost open element; fails when none is open.
pub open spec fn tree_close(st: TreeState) -> Result<TreeState, Seq<char>> {
    if st.stack.len() == 0 {
        Err(UNEXPECTED_END@)
    } else {
        Ok(tree_push(st.stack.last(), TreeState { stack: st.stack.drop_last(), ..st }))
    }
}

/// The state of the exec stack and root.
pub open spec fn state_of(stack: Seq<XmlNode>, root: Option<XmlNode>) -> TreeState {
    TreeState { stack: node_views(stack), root: opt_node_view(root) }
}

proof fn lemma_view_child_pushed(a: XmlNode, b: XmlNode, c: XmlNode)
    requires
        b.namespace == a.namespace && b.local == a.local && b.attrs == a.attrs && b.text == a.text && b.line == a.line,
        b.children@ == a.children@.push(c),
    ensures
        node_view(b) == (NodeV { children: node_view(a).children.push(node_view(c)), ..node_view(a) }),
{
    assert(node_view(b).children =~= node_view(a).children.push(node_view(c)));
}

proof fn lemma_view_text_appended(a: XmlNode, b: XmlNode, t: Seq<char>)
    requires
        b.namespace == a.namespace && b.local == a.local && b.attrs == a.attrs && b.children == a.children && b.line == a.line,
        b.text@ == a.text@ + t,
    ensures
        node_view(b) == (NodeV { text: node_view(a).text + t, ..node_view(a) }),
{
    assert(node_view(b).children =~= node_view(a).children);
}

proof fn lemma_views_last_replaced(s: Seq<XmlNode>, t: Seq<XmlNode>)
    requires
        s.len() > 0,
        t.len() == s.len(),
        t.take(s.len() - 1) == s.take(s.len() - 1),
    ensures
        node_views(t) == node_views(s).update(s.len() - 1, node_view(t.last())),
{
    assert forall|i: int| 0 <= i < s.len() - 1 implies t[i] == s[i] by {
        assert(t[i] == t.take(s.len() - 1)[i]);
        assert(s[i] == s.take(s.len() - 1)[i]);
    }
    assert(node_views(t) =~= node_views(s).update(s.len() - 1, node_view(t.last())));
}

} // verus!
