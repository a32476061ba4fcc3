//! The XML text writer behind GPX serialization, and the writers of the
//! GPX elements that hold no floating-point values.

use vstd::prelude::*;
use crate::text::{push_char, push_decimal, spec_decimal};
use crate::types::{
    fix_as_str, fix_text, Copyright, Fix, Link, Person, PowerExtension, TrackExtension,
    GPPXPX_NS_V1, GPXX_NS_V3,
};

verus! {

/// `value` with `&`, `<` and `>` written as entities.
pub open spec fn spec_escape_text(value: Seq<char>) -> Seq<char>
    decreases value.len(),
{
    if value.len() == 0 {
        Seq::empty()
    } else {
        let c = value.last();
        spec_escape_text(value.drop_last()) + if c == '&' {
            "&amp;"@
        } else if c == '<' {
            "&lt;"@
        } else if c == '>' {
            "&gt;"@
        } else {
            seq![c]
        }
    }
}

/// `value` with `&`, `<`, `>` and `"` written as entities.
pub open spec fn spec_escape_attr(value: Seq<char>) -> Seq<char>
    decreases value.len(),
{
    if value.len() == 0 {
        Seq::empty()
    } else {
        let c = value.last();
        spec_escape_attr(value.drop_last()) + if c == '&' {
            "&amp;"@
        } else if c == '<' {
            "&lt;"@
        } else if c == '>' {
            "&gt;"@
        } else if c == '"' {
            "&quot;"@
        } else {
            seq![c]
        }
    }
}

/// Escapes text content.
pub fn escape_text(value: &str) -> (r: String)
    ensures
        r@ == spec_escape_text(value@),
{
    let n = value.unicode_len();
    let mut r = String::new();
    let mut i: usize = 0;
    while i < n
        invariant
            n == value@.len(),
            i <= n,
            r@ == spec_escape_text(value@.take(i as int)),
        decreases n - i,
    {
        let c = value.get_char(i);
        assert(value@.take(i + 1).drop_last() =~= value@.take(i as int));
        if c == '&' {
            r.append("&amp;");
        } else if c == '<' {
            r.append("&lt;");
        } else if c == '>' {
            r.append("&gt;");
        } else {
            push_char(&mut r, c);
            assert(r@ =~= spec_escape_text(value@.take(i as int)) + seq![c]);
        }
        i = i + 1;
    }
    assert(value@.take(n as int) =~= value@);
    r
}

/// Escapes an attribute value (double-quoted).
pub fn escape_attr(value: &str) -> (r: String)
    ensures
        r@ == spec_escape_attr(value@),
{
    let n = value.unicode_len();
    let mut r = String::new();
    let mut i: usize = 0;
    while i < n
        invariant
            n == value@.len(),
            i <= n,
            r@ == spec_escape_attr(value@.take(i as int)),
        decreases n - i,
    {
        let c = value.get_char(i);
        assert(value@.take(i + 1).drop_last() =~= value@.take(i as int));
        if c == '&' {
            r.append("&amp;");
        } else if c == '<' {
            r.append("&lt;");
        } else if c == '>' {
            r.append("&gt;");
        } else if c == '"' {
            r.append("&quot;");
        } else {
            push_char(&mut r, c);
            assert(r@ =~= spec_escape_attr(value@.take(i as int)) + seq![c]);
        }
        i = i + 1;
    }
    assert(value@.take(n as int) =~= value@);
    r
}

/// Two spaces per level of depth.
pub open spec fn indentation(depth: nat) -> Seq<char>
    decreases depth,
{
    if depth == 0 { Seq::empty() } else { indentation((depth - 1) as nat) + "  "@ }
}

/// The attributes of a start tag: ` name="value"` for each, values escaped.
pub open spec fn attrs_text(attrs: Seq<(Seq<char>, Seq<char>)>) -> Seq<char>
    decreases attrs.len(),
{
    if attrs.len() == 0 {
        Seq::empty()
    } else {
        let (name, value) = attrs.last();
        attrs_text(attrs.drop_last()) + " "@ + name + "=\""@ + spec_escape_attr(value) + "\""@
    }
}

/// The names and values of attribute pairs, as text.
pub open spec fn attrs_view(attrs: Seq<(&str, &str)>) -> Seq<(Seq<char>, Seq<char>)> {
    attrs.map_values(|p: (&str, &str)| (p.0@, p.1@))
}

/// The contents of an optional string.
pub open spec fn opt_view(s: Option<String>) -> Option<Seq<char>> {
    match s {
        Some(v) => Some(v@),
        None => None,
    }
}

/// The indentation of a line at `depth`, when printing prettily.
pub open spec fn lead(pretty: bool, depth: nat) -> Seq<char> {
    if pretty { indentation(depth) } else { Seq::empty() }
}

/// The end of a line, when printing prettily.
pub open spec fn line_end(pretty: bool) -> Seq<char> {
    if pretty { "\n"@ } else { Seq::empty() }
}

/// A start tag on a line at `depth`.
pub open spec fn start_text(pretty: bool, depth: nat, tag: Seq<char>, attrs: Seq<(Seq<char>, Seq<char>)>) -> Seq<char> {
    lead(pretty, depth) + "<"@ + tag + attrs_text(attrs) + ">"@ + line_end(pretty)
}

/// An end tag on a line at `depth`.
pub open spec fn end_text(pretty: bool, depth: nat, tag: Seq<char>) -> Seq<char> {
    lead(pretty, depth) + "</"@ + tag + ">"@ + line_end(pretty)
}

/// An empty element on a line at `depth`.
pub open spec fn empty_text(pretty: bool, depth: nat, tag: Seq<char>, attrs: Seq<(Seq<char>, Seq<char>)>) -> Seq<char> {
    lead(pretty, depth) + "<"@ + tag + attrs_text(attrs) + "/>"@ + line_end(pretty)
}

/// An element holding escaped text, on a line at `depth`.
pub open spec fn text_elem(pretty: bool, depth: nat, tag: Seq<char>, value: Seq<char>) -> Seq<char> {
    lead(pretty, depth) + "<"@ + tag + ">"@ + spec_escape_text(value) + "</"@ + tag + ">"@ + line_end(pretty)
}

/// An element holding text when there is a value; nothing otherwise.
pub open spec fn opt_text_elem(pretty: bool, depth: nat, tag: Seq<char>, value: Option<Seq<char>>) -> Seq<char> {
    match value {
        Some(v) => text_elem(pretty, depth, tag, v),
        None => Seq::empty(),
    }
}

/// Builds indented XML text. With `pretty`, each element stands on a line of
/// its own, indented by its depth.
pub struct XmlWriter {
    /// The text written so far.
    pub out: String,
    /// Whether to break lines and indent.
    pub pretty: bool,
    /// How many elements are open.
    pub depth: usize,
}

impl XmlWriter {
    /// A writer that appends to `out`, at depth 0.
    pub fn new(out: String, pretty: bool) -> (r: Self)
        ensures
            r.out@ == out@,
            r.pretty == pretty,
            r.depth == 0,
    {
        XmlWriter { out, pretty, depth: 0 }
    }

    /// Gives back the text written.
    pub fn into_string(self) -> (r: String)
        ensures
            r@ == self.out@,
    {
        self.out
    }

    /// Writes the indentation of the current depth, when printing prettily.
    pub fn indent(&mut self)
        ensures
            final(self).out@ == old(self).out@ + lead(old(self).pretty, old(self).depth as nat),
            final(self).pretty == old(self).pretty,
            final(self).depth == old(self).depth,
    {
        if self.pretty {
            let mut i: usize = 0;
            while i < self.depth
                invariant
                    i <= self.depth,
                    self.pretty == old(self).pretty,
                    self.depth == old(self).depth,
                    self.out@ == old(self).out@ + indentation(i as nat),
                decreases self.depth - i,
            {
                self.out.append("  ");
                i = i + 1;
                assert(self.out@ =~= old(self).out@ + indentation(i as nat));
            }
        } else {
            assert(self.out@ =~= self.out@ + Seq::<char>::empty());
        }
    }

    fn newline(&mut self)
        ensures
            final(self).out@ == old(self).out@ + line_end(old(self).pretty),
            final(self).pretty == old(self).pretty,
            final(self).depth == old(self).depth,
    {
        if self.pretty {
            push_char(&mut self.out, '\n');
            assert(self.out@ =~= old(self).out@ + "\n"@) by {
                reveal_strlit("\n");
            }
        } else {
            assert(self.out@ =~= self.out@ + Seq::<char>::empty());
        }
    }

    fn write_attrs(&mut self, attrs: &[(&str, &str)])
        ensures
            final(self).out@ == old(self).out@ + attrs_text(attrs_view(attrs@)),
            final(self).pretty == old(self).pretty,
            final(self).depth == old(self).depth,
    {
        let mut k: usize = 0;
        assert(attrs_view(attrs@.take(0)) =~= Seq::<(Seq<char>, Seq<char>)>::empty());
        assert(self.out@ =~= old(self).out@ + Seq::<char>::empty());
        while k < attrs.len()
            invariant
                k <= attrs@.len(),
                self.pretty == old(self).pretty,
                self.depth == old(self).depth,
                self.out@ == old(self).out@ + attrs_text(attrs_view(attrs@.take(k as int))),
            decreases attrs.len() - k,
        {
            let (name, value) = attrs[k];
            assert(attrs_view(attrs@.take(k + 1)).drop_last() =~= attrs_view(attrs@.take(k as int)));
            assert(attrs_view(attrs@.take(k + 1)).last() == (name@, value@));
            self.out.append(" ");
            self.out.append(name);
            self.out.append("=\"");
            let escaped = escape_attr(value);
            self.out.append(escaped.as_str());
            self.out.append("\"");
            k = k + 1;
            assert(self.out@ =~= old(self).out@ + attrs_text(attrs_view(attrs@.take(k as int))));
        }
        assert(attrs@.take(attrs@.len() as int) =~= attrs@);
    }

    /// Writes a start tag with attributes and opens a level.
    pub fn start(&mut self, tag: &str, attrs: &[(&str, &str)])
        requires
            old(self).depth < usize::MAX,
        ensures
            final(self).out@ == old(self).out@ + start_text(old(self).pretty, old(self).depth as nat, tag@,
                attrs_view(attrs@)),
            final(self).pretty == old(self).pretty,
            final(self).depth == old(self).depth + 1,
    {
        self.indent();
        self.out.append("<");
        self.out.append(tag);
        self.write_attrs(attrs);
        self.out.append(">");
        self.newline();
        self.depth = self.depth + 1;
        assert(self.out@ =~= old(self).out@ + start_text(old(self).pretty, old(self).depth as nat, tag@,
            attrs_view(attrs@)));
    }

    /// Closes a level (never below 0) and writes an end tag.
    pub fn end(&mut self, tag: &str)
        ensures
            final(self).depth == (if old(self).depth > 0 { old(self).depth - 1 } else { 0 }),
            final(self).pretty == old(self).pretty,
            final(self).out@ == old(self).out@ + end_text(final(self).pretty, final(self).depth as nat, tag@),
    {
        self.depth = if self.depth > 0 { self.depth - 1 } else { 0 };
        let ghost mid = *self;
        self.indent();
        self.out.append("</");
        self.out.append(tag);
        self.out.append(">");
        self.newline();
        assert(self.out@ =~= old(self).out@ + end_text(mid.pretty, mid.depth as nat, tag@));
    }

    /// Writes an empty element with attributes.
    pub fn empty(&mut self, tag: &str, attrs: &[(&str, &str)])
        ensures
            final(self).out@ == old(self).out@ + empty_text(old(self).pretty, old(self).depth as nat, tag@,
                attrs_view(attrs@)),
            final(self).pretty == old(self).pretty,
            final(self).depth == old(self).depth,
    {
        self.indent();
        self.out.append("<");
        self.out.append(tag);
        self.write_attrs(attrs);
        self.out.append("/>");
        self.newline();
        assert(self.out@ =~= old(self).out@ + empty_text(old(self).pretty, old(self).depth as nat, tag@,
            attrs_view(attrs@)));
    }

    /// Writes an element holding escaped text.
    pub fn text_element(&mut self, tag: &str, text: &str)
        ensures
            final(self).out@ == old(self).out@ + text_elem(old(self).pretty, old(self).depth as nat, tag@, text@),
            final(self).pretty == old(self).pretty,
            final(self).depth == old(self).depth,
    {
        self.indent();
        self.out.append("<");
        self.out.append(tag);
        self.out.append(">");
        let escaped = escape_text(text);
        self.out.append(escaped.as_str());
        self.out.append("</");
        self.out.append(tag);
        self.out.append(">");
        self.newline();
        assert(self.out@ =~= old(self).out@ + text_elem(old(self).pretty, old(self).depth as nat, tag@, text@));
    }

    /// Writes ready-made markup on a line of its own.
    pub fn raw_inline(&mut self, inner: &str)
        ensures
            final(self).out@ == old(self).out@ + lead(old(self).pretty, old(self).depth as nat) + inner@
                + line_end(old(self).pretty),
            final(self).pretty == old(self).pretty,
            final(self).depth == old(self).depth,
    {
        self.indent();
        self.out.append(inner);
        self.newline();
        assert(self.out@ =~= old(self).out@ + lead(old(self).pretty, old(self).depth as nat) + inner@
            + line_end(old(self).pretty));
    }
}

/// Writes an element holding text.
pub fn write_text(tag: &str, value: &str, w: &mut XmlWriter)
    ensures
        final(w).out@ == old(w).out@ + text_elem(old(w).pretty, old(w).depth as nat, tag@, value@),
        final(w).pretty == old(w).pretty,
        final(w).depth == old(w).depth,
{
    w.text_element(tag, value);
}

/// Writes an element holding text when there is a value; nothing otherwise.
pub fn write_opt_text(tag: &str, value: Option<&str>, w: &mut XmlWriter)
    ensures
        final(w).out@ == old(w).out@ + opt_text_elem(old(w).pretty, old(w).depth as nat, tag@,
            match value { Some(v) => Some(v@), None => None }),
        final(w).pretty == old(w).pretty,
        final(w).depth == old(w).depth,
{
    match value {
        Some(v) => write_text(tag, v, w),
        None => {
            assert(w.out@ =~= w.out@ + Seq::<char>::empty());
        },
    }
}

/// The schema spelling of a fix kind, as written.
pub fn fix_to_str(fix: Fix) -> (r: &'static str)
    ensures
        r@ == fix_text(fix),
{
    fix_as_str(fix)
}

/// Borrows the contents of an optional string.
pub fn opt_str(s: &Option<String>) -> (r: Option<&str>)
    ensures
        (match r { Some(x) => Some(x@), None => None }) == opt_view(*s),
{
    match s {
        Some(v) => Some(v.as_str()),
        None => None,
    }
}

/// The text written for a `<link>` at `depth`.
pub open spec fn link_text(pretty: bool, depth: nat, link: Link) -> Seq<char> {
    start_text(pretty, depth, "link"@, seq![("href"@, link.href@)])
        + opt_text_elem(pretty, depth + 1, "text"@, opt_view(link.text))
        + opt_text_elem(pretty, depth + 1, "type"@, opt_view(link.link_type))
        + end_text(pretty, depth, "link"@)
}

/// Writes a `<link>` element.
pub fn write_link(link: &Link, w: &mut XmlWriter)
    requires
        old(w).depth < usize::MAX,
    ensures
        final(w).out@ == old(w).out@ + link_text(old(w).pretty, old(w).depth as nat, *link),
        final(w).pretty == old(w).pretty,
        final(w).depth == old(w).depth,
{
    let ghost w0 = *w;
    let attrs = [("href", link.href.as_str())];
    assert(attrs_view(attrs@) =~= seq![("href"@, link.href@)]);
    w.start("link", &attrs);
    write_opt_text("text", opt_str(&link.text), w);
    write_opt_text("type", opt_str(&link.link_type), w);
    w.end("link");
    assert(w.out@ =~= w0.out@ + link_text(w0.pretty, w0.depth as nat, *link));
}

/// The text written for a `<copyright>` at `depth`.
pub open spec fn copyright_text(pretty: bool, depth: nat, c: Copyright) -> Seq<char> {
    start_text(pretty, depth, "copyright"@, seq![("author"@, c.author@)])
        + opt_text_elem(pretty, depth + 1, "year"@, opt_view(c.year))
        + opt_text_elem(pretty, depth + 1, "license"@, opt_view(c.license))
        + end_text(pretty, depth, "copyright"@)
}

/// Writes a `<copyright>` element.
pub fn write_copyright(copyright: &Copyright, w: &mut XmlWriter)
    requires
        old(w).depth < usize::MAX,
    ensures
        final(w).out@ == old(w).out@ + copyright_text(old(w).pretty, old(w).depth as nat, *copyright),
        final(w).pretty == old(w).pretty,
        final(w).depth == old(w).depth,
{
    let ghost w0 = *w;
    let attrs = [("author", copyright.author.as_str())];
    assert(attrs_view(attrs@) =~= seq![("author"@, copyright.author@)]);
    w.start("copyright", &attrs);
    write_opt_text("year", opt_str(&copyright.year), w);
    write_opt_text("license", opt_str(&copyright.license), w);
    w.end("copyright");
    assert(w.out@ =~= w0.out@ + copyright_text(w0.pretty, w0.depth as nat, *copyright));
}

/// The `<email>` element of a person, at `depth`.
pub open spec fn person_email_text(pretty: bool, depth: nat, p: Person) -> Seq<char> {
    match p.email {
        Some(e) => empty_text(pretty, depth, "email"@, seq![("id"@, e.id@), ("domain"@, e.domain@)]),
        None => Seq::empty(),
    }
}

/// The `<link>` element of a person, at `depth`.
pub open spec fn person_link_text(pretty: bool, depth: nat, p: Person) -> Seq<char> {
    match p.link {
        Some(l) => link_text(pretty, depth, l),
        None => Seq::empty(),
    }
}

/// The text written for an `<author>` at `depth`.
pub open spec fn person_text(pretty: bool, depth: nat, p: Person) -> Seq<char> {
    start_text(pretty, depth, "author"@, Seq::empty())
        + opt_text_elem(pretty, depth + 1, "name"@, opt_view(p.name))
        + person_email_text(pretty, depth + 1, p)
        + person_link_text(pretty, depth + 1, p)
        + end_text(pretty, depth, "author"@)
}

/// Writes an `<author>` element.
#[verifier::rlimit(30)]
pub fn write_person(person: &Person, w: &mut XmlWriter)
    requires
        old(w).depth < usize::MAX - 1,
    ensures
        final(w).out@ == old(w).out@ + person_text(old(w).pretty, old(w).depth as nat, *person),
        final(w).pretty == old(w).pretty,
        final(w).depth == old(w).depth,
{
    let ghost w0 = *w;
    let ghost p = w0.pretty;
    let ghost d = w0.depth as nat;
    let none: [(&str, &str); 0] = [];
    assert(attrs_view(none@) =~= Seq::<(Seq<char>, Seq<char>)>::empty());
    w.start("author", &none);
    write_opt_text("name", opt_str(&person.name), w);
    let ghost a = start_text(p, d, "author"@, Seq::empty()) + opt_text_elem(p, d + 1, "name"@, opt_view(person.name));
    assert(w.out@ =~= w0.out@ + a);
    let ghost w1 = *w;
    match &person.email {
        Some(email) => {
            let attrs = [("id", email.id.as_str()), ("domain", email.domain.as_str())];
            assert(attrs_view(attrs@) =~= seq![("id"@, email.id@), ("domain"@, email.domain@)]);
            w.empty("email", &attrs);
        },
        None => {
            assert(w.out@ =~= w1.out@ + Seq::<char>::empty());
        },
    }
    let ghost b = person_email_text(p, d + 1, *person);
    assert(w.out@ =~= w0.out@ + a + b);
    let ghost w2 = *w;
    match &person.link {
        Some(link) => write_link(link, w),
        None => {
            assert(w.out@ =~= w2.out@ + Seq::<char>::empty());
        },
    }
    let ghost c = person_link_text(p, d + 1, *person);
    assert(w.out@ =~= w0.out@ + a + b + c);
    w.end("author");
    assert(w.out@ =~= w0.out@ + (a + b + c + end_text(p, d, "author"@)));
}

// ================================================================ extensions

/// The markup of a Garmin power extension.
pub open spec fn spec_power_extension_xml(p: PowerExtension) -> Seq<char> {
    "<gpxpx:PowerExtension xmlns:gpxpx=\""@ + GPPXPX_NS_V1@ + "\">"@
        + match p.power_in_watts {
            Some(w) => "<gpxpx:PowerInWatts>"@ + spec_decimal(w as nat) + "</gpxpx:PowerInWatts>"@,
            None => Seq::empty(),
        } + "</gpxpx:PowerExtension>"@
}

/// Serializes a Garmin power extension.
pub fn power_extension_xml(power: &PowerExtension) -> (r: String)
    ensures
        r@ == spec_power_extension_xml(*power),
{
    let mut out = String::new();
    out.append("<gpxpx:PowerExtension xmlns:gpxpx=\"");
    out.append(GPPXPX_NS_V1);
    out.append("\">");
    let ghost mid = out@;
    if let Some(watts) = power.power_in_watts {
        out.append("<gpxpx:PowerInWatts>");
        push_decimal(&mut out, watts as u64);
        out.append("</gpxpx:PowerInWatts>");
    } else {
        assert(out@ =~= mid + Seq::<char>::empty());
    }
    out.append("</gpxpx:PowerExtension>");
    assert(out@ =~= spec_power_extension_xml(*power));
    out
}

/// The markup of a Garmin track extension.
pub open spec fn spec_track_extension_xml(t: TrackExtension) -> Seq<char> {
    "<gpxx:TrackExtension xmlns:gpxx=\""@ + GPXX_NS_V3@ + "\">"@
        + match t.display_color {
            Some(c) => "<gpxx:DisplayColor>"@ + spec_escape_text(c@) + "</gpxx:DisplayColor>"@,
            None => Seq::empty(),
        } + "</gpxx:TrackExtension>"@
}

/// Serializes a Garmin track extension.
pub fn track_extension_xml(track: &TrackExtension) -> (r: String)
    ensures
        r@ == spec_track_extension_xml(*track),
{
    let mut out = String::new();
    out.append("<gpxx:TrackExtension xmlns:gpxx=\"");
    out.append(GPXX_NS_V3);
    out.append("\">");
    let ghost mid = out@;
    if let Some(color) = &track.display_color {
        out.append("<gpxx:DisplayColor>");
        let escaped = escape_text(color.as_str());
        out.append(escaped.as_str());
        out.append("</gpxx:DisplayColor>");
    } else {
        assert(out@ =~= mid + Seq::<char>::empty());
    }
    out.append("</gpxx:TrackExtension>");
    assert(out@ =~= spec_track_extension_xml(*track));
    out
}

} // verus!

verus! {

/// Escaped text holds no `<` or `>`: whatever a text element holds cannot
/// open or close markup.
pub proof fn lemma_escape_text_has_no_markup(v: Seq<char>)
    ensures
        forall|i: int| 0 <= i < spec_escape_text(v).len() ==> #[trigger] spec_escape_text(v)[i] != '<'
            && spec_escape_text(v)[i] != '>',
    decreases v.len(),
{
    if v.len() > 0 {
        lemma_escape_text_has_no_markup(v.drop_last());
        reveal_strlit("&amp;");
        reveal_strlit("&lt;");
        reveal_strlit("&gt;");
        let pre = spec_escape_text(v.drop_last());
        let s = spec_escape_text(v);
        assert forall|i: int| 0 <= i < s.len() implies s[i] != '<' && s[i] != '>' by {
            if i < pre.len() {
                assert(s[i] == pre[i]);
            }
        }
    }
}

/// An escaped attribute value holds no `<`, `>` or `"`: it cannot end the
/// quoted value or open markup.
pub proof fn lemma_escape_attr_has_no_quote(v: Seq<char>)
    ensures
        forall|i: int| 0 <= i < spec_escape_attr(v).len() ==> #[trigger] spec_escape_attr(v)[i] != '"'
            && spec_escape_attr(v)[i] != '<' && spec_escape_attr(v)[i] != '>',
    decreases v.len(),
{
    if v.len() > 0 {
        lemma_escape_attr_has_no_quote(v.drop_last());
        reveal_strlit("&amp;");
        reveal_strlit("&lt;");
        reveal_strlit("&gt;");
        reveal_strlit("&quot;");
        let pre = spec_escape_attr(v.drop_last());
        let s = spec_escape_attr(v);
        assert forall|i: int| 0 <= i < s.len() implies s[i] != '"' && s[i] != '<' && s[i] != '>' by {
            if i < pre.len() {
                assert(s[i] == pre[i]);
            }
        }
    }
}

/// Escaping leaves text without `&`, `<`, `>` unchanged.
pub proof fn lemma_escape_text_plain(v: Seq<char>)
    requires
        forall|i: int| 0 <= i < v.len() ==> #[trigger] v[i] != '&' && v[i] != '<' && v[i] != '>',
    ensures
        spec_escape_text(v) == v,
    decreases v.len(),
{
    if v.len() > 0 {
        lemma_escape_text_plain(v.drop_last());
        assert(v.drop_last().push(v.last()) =~= v);
        assert(v.last() == v[v.len() - 1]);
    }
}

} // verus!
