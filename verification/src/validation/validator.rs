//! Walks an element tree and reports every deviation from the GPX 1.1 rules.

use vstd::prelude::*;
use vstd::string::*;
use crate::text::{
    chars_of, concat2, concat3, push_decimal, spec_decimal, str_eq, string_from_chars, trim,
    trim_chars,
};
use super::content::{run_check, spec_check, Finding};
use super::schema::{
    attr_views, child_views, schema, spec_attr_rules, spec_child_rules, AttrRule, AttrV, ChildRule,
    ChildV, ComplexType, ContentCheck, TypeName,
};
use super::suggest::{names_of, unknown_element_message, unknown_message};
use super::tree::{is_tree_error, parse_xml_tree, XmlNode};
use crate::text::count_byte;
use super::{IssueV, Severity, ValidationIssue, ValidationResult, GPX_10_NAMESPACE, GPX_NAMESPACE};

verus! {

// ================================================================ specification

/// An issue as a tuple of severity, message, path and line.
pub open spec fn issue(sev: Severity, msg: Seq<char>, path: Seq<char>, line: Option<u32>) -> IssueV {
    (sev, msg, path, line)
}

/// The contents of a list of issues.
pub open spec fn views(s: Seq<ValidationIssue>) -> Seq<IssueV> {
    s.map_values(|i: ValidationIssue| i@)
}

/// A child counts for the schema when it is in the GPX namespace or in none.
pub open spec fn ns_ok(c: XmlNode) -> bool {
    c.namespace@.len() == 0 || c.namespace@ == GPX_NAMESPACE@
}

/// The index of the first rule for `tag`, if any.
pub open spec fn first_rule(rules: Seq<ChildV>, tag: Seq<char>) -> Option<int>
    decreases rules.len(),
{
    if rules.len() == 0 {
        None
    } else {
        match first_rule(rules.drop_last(), tag) {
            Some(k) => Some(k),
            None => if rules.last().0 == tag { Some(rules.len() - 1) } else { None },
        }
    }
}

/// The tags of a list of child rules.
pub open spec fn rule_tags(rules: Seq<ChildV>) -> Seq<Seq<char>> {
    rules.map_values(|r: ChildV| r.0)
}

/// How many of the first `i` children count for the schema and carry `tag`.
pub open spec fn count_before(children: Seq<XmlNode>, i: int, tag: Seq<char>) -> nat
    decreases i,
{
    if i <= 0 {
        0
    } else {
        count_before(children, i - 1, tag) + if ns_ok(children[i - 1]) && children[i - 1].local@ == tag {
            1nat
        } else {
            0nat
        }
    }
}

/// The largest rule index among the first `i` children that the schema
/// knows, or -1 when there is none.
pub open spec fn max_before(children: Seq<XmlNode>, rules: Seq<ChildV>, i: int) -> int
    decreases i,
{
    if i <= 0 {
        -1
    } else {
        let m = max_before(children, rules, i - 1);
        let c = children[i - 1];
        if ns_ok(c) {
            match first_rule(rules, c.local@) {
                Some(k) => if k < m { m } else { k },
                None => m,
            }
        } else {
            m
        }
    }
}

/// The breadcrumb of a child: `path > tag`, with the occurrence number in
/// brackets when the tag may repeat.
pub open spec fn spec_child_path(path: Seq<char>, rule: ChildV, occurrence: nat) -> Seq<char> {
    if rule.1 == Some(1u32) {
        path + " > "@ + rule.0
    } else {
        path + " > "@ + rule.0 + "["@ + spec_decimal(occurrence) + "]"@
    }
}

/// The value of the first attribute named `name`, if any.
pub open spec fn first_attr_value(attrs: Seq<(String, String)>, name: Seq<char>) -> Option<Seq<char>>
    decreases attrs.len(),
{
    if attrs.len() == 0 {
        None
    } else {
        match first_attr_value(attrs.drop_last(), name) {
            Some(v) => Some(v),
            None => if attrs.last().0@ == name { Some(attrs.last().1@) } else { None },
        }
    }
}

/// The issue a check raises, placed at `path` and `line`.
pub open spec fn finding_at(f: Option<Finding>, path: Seq<char>, line: Option<u32>) -> Seq<IssueV> {
    match f {
        Some((s, m)) => seq![issue(s, m, path, line)],
        None => seq![],
    }
}

/// Issues for one required attribute.
pub open spec fn attr_rule_issues(node: XmlNode, rule: AttrV, path: Seq<char>) -> Seq<IssueV> {
    match first_attr_value(node.attrs@, rule.0) {
        None => seq![issue(Severity::Error, "missing required '"@ + rule.0 + "' attribute"@, path, node.line)],
        Some(v) => match rule.1 {
            Some(check) => finding_at(spec_check(check, v), path, node.line),
            None => seq![],
        },
    }
}

/// Issues for the first `k` attribute rules.
pub open spec fn attr_issues(node: XmlNode, rules: Seq<AttrV>, path: Seq<char>, k: int) -> Seq<IssueV>
    decreases k,
{
    if k <= 0 || k > rules.len() {
        seq![]
    } else {
        attr_issues(node, rules, path, k - 1) + attr_rule_issues(node, rules[k - 1], path)
    }
}

/// Issues for the text of a simple-content child (blank text is not checked).
pub open spec fn content_issues(c: XmlNode, check: ContentCheck, path: Seq<char>) -> Seq<IssueV> {
    let t = trim(c.text@);
    if t.len() == 0 {
        seq![]
    } else {
        finding_at(spec_check(check, t), path, c.line)
    }
}

/// Issues for the first `k` rules' occurrence bounds.
pub open spec fn cardinality_issues(node: XmlNode, rules: Seq<ChildV>, path: Seq<char>, k: int) -> Seq<IssueV>
    decreases k,
{
    if k <= 0 || k > rules.len() {
        seq![]
    } else {
        let rule = rules[k - 1];
        let this = match rule.1 {
            Some(m) => if count_before(node.children@, node.children@.len() as int, rule.0) > m {
                seq![issue(
                    Severity::Error,
                    "duplicate <"@ + rule.0 + "> element (at most "@ + spec_decimal(m as nat) + " allowed per GPX 1.1 schema)"@,
                    path,
                    node.line,
                )]
            } else {
                seq![]
            },
            None => seq![],
        };
        cardinality_issues(node, rules, path, k - 1) + this
    }
}

/// How an `<extensions>` child in the wrong namespace is described.
pub open spec fn extension_qualifier(c: XmlNode) -> Option<Seq<char>> {
    if c.namespace@ == GPX_NAMESPACE@ {
        Some("the GPX namespace"@)
    } else if c.namespace@.len() == 0 {
        Some("no namespace"@)
    } else {
        None
    }
}

/// Issues for the first `k` children of an `<extensions>` element.
pub open spec fn extension_issues(node: XmlNode, path: Seq<char>, k: int) -> Seq<IssueV>
    decreases k,
{
    if k <= 0 || k > node.children@.len() {
        seq![]
    } else {
        let c = node.children@[k - 1];
        let this = match extension_qualifier(c) {
            Some(q) => seq![issue(
                Severity::Warning,
                "<extensions> child <"@ + c.local@ + "> is in "@ + q
                    + " (extension content must use a foreign namespace per GPX 1.1)"@,
                path + " > "@ + c.local@,
                c.line,
            )],
            None => seq![],
        };
        extension_issues(node, path, k - 1) + this
    }
}

/// All issues for `node` read as type `t` at `path`.
pub open spec fn complex_issues(node: XmlNode, t: TypeName, path: Seq<char>) -> Seq<IssueV>
    decreases node, 1nat, 0int,
{
    if t == TypeName::Extensions {
        extension_issues(node, path, node.children@.len() as int)
    } else {
        let attrs = spec_attr_rules(t);
        let rules = spec_child_rules(t);
        attr_issues(node, attrs, path, attrs.len() as int)
            + children_issues(node, t, path, node.children@.len() as int)
            + cardinality_issues(node, rules, path, rules.len() as int)
    }
}

/// Issues for the first `k` children of `node` read as type `t`.
pub open spec fn children_issues(node: XmlNode, t: TypeName, path: Seq<char>, k: int) -> Seq<IssueV>
    decreases node, 0nat, k,
{
    if k <= 0 || k > node.children@.len() {
        seq![]
    } else {
        children_issues(node, t, path, k - 1) + child_issues(node, t, path, k - 1)
    }
}

/// Issues for child `i` of `node` read as type `t`.
pub open spec fn child_issues(node: XmlNode, t: TypeName, path: Seq<char>, i: int) -> Seq<IssueV>
    decreases node, 0nat, i,
{
    if 0 <= i < node.children@.len() {
        let rules = spec_child_rules(t);
        let children = node.children@;
        let c = children[i];
        if !ns_ok(c) {
            seq![issue(Severity::Warning, "foreign-namespace element <"@ + c.local@ + "> outside <extensions>"@, path, c.line)]
        } else {
            match first_rule(rules, c.local@) {
                None => seq![issue(Severity::Error, unknown_message(c.local@, rule_tags(rules)), path, c.line)],
                Some(idx) => {
                    let rule = rules[idx];
                    let m = max_before(children, rules, i);
                    let order = if idx < m {
                        seq![issue(
                            Severity::Warning,
                            "<"@ + c.local@ + "> appears after <"@ + rules[m].0 + "> (out of order per GPX 1.1 schema)"@,
                            path,
                            c.line,
                        )]
                    } else {
                        seq![]
                    };
                    let cp = spec_child_path(path, rule, count_before(children, i, rule.0));
                    let content = match rule.2 {
                        Some(check) => content_issues(c, check, cp),
                        None => seq![],
                    };
                    let nested = match rule.3 {
                        Some(ct) => complex_issues(c, ct, cp),
                        None => seq![],
                    };
                    order + content + nested
                },
            }
        }
    } else {
        seq![]
    }
}

/// All issues for a document root.
pub open spec fn root_issues(root: XmlNode) -> Seq<IssueV> {
    let name = if root.local@ != "gpx"@ {
        seq![issue(Severity::Error, "root element is <"@ + root.local@ + ">, expected <gpx>"@, "gpx"@, root.line)]
    } else {
        seq![]
    };
    let ns = if root.namespace@ != GPX_NAMESPACE@ {
        if root.namespace@ == GPX_10_NAMESPACE@ {
            seq![issue(Severity::Error, "document uses the GPX 1.0 namespace; only GPX 1.1 is supported"@, "gpx"@, root.line)]
        } else if root.namespace@.len() == 0 {
            seq![issue(Severity::Error, "missing GPX namespace (expected '"@ + GPX_NAMESPACE@ + "')"@, "gpx"@, root.line)]
        } else {
            seq![issue(
                Severity::Error,
                "unexpected namespace '"@ + root.namespace@ + "' (expected '"@ + GPX_NAMESPACE@ + "')"@,
                "gpx"@,
                root.line,
            )]
        }
    } else {
        seq![]
    };
    name + ns + complex_issues(root, TypeName::Gpx, "gpx"@)
}


// ================================================================ lemmas

proof fn lemma_count_before_le(children: Seq<XmlNode>, i: int, tag: Seq<char>)
    ensures
        count_before(children, i, tag) <= if i < 0 { 0 } else { i },
    decreases i,
{
    if i > 0 {
        lemma_count_before_le(children, i - 1, tag);
    }
}

proof fn lemma_first_rule_prefix(rules: Seq<ChildV>, k: int, tag: Seq<char>)
    requires
        0 <= k <= rules.len(),
        first_rule(rules.take(k), tag) is Some,
    ensures
        first_rule(rules, tag) == first_rule(rules.take(k), tag),
    decreases rules.len() - k,
{
    if k < rules.len() {
        assert(rules.take(k + 1).drop_last() =~= rules.take(k));
        lemma_first_rule_prefix(rules, k + 1, tag);
    } else {
        assert(rules.take(k) =~= rules);
    }
}

proof fn lemma_first_rule_none(rules: Seq<ChildV>, tag: Seq<char>)
    requires
        forall|j: int| 0 <= j < rules.len() ==> (#[trigger] rules[j]).0 != tag,
    ensures
        first_rule(rules, tag) is None,
    decreases rules.len(),
{
    if rules.len() > 0 {
        lemma_first_rule_none(rules.drop_last(), tag);
    }
}

proof fn lemma_first_rule_found(rules: Seq<ChildV>, k: int, tag: Seq<char>)
    requires
        0 <= k < rules.len(),
        rules[k].0 == tag,
        forall|j: int| 0 <= j < k ==> (#[trigger] rules[j]).0 != tag,
    ensures
        first_rule(rules, tag) == Some(k),
{
    let p = rules.take(k + 1);
    assert(p.drop_last() =~= rules.take(k));
    lemma_first_rule_none(rules.take(k), tag);
    lemma_first_rule_prefix(rules, k + 1, tag);
}

proof fn lemma_first_rule_valid(rules: Seq<ChildV>, tag: Seq<char>)
    ensures
        first_rule(rules, tag) matches Some(k) ==> 0 <= k < rules.len() && rules[k].0 == tag,
    decreases rules.len(),
{
    if rules.len() > 0 {
        lemma_first_rule_valid(rules.drop_last(), tag);
    }
}

proof fn lemma_first_attr_prefix(attrs: Seq<(String, String)>, k: int, name: Seq<char>)
    requires
        0 <= k <= attrs.len(),
        first_attr_value(attrs.take(k), name) is Some,
    ensures
        first_attr_value(attrs, name) == first_attr_value(attrs.take(k), name),
    decreases attrs.len() - k,
{
    if k < attrs.len() {
        assert(attrs.take(k + 1).drop_last() =~= attrs.take(k));
        lemma_first_attr_prefix(attrs, k + 1, name);
    } else {
        assert(attrs.take(k) =~= attrs);
    }
}

// ================================================================ execution

/// Finds the first rule for `tag`.
fn find_rule(rules: &Vec<ChildRule>, tag: &str) -> (r: Option<usize>)
    ensures
        match r {
            Some(k) => first_rule(child_views(rules@), tag@) == Some(k as int),
            None => first_rule(child_views(rules@), tag@) is None,
        },
{
    let ghost rv = child_views(rules@);
    let mut j: usize = 0;
    while j < rules.len()
        invariant
            j <= rules@.len(),
            rv == child_views(rules@),
            rv.len() == rules@.len(),
            forall|k: int| 0 <= k < j ==> (#[trigger] rv[k]).0 != tag@,
        decreases rules.len() - j,
    {
        if str_eq(rules[j].tag, tag) {
            proof {
                lemma_first_rule_found(rv, j as int, tag@);
            }
            return Some(j);
        }
        j = j + 1;
    }
    proof {
        lemma_first_rule_none(rv, tag@);
    }
    None
}

/// Finds the value of the first attribute named `name`.
fn find_attr<'a>(attrs: &'a Vec<(String, String)>, name: &str) -> (r: Option<&'a String>)
    ensures
        match r {
            Some(v) => first_attr_value(attrs@, name@) == Some(v@),
            None => first_attr_value(attrs@, name@) is None,
        },
{
    let mut j: usize = 0;
    while j < attrs.len()
        invariant
            j <= attrs@.len(),
            first_attr_value(attrs@.take(j as int), name@) is None,
        decreases attrs.len() - j,
    {
        assert(attrs@.take(j + 1).drop_last() =~= attrs@.take(j as int));
        if str_eq(attrs[j].0.as_str(), name) {
            proof {
                lemma_first_attr_prefix(attrs@, j + 1, name@);
            }
            return Some(&attrs[j].1);
        }
        j = j + 1;
    }
    assert(attrs@.take(attrs@.len() as int) =~= attrs@);
    None
}

/// The breadcrumb of a child element.
pub fn child_path(path: &str, rule: &ChildRule, occurrence: u64) -> (r: String)
    ensures
        r@ == spec_child_path(path@, rule@, occurrence as nat),
{
    let mut r = concat3(path, " > ", rule.tag);
    if rule.max_occurs != Some(1u32) {
        r.append("[");
        push_decimal(&mut r, occurrence);
        r.append("]");
    }
    r
}

fn is_schema_namespace(c: &XmlNode) -> (r: bool)
    ensures
        r == ns_ok(*c),
{
    c.namespace.as_str().is_empty() || str_eq(c.namespace.as_str(), GPX_NAMESPACE)
}

/// What the walk over a node's children has learned so far: how often each
/// rule's tag has occurred, and the rule that came latest in schema order.
pub struct ChildScan {
    pub counts: Vec<u64>,
    pub last_index: isize,
    pub last_tag: &'static str,
}

/// `scan` describes the first `i` children of a node with child rules `rules`.
pub open spec fn scan_ok(scan: ChildScan, cs: Seq<XmlNode>, rules: Seq<ChildRule>, i: int) -> bool {
    let rv = child_views(rules);
    &&& 0 <= i <= cs.len()
    &&& scan.counts@.len() == rules.len()
    &&& forall|r: int| 0 <= r < scan.counts@.len() ==> #[trigger] scan.counts@[r] == if first_rule(rv, rules[r].tag@) == Some(r) {
        count_before(cs, i, rules[r].tag@) as int
    } else {
        0int
    }
    &&& scan.last_index == max_before(cs, rv, i)
    &&& -1 <= scan.last_index < rules.len()
    &&& scan.last_index >= 0 ==> scan.last_tag@ == rv[scan.last_index as int].0
}

proof fn lemma_scan_skip(scan: ChildScan, cs: Seq<XmlNode>, rules: Seq<ChildRule>, i: int)
    requires
        scan_ok(scan, cs, rules, i),
        i < cs.len(),
        !ns_ok(cs[i]) || first_rule(child_views(rules), cs[i].local@) is None,
    ensures
        scan_ok(scan, cs, rules, i + 1),
{
    let rv = child_views(rules);
    let c = cs[i];
    assert forall|r: int| 0 <= r < scan.counts@.len() implies #[trigger] scan.counts@[r] == if first_rule(rv, rules[r].tag@) == Some(r) {
        count_before(cs, i + 1, rules[r].tag@) as int
    } else {
        0int
    } by {
        assert(rv[r].0 == rules[r].tag@);
        if ns_ok(c) && c.local@ == rules[r].tag@ {
            lemma_first_rule_some(rv, r);
        }
    }
}

proof fn lemma_scan_step(s0: ChildScan, s1: ChildScan, cs: Seq<XmlNode>, rules: Seq<ChildRule>, i: int, idx: int)
    requires
        scan_ok(s0, cs, rules, i),
        i < cs.len(),
        ns_ok(cs[i]),
        first_rule(child_views(rules), cs[i].local@) == Some(idx),
        0 <= idx < rules.len(),
        rules[idx].tag@ == cs[i].local@,
        s0.counts@[idx] < 0xFFFF_FFFF_FFFF_FFFFu64,
        s1.counts@ == s0.counts@.update(idx, (s0.counts@[idx] + 1) as u64),
        idx < s0.last_index ==> s1.last_index == s0.last_index && s1.last_tag == s0.last_tag,
        !(idx < s0.last_index) ==> s1.last_index == idx && s1.last_tag@ == rules[idx].tag@,
    ensures
        scan_ok(s1, cs, rules, i + 1),
{
    let rv = child_views(rules);
    let c = cs[i];
    assert(rv[idx].0 == rules[idx].tag@);
    assert forall|r: int| 0 <= r < s1.counts@.len() implies #[trigger] s1.counts@[r] == if first_rule(rv, rules[r].tag@) == Some(r) {
        count_before(cs, i + 1, rules[r].tag@) as int
    } else {
        0int
    } by {
        assert(rv[r].0 == rules[r].tag@);
        let t = rules[r].tag@;
        assert(count_before(cs, i + 1, t) == count_before(cs, i, t) + if ns_ok(c) && c.local@ == t { 1nat } else { 0nat });
        if r != idx && c.local@ == t {
            assert(first_rule(rv, t) == Some(idx));
        }
        if r == idx {
            assert(first_rule(rv, t) == Some(idx));
            assert(s1.counts@[r] == s0.counts@[r] + 1);
        } else {
            assert(s1.counts@[r] == s0.counts@[r]);
        }
    }
}

/// Collects issues while walking an element tree.
pub struct Validator {
    /// The issues found so far, in the order they were found.
    pub issues: Vec<ValidationIssue>,
}

impl Validator {
    /// A validator that has found nothing yet.
    pub fn new() -> (r: Self)
        ensures
            r.issues@.len() == 0,
    {
        Validator { issues: Vec::new() }
    }

    /// Records one issue.
    pub fn add(&mut self, severity: Severity, message: String, path: &str, line: Option<u32>)
        ensures
            views(final(self).issues@) == views(old(self).issues@).push(issue(severity, message@, path@, line)),
    {
        let ghost before = self.issues@;
        self.issues.push(ValidationIssue { severity, message, path: path.to_owned(), line });
        assert(views(self.issues@) =~= views(before).push(issue(severity, message@, path@, line)));
    }

    /// Reports what is wrong with the root element, then walks it as `<gpx>`.
    pub fn validate_root(&mut self, root: &XmlNode)
        ensures
            views(final(self).issues@) == views(old(self).issues@) + root_issues(*root),
    {
        let ghost start = views(self.issues@);
        let line = root.line;
        if !str_eq(root.local.as_str(), "gpx") {
            self.add(Severity::Error, concat3("root element is <", root.local.as_str(), ">, expected <gpx>"), "gpx", line);
        }
        let ghost mid = views(self.issues@);
        if !str_eq(root.namespace.as_str(), GPX_NAMESPACE) {
            if str_eq(root.namespace.as_str(), GPX_10_NAMESPACE) {
                self.add(Severity::Error, "document uses the GPX 1.0 namespace; only GPX 1.1 is supported".to_owned(), "gpx", line);
            } else if root.namespace.as_str().is_empty() {
                self.add(Severity::Error, concat3("missing GPX namespace (expected '", GPX_NAMESPACE, "')"), "gpx", line);
            } else {
                let mut m = concat3("unexpected namespace '", root.namespace.as_str(), "' (expected '");
                m.append(GPX_NAMESPACE);
                m.append("')");
                self.add(Severity::Error, m, "gpx", line);
            }
        }
        let ghost mid2 = views(self.issues@);
        self.validate_complex(root, TypeName::Gpx, "gpx");
        proof {
            let r = *root;
            let name = if r.local@ != "gpx"@ {
                seq![issue(Severity::Error, "root element is <"@ + r.local@ + ">, expected <gpx>"@, "gpx"@, r.line)]
            } else {
                seq![]
            };
            assert(mid =~= start + name);
            assert(views(self.issues@) =~= start + root_issues(r));
        }
    }

    /// Handles child `i` of `node`: namespace, known tag, order, occurrence
    /// count, text and nested content.
    #[verifier::rlimit(40)]
    fn validate_child(
        &mut self,
        node: &XmlNode,
        element_type: TypeName,
        path: &str,
        i: usize,
        rules: &Vec<ChildRule>,
        allowed: &Vec<&'static str>,
        scan: &mut ChildScan,
    )
        requires
            i < node.children@.len(),
            element_type != TypeName::Extensions,
            child_views(rules@) == spec_child_rules(element_type),
            rules@.len() < 100,
            names_of(allowed@) == rule_tags(child_views(rules@)),
            scan_ok(*old(scan), node.children@, rules@, i as int),
        ensures
            scan_ok(*final(scan), node.children@, rules@, i + 1),
            views(final(self).issues@) == views(old(self).issues@) + child_issues(*node, element_type, path@, i as int),
        decreases node, 0nat,
    {
        let ghost rv = child_views(rules@);
        let ghost cs = node.children@;
        let child = &node.children[i];
        let ghost before = views(self.issues@);
        let ghost c = cs[i as int];
        assert(*child == c);
        proof {
            lemma_count_before_le(cs, i as int, child.local@);
            lemma_first_rule_valid(rv, c.local@);
        }
        if !is_schema_namespace(child) {
            let m = concat3("foreign-namespace element <", child.local.as_str(), "> outside <extensions>");
            self.add(Severity::Warning, m, path, child.line);
            proof {
                lemma_scan_skip(*scan, cs, rules@, i as int);
            }
            assert(views(self.issues@) =~= before + child_issues(*node, element_type, path@, i as int));
            return;
        }
        match find_rule(rules, child.local.as_str()) {
            None => {
                let m = unknown_element_message(child.local.as_str(), allowed.as_slice());
                self.add(Severity::Error, m, path, child.line);
                proof {
                    lemma_scan_skip(*scan, cs, rules@, i as int);
                }
                assert(views(self.issues@) =~= before + child_issues(*node, element_type, path@, i as int));
            },
            Some(idx) => {
                let rule = rules[idx];
                assert(rv[idx as int] == rule@);
                let ghost old_scan = *scan;
                let current = scan.counts[idx];
                assert(current == count_before(cs, i as int, rule.tag@));
                let n_children = node.children.len();
                proof {
                    lemma_count_before_le(cs, i as int, rule.tag@);
                }
                scan.counts.set(idx, current + 1);
                let ghost m_before = scan.last_index as int;
                if (idx as isize) < scan.last_index {
                    let mut m = concat3("<", child.local.as_str(), "> appears after <");
                    m.append(scan.last_tag);
                    m.append("> (out of order per GPX 1.1 schema)");
                    self.add(Severity::Warning, m, path, child.line);
                } else {
                    scan.last_index = idx as isize;
                    scan.last_tag = rule.tag;
                }
                proof {
                    lemma_scan_step(old_scan, *scan, cs, rules@, i as int, idx as int);
                }
                let ghost after_order = views(self.issues@);
                let cp = child_path(path, &rule, current);
                match rule.content {
                    Some(check) => self.validate_content(child, check, cp.as_str()),
                    None => {},
                }
                let ghost after_content = views(self.issues@);
                match rule.element_type {
                    Some(nested) => self.validate_complex(child, nested, cp.as_str()),
                    None => {},
                }
                proof {
                    let order = if (idx as int) < m_before {
                        seq![issue(
                            Severity::Warning,
                            "<"@ + c.local@ + "> appears after <"@ + rv[m_before].0 + "> (out of order per GPX 1.1 schema)"@,
                            path@,
                            c.line,
                        )]
                    } else {
                        seq![]
                    };
                    assert(after_order =~= before + order);
                    let cpv = spec_child_path(path@, rule@, count_before(cs, i as int, rule.tag@));
                    let content = match rule@.2 {
                        Some(check) => content_issues(c, check, cpv),
                        None => seq![],
                    };
                    let nested = match rule@.3 {
                        Some(ct) => complex_issues(c, ct, cpv),
                        None => seq![],
                    };
                    assert(after_content =~= after_order + content);
                    assert(views(self.issues@) =~= after_content + nested);
                    assert(child_issues(*node, element_type, path@, i as int) =~= order + content + nested);
                    assert(views(self.issues@) =~= before + child_issues(*node, element_type, path@, i as int));
                }
            },
        }
    }

    /// Walks `node` as an element of type `element_type`: its attributes, each
    /// child (namespace, known tag, order, text, nested content) and the
    /// occurrence bounds.
    pub fn validate_complex(&mut self, node: &XmlNode, element_type: TypeName, path: &str)
        ensures
            views(final(self).issues@) == views(old(self).issues@) + complex_issues(*node, element_type, path@),
        decreases node, 1nat,
    {
        let ghost start = views(self.issues@);
        if element_type == TypeName::Extensions {
            self.validate_extensions(node, path);
            return;
        }
        let complex_type = match schema(element_type) {
            Some(ct) => ct,
            None => {
                return;
            },
        };
        self.validate_attributes(node, &complex_type, path);
        let ghost after_attrs = views(self.issues@);
        let rules = &complex_type.children;
        let ghost rv = child_views(rules@);
        assert(rv == spec_child_rules(element_type));
        let mut allowed: Vec<&'static str> = Vec::new();
        assert(rv.len() < 100);
        let mut counts: Vec<u64> = Vec::new();
        let mut r: usize = 0;
        while r < rules.len()
            invariant
                r <= rules@.len(),
                rv == child_views(rules@),
                allowed@.len() == r,
                counts@.len() == r,
                forall|j: int| 0 <= j < r ==> (#[trigger] allowed@[j])@ == rv[j].0,
                forall|j: int| 0 <= j < r ==> #[trigger] counts@[j] == 0,
            decreases rules.len() - r,
        {
            allowed.push(rules[r].tag);
            counts.push(0);
            r = r + 1;
        }
        assert(names_of(allowed@) =~= rule_tags(rv));
        let children = &node.children;
        let ghost cs = children@;
        let mut scan = ChildScan { counts, last_index: -1, last_tag: "" };
        let mut i: usize = 0;
        assert(rv.len() < 100);
        while i < children.len()
            invariant
                i <= cs.len(),
                cs == node.children@,
                children == &node.children,
                element_type != TypeName::Extensions,
                rv == child_views(rules@),
                rv == spec_child_rules(element_type),
                rv.len() < 100,
                names_of(allowed@) == rule_tags(rv),
                scan_ok(scan, cs, rules@, i as int),
                views(self.issues@) == after_attrs + children_issues(*node, element_type, path@, i as int),
            decreases children.len() - i,
        {
            self.validate_child(node, element_type, path, i, rules, &allowed, &mut scan);
            i = i + 1;
        }
        let counts = scan.counts;
        let ghost after_children = views(self.issues@);
        proof {
            assert forall|r: int| 0 <= r < counts@.len()
                && first_rule(child_views(complex_type.children@), complex_type.children@[r].tag@) == Some(r)
                implies #[trigger] counts@[r] == count_before(node.children@, node.children@.len() as int, complex_type.children@[r].tag@) by {}
        }
        self.validate_cardinality(&complex_type, &counts, node, path);
        assert(views(self.issues@) =~= start + complex_issues(*node, element_type, path@));
    }

    /// Checks the required attributes of `node`.
    pub fn validate_attributes(&mut self, node: &XmlNode, complex_type: &ComplexType, path: &str)
        ensures
            views(final(self).issues@) == views(old(self).issues@)
                + attr_issues(*node, attr_views(complex_type.attrs@), path@, complex_type.attrs@.len() as int),
    {
        let ghost start = views(self.issues@);
        let ghost av = attr_views(complex_type.attrs@);
        let line = node.line;
        let mut k: usize = 0;
        while k < complex_type.attrs.len()
            invariant
                k <= complex_type.attrs@.len(),
                av == attr_views(complex_type.attrs@),
                av.len() == complex_type.attrs@.len(),
                line == node.line,
                views(self.issues@) == start + attr_issues(*node, av, path@, k as int),
            decreases complex_type.attrs.len() - k,
        {
            let rule = complex_type.attrs[k];
            assert(av[k as int] == rule@);
            let ghost before = views(self.issues@);
            match find_attr(&node.attrs, rule.name) {
                None => {
                    self.add(Severity::Error, concat3("missing required '", rule.name, "' attribute"), path, line);
                },
                Some(value) => {
                    match rule.validator {
                        Some(check) => {
                            match run_check(check, value.as_str()) {
                                Some((sev, msg)) => self.add(sev, msg, path, line),
                                None => {},
                            }
                        },
                        None => {},
                    }
                },
            }
            assert(views(self.issues@) =~= before + attr_rule_issues(*node, av[k as int], path@));
            k = k + 1;
        }
    }

    /// Checks the text of a simple-content child (blank text is not checked).
    pub fn validate_content(&mut self, node: &XmlNode, check: ContentCheck, path: &str)
        ensures
            views(final(self).issues@) == views(old(self).issues@) + content_issues(*node, check, path@),
    {
        let ghost start = views(self.issues@);
        let chars = chars_of(node.text.as_str());
        let trimmed = trim_chars(chars.as_slice());
        if trimmed.len() == 0 {
            assert(views(self.issues@) =~= start + content_issues(*node, check, path@));
            return;
        }
        let text = string_from_chars(trimmed.as_slice());
        match run_check(check, text.as_str()) {
            Some((sev, msg)) => self.add(sev, msg, path, node.line),
            None => {},
        }
        assert(views(self.issues@) =~= start + content_issues(*node, check, path@));
    }

    /// Checks the namespaces of the children of an `<extensions>` element.
    pub fn validate_extensions(&mut self, node: &XmlNode, path: &str)
        ensures
            views(final(self).issues@) == views(old(self).issues@) + extension_issues(*node, path@, node.children@.len() as int),
    {
        let ghost start = views(self.issues@);
        let mut i: usize = 0;
        while i < node.children.len()
            invariant
                i <= node.children@.len(),
                views(self.issues@) == start + extension_issues(*node, path@, i as int),
            decreases node.children.len() - i,
        {
            let child = &node.children[i];
            let ghost before = views(self.issues@);
            let qualifier: Option<&str> = if str_eq(child.namespace.as_str(), GPX_NAMESPACE) {
                Some("the GPX namespace")
            } else if child.namespace.as_str().is_empty() {
                Some("no namespace")
            } else {
                None
            };
            match qualifier {
                Some(q) => {
                    let mut m = concat3("<extensions> child <", child.local.as_str(), "> is in ");
                    m.append(q);
                    m.append(" (extension content must use a foreign namespace per GPX 1.1)");
                    let p = concat3(path, " > ", child.local.as_str());
                    self.add(Severity::Warning, m, p.as_str(), child.line);
                },
                None => {},
            }
            assert(views(self.issues@) =~= start + extension_issues(*node, path@, i + 1));
            i = i + 1;
        }
    }

    /// Reports each bounded child that occurs more often than allowed.
    pub fn validate_cardinality(&mut self, complex_type: &ComplexType, counts: &Vec<u64>, node: &XmlNode, path: &str)
        requires
            counts@.len() == complex_type.children@.len(),
            forall|r: int| 0 <= r < counts@.len()
                && first_rule(child_views(complex_type.children@), complex_type.children@[r].tag@) == Some(r)
                ==> #[trigger] counts@[r] == count_before(node.children@, node.children@.len() as int, complex_type.children@[r].tag@),
        ensures
            views(final(self).issues@) == views(old(self).issues@) + cardinality_issues(
                *node,
                child_views(complex_type.children@),
                path@,
                complex_type.children@.len() as int,
            ),
    {
        let ghost start = views(self.issues@);
        let ghost rv = child_views(complex_type.children@);
        let rules = &complex_type.children;
        let mut k: usize = 0;
        while k < rules.len()
            invariant
                k <= rules@.len(),
                rules == &complex_type.children,
                rv == child_views(rules@),
                rv.len() == rules@.len(),
                counts@.len() == rules@.len(),
                forall|r: int| 0 <= r < counts@.len() && first_rule(rv, rules@[r].tag@) == Some(r)
                    ==> #[trigger] counts@[r] == count_before(node.children@, node.children@.len() as int, rules@[r].tag@),
                views(self.issues@) == start + cardinality_issues(*node, rv, path@, k as int),
            decreases rules.len() - k,
        {
            let rule = rules[k];
            assert(rv[k as int] == rule@);
            let ghost before = views(self.issues@);
            match rule.max_occurs {
                Some(max_occurs) => {
                    proof {
                        lemma_first_rule_found_or_earlier(rv, k as int);
                    }
                    let idx = match find_rule(rules, rule.tag) {
                        Some(idx) => idx,
                        None => {
                            proof {
                                assert(false);
                            }
                            k
                        },
                    };
                    proof {
                        lemma_first_rule_valid(rv, rule.tag@);
                        assert(rv[idx as int].0 == rule.tag@);
                        assert(rules@[idx as int].tag@ == rule.tag@);
                    }
                    let count = counts[idx];
                    if count > max_occurs as u64 {
                        let mut m = concat3("duplicate <", rule.tag, "> element (at most ");
                        push_decimal(&mut m, max_occurs as u64);
                        m.append(" allowed per GPX 1.1 schema)");
                        self.add(Severity::Error, m, path, node.line);
                    }
                },
                None => {},
            }
            assert(views(self.issues@) =~= start + cardinality_issues(*node, rv, path@, k + 1));
            k = k + 1;
        }
    }
}

proof fn lemma_first_rule_found_or_earlier(rules: Seq<ChildV>, k: int)
    requires
        0 <= k < rules.len(),
    ensures
        first_rule(rules, rules[k].0) is Some,
{
    let tag = rules[k].0;
    if first_rule(rules, tag) is None {
        lemma_first_rule_some(rules, k);
    }
}

proof fn lemma_first_rule_some(rules: Seq<ChildV>, k: int)
    requires
        0 <= k < rules.len(),
    ensures
        first_rule(rules, rules[k].0) is Some,
    decreases rules.len(),
{
    let tag = rules[k].0;
    if k < rules.len() - 1 {
        lemma_first_rule_some(rules.drop_last(), k);
        assert(rules.drop_last()[k] == rules[k]);
    }
}


/// Validates an element tree read from a GPX document.
pub fn validate_tree(root: &XmlNode) -> (r: ValidationResult)
    ensures
        views(r.issues@) == root_issues(*root),
{
    let mut validator = Validator::new();
    validator.validate_root(root);
    assert(views(validator.issues@) =~= seq![] + root_issues(*root));
    ValidationResult { issues: validator.issues }
}

/// The single issue reported when the text cannot be read as XML.
pub open spec fn unreadable(r: ValidationResult) -> bool {
    &&& r.issues@.len() == 1
    &&& r.issues@[0].severity == Severity::Error
    &&& r.issues@[0].path@ == "gpx"@
    &&& r.issues@[0].line is None
    &&& is_tree_error(r.issues@[0].message@)
}

/// The issues for the outcome of reading a document: those of its element
/// tree, or, when it could not be read, one error at `gpx` carrying the
/// reader's message.
pub fn validate_parsed(read: Result<XmlNode, String>) -> (r: ValidationResult)
    ensures
        match read {
            Ok(root) => views(r.issues@) == root_issues(root),
            Err(m) => views(r.issues@) == seq![issue(Severity::Error, m@, "gpx"@, None)],
        },
{
    match read {
        Ok(root) => validate_tree(&root),
        Err(message) => {
            let issues = vec![ValidationIssue { severity: Severity::Error, message, path: "gpx".to_owned(), line: None }];
            proof {
                reveal_strlit("gpx");
            }
            assert(views(issues@) =~= seq![issue(Severity::Error, issues@[0].message@, "gpx"@, None)]);
            ValidationResult { issues }
        },
    }
}

/// Validates GPX XML from a string.
///
/// When the text is not well-formed XML, the result holds one error at
/// `gpx` carrying the reader's message; otherwise the issues are those that
/// [`validate_tree`] reports for the element tree that was read.
pub fn validate_str(data: &str) -> (r: ValidationResult)
    requires
        count_byte(data.spec_bytes(), 10u8) < u32::MAX,
    ensures
        unreadable(r) || exists|root: XmlNode| views(r.issues@) == root_issues(root),
        match super::tree::spec_tree(data) {
            Ok(n) => exists|root: XmlNode| super::tree::node_view(root) == n && views(r.issues@) == root_issues(root),
            Err(m) => views(r.issues@) == seq![issue(Severity::Error, m, "gpx"@, None)],
        },
{
    let read = parse_xml_tree(data);
    let ghost g = read;
    let r = validate_parsed(read);
    proof {
        match g {
            Ok(root) => {
                assert(views(r.issues@) == root_issues(root));
            },
            Err(m) => {
                reveal_strlit("gpx");
                let v = views(r.issues@);
                assert(v == seq![issue(Severity::Error, m@, "gpx"@, None)]);
                assert(v.len() == 1);
                assert(v[0] == r.issues@[0]@);
                assert(r.issues@[0].message@ == m@);
            },
        }
    }
    r
}

} // verus!
