//! GPX 1.1 schema validation against a declarative rule table.

pub mod content;
pub mod schema;
pub mod suggest;
pub mod tree;
pub mod validator;

use vstd::prelude::*;
use crate::text::{push_decimal, spec_decimal};


verus! {

/// GPX 1.1 namespace URI.
pub const GPX_NAMESPACE: &'static str = "http://www.topografix.com/GPX/1/1";

/// GPX 1.0 namespace URI (unsupported; used for error hints).
pub const GPX_10_NAMESPACE: &'static str = "http://www.topografix.com/GPX/1/0";

/// Severity of a validation issue.
#[derive(Debug, Clone, Copy, PartialEq, Eq, Structural)]
pub enum Severity {
    /// Schema violation.
    Error,
    /// Non-fatal deviation from recommended practice.
    Warning,
}

/// A single GPX schema validation issue.
#[derive(Debug, Clone)]
pub struct ValidationIssue {
    /// Whether the issue is an error or a warning.
    pub severity: Severity,
    /// Human-readable description.
    pub message: String,
    /// Breadcrumb path (e.g. `gpx > trk[0] > trkseg[2] > trkpt[14]`).
    pub path: String,
    /// 1-based source line number, when available.
    pub line: Option<u32>,
}

/// The mathematical content of an issue: severity, message, path and line.
pub type IssueV = (Severity, Seq<char>, Seq<char>, Option<u32>);

impl View for ValidationIssue {
    type V = IssueV;

    open spec fn view(&self) -> IssueV {
        (self.severity, self.message@, self.path@, self.line)
    }
}

/// Whether an issue has error severity.
pub open spec fn is_error(i: ValidationIssue) -> bool {
    i.severity == Severity::Error
}

/// The predicate "has severity `want`".
pub open spec fn severity_is(want: Severity) -> spec_fn(ValidationIssue) -> bool {
    |i: ValidationIssue| i.severity == want
}

/// Dereferences a sequence of borrowed issues.
pub open spec fn deref_issues(s: Seq<&ValidationIssue>) -> Seq<ValidationIssue> {
    s.map_values(|x: &ValidationIssue| *x)
}

/// Result of validating GPX data against the GPX 1.1 schema.
#[derive(Debug, Clone)]
pub struct ValidationResult {
    /// All issues found during validation.
    pub issues: Vec<ValidationIssue>,
}

fn select_issues(issues: &Vec<ValidationIssue>, want: Severity) -> (r: Vec<&ValidationIssue>)
    ensures
        deref_issues(r@) == issues@.filter(severity_is(want)),
{
    let ghost pred = severity_is(want);
    let mut r: Vec<&ValidationIssue> = Vec::new();
    let mut k: usize = 0;
    while k < issues.len()
        invariant
            k <= issues.len(),
            pred == severity_is(want),
            deref_issues(r@) == issues@.take(k as int).filter(pred),
        decreases issues.len() - k,
    {
        reveal_with_fuel(Seq::<_>::filter, 1);
        let ghost before = r@;
        if issues[k].severity == want {
            r.push(&issues[k]);
            assert(deref_issues(r@) =~= deref_issues(before).push(issues@[k as int]));
        } else {
            assert(deref_issues(r@) =~= deref_issues(before));
        }
        assert(issues@.take(k + 1).drop_last() =~= issues@.take(k as int));
        k = k + 1;
    }
    assert(issues@.take(issues.len() as int) =~= issues@);
    r
}

impl ValidationResult {
    /// All issues with error severity, in order.
    pub fn errors(&self) -> (r: Vec<&ValidationIssue>)
        ensures
            deref_issues(r@) == self.issues@.filter(severity_is(Severity::Error)),
    {
        select_issues(&self.issues, Severity::Error)
    }

    /// All issues with warning severity, in order.
    pub fn warnings(&self) -> (r: Vec<&ValidationIssue>)
        ensures
            deref_issues(r@) == self.issues@.filter(severity_is(Severity::Warning)),
    {
        select_issues(&self.issues, Severity::Warning)
    }

    /// `true` when there are no errors (warnings are allowed).
    pub fn is_valid(&self) -> (r: bool)
        ensures
            r <==> (forall|k: int| 0 <= k < self.issues@.len() ==> !is_error(#[trigger] self.issues@[k])),
    {
        let errors = self.errors();
        proof {
            let f = self.issues@.filter(severity_is(Severity::Error));
            assert(deref_issues(errors@).len() == errors@.len());
            let pred = severity_is(Severity::Error);
            if errors@.len() == 0 {
                assert forall|k: int| 0 <= k < self.issues@.len() implies !is_error(#[trigger] self.issues@[k]) by {
                    if is_error(self.issues@[k]) {
                        self.issues@.lemma_filter_contains(pred, k);
                    }
                }
            } else {
                self.issues@.lemma_filter_pred(pred, 0);
                let x = f[0];
                assert(f.contains(x));
                self.issues@.lemma_filter_contains_rev(pred, x);
            }
        }
        errors.len() == 0
    }
}

/// Raised when strict parsing encounters an invalid GPX document.
#[derive(Debug)]
pub struct InvalidGpxError {
    /// Full validation result carrying errors and warnings.
    pub result: ValidationResult,
}

impl InvalidGpxError {
    /// Create from a validation result that failed schema checks.
    pub fn new(result: ValidationResult) -> (r: Self)
        ensures
            r.result == result,
    {
        InvalidGpxError { result }
    }

    /// Shortcut for schema errors only.
    pub fn issues(&self) -> (r: Vec<&ValidationIssue>)
        ensures
            deref_issues(r@) == self.result.issues@.filter(severity_is(Severity::Error)),
    {
        self.result.errors()
    }
}

/// The label of a severity, padded to seven characters.
pub open spec fn severity_label(s: Severity) -> Seq<char> {
    match s {
        Severity::Error => "ERROR  "@,
        Severity::Warning => "WARNING"@,
    }
}

/// How an issue reads: severity, line when known, path and message.
pub open spec fn issue_text(i: IssueV) -> Seq<char> {
    match i.3 {
        Some(line) => severity_label(i.0) + " line "@ + spec_decimal(line as nat) + "  "@ + i.2 + ": "@ + i.1,
        None => severity_label(i.0) + " "@ + i.2 + ": "@ + i.1,
    }
}

impl ValidationIssue {
    /// The issue as one line of text, as the command-line report prints it.
    pub fn display_text(&self) -> (r: String)
        ensures
            r@ == issue_text(self@),
    {
        let mut out = String::new();
        match self.severity {
            Severity::Error => out.append("ERROR  "),
            Severity::Warning => out.append("WARNING"),
        }
        match self.line {
            Some(line) => {
                out.append(" line ");
                push_decimal(&mut out, line as u64);
                out.append("  ");
            },
            None => out.append(" "),
        }
        out.append(self.path.as_str());
        out.append(": ");
        out.append(self.message.as_str());
        assert(out@ =~= issue_text(self@));
        out
    }
}

/// The lines listing issues, each indented by two spaces.
pub open spec fn issue_lines(s: Seq<ValidationIssue>) -> Seq<char>
    decreases s.len(),
{
    if s.len() == 0 {
        Seq::empty()
    } else {
        issue_lines(s.drop_last()) + "  "@ + issue_text(s.last()@) + "\n"@
    }
}

/// The report of a failed strict parse: the number of errors, then each error.
pub open spec fn invalid_gpx_text(errors: Seq<ValidationIssue>) -> Seq<char> {
    "Invalid GPX ("@ + spec_decimal(errors.len()) + (if errors.len() == 1 { " error"@ } else { " errors"@ })
        + "):\n"@ + issue_lines(errors)
}

impl InvalidGpxError {
    /// The error as text: a count of the schema errors, then one line each.
    pub fn display_text(&self) -> (r: String)
        ensures
            r@ == invalid_gpx_text(self.result.issues@.filter(severity_is(Severity::Error))),
    {
        let errors = self.result.errors();
        let ghost errs = deref_issues(errors@);
        let mut out = String::new();
        out.append("Invalid GPX (");
        push_decimal(&mut out, errors.len() as u64);
        if errors.len() == 1 {
            out.append(" error");
        } else {
            out.append(" errors");
        }
        out.append("):\n");
        let ghost head = out@;
        let mut k: usize = 0;
        assert(errs.take(0) =~= Seq::<ValidationIssue>::empty());
        assert(out@ =~= head + issue_lines(errs.take(0)));
        while k < errors.len()
            invariant
                k <= errors@.len(),
                errs == deref_issues(errors@),
                out@ == head + issue_lines(errs.take(k as int)),
            decreases errors.len() - k,
        {
            let line = errors[k].display_text();
            out.append("  ");
            out.append(line.as_str());
            out.append("\n");
            assert(errs.take(k + 1).drop_last() =~= errs.take(k as int));
            assert(errs.take(k + 1).last() == *errors@[k as int]);
            k = k + 1;
            assert(out@ =~= head + issue_lines(errs.take(k as int)));
        }
        assert(errs.take(errors@.len() as int) =~= errs);
        out
    }
}

} // verus!
