//! Decisions and texts of the command-line tool: when a validation fails,
//! what its summary says, and the error type the commands return.

use vstd::prelude::*;
use crate::text::{push_decimal, spec_decimal};
use crate::validation::{is_error, InvalidGpxError, Severity, ValidationResult};

verus! {

/// An error reported by a command, as its message.
#[derive(Debug)]
pub struct CliError(pub String);

impl CliError {
    /// The message of the error.
    pub fn message(&self) -> (r: &str)
        ensures
            r@ == self.0@,
    {
        self.0.as_str()
    }
}

/// The result has an issue of error severity.
pub open spec fn has_errors(result: ValidationResult) -> bool {
    exists|k: int| 0 <= k < result.issues@.len() && is_error(#[trigger] result.issues@[k])
}

/// The result has an issue of warning severity.
pub open spec fn has_warnings(result: ValidationResult) -> bool {
    exists|k: int| 0 <= k < result.issues@.len() && (#[trigger] result.issues@[k]).severity == Severity::Warning
}

fn count_severity(result: &ValidationResult, want: Severity) -> (r: usize)
    ensures
        r == result.issues@.filter(|i: crate::validation::ValidationIssue| i.severity == want).len(),
        (r > 0) == (exists|k: int| 0 <= k < result.issues@.len() && (#[trigger] result.issues@[k]).severity == want),
{
    let v = match want {
        Severity::Error => result.errors(),
        Severity::Warning => result.warnings(),
    };
    proof {
        let pred = crate::validation::severity_is(want);
        let f = result.issues@.filter(pred);
        assert(pred =~= |i: crate::validation::ValidationIssue| i.severity == want);
        assert(crate::validation::deref_issues(v@).len() == v@.len());
        if v@.len() > 0 {
            result.issues@.lemma_filter_pred(pred, 0);
            let x = f[0];
            assert(f.contains(x));
            result.issues@.lemma_filter_contains_rev(pred, x);
        } else {
            assert forall|k: int| 0 <= k < result.issues@.len() implies (#[trigger] result.issues@[k]).severity != want by {
                if result.issues@[k].severity == want {
                    result.issues@.lemma_filter_contains(pred, k);
                }
            }
        }
    }
    v.len()
}

/// Whether a validation counts as failed: it has errors, or it has
/// warnings and `strict` is set.
pub fn validation_failed(result: &ValidationResult, strict: bool) -> (r: bool)
    ensures
        r == (has_errors(*result) || (strict && has_warnings(*result))),
{
    let errors = count_severity(result, Severity::Error);
    let warnings = count_severity(result, Severity::Warning);
    proof {
        if errors > 0 {
            let k = choose|k: int| 0 <= k < result.issues@.len() && (#[trigger] result.issues@[k]).severity == Severity::Error;
            assert(is_error(result.issues@[k]));
        }
    }
    errors > 0 || (strict && warnings > 0)
}

/// The process exit status of a command: 1 when it failed.
pub fn exit_code(failed: bool) -> (r: u8)
    ensures
        r == (if failed { 1u8 } else { 0u8 }),
{
    if failed { 1 } else { 0 }
}

/// `"s"` unless the count is one.
pub open spec fn plural(n: nat) -> Seq<char> {
    if n == 1 { Seq::empty() } else { "s"@ }
}

fn push_plural(out: &mut String, n: usize)
    ensures
        final(out)@ == old(out)@ + plural(n as nat),
{
    if n != 1 {
        out.append("s");
    } else {
        assert(out@ =~= out@ + Seq::<char>::empty());
    }
}

/// The first line of a text report that lists issues.
pub open spec fn summary_text(path: Seq<char>, errors: nat, warnings: nat, failed: bool) -> Seq<char> {
    (if failed { "✗"@ } else { "⚠"@ }) + " "@ + path + ": "@ + spec_decimal(errors) + " error"@ + plural(errors)
        + ", "@ + spec_decimal(warnings) + " warning"@ + plural(warnings)
}

/// The first line of a text report: a mark (failed or not), the file, and
/// how many errors and warnings it has.
pub fn summary_line(path: &str, errors: usize, warnings: usize, failed: bool) -> (r: String)
    ensures
        r@ == summary_text(path@, errors as nat, warnings as nat, failed),
{
    let mut out = String::new();
    if failed {
        out.append("✗");
    } else {
        out.append("⚠");
    }
    out.append(" ");
    out.append(path);
    out.append(": ");
    push_decimal(&mut out, errors as u64);
    out.append(" error");
    push_plural(&mut out, errors);
    out.append(", ");
    push_decimal(&mut out, warnings as u64);
    out.append(" warning");
    push_plural(&mut out, warnings);
    assert(out@ =~= summary_text(path@, errors as nat, warnings as nat, failed));
    out
}

/// The notice printed before a strict check's warnings.
pub open spec fn warning_notice_text(path: Seq<char>, warnings: nat) -> Seq<char> {
    "⚠ "@ + path + ": "@ + spec_decimal(warnings) + " warning"@ + plural(warnings)
}

/// The notice printed before a strict check's warnings: the file and how
/// many warnings it has.
pub fn warning_notice(path: &str, warnings: usize) -> (r: String)
    ensures
        r@ == warning_notice_text(path@, warnings as nat),
{
    let mut out = String::new();
    out.append("⚠ ");
    out.append(path);
    out.append(": ");
    push_decimal(&mut out, warnings as u64);
    out.append(" warning");
    push_plural(&mut out, warnings);
    assert(out@ =~= warning_notice_text(path@, warnings as nat));
    out
}

/// A strict check: a result with errors becomes an [`InvalidGpxError`]
/// carrying it; warnings alone pass.
pub fn require_valid(result: ValidationResult) -> (r: Result<(), InvalidGpxError>)
    ensures
        match r {
            Ok(()) => !has_errors(result),
            Err(e) => has_errors(result) && e.result == result,
        },
{
    if validation_failed(&result, false) {
        Err(InvalidGpxError::new(result))
    } else {
        Ok(())
    }
}

} // verus!

verus! {

/// An entry when there is a value.
pub open spec fn opt_entry(key: Seq<char>, v: Option<Seq<char>>) -> Seq<(Seq<char>, Seq<char>)> {
    match v {
        Some(x) => seq![(key, x)],
        None => Seq::empty(),
    }
}

/// The metadata entries that `info` reports, in order: name, description,
/// author's name, time (as chrono spells it) and keywords, each when present.
pub open spec fn metadata_entries(m: crate::model::Metadata) -> Seq<(Seq<char>, Seq<char>)> {
    opt_entry("name"@, crate::serialize::opt_view(m.name))
        + opt_entry("description"@, crate::serialize::opt_view(m.desc))
        + opt_entry("author"@, match m.author { Some(a) => crate::serialize::opt_view(a.name), None => None })
        + opt_entry("time"@, match m.time {
            Some(t) => crate::timefmt::rfc3339_of(t.seconds as int, t.nanos as int),
            None => None,
        })
        + opt_entry("keywords"@, crate::serialize::opt_view(m.keywords))
}

/// The contents of key-value pairs.
pub open spec fn pair_views(s: Seq<(String, String)>) -> Seq<(Seq<char>, Seq<char>)> {
    s.map_values(|p: (String, String)| (p.0@, p.1@))
}

fn push_entry(out: &mut Vec<(String, String)>, key: &str, v: Option<String>)
    ensures
        pair_views(final(out)@) == pair_views(old(out)@) + opt_entry(key@, match v { Some(x) => Some(x@), None => None }),
{
    match v {
        Some(x) => {
            let ghost before = out@;
            out.push((key.to_owned(), x));
            assert(pair_views(out@) =~= pair_views(before) + opt_entry(key@, match v { Some(x) => Some(x@), None => None }));
        },
        None => {
            assert(pair_views(out@) =~= pair_views(out@) + Seq::<(Seq<char>, Seq<char>)>::empty());
        },
    }
}

fn clone_opt(s: &Option<String>) -> (r: Option<String>)
    ensures
        (match r { Some(x) => Some(x@), None => None }) == crate::serialize::opt_view(*s),
{
    match s {
        Some(x) => Some(x.clone()),
        None => None,
    }
}

/// The metadata entries that `info` reports.
pub fn metadata_summary(m: &crate::model::Metadata) -> (r: Vec<(String, String)>)
    ensures
        pair_views(r@) == metadata_entries(*m),
{
    let mut out: Vec<(String, String)> = Vec::new();
    assert(pair_views(out@) =~= Seq::<(Seq<char>, Seq<char>)>::empty());
    push_entry(&mut out, "name", clone_opt(&m.name));
    push_entry(&mut out, "description", clone_opt(&m.desc));
    let author = match &m.author {
        Some(a) => clone_opt(&a.name),
        None => None,
    };
    push_entry(&mut out, "author", author);
    let time = match m.time {
        Some(t) => crate::timefmt::rfc3339_text(t.seconds, t.nanos),
        None => None,
    };
    push_entry(&mut out, "time", time);
    push_entry(&mut out, "keywords", clone_opt(&m.keywords));
    assert(pair_views(out@) =~= metadata_entries(*m));
    out
}

} // verus!
