//! Reading the scalar values of a GPX document: fix kinds, unsigned
//! numbers, and the default namespace that the deserializer cannot handle.

use vstd::prelude::*;
use crate::error::ParseError;
use crate::text::{
    all_digits, chars_of, digit_char, digits_value, is_digit, parse_unsigned, spec_decimal, spec_parse_unsigned, str_eq,
    string_from_chars,
};
use crate::types::{fix_as_str, fix_text, Fix};
use crate::validation::GPX_NAMESPACE;

verus! {

/// The fix kind that `s` spells, if any.
pub open spec fn spec_parse_fix(s: Seq<char>) -> Option<Fix> {
    if s == "none"@ {
        Some(Fix::NoFix)
    } else if s == "2d"@ {
        Some(Fix::TwoD)
    } else if s == "3d"@ {
        Some(Fix::ThreeD)
    } else if s == "dgps"@ {
        Some(Fix::Dgps)
    } else if s == "pps"@ {
        Some(Fix::Pps)
    } else {
        None
    }
}

/// Reads a `fixType` value: `none`, `2d`, `3d`, `dgps` or `pps`, exactly.
pub fn parse_fix(element: &'static str, value: &str) -> (r: Result<Fix, ParseError>)
    ensures
        match r {
            Ok(f) => spec_parse_fix(value@) == Some(f),
            Err(e) => spec_parse_fix(value@) is None
                && (e matches ParseError::InvalidValue { element: el, value: v } && el == element && v@ == value@),
        },
{
    if str_eq(value, "none") {
        Ok(Fix::NoFix)
    } else if str_eq(value, "2d") {
        Ok(Fix::TwoD)
    } else if str_eq(value, "3d") {
        Ok(Fix::ThreeD)
    } else if str_eq(value, "dgps") {
        Ok(Fix::Dgps)
    } else if str_eq(value, "pps") {
        Ok(Fix::Pps)
    } else {
        Err(ParseError::InvalidValue { element, value: value.to_owned() })
    }
}

/// Reading back the schema spelling of a fix kind gives that fix kind.
pub proof fn lemma_parse_fix_inverts_fix_text(f: Fix)
    ensures
        spec_parse_fix(fix_text(f)) == Some(f),
{
    reveal_strlit("none");
    reveal_strlit("2d");
    reveal_strlit("3d");
    reveal_strlit("dgps");
    reveal_strlit("pps");
    assert("none"@.len() == 4 && "2d"@.len() == 2 && "3d"@.len() == 2 && "dgps"@.len() == 4 && "pps"@.len() == 3);
    assert("2d"@[0] == '2' && "3d"@[0] == '3' && "none"@[0] == 'n' && "dgps"@[0] == 'd');
    match f {
        Fix::NoFix => {},
        Fix::TwoD => {
            assert("2d"@ != "none"@);
        },
        Fix::ThreeD => {
            assert("3d"@ != "none"@);
            assert("3d"@ != "2d"@);
        },
        Fix::Dgps => {
            assert("dgps"@ != "none"@);
            assert("dgps"@ != "2d"@);
            assert("dgps"@ != "3d"@);
        },
        Fix::Pps => {
            assert("pps"@ != "none"@);
            assert("pps"@ != "2d"@);
            assert("pps"@ != "3d"@);
            assert("pps"@ != "dgps"@);
        },
    }
}

/// Writing a fix kind and reading it back gives the same fix kind.
pub fn fix_round_trip(f: Fix) -> (r: Result<Fix, ParseError>)
    ensures
        r matches Ok(g) && g == f,
{
    proof {
        lemma_parse_fix_inverts_fix_text(f);
    }
    parse_fix("fix", fix_as_str(f))
}

/// Reads an unsigned 64-bit value, as `u64::from_str` does.
pub fn parse_u64(element: &'static str, field: &'static str, value: &str) -> (r: Result<u64, ParseError>)
    ensures
        match r {
            Ok(v) => spec_parse_unsigned(value@, u64::MAX as nat) == Some(v as nat),
            Err(e) => spec_parse_unsigned(value@, u64::MAX as nat) is None
                && (e matches ParseError::InvalidAttribute { element: el, attribute: at, value: v }
                    && el == element && at == field && v@ == value@),
        },
{
    let chars = chars_of(value);
    match parse_unsigned(chars.as_slice(), u64::MAX) {
        Some(v) => Ok(v),
        None => Err(ParseError::InvalidAttribute { element, attribute: field, value: value.to_owned() }),
    }
}

/// Reads an unsigned 16-bit value, as `u16::from_str` does.
pub fn parse_u16(element: &'static str, field: &'static str, value: &str) -> (r: Result<u16, ParseError>)
    ensures
        match r {
            Ok(v) => spec_parse_unsigned(value@, u16::MAX as nat) == Some(v as nat),
            Err(e) => spec_parse_unsigned(value@, u16::MAX as nat) is None
                && (e matches ParseError::InvalidAttribute { element: el, attribute: at, value: v }
                    && el == element && at == field && v@ == value@),
        },
{
    let chars = chars_of(value);
    match parse_unsigned(chars.as_slice(), u16::MAX as u64) {
        Some(v) => Ok(v as u16),
        None => Err(ParseError::InvalidAttribute { element, attribute: field, value: value.to_owned() }),
    }
}

// ================================================================ namespaces

/// `s` with every occurrence of `pat` taken out, scanning left to right as
/// `str::replace` does.
pub open spec fn remove_all(s: Seq<char>, pat: Seq<char>) -> Seq<char>
    decreases s.len(),
{
    if s.len() == 0 {
        Seq::empty()
    } else if pat.len() > 0 && pat.len() <= s.len() && s.take(pat.len() as int) == pat {
        remove_all(s.skip(pat.len() as int), pat)
    } else {
        seq![s[0]] + remove_all(s.skip(1), pat)
    }
}

fn starts_at(s: &[char], i: usize, pat: &[char]) -> (r: bool)
    requires
        i <= s@.len(),
    ensures
        r == (pat@.len() <= s@.len() - i && s@.skip(i as int).take(pat@.len() as int) == pat@),
{
    if pat.len() > s.len() - i {
        return false;
    }
    let mut k: usize = 0;
    while k < pat.len()
        invariant
            k <= pat@.len(),
            i <= s@.len(),
            i + pat@.len() <= s.len(),
            pat@.len() <= s@.len() - i,
            forall|j: int| 0 <= j < k ==> s@[i + j] == pat@[j],
        decreases pat.len() - k,
    {
        if s[i + k] != pat[k] {
            assert(s@.skip(i as int).take(pat@.len() as int)[k as int] != pat@[k as int]);
            return false;
        }
        k = k + 1;
    }
    assert(s@.skip(i as int).take(pat@.len() as int) =~= pat@);
    true
}

/// Takes every occurrence of `pat` out of `s`.
pub fn remove_occurrences(s: &[char], pat: &[char]) -> (r: Vec<char>)
    ensures
        r@ == remove_all(s@, pat@),
{
    let mut out: Vec<char> = Vec::new();
    let mut i: usize = 0;
    assert(s@.skip(0) =~= s@);
    assert(out@ + remove_all(s@, pat@) =~= remove_all(s@, pat@));
    while i < s.len()
        invariant
            i <= s@.len(),
            out@ + remove_all(s@.skip(i as int), pat@) == remove_all(s@, pat@),
        decreases s.len() - i,
    {
        let ghost rest = s@.skip(i as int);
        if pat.len() > 0 && starts_at(s, i, pat) {
            assert(pat@.len() <= s@.len() - i);
            assert(rest.skip(pat@.len() as int) =~= s@.skip(i + pat@.len()));
            i = i + pat.len();
        } else {
            assert(rest.skip(1) =~= s@.skip(i + 1));
            assert(rest[0] == s@[i as int]);
            out.push(s[i]);
            assert(out@ + remove_all(s@.skip(i + 1), pat@) =~= (out@.drop_last() + seq![s@[i as int]]) + remove_all(rest.skip(1), pat@));
            i = i + 1;
        }
    }
    assert(s@.skip(i as int) =~= Seq::<char>::empty());
    assert(out@ + Seq::<char>::empty() =~= out@);
    out
}

/// ` xmlns="<GPX 1.1 namespace>"` and its single-quoted form.
pub open spec fn default_namespace_attr(quote: char) -> Seq<char> {
    " xmlns="@ + seq![quote] + GPX_NAMESPACE@ + seq![quote]
}

/// The document with the default GPX namespace declaration taken out, first
/// in its double-quoted, then in its single-quoted form.
pub open spec fn spec_strip_default_namespace(xml: Seq<char>) -> Seq<char> {
    remove_all(remove_all(xml, default_namespace_attr('"')), default_namespace_attr('\''))
}

fn namespace_attr(quote: char) -> (r: Vec<char>)
    ensures
        r@ == default_namespace_attr(quote),
{
    let mut v = chars_of(" xmlns=");
    v.push(quote);
    let ns = chars_of(GPX_NAMESPACE);
    let mut k: usize = 0;
    let ghost start = v@;
    assert(v@ =~= start + ns@.take(0));
    while k < ns.len()
        invariant
            k <= ns@.len(),
            v@ == start + ns@.take(k as int),
        decreases ns.len() - k,
    {
        v.push(ns[k]);
        k = k + 1;
        assert(v@ =~= start + ns@.take(k as int));
    }
    assert(ns@.take(ns@.len() as int) =~= ns@);
    v.push(quote);
    assert(v@ =~= default_namespace_attr(quote));
    v
}

/// Removes the default GPX namespace declaration so that the deserializer,
/// which matches plain element names, can read the document.
pub fn strip_default_namespace(xml: &str) -> (r: String)
    ensures
        r@ == spec_strip_default_namespace(xml@),
{
    let chars = chars_of(xml);
    let double = namespace_attr('"');
    let single = namespace_attr('\'');
    let once = remove_occurrences(chars.as_slice(), double.as_slice());
    let twice = remove_occurrences(once.as_slice(), single.as_slice());
    string_from_chars(twice.as_slice())
}

} // verus!

verus! {

/// The decimal spelling of a number is made of digits, has the number as
/// its value, and does not start with `+`.
pub proof fn lemma_decimal_digits(n: nat)
    ensures
        all_digits(spec_decimal(n)),
        digits_value(spec_decimal(n)) == n,
        spec_decimal(n).len() > 0,
        spec_decimal(n)[0] != '+',
    decreases n,
{
    if n < 10 {
        let s = spec_decimal(n);
        assert(s == seq![digit_char(n)]);
        assert(s.drop_last() =~= Seq::<char>::empty());
        assert((digit_char(n) as nat) == 48 + n);
        assert(is_digit(digit_char(n)));
        assert(digits_value(s) == digits_value(s.drop_last()) * 10 + ((s.last() as nat) - 48) as nat);
    } else {
        lemma_decimal_digits(n / 10);
        let p = spec_decimal(n / 10);
        let s = spec_decimal(n);
        assert(s == p.push(digit_char(n % 10)));
        assert(s.drop_last() =~= p);
        assert(s[0] == p[0]);
        let d = n % 10;
        assert((digit_char(d) as nat) == 48 + d);
        assert(digits_value(s) == digits_value(p) * 10 + ((s.last() as nat) - 48) as nat);
        assert((n / 10) * 10 + n % 10 == n) by (nonlinear_arith);
        assert forall|i: int| 0 <= i < s.len() implies is_digit(#[trigger] s[i]) by {
            if i < p.len() {
                assert(s[i] == p[i]);
            }
        }
    }
}

/// Reading back the decimal spelling of a number within range gives the
/// number: what the writers spell (`number`, `sat`, `dgpsid`) the readers read.
pub proof fn lemma_parse_unsigned_of_decimal(n: nat, max: nat)
    requires
        n <= max,
    ensures
        spec_parse_unsigned(spec_decimal(n), max) == Some(n),
{
    lemma_decimal_digits(n);
}

} // verus!
