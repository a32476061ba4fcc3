//! Decimal numbers as `f64::from_str` reads them, and range checks on them.
//!
//! A value's text is read exactly, as a digit string times a power of ten.
//! `f64::from_str` rounds that value to the nearest `f64` (ties to even), so a
//! range check on the rounded number is a comparison of the exact value with
//! a limit just beyond the range, written here in full decimal digits.

use vstd::prelude::*;
use crate::text::{all_digits, ascii_lower, chars_of, concat3, digits_value, is_digit};
use crate::validation::content::{finding_view, Finding};
use crate::validation::Severity;

verus! {

// ================================================================ arithmetic

/// Ten to the power `n`.
pub open spec fn pow10(n: nat) -> nat
    decreases n,
{
    if n == 0 { 1 } else { 10 * pow10((n - 1) as nat) }
}

proof fn lemma_pow10_pos(n: nat)
    ensures
        pow10(n) >= 1,
    decreases n,
{
    if n > 0 {
        lemma_pow10_pos((n - 1) as nat);
    }
}

proof fn lemma_pow10_add(a: nat, b: nat)
    ensures
        pow10(a + b) == pow10(a) * pow10(b),
    decreases b,
{
    if b == 0 {
        assert(a + b == a);
        assert(pow10(0) == 1);
        assert(pow10(a) * 1 == pow10(a));
    } else {
        let c = (b - 1) as nat;
        lemma_pow10_add(a, c);
        assert((a + b - 1) as nat == a + c);
        assert(pow10(a + b) == 10 * pow10(a + c));
        assert(pow10(b) == 10 * pow10(c));
        let pa = pow10(a);
        let pc = pow10(c);
        assert(pa * (10 * pc) == 10 * (pa * pc)) by (nonlinear_arith);
    }
}

proof fn lemma_pow10_mono(a: nat, b: nat)
    requires
        a <= b,
    ensures
        pow10(a) <= pow10(b),
    decreases b,
{
    if a < b {
        lemma_pow10_mono(a, (b - 1) as nat);
        lemma_pow10_pos((b - 1) as nat);
    }
}

/// `n` zero digits.
pub open spec fn zeros(n: nat) -> Seq<char> {
    Seq::new(n, |i: int| '0')
}

proof fn lemma_zeros_value(n: nat)
    ensures
        digits_value(zeros(n)) == 0,
        all_digits(zeros(n)),
    decreases n,
{
    if n > 0 {
        assert(zeros(n).drop_last() =~= zeros((n - 1) as nat));
        lemma_zeros_value((n - 1) as nat);
    }
}

proof fn lemma_value_append(x: Seq<char>, y: Seq<char>)
    ensures
        digits_value(x + y) == digits_value(x) * pow10(y.len()) + digits_value(y),
    decreases y.len(),
{
    if y.len() == 0 {
        assert(x + y =~= x);
        assert(pow10(0) == 1);
        assert(digits_value(x) * 1 == digits_value(x));
    } else {
        let xy = x + y;
        assert(xy.drop_last() =~= x + y.drop_last());
        assert(xy.last() == y.last());
        assert(pow10(y.len()) == 10 * pow10((y.len() - 1) as nat));
        assert(y.drop_last().len() == y.len() - 1);
        lemma_value_append(x, y.drop_last());
        let a = digits_value(x);
        let p = pow10((y.len() - 1) as nat);
        let v = digits_value(y.drop_last());
        let d = ((y.last() as nat) - 48) as nat;
        assert(digits_value(xy) == digits_value(xy.drop_last()) * 10 + d);
        assert(digits_value(y) == v * 10 + d);
        assert(digits_value(xy.drop_last()) == a * p + v);
        assert((a * p + v) * 10 + d == a * (10 * p) + (v * 10 + d)) by (nonlinear_arith);
    }
}

proof fn lemma_value_lt_pow(y: Seq<char>)
    requires
        all_digits(y),
    ensures
        digits_value(y) < pow10(y.len()),
    decreases y.len(),
{
    if y.len() > 0 {
        let z = y.drop_last();
        assert(all_digits(z)) by {
            assert forall|i: int| 0 <= i < z.len() implies is_digit(#[trigger] z[i]) by {
                assert(z[i] == y[i]);
            }
        }
        lemma_value_lt_pow(z);
        assert(is_digit(y[y.len() - 1]));
        let v = digits_value(z);
        let p = pow10(z.len());
        let d = ((y.last() as nat) - 48) as nat;
        assert(v * 10 + d < 10 * p) by (nonlinear_arith)
            requires v < p, d <= 9;
    }
}

proof fn lemma_value_ge_pow(y: Seq<char>)
    requires
        all_digits(y),
        y.len() > 0,
        y[0] != '0',
    ensures
        digits_value(y) >= pow10((y.len() - 1) as nat),
{
    let head = y.take(1);
    let rest = y.skip(1);
    assert(head + rest =~= y);
    lemma_value_append(head, rest);
    assert(head.drop_last() =~= Seq::<char>::empty());
    assert(digits_value(head.drop_last()) == 0);
    assert(head.last() == y[0]);
    assert(is_digit(y[0]));
    assert(digits_value(head) == ((y[0] as nat) - 48) as nat);
    assert(digits_value(head) >= 1);
    assert(digits_value(head) * pow10(rest.len()) >= pow10(rest.len())) by (nonlinear_arith)
        requires digits_value(head) >= 1;
}

proof fn lemma_all_digits_split(x: Seq<char>, k: int)
    requires
        all_digits(x),
        0 <= k <= x.len(),
    ensures
        all_digits(x.take(k)),
        all_digits(x.skip(k)),
{
    assert forall|i: int| 0 <= i < x.take(k).len() implies is_digit(#[trigger] x.take(k)[i]) by {
        assert(x.take(k)[i] == x[i]);
    }
    assert forall|i: int| 0 <= i < x.skip(k).len() implies is_digit(#[trigger] x.skip(k)[i]) by {
        assert(x.skip(k)[i] == x[i + k]);
    }
}

proof fn lemma_lex(p: Seq<char>, q: Seq<char>, t: int)
    requires
        p.len() == q.len(),
        all_digits(p),
        all_digits(q),
        0 <= t < p.len(),
        forall|j: int| 0 <= j < t ==> p[j] == q[j],
        p[t] < q[t],
    ensures
        digits_value(p) < digits_value(q),
{
    let r = (p.len() - t - 1) as nat;
    let ph = p.take(t + 1);
    let qh = q.take(t + 1);
    let pt = p.skip(t + 1);
    let qt = q.skip(t + 1);
    assert(ph + pt =~= p);
    assert(qh + qt =~= q);
    lemma_value_append(ph, pt);
    lemma_value_append(qh, qt);
    lemma_all_digits_split(p, t + 1);
    lemma_all_digits_split(q, t + 1);
    lemma_value_lt_pow(pt);
    assert(ph.drop_last() =~= qh.drop_last());
    let pre = digits_value(ph.drop_last());
    let dp = ((ph.last() as nat) - 48) as nat;
    let dq = ((qh.last() as nat) - 48) as nat;
    assert(ph.last() == p[t] && qh.last() == q[t]);
    assert(dp < dq);
    let vp = digits_value(ph);
    let vq = digits_value(qh);
    assert(vp + 1 <= vq);
    let pw = pow10(r);
    assert(pt.len() == r);
    let a = digits_value(pt);
    let b = digits_value(qt);
    assert(vp * pw + a < vq * pw + b) by (nonlinear_arith)
        requires vp + 1 <= vq, a < pw, b >= 0;
}

/// The sign of `a - b`.
pub open spec fn sign_of_diff(a: int, b: int) -> int {
    if a < b { -1 } else if a == b { 0 } else { 1 }
}

/// The sign of `a * 10^za - b * 10^zb`.
pub open spec fn padded_order(a: nat, za: nat, b: nat, zb: nat) -> int {
    sign_of_diff((a * pow10(za)) as int, (b * pow10(zb)) as int)
}

/// Compares two digit strings, each followed by a number of zeros.
pub fn compare_padded(x: &[char], zx: u128, y: &[char], zy: u128) -> (r: i8)
    requires
        all_digits(x@),
        all_digits(y@),
        y@.len() > 0,
        y@[0] != '0',
        zx < 0x1_0000_0000_0000_0000_0000_0000_0000u128,
        zy < 0x1_0000_0000_0000_0000_0000_0000_0000u128,
    ensures
        r as int == padded_order(digits_value(x@), zx as nat, digits_value(y@), zy as nat),
{
    let mut lz: usize = 0;
    while lz < x.len() && x[lz] == '0'
        invariant
            lz <= x@.len(),
            forall|j: int| 0 <= j < lz ==> x@[j] == '0',
        decreases x.len() - lz,
    {
        lz = lz + 1;
    }
    let ghost xs = x@.skip(lz as int);
    proof {
        assert(x@.take(lz as int) =~= zeros(lz as nat));
        assert(zeros(lz as nat) + xs =~= x@);
        lemma_value_append(zeros(lz as nat), xs);
        lemma_zeros_value(lz as nat);
        lemma_all_digits_split(x@, lz as int);
        lemma_value_ge_pow(y@);
        lemma_pow10_pos((y@.len() - 1) as nat);
        lemma_pow10_pos(zy as nat);
        lemma_pow10_pos(zx as nat);
        let zl = digits_value(zeros(lz as nat));
        let pl = pow10(xs.len());
        assert(zl * pl == 0) by (nonlinear_arith)
            requires zl == 0;
    }
    let ghost vy = digits_value(y@);
    let ghost vx = digits_value(xs);
    assert(digits_value(x@) == vx);
    let xl = x.len() - lz;
    if xl == 0 {
        assert(xs.len() == 0);
        assert(vx == 0);
        let ghost pz = pow10(zx as nat);
        assert(vx * pz == 0) by (nonlinear_arith)
            requires vx == 0;
        assert(vy * pow10(zy as nat) >= 1) by (nonlinear_arith)
            requires vy >= 1, pow10(zy as nat) >= 1;
        return -1;
    }
    proof {
        assert(xs[0] == x@[lz as int]);
        lemma_value_ge_pow(xs);
        lemma_value_lt_pow(xs);
        lemma_value_lt_pow(y@);
    }
    let lx: u128 = xl as u128 + zx;
    let ly: u128 = y.len() as u128 + zy;
    if lx < ly {
        proof {
            lemma_pow10_add(xl as nat, zx as nat);
            lemma_pow10_add((y@.len() - 1) as nat, zy as nat);
            lemma_pow10_mono(lx as nat, (ly - 1) as nat);
            let px = pow10(xl as nat);
            let pz = pow10(zx as nat);
            assert(vx * pz < px * pz) by (nonlinear_arith)
                requires vx < px, pz >= 1;
            let py = pow10((y@.len() - 1) as nat);
            let pzy = pow10(zy as nat);
            assert(py * pzy <= vy * pzy) by (nonlinear_arith)
                requires py <= vy;
            assert(((y@.len() - 1) as nat + zy as nat) == (ly - 1) as nat);
        }
        return -1;
    }
    if lx > ly {
        proof {
            lemma_pow10_add((xl - 1) as nat, zx as nat);
            lemma_pow10_add(y@.len() as nat, zy as nat);
            lemma_pow10_mono(ly as nat, (lx - 1) as nat);
            let px = pow10((xl - 1) as nat);
            let pz = pow10(zx as nat);
            assert(px * pz <= vx * pz) by (nonlinear_arith)
                requires px <= vx;
            let py = pow10(y@.len() as nat);
            let pzy = pow10(zy as nat);
            assert(vy * pzy < py * pzy) by (nonlinear_arith)
                requires vy < py, pzy >= 1;
            assert(((xl - 1) as nat + zx as nat) == (lx - 1) as nat);
        }
        return 1;
    }
    let ghost p = xs + zeros(zx as nat);
    let ghost q = y@ + zeros(zy as nat);
    proof {
        lemma_value_append(xs, zeros(zx as nat));
        lemma_value_append(y@, zeros(zy as nat));
        lemma_zeros_value(zx as nat);
        lemma_zeros_value(zy as nat);
        assert(digits_value(p) == digits_value(x@) * pow10(zx as nat));
        assert(digits_value(q) == digits_value(y@) * pow10(zy as nat));
        assert(p.len() == q.len());
        assert(all_digits(p)) by {
            assert forall|i: int| 0 <= i < p.len() implies is_digit(#[trigger] p[i]) by {
                if i < xs.len() {
                    assert(p[i] == xs[i]);
                } else {
                    assert(p[i] == zeros(zx as nat)[i - xs.len()]);
                }
            }
        }
        assert(all_digits(q)) by {
            assert forall|i: int| 0 <= i < q.len() implies is_digit(#[trigger] q[i]) by {
                if i < y@.len() {
                    assert(q[i] == y@[i]);
                } else {
                    assert(q[i] == zeros(zy as nat)[i - y@.len()]);
                }
            }
        }
    }
    let m: usize = if xl >= y.len() { xl } else { y.len() };
    let mut t: usize = 0;
    while t < m
        invariant
            t <= m,
            m == (if xl >= y@.len() { xl as int } else { y@.len() as int }),
            m as int <= p.len(),
            xl == xs.len(),
            lz + xl == x.len(),
            digits_value(p) == digits_value(x@) * pow10(zx as nat),
            digits_value(q) == digits_value(y@) * pow10(zy as nat),
            xs == x@.skip(lz as int),
            p == xs + zeros(zx as nat),
            q == y@ + zeros(zy as nat),
            p.len() == q.len(),
            all_digits(p),
            all_digits(q),
            forall|j: int| 0 <= j < t ==> p[j] == q[j],
        decreases m - t,
    {
        let dx: char = if t < xl { x[lz + t] } else { '0' };
        let dy: char = if t < y.len() { y[t] } else { '0' };
        assert(dx == p[t as int]);
        assert(dy == q[t as int]);
        if dx < dy {
            proof {
                lemma_lex(p, q, t as int);
            }
            return -1;
        }
        if dx > dy {
            proof {
                lemma_lex(q, p, t as int);
            }
            return 1;
        }
        t = t + 1;
    }
    assert(p =~= q) by {
        assert forall|j: int| 0 <= j < p.len() implies p[j] == q[j] by {
            if j >= m {
                assert(p[j] == '0');
                assert(q[j] == '0');
            }
        }
    }
    0
}


// ================================================================ syntax

/// `b` spells `word` ignoring ASCII case.
pub open spec fn is_word(b: Seq<char>, word: Seq<char>) -> bool {
    b.len() == word.len() && forall|i: int| 0 <= i < b.len() ==> ascii_lower(#[trigger] b[i]) == word[i]
}

/// The length of a leading sign, 0 or 1.
pub open spec fn sign_len(s: Seq<char>) -> int {
    if s.len() > 0 && (s[0] == '+' || s[0] == '-') { 1 } else { 0 }
}

/// The text starts with `-`.
pub open spec fn is_negative(s: Seq<char>) -> bool {
    s.len() > 0 && s[0] == '-'
}

/// The text after its sign.
pub open spec fn unsigned_part(s: Seq<char>) -> Seq<char> {
    s.subrange(sign_len(s), s.len() as int)
}

/// `inf`, `infinity` or `nan`, in any ASCII case.
pub open spec fn is_special(b: Seq<char>) -> bool {
    ||| is_word(b, seq!['i', 'n', 'f'])
    ||| is_word(b, seq!['i', 'n', 'f', 'i', 'n', 'i', 't', 'y'])
    ||| is_word(b, seq!['n', 'a', 'n'])
}

/// The first index at or after `from` that does not hold a digit.
pub open spec fn digit_end(b: Seq<char>, from: int) -> int
    decreases b.len() - from,
{
    if from >= b.len() || from < 0 || !is_digit(b[from]) {
        from
    } else {
        digit_end(b, from + 1)
    }
}

/// End of the integer digits.
pub open spec fn int_end(b: Seq<char>) -> int {
    digit_end(b, 0)
}

/// A decimal point follows the integer digits.
pub open spec fn has_point(b: Seq<char>) -> bool {
    int_end(b) < b.len() && b[int_end(b)] == '.'
}

/// Start of the fraction digits.
pub open spec fn frac_start(b: Seq<char>) -> int {
    if has_point(b) { int_end(b) + 1 } else { int_end(b) }
}

/// End of the fraction digits.
pub open spec fn frac_end(b: Seq<char>) -> int {
    if has_point(b) { digit_end(b, frac_start(b)) } else { int_end(b) }
}

/// All digits of the significand, integer part then fraction.
pub open spec fn mantissa(b: Seq<char>) -> Seq<char> {
    b.subrange(0, int_end(b)) + b.subrange(frac_start(b), frac_end(b))
}

/// The digits of an exponent whose marker stands at `e`: what follows the
/// marker and an optional sign.
pub open spec fn exponent_digits(b: Seq<char>, e: int) -> Seq<char> {
    let t = b.subrange(e + 1, b.len() as int);
    if t.len() > 0 && (t[0] == '+' || t[0] == '-') { t.drop_first() } else { t }
}

/// The exponent whose marker stands at `e` is negative.
pub open spec fn exponent_negative(b: Seq<char>, e: int) -> bool {
    e + 1 < b.len() && b[e + 1] == '-'
}

/// What follows the significand, read from `e` on: nothing (exponent 0), or
/// `e`/`E`, an optional sign and at least one digit.
pub open spec fn exponent_at(b: Seq<char>, e: int) -> Option<int> {
    if e == b.len() {
        Some(0)
    } else if b[e] == 'e' || b[e] == 'E' {
        let ds = exponent_digits(b, e);
        if ds.len() > 0 && all_digits(ds) {
            Some(if exponent_negative(b, e) { -digits_value(ds) } else { digits_value(ds) as int })
        } else {
            None
        }
    } else {
        None
    }
}

/// The exponent part, when it is well formed (0 when there is none).
pub open spec fn exponent(b: Seq<char>) -> Option<int> {
    exponent_at(b, frac_end(b))
}

/// `b` is a finite decimal: digits with an optional point (at least one
/// digit in all), then an optional exponent.
pub open spec fn is_finite_number(b: Seq<char>) -> bool {
    mantissa(b).len() > 0 && exponent(b) is Some
}

/// The power of ten by which the significand digits are scaled.
pub open spec fn number_scale(b: Seq<char>) -> int {
    exponent(b).unwrap() - (frac_end(b) - frac_start(b))
}

/// Whether `f64::from_str` accepts `s`: an optional sign, then a finite
/// decimal or one of `inf`, `infinity`, `nan`.
pub open spec fn parses_as_f64(s: Seq<char>) -> bool {
    let b = unsigned_part(s);
    is_special(b) || is_finite_number(b)
}

// ================================================================ values

/// The sign of `d * 10^scale - n * 10^(-k)`.
pub open spec fn scaled_sign(d: nat, scale: int, n: nat, k: nat) -> int {
    if scale + k >= 0 {
        sign_of_diff((d * pow10((scale + k) as nat)) as int, n as int)
    } else {
        sign_of_diff(d as int, (n * pow10((-(scale + k)) as nat)) as int)
    }
}

/// The sign of `|x| - limit * 10^(-k)` for the finite decimal `s`.
pub open spec fn order_vs(s: Seq<char>, limit: Seq<char>, k: nat) -> int {
    let b = unsigned_part(s);
    scaled_sign(digits_value(mantissa(b)), number_scale(b), digits_value(limit), k)
}

/// 90 + 2^-47, times 10^47: the largest magnitude that rounds to at most 90.
pub const LAT_LIMIT: &'static str = "9000000000000000710542735760100185871124267578125";

/// 180 + 2^-46, times 10^46: the largest magnitude that rounds to at most 180.
pub const LON_LIMIT: &'static str = "1800000000000000142108547152020037174224853515625";

/// 180 - 2^-46, times 10^46: the smallest magnitude that rounds to 180.
pub const LON_EXACT_LOW: &'static str = "1799999999999999857891452847979962825775146484375";

/// 360 - 2^-45, times 10^45: magnitudes below it round to less than 360.
pub const DEG_LIMIT: &'static str = "359999999999999971578290569595992565155029296875";

/// 2^-1075, times 10^1075: negative values of at most this magnitude round to -0.0.
pub const TINY_LIMIT: &'static str = "24703282292062327208828439643411068618252990130716238221279284125033775363510437593264991818081799618989828234772285886546332835517796989819938739800539093906315035659515570226392290858392449105184435931802849936536152500319370457678249219365623669863658480757001585769269903706311928279558551332927834338409351978015531246597263579574622766465272827220056374006485499977096599470454020828166226237857393450736339007967761930577506740176324673600968951340535537458516661134223766678604162159680461914467291840300530057530849048765391711386591646239524912623653881879636239373280423891018672348497668235089863388587925628302755995657524455507255189313690836254779186948667994968324049705821028513185451396213837722826145437693412532098591327667236328125";

/// The value rounds into `[-90, 90]`.
pub open spec fn lat_in_range(s: Seq<char>) -> bool {
    is_finite_number(unsigned_part(s)) && order_vs(s, LAT_LIMIT@, 47) <= 0
}

/// The value rounds into `[-180, 180]`.
pub open spec fn lon_in_range(s: Seq<char>) -> bool {
    is_finite_number(unsigned_part(s)) && order_vs(s, LON_LIMIT@, 46) <= 0
}

/// The value (already known to be in range) rounds to exactly 180.
pub open spec fn lon_is_180(s: Seq<char>) -> bool {
    is_finite_number(unsigned_part(s)) && !is_negative(s) && order_vs(s, LON_EXACT_LOW@, 46) >= 0
}

/// The value rounds into `[0, 360)` (`-0.0` counts as 0).
pub open spec fn deg_in_range(s: Seq<char>) -> bool {
    &&& is_finite_number(unsigned_part(s))
    &&& if is_negative(s) { order_vs(s, TINY_LIMIT@, 1075) <= 0 } else { order_vs(s, DEG_LIMIT@, 45) < 0 }
}

// ================================================================ findings

/// An `xsd:decimal` value must be a number that `f64::from_str` reads.
pub open spec fn spec_validate_decimal(text: Seq<char>) -> Option<Finding> {
    if parses_as_f64(text) {
        None
    } else {
        Some((Severity::Error, "'"@ + text + "' is not a valid decimal number"@))
    }
}

/// A latitude must be a number in `[-90, 90]`.
pub open spec fn spec_validate_latitude(text: Seq<char>) -> Option<Finding> {
    if !parses_as_f64(text) {
        Some((Severity::Error, "invalid latitude '"@ + text + "' (not a number)"@))
    } else if !lat_in_range(text) {
        Some((Severity::Error, "invalid latitude '"@ + text + "' (must be in [-90, 90])"@))
    } else {
        None
    }
}

/// A longitude must be a number in `[-180, 180]`; exactly 180 draws a warning.
pub open spec fn spec_validate_longitude(text: Seq<char>) -> Option<Finding> {
    if !parses_as_f64(text) {
        Some((Severity::Error, "invalid longitude '"@ + text + "' (not a number)"@))
    } else if !lon_in_range(text) {
        Some((Severity::Error, "invalid longitude '"@ + text + "' (must be in [-180, 180])"@))
    } else if lon_is_180(text) {
        Some((Severity::Warning, "longitude "@ + text + " equals 180.0 (the GPX 1.1 schema upper bound is exclusive)"@))
    } else {
        None
    }
}

/// A degrees value must be a number in `[0, 360)`.
pub open spec fn spec_validate_degrees(text: Seq<char>) -> Option<Finding> {
    if !parses_as_f64(text) {
        Some((Severity::Error, "invalid degrees value '"@ + text + "' (not a number)"@))
    } else if !deg_in_range(text) {
        Some((Severity::Error, "invalid degrees value '"@ + text + "' (must be in [0, 360))"@))
    } else {
        None
    }
}

/// The text after a leading sign is the unsigned text itself.
proof fn lemma_unsigned_part_of_signed(u: Seq<char>, c: char)
    requires
        u.len() == 0 || (u[0] != '+' && u[0] != '-'),
        c == '+' || c == '-',
    ensures
        unsigned_part(seq![c] + u) == u,
        unsigned_part(u) == u,
{
    assert((seq![c] + u).subrange(1, (u.len() + 1) as int) =~= u);
    assert(u.subrange(0, u.len() as int) =~= u);
}

/// The latitude check does not depend on the sign: a text with a leading
/// `-` or `+` draws a finding exactly when the same text without it does.
pub proof fn lemma_latitude_sign_symmetric(u: Seq<char>)
    requires
        u.len() == 0 || (u[0] != '+' && u[0] != '-'),
    ensures
        spec_validate_latitude(seq!['-'] + u) is None <==> spec_validate_latitude(u) is None,
        spec_validate_latitude(seq!['+'] + u) is None <==> spec_validate_latitude(u) is None,
{
    lemma_unsigned_part_of_signed(u, '-');
    lemma_unsigned_part_of_signed(u, '+');
}

/// The latitude limit is at least 90 times `10^47`.
proof fn lemma_lat_limit_value()
    ensures
        digits_value(LAT_LIMIT@) >= 90 * pow10(47),
{
    reveal_strlit("9000000000000000710542735760100185871124267578125");
    let y = LAT_LIMIT@;
    let head = y.take(1);
    let rest = y.skip(1);
    assert(head + rest =~= y);
    lemma_value_append(head, rest);
    assert(head.drop_last() =~= Seq::<char>::empty());
    assert(head.last() == '9');
    assert(digits_value(head.drop_last()) == 0);
    assert(('9' as nat) == 57);
    assert(digits_value(head) == 9);
    assert(rest.len() == 48);
    assert(pow10(48) == 10 * pow10(47));
}

/// A value `d * 10^s` of at most `bound` is at most `l * 10^(-k)` when `l` is
/// at least `bound * 10^k`.
proof fn lemma_scaled_within(d: nat, s: int, l: nat, k: nat, bound: nat)
    requires
        l >= bound * pow10(k),
        if s >= 0 { d * pow10(s as nat) <= bound } else { d <= bound * pow10((-s) as nat) },
    ensures
        scaled_sign(d, s, l, k) <= 0,
{
    let pk = pow10(k);
    if s + k >= 0 {
        let e = (s + k) as nat;
        if s >= 0 {
            let m = s as nat;
            lemma_pow10_add(m, k);
            assert(m + k == e);
            let pm = pow10(m);
            let pe = pow10(e);
            assert(d * pe <= bound * pk) by (nonlinear_arith)
                requires
                    d * pm <= bound,
                    pe == pm * pk,
                    pk >= 0,
            ;
        } else {
            let m = (-s) as nat;
            lemma_pow10_add(e, m);
            assert(e + m == k);
            let pm = pow10(m);
            let pe = pow10(e);
            assert(d * pe <= bound * pk) by (nonlinear_arith)
                requires
                    d <= bound * pm,
                    pk == pe * pm,
                    pe >= 0,
                    d >= 0,
            ;
        }
    } else {
        let m = (-s) as nat;
        let e = (-(s + k)) as nat;
        lemma_pow10_add(k, e);
        assert(k + e == m);
        let pm = pow10(m);
        let pe = pow10(e);
        assert(d <= l * pe) by (nonlinear_arith)
            requires
                d <= bound * pm,
                pm == pk * pe,
                l >= bound * pk,
                pe >= 0,
        ;
    }
}

/// A finite decimal does not start with a sign.
proof fn lemma_finite_unsigned(u: Seq<char>)
    requires
        is_finite_number(u),
    ensures
        u[0] != '+' && u[0] != '-',
{
    if u[0] == '+' || u[0] == '-' {
        assert(digit_end(u, 0) == 0);
        assert(!has_point(u));
        assert(mantissa(u) =~= Seq::<char>::empty());
    }
}

/// Every latitude written as a plain decimal (digits with an optional point,
/// then an optional exponent) whose value is at most 90 draws no finding, and
/// neither does the same text with a `-` or `+` before it: the check accepts
/// all of `[-90, 90]`. The value is the significand's digits times ten to
/// the scale.
pub proof fn lemma_latitude_within_90(u: Seq<char>)
    requires
        is_finite_number(u),
        ({
            let d = digits_value(mantissa(u));
            let s = number_scale(u);
            if s >= 0 { d * pow10(s as nat) <= 90 } else { d <= 90 * pow10((-s) as nat) }
        }),
    ensures
        spec_validate_latitude(u) is None,
        spec_validate_latitude(seq!['-'] + u) is None,
        spec_validate_latitude(seq!['+'] + u) is None,
{
    lemma_finite_unsigned(u);
    lemma_unsigned_part_of_signed(u, '-');
    lemma_unsigned_part_of_signed(u, '+');
    lemma_lat_limit_value();
    lemma_scaled_within(digits_value(mantissa(u)), number_scale(u), digits_value(LAT_LIMIT@), 47, 90);
}

/// The longitude limit is at least 180 times `10^46`.
proof fn lemma_lon_limit_value()
    ensures
        digits_value(LON_LIMIT@) >= 180 * pow10(46),
{
    reveal_strlit("1800000000000000142108547152020037174224853515625");
    let y = LON_LIMIT@;
    let head = y.take(2);
    let rest = y.skip(2);
    assert(head + rest =~= y);
    lemma_value_append(head, rest);
    assert(head.drop_last() =~= seq!['1']);
    assert(seq!['1'].drop_last() =~= Seq::<char>::empty());
    assert(digits_value(Seq::<char>::empty()) == 0);
    assert(('1' as nat) == 49);
    assert(('8' as nat) == 56);
    assert(digits_value(seq!['1']) == 1);
    assert(head.last() == '8');
    assert(digits_value(head) == 18);
    assert(rest.len() == 47);
    assert(pow10(47) == 10 * pow10(46));
}

/// Every longitude written as a plain decimal whose value is at most 180
/// draws no error: with a `-` before it, no finding at all; without a sign
/// or with `+`, at most the warning that exactly 180 draws. The check accepts
/// all of `[-180, 180]`.
pub proof fn lemma_longitude_within_180(u: Seq<char>)
    requires
        is_finite_number(u),
        ({
            let d = digits_value(mantissa(u));
            let s = number_scale(u);
            if s >= 0 { d * pow10(s as nat) <= 180 } else { d <= 180 * pow10((-s) as nat) }
        }),
    ensures
        spec_validate_longitude(seq!['-'] + u) is None,
        !(spec_validate_longitude(u) matches Some((Severity::Error, _))),
        !(spec_validate_longitude(seq!['+'] + u) matches Some((Severity::Error, _))),
{
    lemma_finite_unsigned(u);
    lemma_unsigned_part_of_signed(u, '-');
    lemma_unsigned_part_of_signed(u, '+');
    lemma_lon_limit_value();
    lemma_scaled_within(digits_value(mantissa(u)), number_scale(u), digits_value(LON_LIMIT@), 46, 180);
}

// ================================================================ reading

/// Exponents above this are not told apart: every nonzero value with such an
/// exponent is beyond all range limits, and every value with its negation
/// is below them.
pub const EXPONENT_CAP: u128 = 1_000_000_000_000_000_000_000_000_000_000u128;

/// The scale of a reading is exact (`clamp == 0`), or a bound on the true
/// scale that is already far beyond every limit.
pub open spec fn clamp_ok(scale: i128, clamp: i8, true_scale: int) -> bool {
    &&& -2 * EXPONENT_CAP <= scale <= 2 * EXPONENT_CAP
    &&& {
        ||| clamp == 0 && scale as int == true_scale
        ||| clamp == 1 && true_scale >= scale && scale >= 100_000_000_000_000_000_000_000_000_000int
        ||| clamp == -1 && true_scale <= scale && scale <= -100_000_000_000_000_000_000_000_000_000int
    }
}

/// How the text of a value reads as a number.
pub struct Reading {
    /// 0: not a number; 1: `inf`, `infinity` or `nan`; 3: a finite decimal.
    pub kind: u8,
    /// The significand digits of a finite decimal.
    pub digits: Vec<char>,
    /// The power of ten that scales `digits` (see `clamp`).
    pub scale: i128,
    /// Whether `scale` is exact or a bound on a huge exponent.
    pub clamp: i8,
}

/// `r` describes the text `s`.
pub open spec fn reading_ok(r: Reading, s: Seq<char>) -> bool {
    let b = unsigned_part(s);
    &&& (r.kind == 0) == !parses_as_f64(s)
    &&& (r.kind == 3) == is_finite_number(b)
    &&& r.kind == 3 ==> r.digits@ == mantissa(b) && all_digits(r.digits@) && clamp_ok(r.scale, r.clamp, number_scale(b))
}

pub fn copy_range(s: &[char], a: usize, b: usize) -> (r: Vec<char>)
    requires
        a <= b <= s@.len(),
    ensures
        r@ == s@.subrange(a as int, b as int),
{
    let mut r: Vec<char> = Vec::new();
    let mut i = a;
    while i < b
        invariant
            a <= i <= b <= s@.len(),
            r@ == s@.subrange(a as int, i as int),
        decreases b - i,
    {
        r.push(s[i]);
        i = i + 1;
        assert(r@ =~= s@.subrange(a as int, i as int));
    }
    r
}

fn run_end(b: &[char], from: usize) -> (r: usize)
    requires
        from <= b@.len(),
    ensures
        r as int == digit_end(b@, from as int),
        from <= r <= b@.len(),
        forall|k: int| from <= k < r ==> is_digit(#[trigger] b@[k]),
{
    let mut i = from;
    while i < b.len() && '0' <= b[i] && b[i] <= '9'
        invariant
            from <= i <= b@.len(),
            digit_end(b@, from as int) == digit_end(b@, i as int),
            forall|k: int| from <= k < i ==> is_digit(#[trigger] b@[k]),
        decreases b.len() - i,
    {
        i = i + 1;
    }
    i
}

/// Whether `b` spells the lower-case word `w` ignoring ASCII case.
fn word_matches(b: &[char], w: &Vec<char>) -> (r: bool)
    requires
        forall|i: int| 0 <= i < w@.len() ==> 'a' <= #[trigger] w@[i] && w@[i] <= 'z',
    ensures
        r == is_word(b@, w@),
{
    if b.len() != w.len() {
        return false;
    }
    let mut i: usize = 0;
    while i < b.len()
        invariant
            i <= b@.len(),
            b@.len() == w@.len(),
            forall|j: int| 0 <= j < w@.len() ==> 'a' <= #[trigger] w@[j] && w@[j] <= 'z',
            forall|j: int| 0 <= j < i ==> ascii_lower(#[trigger] b@[j]) == w@[j],
        decreases b.len() - i,
    {
        let c = b[i];
        let d = w[i];
        let same = (c as u32) == (d as u32) || ('A' <= c && c <= 'Z' && (c as u32) + 32 == (d as u32));
        if !same {
            return false;
        }
        i = i + 1;
    }
    true
}

/// Reads `s[from..]` as a nonempty run of digits; a value above the cap is
/// reported as the cap with the flag set.
fn digits_capped(b: &[char], from: usize) -> (r: Option<(u128, bool)>)
    requires
        from <= b@.len(),
    ensures
        r is None <==> !(from < b@.len() && all_digits(b@.subrange(from as int, b@.len() as int))),
        r matches Some((v, sat)) ==> {
            let d = digits_value(b@.subrange(from as int, b@.len() as int));
            &&& v <= EXPONENT_CAP
            &&& !sat ==> v as int == d
            &&& sat ==> v == EXPONENT_CAP && d > EXPONENT_CAP
        },
{
    let ghost body = b@.subrange(from as int, b@.len() as int);
    if from == b.len() {
        return None;
    }
    let mut acc: u128 = 0;
    let mut sat = false;
    let mut i = from;
    while i < b.len()
        invariant
            from <= i <= b@.len(),
            body == b@.subrange(from as int, b@.len() as int),
            all_digits(body.take(i - from)),
            !sat ==> acc as int == digits_value(body.take(i - from)) && acc <= EXPONENT_CAP,
            sat ==> acc == EXPONENT_CAP && digits_value(body.take(i - from)) > EXPONENT_CAP,
        decreases b.len() - i,
    {
        let c = b[i];
        if !('0' <= c && c <= '9') {
            assert(!is_digit(body[i - from]));
            return None;
        }
        let ghost pre = body.take(i - from);
        let ghost next = body.take(i - from + 1);
        assert(next.drop_last() =~= pre);
        assert(next.last() == c);
        assert forall|j: int| 0 <= j < next.len() implies is_digit(#[trigger] next[j]) by {
            if j < pre.len() {
                assert(next[j] == pre[j]);
            }
        }
        if !sat {
            let d = (c as u32 - 48) as u128;
            if acc > (EXPONENT_CAP - d) / 10 {
                assert(acc * 10 + d > EXPONENT_CAP) by (nonlinear_arith)
                    requires acc > (EXPONENT_CAP - d) / 10, d <= 9;
                sat = true;
                acc = EXPONENT_CAP;
            } else {
                assert(acc * 10 + d <= EXPONENT_CAP) by (nonlinear_arith)
                    requires acc <= (EXPONENT_CAP - d) / 10, d <= 9;
                acc = acc * 10 + d;
            }
        } else {
            assert(digits_value(next) >= digits_value(pre) * 10) by (nonlinear_arith)
                requires digits_value(next) == digits_value(pre) * 10 + ((c as nat) - 48) as nat;
        }
        i = i + 1;
    }
    assert(body.take(i - from) =~= body);
    Some((acc, sat))
}

proof fn lemma_special_not_number(b: Seq<char>)
    requires
        is_special(b),
    ensures
        !is_finite_number(b),
{
    assert(b.len() > 0);
    assert(ascii_lower(b[0]) == 'i' || ascii_lower(b[0]) == 'n');
    assert(!is_digit(b[0]) && b[0] != '.');
    assert(int_end(b) == 0);
    assert(!has_point(b));
    assert(mantissa(b) =~= Seq::<char>::empty());
}

/// Reads the text of a value the way `f64::from_str` does.
pub fn read_number(s: &[char]) -> (r: Reading)
    ensures
        reading_ok(r, s@),
{
    let sl: usize = if s.len() > 0 && (s[0] == '+' || s[0] == '-') { 1 } else { 0 };
    let b = copy_range(s, sl, s.len());
    let ghost bs = unsigned_part(s@);
    assert(b@ == bs);
    let inf = vec!['i', 'n', 'f'];
    let infinity = vec!['i', 'n', 'f', 'i', 'n', 'i', 't', 'y'];
    let nan = vec!['n', 'a', 'n'];
    assert(inf@ =~= seq!['i', 'n', 'f']);
    assert(infinity@ =~= seq!['i', 'n', 'f', 'i', 'n', 'i', 't', 'y']);
    assert(nan@ =~= seq!['n', 'a', 'n']);
    if word_matches(b.as_slice(), &inf) || word_matches(b.as_slice(), &infinity) || word_matches(b.as_slice(), &nan) {
        proof {
            lemma_special_not_number(bs);
        }
        return Reading { kind: 1, digits: Vec::new(), scale: 0, clamp: 0 };
    }
    let not_number = Reading { kind: 0, digits: Vec::new(), scale: 0, clamp: 0 };
    let n = b.len();
    let ie = run_end(b.as_slice(), 0);
    let point = ie < n && b[ie] == '.';
    let fs = if point { ie + 1 } else { ie };
    let fe = if point { run_end(b.as_slice(), fs) } else { ie };
    assert(ie as int == int_end(bs));
    assert(point == has_point(bs));
    assert(fs as int == frac_start(bs));
    assert(fe as int == frac_end(bs));
    let mut digits = copy_range(b.as_slice(), 0, ie);
    let mut frac = copy_range(b.as_slice(), fs, fe);
    digits.append(&mut frac);
    assert(digits@ =~= mantissa(bs));
    if digits.len() == 0 {
        return not_number;
    }
    assert(all_digits(digits@)) by {
        assert forall|k: int| 0 <= k < digits@.len() implies is_digit(#[trigger] digits@[k]) by {
            if k < ie {
                assert(digits@[k] == bs[k]);
            } else {
                assert(digits@[k] == bs[fs + k - ie]);
            }
        }
    }
    let frac_len = (fe - fs) as i128;
    match read_exponent(b.as_slice(), fe) {
        None => not_number,
        Some((e, clamp)) => Reading { kind: 3, digits, scale: e - frac_len, clamp },
    }
}

/// Reads the exponent part that starts at `e`; an exponent beyond the cap is
/// reported as the cap, with `clamp` giving its sign.
fn read_exponent(b: &[char], e: usize) -> (r: Option<(i128, i8)>)
    requires
        e <= b@.len(),
    ensures
        r is None <==> exponent_at(b@, e as int) is None,
        r matches Some((x, clamp)) ==> {
            let v = exponent_at(b@, e as int).unwrap();
            &&& -EXPONENT_CAP <= x <= EXPONENT_CAP
            &&& clamp == 0 ==> x as int == v
            &&& clamp == 1 ==> x == EXPONENT_CAP && v > EXPONENT_CAP
            &&& clamp == -1 ==> x == -EXPONENT_CAP && v < -EXPONENT_CAP
            &&& -1 <= clamp <= 1
        },
{
    let n = b.len();
    if e == n {
        return Some((0, 0));
    }
    if !(b[e] == 'e' || b[e] == 'E') {
        return None;
    }
    let t = e + 1;
    let neg = t < n && b[t] == '-';
    let ds = if t < n && (b[t] == '+' || b[t] == '-') { t + 1 } else { t };
    assert(b@.subrange(ds as int, n as int) =~= exponent_digits(b@, e as int));
    match digits_capped(b, ds) {
        None => None,
        Some((v, sat)) => {
            let x: i128 = if neg { -(v as i128) } else { v as i128 };
            let clamp: i8 = if sat { if neg { -1 } else { 1 } } else { 0 };
            Some((x, clamp))
        },
    }
}


// ================================================================ range checks

/// Facts about the limit constants that the comparisons rely on.
pub proof fn lemma_limit_digits(limit: &str)
    requires
        limit == LAT_LIMIT || limit == LON_LIMIT || limit == LON_EXACT_LOW || limit == DEG_LIMIT || limit == TINY_LIMIT,
    ensures
        all_digits(limit@),
        limit@.len() > 0,
        limit@[0] != '0',
        limit@.len() <= 800,
{
    reveal_strlit("9000000000000000710542735760100185871124267578125");
    reveal_strlit("1800000000000000142108547152020037174224853515625");
    reveal_strlit("1799999999999999857891452847979962825775146484375");
    reveal_strlit("359999999999999971578290569595992565155029296875");
    reveal_strlit("24703282292062327208828439643411068618252990130716238221279284125033775363510437593264991818081799618989828234772285886546332835517796989819938739800539093906315035659515570226392290858392449105184435931802849936536152500319370457678249219365623669863658480757001585769269903706311928279558551332927834338409351978015531246597263579574622766465272827220056374006485499977096599470454020828166226237857393450736339007967761930577506740176324673600968951340535537458516661134223766678604162159680461914467291840300530057530849048765391711386591646239524912623653881879636239373280423891018672348497668235089863388587925628302755995657524455507255189313690836254779186948667994968324049705821028513185451396213837722826145437693412532098591327667236328125");
}

/// Compares `digits * 10^scale` (the scale being exact or a bound, see
/// [`clamp_ok`]) with `limit * 10^(-k)`.
fn scaled_order(digits: &Vec<char>, scale: i128, clamp: i8, Ghost(true_scale): Ghost<int>, limit: &str, k: u64) -> (r: i8)
    requires
        all_digits(digits@),
        clamp_ok(scale, clamp, true_scale),
        all_digits(limit@),
        limit@.len() > 0,
        limit@[0] != '0',
        limit@.len() <= 800,
        k <= 1100,
    ensures
        r as int == scaled_sign(digits_value(digits@), true_scale, digits_value(limit@), k as nat),
{
    let lim = chars_of(limit);
    let ghost d = digits_value(digits@);
    let ghost n = digits_value(limit@);
    proof {
        lemma_value_ge_pow(limit@);
        lemma_pow10_pos((limit@.len() - 1) as nat);
        lemma_value_lt_pow(limit@);
        lemma_pow10_pos(0);
        assert(pow10(0) == 1);
    }
    if clamp == 0 {
        let z: i128 = scale + k as i128;
        if z >= 0 {
            let r = compare_padded(digits.as_slice(), z as u128, lim.as_slice(), 0);
            assert(n * pow10(0) == n);
            return r;
        } else {
            let r = compare_padded(digits.as_slice(), 0, lim.as_slice(), (-z) as u128);
            assert(d * pow10(0) == d);
            return r;
        }
    }
    let mut i: usize = 0;
    while i < digits.len()
        invariant
            i <= digits@.len(),
            forall|j: int| 0 <= j < i ==> digits@[j] == '0',
        ensures
            i <= digits@.len(),
            forall|j: int| 0 <= j < i ==> digits@[j] == '0',
            i < digits@.len() ==> digits@[i as int] != '0',
        decreases digits.len() - i,
    {
        if digits[i] != '0' {
            break;
        }
        i = i + 1;
    }
    if i == digits.len() {
        proof {
            assert(digits@ =~= zeros(digits@.len()));
            lemma_zeros_value(digits@.len());
            if true_scale + k >= 0 {
                let p = pow10((true_scale + k) as nat);
                assert(d * p == 0) by (nonlinear_arith)
                    requires d == 0;
            } else {
                let p = pow10((-(true_scale + k)) as nat);
                lemma_pow10_pos((-(true_scale + k)) as nat);
                assert(n * p >= 1) by (nonlinear_arith)
                    requires n >= 1, p >= 1;
            }
        }
        return -1;
    }
    proof {
        let xs = digits@.skip(i as int);
        assert(digits@.take(i as int) =~= zeros(i as nat));
        assert(zeros(i as nat) + xs =~= digits@);
        lemma_value_append(zeros(i as nat), xs);
        lemma_zeros_value(i as nat);
        lemma_all_digits_split(digits@, i as int);
        lemma_value_ge_pow(xs);
        lemma_pow10_pos((xs.len() - 1) as nat);
        assert(d >= 1);
        lemma_value_lt_pow(digits@);
    }
    if clamp == 1 {
        proof {
            let e = (true_scale + k) as nat;
            lemma_pow10_mono(limit@.len(), 800);
            lemma_pow10_mono(800, e);
            let p = pow10(e);
            assert(d * p >= p) by (nonlinear_arith)
                requires d >= 1;
        }
        return 1;
    }
    proof {
        let e = (-(true_scale + k)) as nat;
        let dl = digits@.len();
        assert(dl <= usize::MAX);
        lemma_pow10_mono(dl, e);
        let p = pow10(e);
        assert(n * p >= p) by (nonlinear_arith)
            requires n >= 1;
    }
    -1
}

/// Checks an `xsd:decimal` value.
pub fn validate_decimal(text: &str) -> (r: Option<(Severity, String)>)
    ensures
        finding_view(r) == spec_validate_decimal(text@),
{
    let chars = chars_of(text);
    let reading = read_number(chars.as_slice());
    if reading.kind == 0 {
        return Some((Severity::Error, concat3("'", text, "' is not a valid decimal number")));
    }
    None
}

/// Checks a latitude.
pub fn validate_latitude(text: &str) -> (r: Option<(Severity, String)>)
    ensures
        finding_view(r) == spec_validate_latitude(text@),
{
    let chars = chars_of(text);
    let reading = read_number(chars.as_slice());
    if reading.kind == 0 {
        return Some((Severity::Error, concat3("invalid latitude '", text, "' (not a number)")));
    }
    let out_of_range = Some((Severity::Error, concat3("invalid latitude '", text, "' (must be in [-90, 90])")));
    if reading.kind != 3 {
        return out_of_range;
    }
    proof {
        lemma_limit_digits(LAT_LIMIT);
    }
    let ghost b = unsigned_part(text@);
    let order = scaled_order(&reading.digits, reading.scale, reading.clamp, Ghost(number_scale(b)), LAT_LIMIT, 47);
    if order > 0 {
        return out_of_range;
    }
    None
}

/// Checks a longitude.
pub fn validate_longitude(text: &str) -> (r: Option<(Severity, String)>)
    ensures
        finding_view(r) == spec_validate_longitude(text@),
{
    let chars = chars_of(text);
    let reading = read_number(chars.as_slice());
    if reading.kind == 0 {
        return Some((Severity::Error, concat3("invalid longitude '", text, "' (not a number)")));
    }
    let out_of_range = Some((Severity::Error, concat3("invalid longitude '", text, "' (must be in [-180, 180])")));
    if reading.kind != 3 {
        return out_of_range;
    }
    proof {
        lemma_limit_digits(LON_LIMIT);
        lemma_limit_digits(LON_EXACT_LOW);
    }
    let ghost b = unsigned_part(text@);
    let order = scaled_order(&reading.digits, reading.scale, reading.clamp, Ghost(number_scale(b)), LON_LIMIT, 46);
    if order > 0 {
        return out_of_range;
    }
    let negative = chars.len() > 0 && chars[0] == '-';
    if !negative {
        let low = scaled_order(&reading.digits, reading.scale, reading.clamp, Ghost(number_scale(b)), LON_EXACT_LOW, 46);
        if low >= 0 {
            return Some((Severity::Warning, concat3("longitude ", text, " equals 180.0 (the GPX 1.1 schema upper bound is exclusive)")));
        }
    }
    None
}

/// Checks a degrees value.
pub fn validate_degrees(text: &str) -> (r: Option<(Severity, String)>)
    ensures
        finding_view(r) == spec_validate_degrees(text@),
{
    let chars = chars_of(text);
    let reading = read_number(chars.as_slice());
    if reading.kind == 0 {
        return Some((Severity::Error, concat3("invalid degrees value '", text, "' (not a number)")));
    }
    let out_of_range = Some((Severity::Error, concat3("invalid degrees value '", text, "' (must be in [0, 360))")));
    if reading.kind != 3 {
        return out_of_range;
    }
    proof {
        lemma_limit_digits(DEG_LIMIT);
        lemma_limit_digits(TINY_LIMIT);
    }
    let ghost b = unsigned_part(text@);
    let negative = chars.len() > 0 && chars[0] == '-';
    if negative {
        let order = scaled_order(&reading.digits, reading.scale, reading.clamp, Ghost(number_scale(b)), TINY_LIMIT, 1075);
        if order > 0 {
            return out_of_range;
        }
    } else {
        let order = scaled_order(&reading.digits, reading.scale, reading.clamp, Ghost(number_scale(b)), DEG_LIMIT, 45);
        if order >= 0 {
            return out_of_range;
        }
    }
    None
}

} // verus!
