//! "Did you mean" hints for unknown element names.

use vstd::prelude::*;
use vstd::string::*;
use crate::text::{chars_of, concat3};

verus! {

/// The smaller of two numbers.
pub open spec fn min_nat(x: nat, y: nat) -> nat {
    if x <= y { x } else { y }
}

/// The Levenshtein distance: the fewest single-character insertions,
/// deletions and substitutions that turn `a` into `b`.
pub open spec fn edit_distance(a: Seq<char>, b: Seq<char>) -> nat
    decreases a.len() + b.len(),
{
    if a.len() == 0 {
        b.len()
    } else if b.len() == 0 {
        a.len()
    } else {
        let cost: nat = if a.last() == b.last() { 0 } else { 1 };
        min_nat(
            min_nat(edit_distance(a.drop_last(), b) + 1, edit_distance(a, b.drop_last()) + 1),
            edit_distance(a.drop_last(), b.drop_last()) + cost,
        )
    }
}

/// The distance never exceeds the longer length.
pub proof fn lemma_edit_distance_bound(a: Seq<char>, b: Seq<char>)
    ensures
        edit_distance(a, b) <= if a.len() >= b.len() { a.len() } else { b.len() },
    decreases a.len() + b.len(),
{
    if a.len() > 0 && b.len() > 0 {
        lemma_edit_distance_bound(a.drop_last(), b.drop_last());
    }
}

/// The distance is at least the difference of the lengths.
pub proof fn lemma_edit_distance_length_gap(a: Seq<char>, b: Seq<char>)
    ensures
        a.len() <= edit_distance(a, b) + b.len(),
        b.len() <= edit_distance(a, b) + a.len(),
    decreases a.len() + b.len(),
{
    if a.len() > 0 && b.len() > 0 {
        lemma_edit_distance_length_gap(a.drop_last(), b);
        lemma_edit_distance_length_gap(a, b.drop_last());
        lemma_edit_distance_length_gap(a.drop_last(), b.drop_last());
    }
}

/// The distance from `a` to `b` is the distance from `b` to `a`.
pub proof fn lemma_edit_distance_symmetric(a: Seq<char>, b: Seq<char>)
    ensures
        edit_distance(a, b) == edit_distance(b, a),
    decreases a.len() + b.len(),
{
    if a.len() > 0 && b.len() > 0 {
        lemma_edit_distance_symmetric(a.drop_last(), b);
        lemma_edit_distance_symmetric(a, b.drop_last());
        lemma_edit_distance_symmetric(a.drop_last(), b.drop_last());
    }
}

/// The distance is zero exactly between equal texts.
pub proof fn lemma_edit_distance_zero(a: Seq<char>, b: Seq<char>)
    ensures
        (edit_distance(a, b) == 0) <==> (a == b),
    decreases a.len() + b.len(),
{
    if a.len() > 0 && b.len() > 0 {
        lemma_edit_distance_zero(a.drop_last(), b.drop_last());
        if a == b {
            assert(a.drop_last() == b.drop_last());
        }
        if edit_distance(a, b) == 0 {
            assert(a.drop_last() == b.drop_last());
            assert(a.last() == b.last());
            assert(a =~= a.drop_last().push(a.last()));
            assert(b =~= b.drop_last().push(b.last()));
        }
    } else if a.len() == 0 && b.len() == 0 {
        assert(a =~= b);
    } else if a == b {
        assert(a.len() == b.len());
    }
}

/// The triangle law: going from `a` to `c` takes no more edits than going
/// from `a` to `b` and then from `b` to `c`.
pub proof fn lemma_edit_distance_triangle(a: Seq<char>, b: Seq<char>, c: Seq<char>)
    ensures
        edit_distance(a, c) <= edit_distance(a, b) + edit_distance(b, c),
    decreases a.len() + b.len() + c.len(),
{
    if a.len() == 0 {
        lemma_edit_distance_length_gap(b, c);
    } else if c.len() == 0 {
        lemma_edit_distance_length_gap(a, b);
    } else if b.len() == 0 {
        lemma_edit_distance_bound(a, c);
    } else {
        let a1 = a.drop_last();
        let b1 = b.drop_last();
        let c1 = c.drop_last();
        lemma_edit_distance_triangle(a1, b, c);
        lemma_edit_distance_triangle(a, b1, c);
        lemma_edit_distance_triangle(a, b, c1);
        lemma_edit_distance_triangle(a, b1, c1);
        lemma_edit_distance_triangle(a1, b1, c);
        lemma_edit_distance_triangle(a1, b1, c1);
    }
}

/// The Levenshtein distance between two strings, counted in characters.
pub fn levenshtein(a: &str, b: &str) -> (r: usize)
    ensures
        r == edit_distance(a@, b@),
{
    let a_chars = chars_of(a);
    let b_chars = chars_of(b);
    let n = a_chars.len();
    let m = b_chars.len();
    let ghost sa = a@;
    let ghost sb = b@;
    let mut prev: Vec<u128> = Vec::new();
    assert(sa.take(0).len() == 0 && sb.take(0).len() == 0);
    prev.push(0);
    let mut j: usize = 0;
    while j < m
        invariant
            j <= m,
            m == sb.len(),
            b_chars@ == sb,
            prev@.len() == j + 1,
            forall|k: int| 0 <= k <= j ==> #[trigger] prev@[k] == edit_distance(sa.take(0), sb.take(k)),
        decreases m - j,
    {
        proof {
            assert(sa.take(0).len() == 0);
        }
        prev.push((j + 1) as u128);
        j = j + 1;
    }
    let mut i: usize = 0;
    while i < n
        invariant
            i <= n,
            n == sa.len(),
            m == sb.len(),
            a_chars@ == sa,
            b_chars@ == sb,
            prev@.len() == m + 1,
            forall|k: int| 0 <= k <= m ==> #[trigger] prev@[k] == edit_distance(sa.take(i as int), sb.take(k)),
        decreases n - i,
    {
        let ghost ai = sa.take(i as int);
        let ghost ai1 = sa.take(i + 1);
        assert(ai1.drop_last() =~= ai);
        let mut curr: Vec<u128> = Vec::new();
        curr.push((i + 1) as u128);
        assert(sb.take(0).len() == 0);
        let mut j: usize = 0;
        while j < m
            invariant
                i < n,
                j <= m,
                n == sa.len(),
                m == sb.len(),
                a_chars@ == sa,
                b_chars@ == sb,
                ai == sa.take(i as int),
                ai1 == sa.take(i + 1),
                ai1.drop_last() == ai,
                prev@.len() == m + 1,
                forall|k: int| 0 <= k <= m ==> #[trigger] prev@[k] == edit_distance(ai, sb.take(k)),
                curr@.len() == j + 1,
                forall|k: int| 0 <= k <= j ==> #[trigger] curr@[k] == edit_distance(ai1, sb.take(k)),
            decreases m - j,
        {
            let ghost bj = sb.take(j as int);
            let ghost bj1 = sb.take(j + 1);
            assert(bj1.drop_last() =~= bj);
            proof {
                lemma_edit_distance_bound(ai, bj1);
                lemma_edit_distance_bound(ai1, bj);
                lemma_edit_distance_bound(ai, bj);
            }
            let cost: u128 = if a_chars[i] == b_chars[j] { 0 } else { 1 };
            let x = prev[j + 1] + 1;
            let y = curr[j] + 1;
            let z = prev[j] + cost;
            let xy = if x <= y { x } else { y };
            let v = if xy <= z { xy } else { z };
            assert(ai1.last() == a_chars@[i as int]);
            assert(bj1.last() == b_chars@[j as int]);
            assert(v == edit_distance(ai1, bj1));
            curr.push(v);
            j = j + 1;
        }
        prev = curr;
        i = i + 1;
    }
    assert(sa.take(n as int) =~= sa);
    assert(sb.take(m as int) =~= sb);
    proof {
        lemma_edit_distance_bound(sa, sb);
    }
    prev[m] as usize
}

/// Whether `c` is close enough to `u` to be suggested: one or two edits away.
pub open spec fn is_candidate(u: Seq<char>, c: Seq<char>) -> bool {
    0 < edit_distance(u, c) && edit_distance(u, c) <= 2
}

/// `k` is the first candidate at the smallest distance.
pub open spec fn is_best_candidate(u: Seq<char>, allowed: Seq<Seq<char>>, k: int) -> bool {
    &&& 0 <= k < allowed.len()
    &&& is_candidate(u, allowed[k])
    &&& forall|j: int| 0 <= j < allowed.len() && is_candidate(u, #[trigger] allowed[j])
        ==> edit_distance(u, allowed[k]) <= edit_distance(u, allowed[j])
    &&& forall|j: int| 0 <= j < k && is_candidate(u, #[trigger] allowed[j])
        ==> edit_distance(u, allowed[k]) < edit_distance(u, allowed[j])
}

/// The suggestion for `u` among `allowed`, if any name is one or two edits away.
pub open spec fn spec_suggestion(u: Seq<char>, allowed: Seq<Seq<char>>) -> Option<Seq<char>> {
    if exists|k: int| is_best_candidate(u, allowed, k) {
        Some(allowed[choose|k: int| is_best_candidate(u, allowed, k)])
    } else {
        None
    }
}

/// At most one index is the best candidate.
pub proof fn lemma_best_unique(u: Seq<char>, allowed: Seq<Seq<char>>, k1: int, k2: int)
    requires
        is_best_candidate(u, allowed, k1),
        is_best_candidate(u, allowed, k2),
    ensures
        k1 == k2,
{
    if k1 < k2 {
        assert(is_candidate(u, allowed[k1]));
    } else if k2 < k1 {
        assert(is_candidate(u, allowed[k2]));
    }
}

/// The names of a list of string slices.
pub open spec fn names_of(allowed: Seq<&str>) -> Seq<Seq<char>> {
    allowed.map_values(|s: &str| s@)
}

/// The allowed name that is closest to `unknown` (first of the closest), if
/// one is one or two edits away.
pub fn suggest_similar(unknown: &str, allowed: &[&'static str]) -> (r: Option<&'static str>)
    ensures
        r matches Some(s) ==> spec_suggestion(unknown@, names_of(allowed@)) == Some(s@),
        r is None ==> spec_suggestion(unknown@, names_of(allowed@)) is None,
{
    let ghost u = unknown@;
    let ghost names = names_of(allowed@);
    let mut best: Option<usize> = None;
    let mut best_d: usize = 0;
    let mut i: usize = 0;
    while i < allowed.len()
        invariant
            i <= allowed@.len(),
            u == unknown@,
            names == names_of(allowed@),
            names.len() == allowed@.len(),
            best is None ==> forall|j: int| 0 <= j < i ==> !is_candidate(u, #[trigger] names[j]),
            best matches Some(k) ==> {
                &&& k < i
                &&& is_candidate(u, names[k as int])
                &&& best_d == edit_distance(u, names[k as int])
                &&& forall|j: int| 0 <= j < i && is_candidate(u, #[trigger] names[j]) ==> best_d <= edit_distance(u, names[j])
                &&& forall|j: int| 0 <= j < k && is_candidate(u, #[trigger] names[j]) ==> best_d < edit_distance(u, names[j])
            },
        decreases allowed.len() - i,
    {
        let d = levenshtein(unknown, allowed[i]);
        assert(names[i as int] == allowed@[i as int]@);
        if d > 0 && d <= 2 {
            match best {
                None => {
                    best = Some(i);
                    best_d = d;
                },
                Some(_) => {
                    if d < best_d {
                        best = Some(i);
                        best_d = d;
                    }
                },
            }
        }
        i = i + 1;
    }
    match best {
        None => {
            proof {
                if exists|k: int| is_best_candidate(u, names, k) {
                    let k = choose|k: int| is_best_candidate(u, names, k);
                    assert(is_candidate(u, names[k]));
                }
            }
            None
        },
        Some(k) => {
            proof {
                assert(is_best_candidate(u, names, k as int));
                let c = choose|k: int| is_best_candidate(u, names, k);
                lemma_best_unique(u, names, k as int, c);
            }
            Some(allowed[k])
        },
    }
}

/// The message for an element that the schema does not allow here.
pub open spec fn unknown_message(local: Seq<char>, allowed: Seq<Seq<char>>) -> Seq<char> {
    match spec_suggestion(local, allowed) {
        Some(s) => "unknown element <"@ + local + "> (did you mean <"@ + s + ">?)"@,
        None => "unknown element <"@ + local + ">"@,
    }
}

/// The message for an element that the schema does not allow here, with a
/// suggestion when a close name exists.
pub fn unknown_element_message(local: &str, allowed_tags: &[&'static str]) -> (r: String)
    ensures
        r@ == unknown_message(local@, names_of(allowed_tags@)),
{
    match suggest_similar(local, allowed_tags) {
        Some(s) => {
            let mut m = concat3("unknown element <", local, "> (did you mean <");
            m.append(s);
            m.append(">?)");
            m
        },
        None => concat3("unknown element <", local, ">"),
    }
}

} // verus!
