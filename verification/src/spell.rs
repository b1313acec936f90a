//! Spell-checking primitives: Levenshtein distance and a dictionary-based
//! suggestion engine.

use vstd::prelude::*;
use crate::text::chars_of;

verus! {

/// Edit distance between the first `i` characters of `a` and the first `j`
/// characters of `b`: insertions, deletions and substitutions cost one.
pub open spec fn lev(a: Seq<char>, b: Seq<char>, i: int, j: int) -> int
    decreases i + j,
{
    if i <= 0 {
        if j <= 0 {
            0
        } else {
            j
        }
    } else if j <= 0 {
        i
    } else {
        let del = lev(a, b, i - 1, j) + 1;
        let ins = lev(a, b, i, j - 1) + 1;
        let sub = lev(a, b, i - 1, j - 1) + (if a[i - 1] == b[j - 1] {
            0int
        } else {
            1int
        });
        min3(del, ins, sub)
    }
}

pub open spec fn min3(x: int, y: int, z: int) -> int {
    let m = if x <= y {
        x
    } else {
        y
    };
    if m <= z {
        m
    } else {
        z
    }
}

/// The Levenshtein distance between `a` and `b`, in characters.
pub open spec fn spec_levenshtein(a: Seq<char>, b: Seq<char>) -> int {
    lev(a, b, a.len() as int, b.len() as int)
}

/// `lev` stays within `0 ..= max(i, j)`.
proof fn lemma_lev_bounds(a: Seq<char>, b: Seq<char>, i: int, j: int)
    requires
        i >= 0,
        j >= 0,
    ensures
        0 <= lev(a, b, i, j) <= (if i >= j {
            i
        } else {
            j
        }),
    decreases i + j,
{
    if i > 0 && j > 0 {
        lemma_lev_bounds(a, b, i - 1, j);
        lemma_lev_bounds(a, b, i, j - 1);
        lemma_lev_bounds(a, b, i - 1, j - 1);
    }
}

/// Compute the Levenshtein edit distance between two strings (counted in
/// Unicode scalar values), with the two-row dynamic programme.
pub fn levenshtein(a: &str, b: &str) -> (d: usize)
    ensures
        d == spec_levenshtein(a@, b@),
{
    let ac = chars_of(a);
    let bc = chars_of(b);
    let n = ac.len();
    let m = bc.len();
    if n == 0 {
        return m;
    }
    if m == 0 {
        return n;
    }
    let mut prev: Vec<u128> = Vec::new();
    prev.push(0);
    let mut j: usize = 0;
    while j < m
        invariant
            0 <= j <= m,
            m == bc.len(),
            prev.len() == j + 1,
            forall|k: int| 0 <= k <= j ==> prev@[k] == lev(ac@, bc@, 0, k),
        decreases m - j,
    {
        j += 1;
        prev.push(j as u128);
    }
    let mut i: usize = 0;
    while i < n
        invariant
            0 <= i <= n,
            n == ac.len(),
            m == bc.len(),
            m >= 1,
            prev.len() == m + 1,
            forall|k: int| 0 <= k <= m ==> prev@[k] == lev(ac@, bc@, i as int, k),
        decreases n - i,
    {
        i += 1;
        let mut curr: Vec<u128> = Vec::new();
        curr.push(i as u128);
        let mut j: usize = 0;
        while j < m
            invariant
                1 <= i <= n,
                0 <= j <= m,
                n == ac.len(),
                m == bc.len(),
                prev.len() == m + 1,
                curr.len() == j + 1,
                forall|k: int| 0 <= k <= m ==> prev@[k] == lev(ac@, bc@, i - 1, k),
                forall|k: int| 0 <= k <= j ==> curr@[k] == lev(ac@, bc@, i as int, k),
            decreases m - j,
        {
            j += 1;
            proof {
                lemma_lev_bounds(ac@, bc@, i - 1, j as int);
                lemma_lev_bounds(ac@, bc@, i as int, j - 1);
                lemma_lev_bounds(ac@, bc@, i - 1, j - 1);
            }
            let cost: u128 = if ac[i - 1] == bc[j - 1] {
                0
            } else {
                1
            };
            let del = prev[j] + 1;
            let ins = curr[j - 1] + 1;
            let sub = prev[j - 1] + cost;
            let mut best = if del <= ins {
                del
            } else {
                ins
            };
            if sub < best {
                best = sub;
            }
            curr.push(best);
        }
        prev = curr;
    }
    proof {
        lemma_lev_bounds(ac@, bc@, n as int, m as int);
    }
    prev[m] as usize
}

/// The dictionary words at distance exactly `k` from `word`, in order.
pub open spec fn at_dist<'a>(word: Seq<char>, dict: Seq<&'a str>, k: int) -> Seq<&'a str>
    decreases dict.len(),
{
    if dict.len() == 0 {
        seq![]
    } else {
        let rest = at_dist(word, dict.drop_last(), k);
        if spec_levenshtein(word, dict.last()@) == k {
            rest.push(dict.last())
        } else {
            rest
        }
    }
}

/// The dictionary words within `k` edits, closest first, ties in
/// dictionary order.
pub open spec fn ordered_upto<'a>(word: Seq<char>, dict: Seq<&'a str>, k: int) -> Seq<&'a str>
    decreases k + 1,
{
    if k < 0 {
        seq![]
    } else {
        ordered_upto(word, dict, k - 1) + at_dist(word, dict, k)
    }
}

/// The suggestions for `word`: dictionary words within `max_distance`
/// edits, sorted by ascending distance (a stable sort).
pub open spec fn spec_suggest<'a>(word: Seq<char>, dict: Seq<&'a str>, max_distance: int) -> Seq<
    &'a str,
> {
    ordered_upto(word, dict, max_distance)
}

/// No word is further than `top` (its maximum distance) from `word`.
proof fn lemma_at_dist_empty<'a>(word: Seq<char>, dict: Seq<&'a str>, k: int)
    requires
        forall|i: int| 0 <= i < dict.len() ==> spec_levenshtein(word, #[trigger] dict[i]@) != k,
    ensures
        at_dist(word, dict, k) == Seq::<&'a str>::empty(),
    decreases dict.len(),
{
    if dict.len() > 0 {
        assert(forall|i: int| 0 <= i < dict.drop_last().len() ==> dict.drop_last()[i] == dict[i]);
        lemma_at_dist_empty(word, dict.drop_last(), k);
        assert(dict.last() == dict[dict.len() - 1]);
    }
}

proof fn lemma_ordered_beyond<'a>(word: Seq<char>, dict: Seq<&'a str>, top: int, k: int)
    requires
        top <= k,
        forall|i: int|
            0 <= i < dict.len() ==> spec_levenshtein(word, #[trigger] dict[i]@) <= top,
    ensures
        ordered_upto(word, dict, k) == ordered_upto(word, dict, top),
    decreases k - top,
{
    if k > top {
        lemma_ordered_beyond(word, dict, top, k - 1);
        lemma_at_dist_empty(word, dict, k);
        assert(ordered_upto(word, dict, k - 1) + Seq::<&'a str>::empty() =~= ordered_upto(
            word,
            dict,
            k - 1,
        ));
    }
}

/// Suggest the dictionary words within `max_distance` edits of `word`,
/// sorted by ascending distance (closest first; ties keep dictionary order).
pub fn suggest<'a>(word: &str, dict: &[&'a str], max_distance: usize) -> (r: Vec<&'a str>)
    ensures
        r@ == spec_suggest(word@, dict@, max_distance as int),
{
    let mut dists: Vec<usize> = Vec::new();
    let mut top: usize = 0;
    let mut i: usize = 0;
    while i < dict.len()
        invariant
            0 <= i <= dict@.len(),
            dists.len() == i,
            forall|k: int| 0 <= k < i ==> dists@[k] == spec_levenshtein(word@, #[trigger] dict@[k]@),
            top <= max_distance,
            forall|k: int|
                0 <= k < i ==> spec_levenshtein(word@, #[trigger] dict@[k]@) <= max_distance
                    ==> spec_levenshtein(word@, dict@[k]@) <= top,
        decreases dict@.len() - i,
    {
        let d = levenshtein(word, dict[i]);
        dists.push(d);
        if d <= max_distance && d > top {
            top = d;
        }
        i += 1;
    }
    let mut out: Vec<&'a str> = Vec::new();
    let mut k: usize = 0;
    loop
        invariant_except_break
            0 <= k <= top,
            top <= max_distance,
            dists.len() == dict@.len(),
            forall|x: int| 0 <= x < dict@.len() ==> dists@[x] == spec_levenshtein(word@, #[trigger] dict@[x]@),
            out@ == ordered_upto(word@, dict@, k - 1),
        ensures
            out@ == ordered_upto(word@, dict@, top as int),
        decreases top - k,
    {
        let mut x: usize = 0;
        let ghost base = out@;
        while x < dict.len()
            invariant
                0 <= x <= dict@.len(),
                dists.len() == dict@.len(),
                forall|y: int| 0 <= y < dict@.len() ==> dists@[y] == spec_levenshtein(word@, #[trigger] dict@[y]@),
                out@ == base + at_dist(word@, dict@.take(x as int), k as int),
            decreases dict@.len() - x,
        {
            assert(dict@.take(x + 1).drop_last() =~= dict@.take(x as int));
            assert(dict@.take(x + 1).last() == dict@[x as int]);
            if dists[x] == k {
                out.push(dict[x]);
            }
            x += 1;
        }
        assert(dict@.take(dict@.len() as int) =~= dict@);
        if k == top {
            break;
        }
        k += 1;
    }
    proof {
        let w = word@;
        let dv = dict@;
        assert forall|y: int| 0 <= y < dv.len() implies spec_levenshtein(w, #[trigger] dv[y]@)
            <= max_distance ==> spec_levenshtein(w, dv[y]@) <= top by {}
        // Distances between `top` and `max_distance` hold no word.
        assert forall|kk: int| top < kk <= max_distance implies at_dist(w, dv, kk) == Seq::<
            &'a str,
        >::empty() by {
            lemma_at_dist_empty(w, dv, kk);
        }
        lemma_ordered_gap(w, dv, top as int, max_distance as int);
    }
    out
}

proof fn lemma_ordered_gap<'a>(word: Seq<char>, dict: Seq<&'a str>, top: int, k: int)
    requires
        top <= k,
        forall|kk: int| top < kk <= k ==> at_dist(word, dict, kk) == Seq::<&'a str>::empty(),
    ensures
        ordered_upto(word, dict, k) == ordered_upto(word, dict, top),
    decreases k - top,
{
    if k > top {
        lemma_ordered_gap(word, dict, top, k - 1);
        assert(ordered_upto(word, dict, k - 1) + at_dist(word, dict, k) =~= ordered_upto(
            word,
            dict,
            k - 1,
        ));
    }
}

proof fn lemma_lev_self(a: Seq<char>, i: int)
    requires
        0 <= i <= a.len(),
    ensures
        lev(a, a, i, i) == 0,
    decreases i,
{
    if i > 0 {
        lemma_lev_self(a, i - 1);
        lemma_lev_bounds(a, a, i - 1, i);
        lemma_lev_bounds(a, a, i, i - 1);
    }
}

/// A word is at distance zero from itself.
pub proof fn law_levenshtein_identity(a: Seq<char>)
    ensures
        spec_levenshtein(a, a) == 0,
{
    lemma_lev_self(a, a.len() as int);
}

proof fn lemma_lev_sym(a: Seq<char>, b: Seq<char>, i: int, j: int)
    ensures
        lev(a, b, i, j) == lev(b, a, j, i),
    decreases i + j,
{
    if i > 0 && j > 0 {
        lemma_lev_sym(a, b, i - 1, j);
        lemma_lev_sym(a, b, i, j - 1);
        lemma_lev_sym(a, b, i - 1, j - 1);
    }
}

/// The distance does not depend on the order of its arguments.
pub proof fn law_levenshtein_symmetric(a: Seq<char>, b: Seq<char>)
    ensures
        spec_levenshtein(a, b) == spec_levenshtein(b, a),
{
    lemma_lev_sym(a, b, a.len() as int, b.len() as int);
}

proof fn lemma_at_dist_exact<'a>(word: Seq<char>, dict: Seq<&'a str>, k: int)
    ensures
        forall|i: int|
            0 <= i < at_dist(word, dict, k).len() ==> spec_levenshtein(
                word,
                (#[trigger] at_dist(word, dict, k)[i])@,
            ) == k && dict.contains(at_dist(word, dict, k)[i]),
    decreases dict.len(),
{
    if dict.len() > 0 {
        lemma_at_dist_exact(word, dict.drop_last(), k);
        let rest = at_dist(word, dict.drop_last(), k);
        assert forall|i: int| 0 <= i < at_dist(word, dict, k).len() implies spec_levenshtein(
            word,
            (#[trigger] at_dist(word, dict, k)[i])@,
        ) == k && dict.contains(at_dist(word, dict, k)[i]) by {
            if i < rest.len() {
                assert(at_dist(word, dict, k)[i] == rest[i]);
                let j = choose|j: int| 0 <= j < dict.drop_last().len() && dict.drop_last()[j] == rest[i];
                assert(dict[j] == rest[i]);
            } else {
                assert(dict[dict.len() - 1] == dict.last());
            }
        }
    }
}

proof fn lemma_ordered_sorted<'a>(word: Seq<char>, dict: Seq<&'a str>, k: int)
    ensures
        forall|i: int|
            0 <= i < ordered_upto(word, dict, k).len() ==> 0 <= spec_levenshtein(
                word,
                (#[trigger] ordered_upto(word, dict, k)[i])@,
            ) <= k && dict.contains(ordered_upto(word, dict, k)[i]),
        forall|i: int, j: int|
            0 <= i < j < ordered_upto(word, dict, k).len() ==> spec_levenshtein(
                word,
                (#[trigger] ordered_upto(word, dict, k)[i])@,
            ) <= spec_levenshtein(word, (#[trigger] ordered_upto(word, dict, k)[j])@),
    decreases k + 1,
{
    if k >= 0 {
        lemma_ordered_sorted(word, dict, k - 1);
        lemma_at_dist_exact(word, dict, k);
        let p = ordered_upto(word, dict, k - 1);
        let q = at_dist(word, dict, k);
        let o = ordered_upto(word, dict, k);
        assert(o == p + q);
        assert forall|i: int| 0 <= i < o.len() implies 0 <= spec_levenshtein(
            word,
            (#[trigger] o[i])@,
        ) <= k && dict.contains(o[i]) by {
            if i < p.len() {
                assert(o[i] == p[i]);
            } else {
                assert(o[i] == q[i - p.len()]);
                lemma_lev_bounds(word, q[i - p.len()]@, word.len() as int, q[i - p.len()]@.len() as int);
            }
        }
        assert forall|i: int, j: int| 0 <= i < j < o.len() implies spec_levenshtein(
            word,
            (#[trigger] o[i])@,
        ) <= spec_levenshtein(word, (#[trigger] o[j])@) by {
            if j < p.len() {
                assert(o[i] == p[i] && o[j] == p[j]);
            } else if i < p.len() {
                assert(o[i] == p[i] && o[j] == q[j - p.len()]);
            } else {
                assert(o[i] == q[i - p.len()] && o[j] == q[j - p.len()]);
            }
        }
    }
}

/// Suggestions are dictionary words within the allowed distance, closest
/// first.
pub proof fn law_suggestions_sorted<'a>(word: Seq<char>, dict: Seq<&'a str>, max_distance: int)
    ensures
        forall|i: int|
            0 <= i < spec_suggest(word, dict, max_distance).len() ==> spec_levenshtein(
                word,
                (#[trigger] spec_suggest(word, dict, max_distance)[i])@,
            ) <= max_distance && dict.contains(spec_suggest(word, dict, max_distance)[i]),
        forall|i: int, j: int|
            0 <= i < j < spec_suggest(word, dict, max_distance).len() ==> spec_levenshtein(
                word,
                (#[trigger] spec_suggest(word, dict, max_distance)[i])@,
            ) <= spec_levenshtein(word, (#[trigger] spec_suggest(word, dict, max_distance)[j])@),
{
    lemma_ordered_sorted(word, dict, max_distance);
}

/// A small list of high-frequency Persian words for [`suggest_builtin`].
pub const BUILTIN_DICT: [&'static str; 40] = [
    "سلام",
    "خدا",
    "حافظ",
    "ممنون",
    "مرسی",
    "لطفا",
    "بله",
    "نه",
    "خوب",
    "بد",
    "کتاب",
    "مدرسه",
    "دانشگاه",
    "خانه",
    "شهر",
    "کشور",
    "ایران",
    "تهران",
    "زبان",
    "فارسی",
    "دوست",
    "خانواده",
    "پدر",
    "مادر",
    "برادر",
    "خواهر",
    "روز",
    "شب",
    "سال",
    "ماه",
    "هفته",
    "امروز",
    "فردا",
    "دیروز",
    "کار",
    "آب",
    "نان",
    "غذا",
    "سفر",
    "زندگی",
];

/// Suggest from the bundled high-frequency Persian word list.
pub fn suggest_builtin(word: &str, max_distance: usize) -> (r: Vec<&'static str>)
    ensures
        r@ == spec_suggest(word@, BUILTIN_DICT@, max_distance as int),
{
    suggest(word, &BUILTIN_DICT, max_distance)
}


/// `lev` is at least the difference of the two lengths.
proof fn lemma_lev_lower(a: Seq<char>, b: Seq<char>, i: int, j: int)
    requires
        i >= 0,
        j >= 0,
    ensures
        lev(a, b, i, j) >= i - j,
        lev(a, b, i, j) >= j - i,
    decreases i + j,
{
    if i > 0 && j > 0 {
        lemma_lev_lower(a, b, i - 1, j);
        lemma_lev_lower(a, b, i, j - 1);
        lemma_lev_lower(a, b, i - 1, j - 1);
    }
}

/// The distance lies between the difference of the lengths and the longer
/// length (lengths in characters).
pub proof fn law_levenshtein_length_bounds(a: Seq<char>, b: Seq<char>)
    ensures
        spec_levenshtein(a, b) >= a.len() - b.len(),
        spec_levenshtein(a, b) >= b.len() - a.len(),
        spec_levenshtein(a, b) <= (if a.len() >= b.len() {
            a.len()
        } else {
            b.len()
        }),
{
    lemma_lev_lower(a, b, a.len() as int, b.len() as int);
    lemma_lev_bounds(a, b, a.len() as int, b.len() as int);
}

proof fn lemma_lev_zero(a: Seq<char>, b: Seq<char>, i: int)
    requires
        0 <= i <= a.len(),
        i <= b.len(),
        lev(a, b, i, i) == 0,
    ensures
        a.take(i) == b.take(i),
    decreases i,
{
    if i > 0 {
        lemma_lev_lower(a, b, i - 1, i);
        lemma_lev_lower(a, b, i, i - 1);
        lemma_lev_bounds(a, b, i - 1, i - 1);
        lemma_lev_zero(a, b, i - 1);
        assert(a.take(i) =~= a.take(i - 1).push(a[i - 1]));
        assert(b.take(i) =~= b.take(i - 1).push(b[i - 1]));
    }
}

/// Only equal words are at distance zero.
pub proof fn law_levenshtein_zero_iff_equal(a: Seq<char>, b: Seq<char>)
    ensures
        spec_levenshtein(a, b) == 0 <==> a == b,
{
    lemma_lev_self(a, a.len() as int);
    if spec_levenshtein(a, b) == 0 {
        lemma_lev_lower(a, b, a.len() as int, b.len() as int);
        lemma_lev_zero(a, b, a.len() as int);
        assert(a.take(a.len() as int) =~= a);
        assert(b.take(b.len() as int) =~= b);
    }
}

proof fn lemma_lev_triangle(a: Seq<char>, b: Seq<char>, c: Seq<char>, i: int, j: int, k: int)
    requires
        i >= 0,
        j >= 0,
        k >= 0,
    ensures
        lev(a, b, i, j) <= lev(a, c, i, k) + lev(c, b, k, j),
    decreases i + j + k,
{
    if k == 0 {
        lemma_lev_bounds(a, b, i, j);
    } else if i == 0 {
        lemma_lev_lower(c, b, k, j);
    } else if j == 0 {
        lemma_lev_lower(a, c, i, k);
    } else {
        lemma_lev_triangle(a, b, c, i - 1, j, k);
        lemma_lev_triangle(a, b, c, i, j - 1, k);
        lemma_lev_triangle(a, b, c, i, j, k - 1);
        lemma_lev_triangle(a, b, c, i, j - 1, k - 1);
        lemma_lev_triangle(a, b, c, i - 1, j, k - 1);
        lemma_lev_triangle(a, b, c, i - 1, j - 1, k - 1);
    }
}

/// The triangle inequality: going through a third word is never shorter.
pub proof fn law_levenshtein_triangle(a: Seq<char>, b: Seq<char>, c: Seq<char>)
    ensures
        spec_levenshtein(a, b) <= spec_levenshtein(a, c) + spec_levenshtein(c, b),
{
    lemma_lev_triangle(a, b, c, a.len() as int, b.len() as int, c.len() as int);
}
} // verus!
