//! Multi-pattern search with leftmost-first semantics, and whole-word
//! replacement on top of it.
//!
//! The search itself is done by an Aho-Corasick automaton; what it reports
//! is stated at the character level: scanning left to right, the match that
//! starts first wins, and among matches that start at the same place the
//! pattern listed first wins; the search resumes after each match.

use vstd::prelude::*;
use aho_corasick::{AhoCorasick, AhoCorasickBuilder, MatchKind};
use crate::text::{
    byte_len, byte_offset, byte_offsets, chars_of, find_offset, is_alphabetic, is_numeric,
    lemma_byte_offset_strict, push_range, unicode_alphabetic, unicode_numeric, views,
};

verus! {

#[verifier::external_type_specification]
#[verifier::external_body]
pub struct ExAhoCorasick(aho_corasick::AhoCorasick);

/// Total number of characters in a list of patterns.
pub open spec fn total_chars(ps: Seq<Seq<char>>) -> nat
    decreases ps.len(),
{
    if ps.len() == 0 {
        0
    } else {
        total_chars(ps.drop_last()) + ps.last().len()
    }
}

/// A pattern list small enough that building its automaton cannot fail:
/// `(4 * characters + 8) * (patterns + 1)` stays within two billion.
pub open spec fn small_pattern_set(ps: Seq<Seq<char>>) -> bool {
    (4 * total_chars(ps) + 8) * (ps.len() + 1) <= 2_000_000_000
}

/// Every pattern is non-empty.
pub open spec fn nonempty_patterns(ps: Seq<Seq<char>>) -> bool {
    forall|i: int| 0 <= i < ps.len() ==> (#[trigger] ps[i]).len() > 0
}

/// The first pattern (from index `i` on) that occurs in `t` at `s`.
pub open spec fn first_pattern_at(t: Seq<char>, ps: Seq<Seq<char>>, s: int, i: int) -> Option<int>
    decreases ps.len() - i,
{
    if i < 0 || i >= ps.len() {
        None
    } else if s + ps[i].len() <= t.len() && t.subrange(s, s + ps[i].len()) == ps[i] {
        Some(i)
    } else {
        first_pattern_at(t, ps, s, i + 1)
    }
}

/// The leftmost-first match at or after `p`: `(start, end, pattern)`.
pub open spec fn next_match(t: Seq<char>, ps: Seq<Seq<char>>, p: int) -> Option<(int, int, int)>
    decreases t.len() + 1 - p,
{
    if p < 0 || p > t.len() {
        None
    } else {
        match first_pattern_at(t, ps, p, 0) {
            Some(i) => Some((p, p + ps[i].len(), i)),
            None => next_match(t, ps, p + 1),
        }
    }
}

/// The non-overlapping leftmost-first matches at or after `p`, in order.
pub open spec fn matches_from(t: Seq<char>, ps: Seq<Seq<char>>, p: int) -> Seq<(int, int, int)>
    decreases t.len() + 1 - p,
{
    match next_match(t, ps, p) {
        Some(m) => if p < m.1 <= t.len() {
            seq![m] + matches_from(t, ps, m.1)
        } else {
            seq![m]
        },
        None => seq![],
    }
}

/// All matches of `ps` in `t`.
pub open spec fn all_matches(t: Seq<char>, ps: Seq<Seq<char>>) -> Seq<(int, int, int)> {
    matches_from(t, ps, 0)
}

/// `AhoCorasickBuilder::new().match_kind(MatchKind::LeftmostFirst).build(..)`.
/// Only the first stage, the non-contiguous NFA, can fail (a DFA or
/// contiguous NFA that cannot be built is skipped), and it fails only when
/// a pattern count, pattern length or table index passes `i32::MAX - 1`.
/// With `B` bytes of patterns (at most four per character) and `P`
/// patterns, the source allocates at most `B + 4` states, each holding at
/// most `P` matches and at most 257 dense transitions, so every index stays
/// below `(B + 8) * (P + 1)`; this claims success only when that product,
/// bounded through the character count, is at most two billion.  Larger
/// sets may build too; nothing is claimed of them.
#[verifier::external_body]
fn build_leftmost_first(patterns: &Vec<String>) -> (r: Option<AhoCorasick>)
    ensures
        small_pattern_set(views(patterns@)) ==> r is Some,
{
    AhoCorasickBuilder::new().match_kind(MatchKind::LeftmostFirst).build(patterns).ok()
}

/// A compiled set of patterns.
pub struct Matcher {
    patterns: Vec<String>,
    ac: AhoCorasick,
}

impl Matcher {
    /// The patterns, in priority order.
    pub closed spec fn patterns(&self) -> Seq<Seq<char>> {
        views(self.patterns@)
    }

    /// Compile `patterns`; `None` only when the automaton cannot be built.
    pub fn new(patterns: Vec<String>) -> (r: Option<Matcher>)
        ensures
            r matches Some(m) ==> m.patterns() == views(patterns@),
            small_pattern_set(views(patterns@)) ==> r is Some,
    {
        match build_leftmost_first(&patterns) {
            Some(ac) => Some(Matcher { patterns, ac }),
            None => None,
        }
    }

    /// Number of patterns.
    pub fn len(&self) -> (n: usize)
        ensures
            n == self.patterns().len(),
    {
        self.patterns.len()
    }
}

/// `AhoCorasick::find_iter` on `text`, each match as byte offsets and pattern
/// index.  The automaton of a `Matcher` is built from its own patterns with
/// leftmost-first semantics, so the matches are those of `all_matches`; the
/// patterns and the text are UTF-8 and the patterns non-empty, so every
/// match starts and ends on a character boundary.
#[verifier::external_body]
fn find_iter_bytes(m: &Matcher, text: &str) -> (r: Vec<(usize, usize, usize)>)
    requires
        nonempty_patterns(m.patterns()),
    ensures
        r@.len() == all_matches(text@, m.patterns()).len(),
        forall|j: int|
            0 <= j < r@.len() ==> {
                let x = #[trigger] all_matches(text@, m.patterns())[j];
                &&& r@[j].0 == byte_offset(text@, x.0)
                &&& r@[j].1 == byte_offset(text@, x.1)
                &&& r@[j].2 == x.2
            },
{
    m.ac.find_iter(text).map(|x| (x.start(), x.end(), x.pattern().as_usize())).collect()
}

/// Matches lie in order inside the text and do not overlap.
pub open spec fn well_placed(t: Seq<char>, ps: Seq<Seq<char>>, ms: Seq<(int, int, int)>, p: int) -> bool {
    &&& forall|j: int|
        0 <= j < ms.len() ==> {
            let m = #[trigger] ms[j];
            &&& p <= m.0 <= m.1 <= t.len()
            &&& 0 <= m.2 < ps.len()
            &&& m.1 == m.0 + ps[m.2].len()
            &&& t.subrange(m.0, m.1) == ps[m.2]
        }
    &&& forall|j: int, k: int| #![trigger ms[j], ms[k]] 0 <= j < k < ms.len() ==> ms[j].1 <= ms[k].0
}

proof fn lemma_first_pattern_at(t: Seq<char>, ps: Seq<Seq<char>>, s: int, i: int)
    requires
        0 <= i,
    ensures
        first_pattern_at(t, ps, s, i) matches Some(k) ==> i <= k < ps.len() && s + ps[k].len()
            <= t.len() && t.subrange(s, s + ps[k].len()) == ps[k],
    decreases ps.len() - i,
{
    if 0 <= i < ps.len() && !(s + ps[i].len() <= t.len() && t.subrange(s, s + ps[i].len())
        == ps[i]) {
        lemma_first_pattern_at(t, ps, s, i + 1);
    }
}

proof fn lemma_next_match(t: Seq<char>, ps: Seq<Seq<char>>, p: int)
    requires
        0 <= p,
    ensures
        next_match(t, ps, p) matches Some(m) ==> p <= m.0 <= t.len() && 0 <= m.2 < ps.len()
            && m.1 == m.0 + ps[m.2].len() && m.1 <= t.len() && t.subrange(m.0, m.1) == ps[m.2],
    decreases t.len() + 1 - p,
{
    if p <= t.len() {
        lemma_first_pattern_at(t, ps, p, 0);
        if first_pattern_at(t, ps, p, 0) is None {
            lemma_next_match(t, ps, p + 1);
        }
    }
}

pub proof fn lemma_matches_placed(t: Seq<char>, ps: Seq<Seq<char>>, p: int)
    requires
        0 <= p,
    ensures
        well_placed(t, ps, matches_from(t, ps, p), p),
    decreases t.len() + 1 - p,
{
    lemma_next_match(t, ps, p);
    let ms = matches_from(t, ps, p);
    match next_match(t, ps, p) {
        Some(m) => {
            if p < m.1 <= t.len() {
                lemma_matches_placed(t, ps, m.1);
                let rest = matches_from(t, ps, m.1);
                assert(ms == seq![m] + rest);
                assert forall|j: int| 0 <= j < ms.len() implies {
                    let x = #[trigger] ms[j];
                    &&& p <= x.0 <= x.1 <= t.len()
                    &&& 0 <= x.2 < ps.len()
                    &&& x.1 == x.0 + ps[x.2].len()
                    &&& t.subrange(x.0, x.1) == ps[x.2]
                } by {
                    if j > 0 {
                        assert(ms[j] == rest[j - 1]);
                    }
                }
                assert forall|j: int, k: int| #![trigger ms[j], ms[k]] 0 <= j < k < ms.len() implies ms[j].1
                    <= ms[k].0 by {
                    assert(ms[k] == rest[k - 1]);
                    if j > 0 {
                        assert(ms[j] == rest[j - 1]);
                    }
                }
            }
        },
        None => {},
    }
}

impl Matcher {
    /// The leftmost-first matches of the patterns in `text`, as character
    /// positions `(start, end, pattern)`.
    pub fn find_all(&self, text: &str) -> (r: Vec<(usize, usize, usize)>)
        requires
            nonempty_patterns(self.patterns()),
        ensures
            r@.len() == all_matches(text@, self.patterns()).len(),
            forall|j: int|
                0 <= j < r@.len() ==> {
                    let x = #[trigger] all_matches(text@, self.patterns())[j];
                    &&& r@[j].0 == x.0
                    &&& r@[j].1 == x.1
                    &&& r@[j].2 == x.2
                },
    {
        let bytes = text.as_bytes();
        let nb = bytes.len();
        let v = chars_of(text);
        assert(byte_len(v@) == nb);
        let off = byte_offsets(&v);
        proof {
            assert forall|j: int, k: int| 0 <= j < k < off.len() implies off@[j] < off@[k] by {
                lemma_byte_offset_strict(v@, j, k);
            }
            lemma_matches_placed(text@, self.patterns(), 0);
        }
        let raw = find_iter_bytes(self, text);
        let ghost ms = all_matches(text@, self.patterns());
        let mut out: Vec<(usize, usize, usize)> = Vec::new();
        let mut j: usize = 0;
        while j < raw.len()
            invariant
                0 <= j <= raw@.len(),
                raw@.len() == ms.len(),
                v@ == text@,
                ms == all_matches(text@, self.patterns()),
                well_placed(text@, self.patterns(), ms, 0),
                off.len() == v.len() + 1,
                forall|k: int| 0 <= k <= v.len() ==> off@[k] == byte_offset(v@, k),
                forall|a: int, b: int| 0 <= a < b < off.len() ==> off@[a] < off@[b],
                forall|k: int|
                    0 <= k < raw@.len() ==> {
                        let x = #[trigger] ms[k];
                        &&& raw@[k].0 == byte_offset(text@, x.0)
                        &&& raw@[k].1 == byte_offset(text@, x.1)
                        &&& raw@[k].2 == x.2
                    },
                out@.len() == j,
                forall|k: int|
                    0 <= k < j ==> {
                        let x = #[trigger] ms[k];
                        &&& out@[k].0 == x.0
                        &&& out@[k].1 == x.1
                        &&& out@[k].2 == x.2
                    },
            decreases raw@.len() - j,
        {
            let (bs, be, pi) = raw[j];
            let ghost x = ms[j as int];
            assert(0 <= x.0 <= x.1 <= v.len());
            assert(off@[x.0] == bs && off@[x.1] == be);
            let s = match find_offset(&off, 0, bs) {
                Some(s) => s,
                None => {
                    assert(off@[x.0] != bs);
                    return out;
                },
            };
            let e = match find_offset(&off, 0, be) {
                Some(e) => e,
                None => {
                    assert(off@[x.1] != be);
                    return out;
                },
            };
            assert(s == x.0) by {
                if (s as int) < x.0 {
                    assert(off@[s as int] < off@[x.0]);
                } else if (s as int) > x.0 {
                    assert(off@[x.0] < off@[s as int]);
                }
            }
            assert(e == x.1) by {
                if (e as int) < x.1 {
                    assert(off@[e as int] < off@[x.1]);
                } else if (e as int) > x.1 {
                    assert(off@[x.1] < off@[e as int]);
                }
            }
            out.push((s, e, pi));
            j += 1;
        }
        out
    }
}

/// The character views of a table of string literals.
pub open spec fn str_views(a: Seq<&'static str>) -> Seq<Seq<char>> {
    a.map_values(|s: &'static str| s@)
}

/// Owned copies of a table of string literals.
pub fn strings_of(a: &[&'static str]) -> (r: Vec<String>)
    ensures
        views(r@) == str_views(a@),
{
    let mut out: Vec<String> = Vec::new();
    let mut i: usize = 0;
    while i < a.len()
        invariant
            0 <= i <= a@.len(),
            views(out@) == str_views(a@).take(i as int),
        decreases a@.len() - i,
    {
        let ghost before = out@;
        let w = a[i].to_owned();
        out.push(w);
        proof {
            crate::text::lemma_views_push(before, w);
            assert(str_views(a@).take(i + 1) =~= str_views(a@).take(i as int).push(a@[i as int]@));
        }
        i += 1;
    }
    assert(str_views(a@).take(a@.len() as int) =~= str_views(a@));
    out
}

proof fn lemma_total_chars_bound(ps: Seq<Seq<char>>, m: nat)
    requires
        forall|i: int| 0 <= i < ps.len() ==> (#[trigger] ps[i]).len() <= m,
    ensures
        total_chars(ps) <= ps.len() * m,
    decreases ps.len(),
{
    if ps.len() > 0 {
        assert(forall|i: int| 0 <= i < ps.drop_last().len() ==> ps.drop_last()[i] == ps[i]);
        lemma_total_chars_bound(ps.drop_last(), m);
        assert(ps.last() == ps[ps.len() - 1]);
        assert((ps.len() - 1) * m + m == ps.len() * m) by (nonlinear_arith);
    }
}

/// A table of at most forty words of one to sixty characters is a small,
/// non-empty pattern set.
pub proof fn lemma_small_table(ps: Seq<Seq<char>>)
    requires
        ps.len() <= 40,
        forall|i: int| 0 <= i < ps.len() ==> 1 <= (#[trigger] ps[i]).len() <= 60,
    ensures
        small_pattern_set(ps),
        nonempty_patterns(ps),
{
    lemma_total_chars_bound(ps, 60);
    assert(ps.len() * 60 <= 2400) by (nonlinear_arith)
        requires
            ps.len() <= 40,
    ;
    let t = total_chars(ps);
    let n = ps.len();
    assert((4 * t + 8) * (n + 1) <= 2_000_000_000) by (nonlinear_arith)
        requires
            t <= 2400,
            n <= 40,
    ;
}

// ── whole-word replacement ───────────────────────────────────────────────────

/// A side of a match is a word boundary when the neighbouring character is
/// absent or neither alphabetic nor numeric.
pub open spec fn is_boundary(c: Option<char>) -> bool {
    match c {
        None => true,
        Some(c) => !unicode_alphabetic(c) && !unicode_numeric(c),
    }
}

pub open spec fn char_before(t: Seq<char>, s: int) -> Option<char> {
    if 0 < s <= t.len() {
        Some(t[s - 1])
    } else {
        None
    }
}

pub open spec fn char_after(t: Seq<char>, e: int) -> Option<char> {
    if 0 <= e < t.len() {
        Some(t[e])
    } else {
        None
    }
}

/// Whether match `m` is replaced: always, or only at word boundaries.
pub open spec fn accepted(t: Seq<char>, m: (int, int, int), whole: bool) -> bool {
    !whole || (is_boundary(char_before(t, m.0)) && is_boundary(char_after(t, m.1)))
}

/// Output after the first `k` matches, and where the copied text resumes.
pub open spec fn rep_state(
    t: Seq<char>,
    ms: Seq<(int, int, int)>,
    reps: Seq<Seq<char>>,
    whole: Seq<bool>,
    k: int,
) -> (Seq<char>, int)
    decreases k,
{
    if k <= 0 {
        (seq![], 0)
    } else {
        let (out, last) = rep_state(t, ms, reps, whole, k - 1);
        let m = ms[k - 1];
        if accepted(t, m, whole[m.2]) {
            (out + t.subrange(last, m.0) + reps[m.2], m.1)
        } else {
            (out, last)
        }
    }
}

/// `t` with every accepted match replaced by its pattern's replacement.
pub open spec fn replaced(
    t: Seq<char>,
    ms: Seq<(int, int, int)>,
    reps: Seq<Seq<char>>,
    whole: Seq<bool>,
) -> Seq<char> {
    let (out, last) = rep_state(t, ms, reps, whole, ms.len() as int);
    out + t.skip(last)
}

fn boundary(c: char) -> (b: bool)
    ensures
        b == is_boundary(Some(c)),
{
    !is_alphabetic(c) && !is_numeric(c)
}

proof fn lemma_rep_state_last(
    t: Seq<char>,
    ms: Seq<(int, int, int)>,
    reps: Seq<Seq<char>>,
    whole: Seq<bool>,
    k: int,
)
    requires
        0 <= k <= ms.len(),
        forall|j: int| 0 <= j < ms.len() ==> 0 <= (#[trigger] ms[j]).0 <= ms[j].1 <= t.len(),
        forall|j: int, l: int| #![trigger ms[j], ms[l]] 0 <= j < l < ms.len() ==> ms[j].1 <= ms[l].0,
    ensures
        0 <= rep_state(t, ms, reps, whole, k).1 <= t.len(),
        k < ms.len() ==> rep_state(t, ms, reps, whole, k).1 <= ms[k].0,
    decreases k,
{
    if k > 0 {
        lemma_rep_state_last(t, ms, reps, whole, k - 1);
    }
}

/// Replaces every accepted match of `m`'s patterns in `text` by the
/// replacement of its pattern; `whole[i]` asks for word boundaries around
/// matches of pattern `i`.
pub fn replace_matches(text: &str, m: &Matcher, reps: &Vec<String>, whole: &Vec<bool>) -> (r: String)
    requires
        nonempty_patterns(m.patterns()),
        reps@.len() == m.patterns().len(),
        whole@.len() == m.patterns().len(),
    ensures
        r@ == replaced(text@, all_matches(text@, m.patterns()), views(reps@), whole@),
{
    let ms = m.find_all(text);
    let v = chars_of(text);
    let ghost gms = all_matches(text@, m.patterns());
    proof {
        lemma_matches_placed(text@, m.patterns(), 0);
    }
    let mut out = String::new();
    let mut last: usize = 0;
    let mut j: usize = 0;
    while j < ms.len()
        invariant
            0 <= j <= ms@.len(),
            v@ == text@,
            gms == all_matches(text@, m.patterns()),
            well_placed(text@, m.patterns(), gms, 0),
            ms@.len() == gms.len(),
            forall|k: int|
                0 <= k < ms@.len() ==> {
                    let x = #[trigger] gms[k];
                    &&& ms@[k].0 == x.0
                    &&& ms@[k].1 == x.1
                    &&& ms@[k].2 == x.2
                },
            reps@.len() == m.patterns().len(),
            whole@.len() == m.patterns().len(),
            (out@, last as int) == rep_state(text@, gms, views(reps@), whole@, j as int),
        decreases ms@.len() - j,
    {
        proof {
            lemma_rep_state_last(text@, gms, views(reps@), whole@, j as int);
        }
        let (s, e, pi) = ms[j];
        let ghost x = gms[j as int];
        assert(x == (s as int, e as int, pi as int));
        let ok = if whole[pi] {
            let before_ok = if s > 0 {
                boundary(v[s - 1])
            } else {
                true
            };
            let after_ok = if e < v.len() {
                boundary(v[e])
            } else {
                true
            };
            before_ok && after_ok
        } else {
            true
        };
        if ok {
            push_range(&mut out, &v, last, s);
            out.append(reps[pi].as_str());
            last = e;
        }
        j += 1;
    }
    proof {
        lemma_rep_state_last(text@, gms, views(reps@), whole@, j as int);
    }
    push_range(&mut out, &v, last, v.len());
    assert(v@.subrange(last as int, v.len() as int) =~= text@.skip(last as int));
    out
}

} // verus!
