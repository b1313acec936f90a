//! Light Persian stemmer.
//!
//! Strips one suffix from a curated list (plural, possessive, verb endings,
//! comparative, superlative), trying the list in order so that longer
//! suffixes win, and never leaving a stem shorter than three characters.
//! ZWNJ is ignored.

use vstd::prelude::*;
use crate::text::{chars_of, ends_with, string_from_chars, string_from_range, ZWNJ};

verus! {

/// Suffixes, longest first within each family so the longest match wins.
pub const SUFFIXES: [&'static str; 28] = [
    "هایمان",
    "هایتان",
    "هایشان",
    "هایم",
    "هایت",
    "هایش",
    "انمان",
    "انتان",
    "انشان",
    "انم",
    "انت",
    "انش",
    "های",
    "ها",
    "مان",
    "تان",
    "شان",
    "ام",
    "ات",
    "اش",
    "ترین",
    "تر",
    "یم",
    "ید",
    "ند",
    "ست",
    "ان",
    "ای",
];

/// Minimum length of the residual stem after suffix removal.
pub const MIN_STEM_LEN: usize = 3;

/// `s` without ZWNJ.
pub open spec fn drop_zwnj(s: Seq<char>) -> Seq<char>
    decreases s.len(),
{
    if s.len() == 0 {
        seq![]
    } else if s.last() == ZWNJ {
        drop_zwnj(s.drop_last())
    } else {
        drop_zwnj(s.drop_last()).push(s.last())
    }
}

/// Whether suffix `p` may be stripped from `w`.
pub open spec fn strips(w: Seq<char>, p: Seq<char>) -> bool {
    w.len() >= p.len() + MIN_STEM_LEN && w.subrange(w.len() - p.len(), w.len() as int) == p
}

/// Index of the first suffix (from `i` on) that may be stripped from `w`.
pub open spec fn first_suffix(w: Seq<char>, i: int) -> Option<int>
    decreases SUFFIXES@.len() - i,
{
    if i < 0 || i >= SUFFIXES@.len() {
        None
    } else if strips(w, SUFFIXES[i]@) {
        Some(i)
    } else {
        first_suffix(w, i + 1)
    }
}

/// The stem of `word`.
pub open spec fn spec_stem(word: Seq<char>) -> Seq<char> {
    let w = drop_zwnj(word);
    match first_suffix(w, 0) {
        Some(i) => w.take(w.len() - SUFFIXES[i]@.len()),
        None => w,
    }
}

/// Strip the first matching Persian suffix from `word`; `word` (without
/// ZWNJ) is returned when none applies or the stem would be too short.
pub fn stem(word: &str) -> (s: String)
    ensures
        s@ == spec_stem(word@),
{
    let all = chars_of(word);
    let mut w: Vec<char> = Vec::new();
    let mut i: usize = 0;
    while i < all.len()
        invariant
            0 <= i <= all.len(),
            w@ == drop_zwnj(all@.take(i as int)),
        decreases all.len() - i,
    {
        assert(all@.take(i + 1).drop_last() =~= all@.take(i as int));
        if all[i] != ZWNJ {
            w.push(all[i]);
        }
        i += 1;
    }
    assert(all@.take(all.len() as int) =~= all@);
    let mut k: usize = 0;
    while k < 28
        invariant
            0 <= k <= 28,
            w@ == drop_zwnj(word@),
            first_suffix(w@, 0) == first_suffix(w@, k as int),
        decreases 28 - k,
    {
        let p = chars_of(SUFFIXES[k]);
        if w.len() >= MIN_STEM_LEN && w.len() - MIN_STEM_LEN >= p.len() && ends_with(&w, &p) {
            return string_from_range(&w, 0, w.len() - p.len());
        }
        k += 1;
    }
    string_from_chars(&w)
}

/// Stem each token.
pub fn stem_tokens(tokens: &[String]) -> (r: Vec<String>)
    ensures
        r@.len() == tokens@.len(),
        forall|i: int| 0 <= i < tokens@.len() ==> (#[trigger] r@[i])@ == spec_stem(tokens@[i]@),
{
    let mut out: Vec<String> = Vec::new();
    let mut i: usize = 0;
    while i < tokens.len()
        invariant
            0 <= i <= tokens@.len(),
            out@.len() == i,
            forall|j: int| 0 <= j < i ==> (#[trigger] out@[j])@ == spec_stem(tokens@[j]@),
        decreases tokens@.len() - i,
    {
        out.push(stem(tokens[i].as_str()));
        i += 1;
    }
    out
}

/// The stem is a prefix of the word without ZWNJ, at least three
/// characters long whenever a suffix was removed.
pub proof fn law_stem_is_prefix(word: Seq<char>)
    ensures
        spec_stem(word).len() <= drop_zwnj(word).len(),
        spec_stem(word) == drop_zwnj(word).take(spec_stem(word).len() as int),
        spec_stem(word) != drop_zwnj(word) ==> spec_stem(word).len() >= MIN_STEM_LEN,
{
    let w = drop_zwnj(word);
    lemma_first_suffix(w, 0);
    if first_suffix(w, 0) is None {
        assert(w.take(w.len() as int) =~= w);
    }
}

proof fn lemma_first_suffix(w: Seq<char>, i: int)
    requires
        0 <= i,
    ensures
        first_suffix(w, i) matches Some(j) ==> 0 <= j < SUFFIXES@.len() && strips(w, SUFFIXES[j]@),
    decreases SUFFIXES@.len() - i,
{
    if i < SUFFIXES@.len() && !strips(w, SUFFIXES[i]@) {
        lemma_first_suffix(w, i + 1);
    }
}


proof fn lemma_first_suffix_upto(w: Seq<char>, i: int, k: int) -> (j: int)
    requires
        0 <= i <= k < SUFFIXES@.len(),
        strips(w, SUFFIXES[k]@),
    ensures
        i <= j <= k,
        first_suffix(w, i) == Some(j),
        strips(w, SUFFIXES[j]@),
        forall|m: int| i <= m < j ==> !strips(w, #[trigger] SUFFIXES[m]@),
    decreases k - i,
{
    if strips(w, SUFFIXES[i]@) {
        i
    } else {
        lemma_first_suffix_upto(w, i + 1, k)
    }
}

/// Every listed suffix is tried, in list order: when the word (without
/// ZWNJ) ends with suffix `k` and at least `MIN_STEM_LEN` characters would
/// remain, a suffix is removed — the first one in the list, at or before
/// `k`, that ends the word and leaves enough behind.
pub proof fn law_stem_removes_listed_suffix(word: Seq<char>, k: int) -> (j: int)
    requires
        0 <= k < SUFFIXES@.len(),
        drop_zwnj(word).len() >= SUFFIXES[k]@.len() + MIN_STEM_LEN,
        drop_zwnj(word).subrange(
            drop_zwnj(word).len() - SUFFIXES[k]@.len(),
            drop_zwnj(word).len() as int,
        ) == SUFFIXES[k]@,
    ensures
        0 <= j <= k,
        drop_zwnj(word).len() >= SUFFIXES[j]@.len() + MIN_STEM_LEN,
        drop_zwnj(word).subrange(
            drop_zwnj(word).len() - SUFFIXES[j]@.len(),
            drop_zwnj(word).len() as int,
        ) == SUFFIXES[j]@,
        spec_stem(word) == drop_zwnj(word).take(drop_zwnj(word).len() - SUFFIXES[j]@.len()),
        forall|m: int|
            0 <= m < j ==> !(drop_zwnj(word).len() >= (#[trigger] SUFFIXES[m]@).len()
                + MIN_STEM_LEN && drop_zwnj(word).subrange(
                drop_zwnj(word).len() - SUFFIXES[m]@.len(),
                drop_zwnj(word).len() as int,
            ) == SUFFIXES[m]@),
{
    let w = drop_zwnj(word);
    lemma_first_suffix_upto(w, 0, k)
}
} // verus!
