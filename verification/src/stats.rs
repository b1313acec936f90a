//! Text statistics for Persian documents.

use vstd::prelude::*;
use crate::sentence::{spec_split_sentences, split_sentences};
use crate::text::{
    chars_of, count_chars, is_alphabetic, is_ascii_alphabetic, is_numeric, is_whitespace,
    lemma_count_chars_le, lemma_count_chars_step, spec_is_ascii_alphabetic, spec_is_whitespace,
    unicode_alphabetic, unicode_numeric, views,
};
use crate::tokenizer::{spec_tokenize, tokenize};

verus! {

/// Per-document text statistics.
///
/// All counts are computed on the text as given (the engine passes the
/// normalised form).  The share of letters that are Persian/Arabic is
/// `persian_letter_count / letter_count` (zero when there are no letters).
#[derive(Debug, Clone, Copy, PartialEq, Eq, Structural)]
pub struct TextStats {
    /// Total number of Unicode scalar values (characters).
    pub char_count: usize,
    /// Total number of UTF-8 bytes.
    pub byte_count: usize,
    /// Number of whitespace characters.
    pub space_count: usize,
    /// Number of Unicode alphabetic characters (any script).
    pub letter_count: usize,
    /// Number of letters in the Arabic/Persian Unicode block (U+0600–U+06FF).
    pub persian_letter_count: usize,
    /// Number of ASCII alphabetic characters.
    pub latin_letter_count: usize,
    /// Number of Unicode numeric characters (any script) that are not letters.
    pub digit_count: usize,
    /// Number of tokens that hold at least one letter or digit.
    pub word_count: usize,
    /// Number of sentences.
    pub sentence_count: usize,
    /// Number of distinct tokens (case-sensitive).
    pub unique_token_count: usize,
}

/// The Arabic Unicode block, U+0600–U+06FF.
pub open spec fn in_arabic_block(c: char) -> bool {
    0x0600 <= (c as u32) <= 0x06FF
}

/// A letter: alphabetic and not whitespace.
pub open spec fn is_letter(c: char) -> bool {
    !spec_is_whitespace(c) && unicode_alphabetic(c)
}

/// A letter of the Arabic block.
pub open spec fn is_persian_letter(c: char) -> bool {
    is_letter(c) && in_arabic_block(c)
}

/// An ASCII letter.
pub open spec fn is_latin_letter(c: char) -> bool {
    is_letter(c) && !in_arabic_block(c) && spec_is_ascii_alphabetic(c)
}

/// A numeric character that is neither whitespace nor a letter.
pub open spec fn is_digit(c: char) -> bool {
    !spec_is_whitespace(c) && !unicode_alphabetic(c) && unicode_numeric(c)
}

/// A token holds a letter or a digit.
pub open spec fn is_word(t: Seq<char>) -> bool {
    exists|k: int| 0 <= k < t.len() && (unicode_alphabetic(#[trigger] t[k]) || unicode_numeric(t[k]))
}

/// Number of tokens that are words.
pub open spec fn count_words(ts: Seq<Seq<char>>) -> nat
    decreases ts.len(),
{
    if ts.len() == 0 {
        0
    } else {
        count_words(ts.drop_last()) + if is_word(ts.last()) {
            1nat
        } else {
            0nat
        }
    }
}

/// The statistics of `t`.
pub open spec fn spec_stats(t: Seq<char>) -> TextStats {
    TextStats {
        char_count: t.len() as usize,
        byte_count: crate::text::byte_len(t) as usize,
        space_count: count_chars(t, |c: char| spec_is_whitespace(c)) as usize,
        letter_count: count_chars(t, |c: char| is_letter(c)) as usize,
        persian_letter_count: count_chars(t, |c: char| is_persian_letter(c)) as usize,
        latin_letter_count: count_chars(t, |c: char| is_latin_letter(c)) as usize,
        digit_count: count_chars(t, |c: char| is_digit(c)) as usize,
        word_count: count_words(spec_tokenize(t)) as usize,
        sentence_count: spec_split_sentences(t).len() as usize,
        unique_token_count: spec_tokenize(t).to_set().len() as usize,
    }
}

proof fn lemma_count_words_le(ts: Seq<Seq<char>>)
    ensures
        count_words(ts) <= ts.len(),
    decreases ts.len(),
{
    if ts.len() > 0 {
        lemma_count_words_le(ts.drop_last());
    }
}

proof fn lemma_count_chars_implies(s: Seq<char>, p: spec_fn(char) -> bool, q: spec_fn(char) -> bool)
    requires
        forall|c: char| #[trigger] p(c) ==> q(c),
    ensures
        count_chars(s, p) <= count_chars(s, q),
    decreases s.len(),
{
    if s.len() > 0 {
        lemma_count_chars_implies(s.drop_last(), p, q);
    }
}

/// The counts nest: words are tokens; Persian and Latin letters are
/// letters; letters, digits and spaces are characters (so the Persian share
/// of letters is at most one).
pub proof fn law_stats_bounded(t: Seq<char>)
    requires
        t.len() <= usize::MAX,
        spec_tokenize(t).len() <= usize::MAX,
    ensures
        spec_stats(t).word_count <= spec_tokenize(t).len(),
        spec_stats(t).persian_letter_count + spec_stats(t).latin_letter_count
            <= spec_stats(t).letter_count,
        spec_stats(t).space_count + spec_stats(t).letter_count + spec_stats(t).digit_count
            <= spec_stats(t).char_count,
{
    lemma_count_words_le(spec_tokenize(t));
    lemma_count_partition(t);
}

/// The sizes: the character count is the number of characters, the byte
/// count the length of the UTF-8 encoding, and the sentence count the
/// number of sentences [`split_sentences`](crate::sentence::split_sentences)
/// finds.
pub proof fn law_stats_sizes(t: Seq<char>)
    requires
        t.len() <= usize::MAX,
        crate::text::byte_len(t) <= usize::MAX,
        spec_split_sentences(t).len() <= usize::MAX,
    ensures
        spec_stats(t).char_count == t.len(),
        spec_stats(t).byte_count == crate::text::byte_len(t),
        spec_stats(t).sentence_count == spec_split_sentences(t).len(),
{
}

/// Spaces, letters and digits are disjoint classes; Persian and Latin
/// letters are disjoint kinds of letter.
proof fn lemma_count_partition(t: Seq<char>)
    ensures
        count_chars(t, |c: char| is_persian_letter(c)) + count_chars(t, |c: char| is_latin_letter(c))
            <= count_chars(t, |c: char| is_letter(c)),
        count_chars(t, |c: char| spec_is_whitespace(c)) + count_chars(t, |c: char| is_letter(c))
            + count_chars(t, |c: char| is_digit(c)) <= t.len(),
    decreases t.len(),
{
    if t.len() > 0 {
        lemma_count_partition(t.drop_last());
    }
}

fn has_letter_or_digit(t: &String) -> (b: bool)
    ensures
        b == is_word(t@),
{
    let v = chars_of(t.as_str());
    let mut k: usize = 0;
    while k < v.len()
        invariant
            0 <= k <= v.len(),
            v@ == t@,
            forall|j: int| 0 <= j < k ==> !(unicode_alphabetic(#[trigger] v@[j]) || unicode_numeric(v@[j])),
        decreases v.len() - k,
    {
        if is_alphabetic(v[k]) || is_numeric(v[k]) {
            return true;
        }
        k += 1;
    }
    false
}

fn word_count(tokens: &Vec<String>) -> (n: usize)
    ensures
        n == count_words(views(tokens@)),
{
    let ghost ts = views(tokens@);
    let mut n: usize = 0;
    let mut i: usize = 0;
    while i < tokens.len()
        invariant
            0 <= i <= tokens.len(),
            ts == views(tokens@),
            n == count_words(ts.take(i as int)),
            n <= i,
        decreases tokens.len() - i,
    {
        assert(ts.take(i + 1).drop_last() =~= ts.take(i as int));
        assert(ts[i as int] == tokens@[i as int]@);
        if has_letter_or_digit(&tokens[i]) {
            n += 1;
        }
        i += 1;
    }
    assert(ts.take(tokens.len() as int) =~= ts);
    n
}

fn unique_count(tokens: &Vec<String>) -> (n: usize)
    ensures
        n == views(tokens@).to_set().len(),
{
    let ghost ts = views(tokens@);
    let mut seen: Vec<String> = Vec::new();
    let mut i: usize = 0;
    while i < tokens.len()
        invariant
            0 <= i <= tokens.len(),
            ts == views(tokens@),
            views(seen@).no_duplicates(),
            views(seen@).to_set() == ts.take(i as int).to_set(),
            seen.len() <= i,
        decreases tokens.len() - i,
    {
        let ghost before = views(seen@);
        assert(ts.take(i + 1) =~= ts.take(i as int).push(ts[i as int]));
        proof {
            ts.take(i as int).lemma_push_to_set_commute(ts[i as int]);
            assert(ts.take(i as int).push(ts[i as int]).to_set() =~= ts.take(i as int).to_set().insert(
                ts[i as int],
            ));
        }
        let mut found = false;
        let mut k: usize = 0;
        while k < seen.len()
            invariant
                0 <= k <= seen.len(),
                i < tokens.len(),
                found == exists|j: int| 0 <= j < k && (#[trigger] seen@[j])@ == tokens@[i as int]@,
            decreases seen.len() - k,
        {
            if seen[k] == tokens[i] {
                found = true;
            }
            k += 1;
        }
        assert(ts[i as int] == tokens@[i as int]@);
        if !found {
            let t = tokens[i].clone();
            assert(t@ == tokens@[i as int]@);
            seen.push(t);
            proof {
                assert(views(seen@) =~= before.push(ts[i as int]));
                assert(!before.contains(ts[i as int])) by {
                    if before.contains(ts[i as int]) {
                        let j = choose|j: int| 0 <= j < before.len() && before[j] == ts[i as int];
                        assert(seen@[j]@ == before[j]);
                    }
                }
                before.lemma_push_to_set_commute(ts[i as int]);
            }
        } else {
            proof {
                let j = choose|j: int| 0 <= j < seen.len() && (#[trigger] seen@[j])@ == tokens@[i as int]@;
                assert(before[j] == ts[i as int]);
                assert(before.to_set().contains(ts[i as int]));
                assert(before.to_set().insert(ts[i as int]) =~= before.to_set());
            }
        }
        i += 1;
    }
    assert(ts.take(tokens.len() as int) =~= ts);
    proof {
        views(seen@).unique_seq_to_set();
    }
    seen.len()
}

/// Compute the statistics of `text` (which the engine normalises first).
pub fn compute(text: &str) -> (s: TextStats)
    ensures
        s == spec_stats(text@),
{
    let v = chars_of(text);
    let ghost t = v@;
    let mut space_count: usize = 0;
    let mut letter_count: usize = 0;
    let mut persian_letter_count: usize = 0;
    let mut latin_letter_count: usize = 0;
    let mut digit_count: usize = 0;
    let mut i: usize = 0;
    while i < v.len()
        invariant
            0 <= i <= v.len(),
            t == v@,
            space_count == count_chars(t.take(i as int), |c: char| spec_is_whitespace(c)),
            letter_count == count_chars(t.take(i as int), |c: char| is_letter(c)),
            persian_letter_count == count_chars(t.take(i as int), |c: char| is_persian_letter(c)),
            latin_letter_count == count_chars(t.take(i as int), |c: char| is_latin_letter(c)),
            digit_count == count_chars(t.take(i as int), |c: char| is_digit(c)),
        decreases v.len() - i,
    {
        let c = v[i];
        proof {
            lemma_count_chars_step(t, |c: char| spec_is_whitespace(c), i as int);
            lemma_count_chars_step(t, |c: char| is_letter(c), i as int);
            lemma_count_chars_step(t, |c: char| is_persian_letter(c), i as int);
            lemma_count_chars_step(t, |c: char| is_latin_letter(c), i as int);
            lemma_count_chars_step(t, |c: char| is_digit(c), i as int);
            lemma_count_chars_le(t.take(i as int), |c: char| spec_is_whitespace(c));
            lemma_count_chars_le(t.take(i as int), |c: char| is_letter(c));
            lemma_count_chars_le(t.take(i as int), |c: char| is_persian_letter(c));
            lemma_count_chars_le(t.take(i as int), |c: char| is_latin_letter(c));
            lemma_count_chars_le(t.take(i as int), |c: char| is_digit(c));
        }
        if is_whitespace(c) {
            space_count += 1;
        } else if is_alphabetic(c) {
            letter_count += 1;
            let u = c as u32;
            if 0x0600 <= u && u <= 0x06FF {
                persian_letter_count += 1;
            } else if is_ascii_alphabetic(c) {
                latin_letter_count += 1;
            }
        } else if is_numeric(c) {
            digit_count += 1;
        }
        i += 1;
    }
    assert(t.take(v.len() as int) =~= t);
    let tokens = tokenize(text);
    let words = word_count(&tokens);
    let unique = unique_count(&tokens);
    let sentences = split_sentences(text).len();
    TextStats {
        char_count: v.len(),
        byte_count: text.as_bytes().len(),
        space_count,
        letter_count,
        persian_letter_count,
        latin_letter_count,
        digit_count,
        word_count: words,
        sentence_count: sentences,
        unique_token_count: unique,
    }
}

} // verus!
