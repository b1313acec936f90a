//! A Persian-aware tokenizer for full-text search indexes.
//!
//! Tokens break on whitespace and structural punctuation but **not** on
//! ZWNJ, so compound words like *می‌روم* stay whole.  Each token carries
//! the UTF-8 byte offsets of its text, for highlighting.  Tokens can be
//! stemmed, and the text can be normalised first (then the offsets are
//! those of the normalised text).

use vstd::prelude::*;
use crate::config::{is_default_config, ParsitextConfig};
use crate::engine::Parsitext;
use crate::normalizer::spec_normalize;
use crate::stemmer::{spec_stem, stem};
use crate::text::{byte_len, byte_offset, byte_offsets, chars_of, spec_is_whitespace, string_from_range};

verus! {

/// A token and the byte range of its text.
#[derive(Debug, Clone)]
pub struct TokenSpan {
    /// The token text.
    pub text: String,
    /// Byte offset of the token's first character.
    pub byte_start: usize,
    /// Byte offset just past the token's last character.
    pub byte_end: usize,
}

/// A character that separates tokens: whitespace or structural
/// punctuation, never ZWNJ.
pub open spec fn spec_is_token_break(c: char) -> bool {
    c != '\u{200C}' && (spec_is_whitespace(c) || c == '.' || c == '،' || c == ',' || c == '!'
        || c == '?' || c == '؟' || c == '؛' || c == ';' || c == ':' || c == '(' || c == ')'
        || c == '[' || c == ']' || c == '{' || c == '}' || c == '«' || c == '»' || c == '"'
        || c == '\'' || c == '—' || c == '–')
}

/// Whether `c` separates tokens.
pub fn is_token_break(c: char) -> (b: bool)
    ensures
        b == spec_is_token_break(c),
{
    if c == '\u{200C}' {
        return false;
    }
    crate::text::is_whitespace(c) || c == '.' || c == '،' || c == ',' || c == '!' || c == '?' || c
        == '؟' || c == '؛' || c == ';' || c == ':' || c == '(' || c == ')' || c == '[' || c == ']'
        || c == '{' || c == '}' || c == '«' || c == '»' || c == '"' || c == '\'' || c == '—' || c
        == '–'
}

/// The runs closed so far in `s` (text, first and past-last character
/// index) and where the open run starts (`s.len()` when none is open).
pub open spec fn span_state(s: Seq<char>) -> (Seq<(Seq<char>, int, int)>, int)
    decreases s.len(),
{
    if s.len() == 0 {
        (seq![], 0)
    } else {
        let (done, st) = span_state(s.drop_last());
        let i = s.len() - 1;
        if spec_is_token_break(s.last()) {
            if st < i {
                (done.push((s.subrange(st, i), st, i)), i + 1)
            } else {
                (done, i + 1)
            }
        } else {
            (done, st)
        }
    }
}

/// The maximal runs of non-break characters of `s`, in order, with their
/// character ranges.
pub open spec fn spec_spans(s: Seq<char>) -> Seq<(Seq<char>, int, int)> {
    let (done, st) = span_state(s);
    if st < s.len() {
        done.push((s.subrange(st, s.len() as int), st, s.len() as int))
    } else {
        done
    }
}

/// `sp` is the run `m` of `s`, its character range given in bytes.
pub open spec fn span_is(sp: TokenSpan, m: (Seq<char>, int, int), s: Seq<char>) -> bool {
    &&& sp.text@ == m.0
    &&& sp.byte_start == byte_offset(s, m.1)
    &&& sp.byte_end == byte_offset(s, m.2)
}

proof fn lemma_span_state_bounds(s: Seq<char>)
    ensures
        0 <= span_state(s).1 <= s.len(),
        forall|j: int|
            0 <= j < span_state(s).0.len() ==> 0 <= (#[trigger] span_state(s).0[j]).1 < span_state(
                s,
            ).0[j].2 <= s.len() && span_state(s).0[j].0 == s.subrange(
                span_state(s).0[j].1,
                span_state(s).0[j].2,
            ),
    decreases s.len(),
{
    if s.len() > 0 {
        let p = s.drop_last();
        lemma_span_state_bounds(p);
        assert forall|j: int|
            0 <= j < span_state(p).0.len() implies (#[trigger] span_state(p).0[j]).0 == s.subrange(
            span_state(p).0[j].1,
            span_state(p).0[j].2,
        ) by {
            assert(p.subrange(span_state(p).0[j].1, span_state(p).0[j].2) =~= s.subrange(
                span_state(p).0[j].1,
                span_state(p).0[j].2,
            ));
        }
    }
}

/// The token runs of `text` with their byte ranges.  ZWNJ stays inside
/// tokens.
pub fn collect_spans(text: &str) -> (r: Vec<TokenSpan>)
    ensures
        r@.len() == spec_spans(text@).len(),
        forall|j: int| 0 <= j < r@.len() ==> span_is(#[trigger] r@[j], spec_spans(text@)[j], text@),
{
    let v = chars_of(text);
    let ghost t = v@;
    let nb = text.as_bytes().len();
    assert(byte_len(v@) == nb);
    let off = byte_offsets(&v);
    let mut out: Vec<TokenSpan> = Vec::new();
    let mut in_run = false;
    let mut start: usize = 0;
    let mut i: usize = 0;
    while i < v.len()
        invariant
            0 <= i <= v.len(),
            t == v@,
            t == text@,
            off.len() == v.len() + 1,
            forall|k: int| 0 <= k <= v.len() ==> off@[k] == byte_offset(t, k),
            span_state(t.take(i as int)).1 == (if in_run {
                start as int
            } else {
                i as int
            }),
            in_run ==> start < i,
            out@.len() == span_state(t.take(i as int)).0.len(),
            forall|j: int|
                0 <= j < out@.len() ==> span_is(
                    #[trigger] out@[j],
                    span_state(t.take(i as int)).0[j],
                    t,
                ),
        decreases v.len() - i,
    {
        let ghost p = t.take(i as int);
        let ghost q = t.take(i + 1);
        assert(q.drop_last() =~= p);
        assert(q.last() == v@[i as int]);
        proof {
            lemma_span_state_bounds(p);
        }
        let c = v[i];
        if is_token_break(c) {
            if in_run {
                let piece = string_from_range(&v, start, i);
                assert(q.subrange(start as int, i as int) =~= t.subrange(start as int, i as int));
                out.push(TokenSpan { text: piece, byte_start: off[start], byte_end: off[i] });
                in_run = false;
            }
        } else if !in_run {
            in_run = true;
            start = i;
        }
        i += 1;
    }
    assert(t.take(v.len() as int) =~= t);
    if in_run {
        let piece = string_from_range(&v, start, v.len());
        out.push(TokenSpan { text: piece, byte_start: off[start], byte_end: off[v.len()] });
    }
    out
}

/// Each token's byte range is exactly as long as its text, and the tokens
/// come in order without overlapping.
pub proof fn law_span_bytes(t: Seq<char>)
    ensures
        forall|j: int|
            0 <= j < spec_spans(t).len() ==> byte_offset(t, (#[trigger] spec_spans(t)[j]).2)
                - byte_offset(t, spec_spans(t)[j].1) == byte_len(spec_spans(t)[j].0),
        forall|j: int, k: int|
            #![trigger spec_spans(t)[j], spec_spans(t)[k]]
            0 <= j < k < spec_spans(t).len() ==> spec_spans(t)[j].2 < spec_spans(t)[k].1,
{
    lemma_spans_shape(t);
    assert forall|j: int| 0 <= j < spec_spans(t).len() implies byte_offset(
        t,
        (#[trigger] spec_spans(t)[j]).2,
    ) - byte_offset(t, spec_spans(t)[j].1) == byte_len(spec_spans(t)[j].0) by {
        crate::text::lemma_byte_len_range(t, spec_spans(t)[j].1, spec_spans(t)[j].2);
    }
}

/// The runs lie within `s`, are its subranges, and are ordered with at
/// least one break between them.
proof fn lemma_spans_shape(s: Seq<char>)
    ensures
        forall|j: int|
            0 <= j < spec_spans(s).len() ==> 0 <= (#[trigger] spec_spans(s)[j]).1 < spec_spans(
                s,
            )[j].2 <= s.len() && spec_spans(s)[j].0 == s.subrange(
                spec_spans(s)[j].1,
                spec_spans(s)[j].2,
            ),
        forall|j: int, k: int|
            #![trigger spec_spans(s)[j], spec_spans(s)[k]]
            0 <= j < k < spec_spans(s).len() ==> spec_spans(s)[j].2 < spec_spans(s)[k].1,
{
    lemma_span_state_order(s);
    lemma_span_state_bounds(s);
}

proof fn lemma_span_state_order(s: Seq<char>)
    ensures
        forall|j: int|
            0 <= j < span_state(s).0.len() ==> (#[trigger] span_state(s).0[j]).2 < span_state(s).1,
        forall|j: int, k: int|
            #![trigger span_state(s).0[j], span_state(s).0[k]]
            0 <= j < k < span_state(s).0.len() ==> span_state(s).0[j].2 < span_state(s).0[k].1,
    decreases s.len(),
{
    if s.len() > 0 {
        lemma_span_state_order(s.drop_last());
        lemma_span_state_bounds(s.drop_last());
    }
}

/// The text a tokenizer reads: `text`, normalised under `cfg` if it has a
/// pre-normaliser.
pub open spec fn working_text(cfg: Option<ParsitextConfig>, text: Seq<char>) -> Seq<char> {
    match cfg {
        Some(c) => spec_normalize(c, text),
        None => text,
    }
}

/// The configuration of the pre-normaliser: the defaults with entity
/// recognition off.
pub open spec fn is_index_config(c: ParsitextConfig) -> bool {
    is_default_config(ParsitextConfig { enable_entity_recognition: true, ..c })
        && !c.enable_entity_recognition
}

/// Persian-aware tokenizer: optional stemming and optional
/// pre-normalisation.
#[derive(Clone)]
pub struct PersianTokenizer {
    stem: bool,
    normalizer: Option<std::sync::Arc<Parsitext>>,
}

impl Default for PersianTokenizer {
    /// Same as [`PersianTokenizer::new`].
    fn default() -> (r: Self)
        ensures
            !r.stems(),
            r.normalizer_config() is None,
    {
        Self::new()
    }
}

impl PersianTokenizer {
    /// Whether tokens are stemmed.
    pub closed spec fn stems(&self) -> bool {
        self.stem
    }

    /// The pre-normaliser's configuration, if there is one.
    pub closed spec fn normalizer_config(&self) -> Option<ParsitextConfig> {
        match self.normalizer {
            Some(p) => Some(p.spec_config()),
            None => None,
        }
    }

    /// No stemming, no normalisation.
    pub fn new() -> (r: Self)
        ensures
            !r.stems(),
            r.normalizer_config() is None,
    {
        PersianTokenizer { stem: false, normalizer: None }
    }

    /// Stem each token before indexing.
    pub fn with_stem(self, stem: bool) -> (r: Self)
        ensures
            r.stems() == stem,
            r.normalizer_config() == self.normalizer_config(),
    {
        PersianTokenizer { stem, normalizer: self.normalizer }
    }

    /// Normalise text (orthography, ZWNJ, digits, …) before tokenising,
    /// with the default configuration minus entity recognition.  The byte
    /// offsets are then those of the normalised text.
    pub fn with_normalize(self, normalize: bool) -> (r: Self)
        ensures
            r.stems() == self.stems(),
            normalize ==> (r.normalizer_config() matches Some(c) && is_index_config(c)),
            !normalize ==> r.normalizer_config() is None,
    {
        let normalizer = if normalize {
            let cfg = ParsitextConfig::builder().enable_entity_recognition(false).build();
            assert(crate::normalizer::rule_patterns(cfg.custom_rules@) =~= Seq::<Seq<char>>::empty());
            Some(std::sync::Arc::new(Parsitext::new(cfg)))
        } else {
            None
        };
        PersianTokenizer { stem: self.stem, normalizer }
    }

    /// The tokens of `text` (normalised first if so configured), stemmed if
    /// so configured, each with the byte range of its unstemmed text.
    pub fn token_spans(&self, text: &str) -> (r: Vec<TokenSpan>)
        ensures
            ({
                let w = working_text(self.normalizer_config(), text@);
                let m = spec_spans(w);
                &&& r@.len() == m.len()
                &&& forall|j: int|
                    0 <= j < r@.len() ==> {
                        &&& (#[trigger] r@[j]).text@ == (if self.stems() {
                            spec_stem(m[j].0)
                        } else {
                            m[j].0
                        })
                        &&& r@[j].byte_start == byte_offset(w, m[j].1)
                        &&& r@[j].byte_end == byte_offset(w, m[j].2)
                    }
            }),
    {
        let raw = match &self.normalizer {
            Some(pt) => {
                let n = pt.normalize_only(text);
                collect_spans(n.as_str())
            },
            None => collect_spans(text),
        };
        if !self.stem {
            return raw;
        }
        let ghost w = working_text(self.normalizer_config(), text@);
        let mut out: Vec<TokenSpan> = Vec::new();
        let mut i: usize = 0;
        while i < raw.len()
            invariant
                0 <= i <= raw.len(),
                raw@.len() == spec_spans(w).len(),
                forall|j: int| 0 <= j < raw@.len() ==> span_is(#[trigger] raw@[j], spec_spans(w)[j], w),
                out@.len() == i,
                forall|j: int|
                    0 <= j < i ==> (#[trigger] out@[j]).text@ == spec_stem(spec_spans(w)[j].0)
                        && out@[j].byte_start == byte_offset(w, spec_spans(w)[j].1)
                        && out@[j].byte_end == byte_offset(w, spec_spans(w)[j].2),
            decreases raw.len() - i,
        {
            let s = &raw[i];
            assert(span_is(raw@[i as int], spec_spans(w)[i as int], w));
            out.push(
                TokenSpan { text: stem(s.text.as_str()), byte_start: s.byte_start, byte_end: s.byte_end },
            );
            i += 1;
        }
        out
    }
}

} // verus!
