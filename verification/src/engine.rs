//! The pipeline orchestrator, [`Parsitext`].

use vstd::prelude::*;
use rayon::iter::{IntoParallelRefIterator, ParallelIterator};
use crate::config::{is_default_config, ParsitextConfig, ProcessingMode};
use crate::diacritics::{remove_diacritics, spec_remove_diacritics};
use crate::entity::{all_sources_compile, models, spec_detect, Entity, EntityRecognizer};
use crate::jalali::{parse_panics, JalaliDate};
use crate::matcher::{nonempty_patterns, small_pattern_set, total_chars};
use crate::money::MoneyAmount;
use crate::normalizer::{rule_patterns, rules_ok, spec_normalize, Normalizer};
use crate::sentence::{spec_split_sentences, split_sentences};
use crate::stats::{compute, spec_stats, TextStats};
use crate::text::{byte_len, chars_of, count_chars, views};
use crate::tokenizer::{spec_tokenize, tokenize};
use crate::{config::CustomRule, ProcessedText, ProcessingStats};

verus! {

#[verifier::external_type_specification]
#[verifier::external_body]
pub struct ExInstant(std::time::Instant);

/// `std::time::Instant::now`: a reading of the monotonic clock.  Nothing is
/// claimed of it.
#[verifier::external_body]
fn clock_now() -> std::time::Instant {
    std::time::Instant::now()
}

/// `Instant::elapsed` in whole nanoseconds, truncated to `u64` as `as`
/// does.  It depends on the clock, so nothing is claimed of it.
#[verifier::external_body]
fn elapsed_ns(start: &std::time::Instant) -> u64 {
    start.elapsed().as_nanos() as u64
}

/// The main entry point for Persian text processing.  All matchers and
/// patterns are compiled once, at construction.
pub struct Parsitext {
    normalizer: Normalizer,
    recognizer: Option<EntityRecognizer>,
}

/// A Persian/Arabic letter for language detection: U+0621–U+06FF.
pub open spec fn is_arabic_letter(c: char) -> bool {
    0x0621 <= (c as u32) <= 0x06FF
}

/// Persian letters are the majority of alphabetic characters.
pub open spec fn spec_is_persian(t: Seq<char>) -> bool {
    let total = count_chars(t, |c: char| crate::text::unicode_alphabetic(c));
    let arabic = count_chars(t, |c: char| is_arabic_letter(c));
    total > 0 && arabic * 2 > total
}

/// What the constructor needs: non-empty custom patterns, and the entity
/// patterns compile when recognition is on.
pub open spec fn buildable(config: ParsitextConfig) -> bool {
    &&& rules_ok(config.custom_rules@)
    &&& (config.enable_entity_recognition ==> all_sources_compile())
}

impl Parsitext {
    #[verifier::type_invariant]
    spec fn inv(self) -> bool {
        &&& self.normalizer.wf()
        &&& (self.recognizer is Some <==> self.normalizer.config().enable_entity_recognition)
        &&& (self.recognizer matches Some(r) ==> r.wf())
    }

    /// The configuration this processor was built with.
    pub closed spec fn spec_config(&self) -> ParsitextConfig {
        self.normalizer.config()
    }

    /// `r` holds `text`, its normalised form, that form's tokens and the
    /// sizes (its entities and timing aside).
    pub open spec fn normalizes(&self, text: Seq<char>, r: ProcessedText) -> bool {
        &&& r.original@ == text
        &&& r.normalized@ == spec_normalize(self.spec_config(), text)
        &&& views(r.tokens@) == spec_tokenize(r.normalized@)
        &&& r.stats.original_length == byte_len(text)
        &&& r.stats.normalized_length == byte_len(r.normalized@)
        &&& r.stats.token_count == r.tokens@.len()
    }

    /// `r` is what [`Parsitext::process`] returns for `text` (its timing
    /// aside): with recognition on, the entities are those detected in the
    /// normalised text; with it off, there are none.
    pub open spec fn processes(&self, text: Seq<char>, r: ProcessedText) -> bool {
        &&& self.normalizes(text, r)
        &&& (if self.spec_config().enable_entity_recognition {
            models(r.entities@) == spec_detect(r.normalized@)
        } else {
            r.entities@.len() == 0
        })
    }

    /// Two results of processing the same text agree in everything but
    /// their timing, so a batch gives what processing one by one gives.
    pub proof fn law_process_deterministic(&self, text: Seq<char>, a: ProcessedText, b: ProcessedText)
        requires
            self.processes(text, a),
            self.processes(text, b),
        ensures
            a.original@ == b.original@,
            a.normalized@ == b.normalized@,
            views(a.tokens@) == views(b.tokens@),
            models(a.entities@) == models(b.entities@),
            a.stats.original_length == b.stats.original_length,
            a.stats.normalized_length == b.stats.normalized_length,
            a.stats.token_count == b.stats.token_count,
    {
        assert(views(a.tokens@).len() == a.tokens@.len() && views(b.tokens@).len() == b.tokens@.len());
        if !self.spec_config().enable_entity_recognition {
            assert(models(a.entities@) =~= models(b.entities@));
        }
    }

    fn build(config: ParsitextConfig) -> (r: Option<Self>)
        requires
            buildable(config),
        ensures
            r matches Some(p) ==> p.spec_config() == config,
            small_pattern_set(rule_patterns(config.custom_rules@)) ==> r is Some,
    {
        let recognizer = if config.enable_entity_recognition {
            Some(EntityRecognizer::new())
        } else {
            None
        };
        match Normalizer::new(config) {
            Some(normalizer) => Some(Parsitext { normalizer, recognizer }),
            None => None,
        }
    }

    /// Build a processor from `config`, compiling every matcher and pattern
    /// once.
    pub fn new(config: ParsitextConfig) -> (r: Self)
        requires
            buildable(config),
            small_pattern_set(rule_patterns(config.custom_rules@)),
        ensures
            r.spec_config() == config,
    {
        Self::build(config).unwrap()
    }

    /// Build a processor from `config`, or `None` when it cannot be built:
    /// a custom rule with an empty pattern, entity patterns that do not
    /// compile, or a custom-rule automaton that cannot be built.
    pub fn try_new(config: ParsitextConfig) -> (r: Option<Self>)
        ensures
            r matches Some(p) ==> p.spec_config() == config && buildable(config),
            buildable(config) && small_pattern_set(rule_patterns(config.custom_rules@)) ==> r is Some,
    {
        if !rules_valid(&config.custom_rules) {
            return None;
        }
        if config.enable_entity_recognition {
            if EntityRecognizer::try_new().is_none() {
                return None;
            }
        }
        if small_rules(&config.custom_rules) {
            Some(Self::new(config))
        } else {
            Self::build(config)
        }
    }

    /// The processor for the default configuration.
    pub fn default() -> (r: Self)
        requires
            all_sources_compile(),
        ensures
            is_default_config(r.spec_config()),
    {
        let config = ParsitextConfig::default();
        assert(rule_patterns(config.custom_rules@) =~= Seq::<Seq<char>>::empty());
        Self::new(config)
    }

    /// The configuration this processor was built with.
    pub fn config(&self) -> (c: &ParsitextConfig)
        ensures
            *c == self.spec_config(),
    {
        self.normalizer.config_ref()
    }

    fn run_entity_detection(&self, normalized: &str) -> (r: Vec<Entity>)
        ensures
            self.spec_config().enable_entity_recognition ==> models(r@) == spec_detect(normalized@),
            !self.spec_config().enable_entity_recognition ==> r@.len() == 0,
    {
        proof {
            use_type_invariant(self);
        }
        match &self.recognizer {
            Some(er) => er.detect(normalized),
            None => Vec::new(),
        }
    }

    fn run(&self, text: &str, entities: bool) -> (r: ProcessedText)
        ensures
            entities ==> self.processes(text@, r),
            !entities ==> r.entities@.len() == 0 && self.normalizes(text@, r),
    {
        proof {
            use_type_invariant(self);
        }
        let start = clock_now();
        let normalized = self.normalizer.normalize(text);
        let tokens = tokenize(normalized.as_str());
        let found = if entities {
            self.run_entity_detection(normalized.as_str())
        } else {
            Vec::new()
        };
        let elapsed = elapsed_ns(&start);
        let token_count = tokens.len();
        ProcessedText {
            stats: ProcessingStats {
                original_length: text.as_bytes().len(),
                normalized_length: normalized.as_str().as_bytes().len(),
                token_count,
                processing_time_ns: elapsed,
            },
            original: text.to_owned(),
            normalized,
            tokens,
            entities: found,
        }
    }

    /// Run the full pipeline: normalise, tokenise, and detect entities
    /// (when the configuration enables recognition).
    pub fn process(&self, text: &str) -> (r: ProcessedText)
        ensures
            self.processes(text@, r),
    {
        self.run(text, true)
    }

    /// Like [`Parsitext::process`], for an owned `String`.
    pub fn process_owned(&self, text: String) -> (r: ProcessedText)
        ensures
            self.processes(text@, r),
    {
        self.process(text.as_str())
    }

    /// Process every text, in parallel; the results are in input order.
    pub fn process_batch(&self, texts: &[&str]) -> (r: Vec<ProcessedText>)
        ensures
            r@.len() == texts@.len(),
            forall|i: int| 0 <= i < texts@.len() ==> self.processes(texts@[i]@, #[trigger] r@[i]),
    {
        process_in_parallel(self, texts)
    }

    /// Process `text` with a one-off [`ProcessingMode`]: `MaximumSpeed`
    /// skips entity recognition; the other modes run the full pipeline.
    pub fn process_with_mode(&self, text: &str, mode: ProcessingMode) -> (r: ProcessedText)
        ensures
            mode == ProcessingMode::MaximumSpeed ==> r.entities@.len() == 0 && self.normalizes(
                text@,
                r,
            ),
            mode != ProcessingMode::MaximumSpeed ==> self.processes(text@, r),
    {
        match mode {
            ProcessingMode::MaximumSpeed => self.run(text, false),
            _ => self.process(text),
        }
    }

    /// Only the normalised string.
    pub fn normalize_only(&self, text: &str) -> (s: String)
        ensures
            s@ == spec_normalize(self.spec_config(), text@),
    {
        proof {
            use_type_invariant(self);
        }
        self.normalizer.normalize(text)
    }

    /// Normalise, then tokenise.
    pub fn tokenize_only(&self, text: &str) -> (r: Vec<String>)
        ensures
            views(r@) == spec_tokenize(spec_normalize(self.spec_config(), text@)),
    {
        let n = self.normalize_only(text);
        tokenize(n.as_str())
    }

    /// Normalise, then detect entities.
    pub fn detect_entities(&self, text: &str) -> (r: Vec<Entity>)
        ensures
            self.spec_config().enable_entity_recognition ==> models(r@) == spec_detect(
                spec_normalize(self.spec_config(), text@),
            ),
            !self.spec_config().enable_entity_recognition ==> r@.len() == 0,
    {
        let n = self.normalize_only(text);
        self.run_entity_detection(n.as_str())
    }

    /// Strip Arabic harakat (only the diacritics pass is applied).
    pub fn remove_diacritics_only(&self, text: &str) -> (s: String)
        ensures
            s@ == spec_remove_diacritics(text@),
    {
        remove_diacritics(text)
    }

    /// Split the normalised text into sentences.
    pub fn split_sentences(&self, text: &str) -> (r: Vec<String>)
        ensures
            views(r@) == spec_split_sentences(spec_normalize(self.spec_config(), text@)),
    {
        let n = self.normalize_only(text);
        split_sentences(n.as_str())
    }

    /// Statistics of the normalised text.
    pub fn text_stats(&self, text: &str) -> (s: TextStats)
        ensures
            s == spec_stats(spec_normalize(self.spec_config(), text@)),
    {
        let n = self.normalize_only(text);
        compute(n.as_str())
    }

    /// The Persian words for `n`.
    pub fn number_to_words(&self, n: i64) -> (s: String)
        ensures
            s@ == crate::numbers::to_words::spec_to_words(n),
    {
        crate::numbers::to_words(n)
    }

    /// Parse Persian number words into an integer.
    pub fn number_from_words(&self, text: &str) -> (r: Option<i64>)
        ensures
            r == crate::numbers::from_words::spec_from_words(text@),
    {
        crate::numbers::from_words(text)
    }

    /// Format an integer with Persian digits and thousands separators.
    pub fn format_number(&self, n: i64) -> (s: String)
        ensures
            s@ == crate::numbers::spec_format(n),
    {
        crate::numbers::format(n)
    }

    /// Stem one word.
    pub fn stem(&self, word: &str) -> (s: String)
        ensures
            s@ == crate::stemmer::spec_stem(word@),
    {
        crate::stemmer::stem(word)
    }

    /// Tokenise the normalised text, then stem each token.
    pub fn stem_tokens(&self, text: &str) -> (r: Vec<String>)
        ensures
            r@.len() == spec_tokenize(spec_normalize(self.spec_config(), text@)).len(),
            forall|i: int|
                0 <= i < r@.len() ==> (#[trigger] r@[i])@ == crate::stemmer::spec_stem(
                    spec_tokenize(spec_normalize(self.spec_config(), text@))[i],
                ),
    {
        let tokens = self.tokenize_only(text);
        let r = crate::stemmer::stem_tokens(tokens.as_slice());
        assert forall|i: int| 0 <= i < r@.len() implies tokens@[i]@ == views(tokens@)[i] by {}
        r
    }

    /// Finglish (Persian in Latin letters) to Persian script.
    pub fn finglish_to_persian(&self, text: &str) -> (s: String)
        ensures
            s@ == crate::finglish::spec_to_persian(text@),
    {
        crate::finglish::to_persian(text)
    }

    /// Chat-style Persian.
    pub fn to_chat(&self, text: &str) -> (s: String)
        ensures
            s@ == crate::style::spec_to_chat(text@),
    {
        crate::style::to_chat(text)
    }

    /// GenZ-style Persian.
    pub fn to_genz(&self, text: &str) -> (s: String)
        ensures
            s@ == crate::style::spec_to_genz(text@),
    {
        crate::style::to_genz(text)
    }

    /// Formal written Persian.
    pub fn to_formal(&self, text: &str) -> (s: String)
        ensures
            s@ == crate::style::spec_to_formal(text@),
    {
        crate::style::to_formal(text)
    }

    /// The Persian phonetic (Soundex) code of `word`.
    pub fn phonetic_code(&self, word: &str) -> (s: String)
        ensures
            s@ == crate::phonetic::spec_soundex(word@),
    {
        crate::phonetic::soundex(word)
    }

    /// Spelling suggestions from the bundled word list.
    pub fn spell_suggest(&self, word: &str, max_distance: usize) -> (r: Vec<&'static str>)
        ensures
            r@ == crate::spell::spec_suggest(
                word@,
                crate::spell::BUILTIN_DICT@,
                max_distance as int,
            ),
    {
        crate::spell::suggest_builtin(word, max_distance)
    }

    /// Persian text in Latin letters.
    pub fn transliterate(&self, text: &str) -> (s: String)
        ensures
            s@ == crate::text::concat_map(text@, |c: char| crate::transliterate::translit_piece(c)),
    {
        crate::transliterate::to_latin(text)
    }

    /// The Levenshtein distance between `a` and `b`.
    pub fn levenshtein(&self, a: &str, b: &str) -> (d: usize)
        ensures
            d == crate::spell::spec_levenshtein(a@, b@),
    {
        crate::spell::levenshtein(a, b)
    }

    /// Insert ZWNJ at common morphological boundaries.
    pub fn insert_zwnj(&self, text: &str) -> (s: String)
        ensures
            s@ == crate::zwnj_insert::spec_insert(text@),
    {
        crate::zwnj_insert::insert(text)
    }

    /// Parse a Jalali date from a numeric or textual Persian string.
    pub fn parse_jalali_date(&self, text: &str) -> (r: Option<JalaliDate>)
        requires
            !parse_panics(text@),
        ensures
            r matches Some(d) ==> crate::jalali::spec_parse(text@) == Some(d@),
            r is None ==> crate::jalali::spec_parse(text@) is None,
    {
        crate::jalali::parse(text)
    }

    /// Parse a Persian money expression.
    pub fn parse_money(&self, text: &str) -> (r: Option<MoneyAmount>)
        ensures
            r matches Some(m) ==> crate::money::spec_parse(text@) == Some((m.value, m.unit))
                && m.raw@ == crate::text::spec_trim(text@),
            r is None ==> crate::money::spec_parse(text@) is None,
    {
        crate::money::parse(text)
    }

    /// Whether Persian/Arabic letters are the majority of the alphabetic
    /// characters of `text` (false when there are none).
    pub fn is_persian(&self, text: &str) -> (b: bool)
        ensures
            b == spec_is_persian(text@),
    {
        let v = chars_of(text);
        let ghost t = v@;
        let mut total: usize = 0;
        let mut arabic: usize = 0;
        let mut i: usize = 0;
        while i < v.len()
            invariant
                0 <= i <= v.len(),
                t == v@,
                total == count_chars(t.take(i as int), |c: char| crate::text::unicode_alphabetic(c)),
                arabic == count_chars(t.take(i as int), |c: char| is_arabic_letter(c)),
            decreases v.len() - i,
        {
            proof {
                crate::text::lemma_count_chars_step(
                    t,
                    |c: char| crate::text::unicode_alphabetic(c),
                    i as int,
                );
                crate::text::lemma_count_chars_step(t, |c: char| is_arabic_letter(c), i as int);
                crate::text::lemma_count_chars_le(
                    t.take(i as int),
                    |c: char| crate::text::unicode_alphabetic(c),
                );
                crate::text::lemma_count_chars_le(t.take(i as int), |c: char| is_arabic_letter(c));
            }
            let c = v[i];
            if crate::text::is_alphabetic(c) {
                total += 1;
            }
            let u = c as u32;
            if 0x0621 <= u && u <= 0x06FF {
                arabic += 1;
            }
            i += 1;
        }
        assert(t.take(v.len() as int) =~= t);
        if total == 0 {
            return false;
        }
        (arabic as u128) * 2 > total as u128
    }

    /// Whether `text` holds a Persian/Arabic letter.
    pub fn contains_persian(&self, text: &str) -> (b: bool)
        ensures
            b == exists|i: int| 0 <= i < text@.len() && is_arabic_letter(#[trigger] text@[i]),
    {
        let v = chars_of(text);
        let mut i: usize = 0;
        while i < v.len()
            invariant
                0 <= i <= v.len(),
                v@ == text@,
                forall|j: int| 0 <= j < i ==> !is_arabic_letter(#[trigger] v@[j]),
            decreases v.len() - i,
        {
            let u = v[i] as u32;
            if 0x0621 <= u && u <= 0x06FF {
                return true;
            }
            i += 1;
        }
        false
    }

    /// Canonical Persian letters back to their Arabic forms.
    pub fn to_arabic(&self, text: &str) -> (s: String)
        ensures
            s@ == text@.map_values(|c: char| crate::script::spec_arabic_form(c)),
    {
        crate::script::to_arabic(text)
    }

    /// Whether `text` holds an Arabic-only letter.
    pub fn has_arabic(&self, text: &str) -> (b: bool)
        ensures
            b == exists|i: int|
                0 <= i < text@.len() && crate::script::spec_is_arabic_only_letter(#[trigger] text@[i]),
    {
        crate::script::has_arabic(text)
    }

    /// A signed seconds offset as a Persian relative-time phrase.
    pub fn describe_time_diff(&self, seconds: i64) -> (s: String)
        ensures
            s@ == crate::time_diff::spec_describe(seconds),
    {
        crate::time_diff::describe(seconds)
    }

    /// Percent-encode `text` (RFC 3986).
    pub fn url_encode(&self, text: &str) -> (s: String)
        ensures
            s@ == crate::url_fix::spec_encode(text@),
    {
        crate::url_fix::encode(text)
    }

    /// Percent-decode `text`.
    pub fn url_decode(&self, text: &str) -> (s: String)
        ensures
            s@ == crate::url_fix::spec_decode(text@),
    {
        crate::url_fix::decode(text)
    }
}

/// `rayon`'s `par_iter().map(..).collect()` over a slice: each text is
/// processed by [`Parsitext::process`] and, the iterator being indexed, the
/// results are collected in input order.
#[verifier::external_body]
fn process_in_parallel(pt: &Parsitext, texts: &[&str]) -> (r: Vec<ProcessedText>)
    ensures
        r@.len() == texts@.len(),
        forall|i: int| 0 <= i < texts@.len() ==> pt.processes(texts@[i]@, #[trigger] r@[i]),
{
    texts.par_iter().map(|t| pt.process(t)).collect()
}

fn rules_valid(rules: &Vec<CustomRule>) -> (b: bool)
    ensures
        b == rules_ok(rules@),
{
    let mut i: usize = 0;
    while i < rules.len()
        invariant
            0 <= i <= rules.len(),
            forall|j: int| 0 <= j < i ==> (#[trigger] rules@[j]).pattern@.len() > 0,
        decreases rules.len() - i,
    {
        if chars_of(rules[i].pattern.as_str()).len() == 0 {
            assert(rule_patterns(rules@)[i as int].len() == 0);
            return false;
        }
        i += 1;
    }
    assert(nonempty_patterns(rule_patterns(rules@)));
    true
}

proof fn lemma_total_chars_prefix(ps: Seq<Seq<char>>, i: int)
    requires
        0 <= i <= ps.len(),
    ensures
        total_chars(ps.take(i)) <= total_chars(ps),
    decreases ps.len() - i,
{
    if i < ps.len() {
        assert(ps.take(i + 1).drop_last() =~= ps.take(i));
        lemma_total_chars_prefix(ps, i + 1);
    } else {
        assert(ps.take(i) =~= ps);
    }
}

fn small_rules(rules: &Vec<CustomRule>) -> (b: bool)
    ensures
        b == small_pattern_set(rule_patterns(rules@)),
{
    let ghost ps = rule_patterns(rules@);
    let mut total: u64 = 0;
    let mut i: usize = 0;
    while i < rules.len()
        invariant
            0 <= i <= rules.len(),
            ps == rule_patterns(rules@),
            total == total_chars(ps.take(i as int)),
            total <= 500_000_000,
        decreases rules.len() - i,
    {
        assert(ps.take(i + 1).drop_last() =~= ps.take(i as int));
        let n = chars_of(rules[i].pattern.as_str()).len();
        if n as u64 > 500_000_000 - total {
            proof {
                lemma_total_chars_prefix(ps, i + 1);
                let t = total_chars(ps);
                let l = ps.len();
                assert((4 * t + 8) * (l + 1) > 2_000_000_000) by (nonlinear_arith)
                    requires
                        t > 500_000_000,
                ;
            }
            return false;
        }
        total = total + n as u64;
        i += 1;
    }
    assert(ps.take(rules.len() as int) =~= ps);
    if rules.len() as u64 >= 2_000_000_000 {
        proof {
            let t = total_chars(ps);
            let l = ps.len();
            assert((4 * t + 8) * (l + 1) > 2_000_000_000) by (nonlinear_arith)
                requires
                    l >= 2_000_000_000,
            ;
        }
        return false;
    }
    let count: u64 = rules.len() as u64 + 1;
    let weight: u64 = 4 * total + 8;
    proof {
        assert(weight * count <= 2_000_000_008u64 * 2_000_000_000u64) by (nonlinear_arith)
            requires
                weight <= 2_000_000_008,
                count <= 2_000_000_000,
        ;
    }
    weight * count <= 2_000_000_000
}

} // verus!
