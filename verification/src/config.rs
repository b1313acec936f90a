//! Configuration types and builder for the processing pipeline.

use vstd::prelude::*;

verus! {

/// The script to normalise digits into.
#[derive(Debug, Clone, Copy, PartialEq, Eq, Structural)]
pub enum DigitTarget {
    /// Convert all digits to Persian (۰–۹). **Default.**
    Persian,
    /// Convert all digits to Latin (0–9).
    Latin,
    /// Leave digits unchanged.
    Unchanged,
}

impl Default for DigitTarget {
    fn default() -> (r: Self)
        ensures
            r == DigitTarget::Persian,
    {
        DigitTarget::Persian
    }
}

/// Controls how aggressively profanity is filtered; the replacement is
/// always `"***"` and matching is whole-word.
#[derive(Debug, Clone, Copy, PartialEq, Eq, Structural)]
pub enum ProfanityLevel {
    /// No filtering. **Default.**
    Off,
    /// Replace a small, high-confidence set of insult words.
    Light,
    /// Replace a broader set, including stronger terms.
    Medium,
}

impl Default for ProfanityLevel {
    fn default() -> (r: Self)
        ensures
            r == ProfanityLevel::Off,
    {
        ProfanityLevel::Off
    }
}

/// Hint about the speed / quality trade-off.
#[derive(Debug, Clone, Copy, PartialEq, Eq, Structural)]
pub enum ProcessingMode {
    /// Run every pass enabled in the config. **Default.**
    Default,
    /// Skip entity recognition to maximise throughput.
    MaximumSpeed,
    /// Identical to `Default` for now.
    MaximumQuality,
}

impl Default for ProcessingMode {
    fn default() -> (r: Self)
        ensures
            r == ProcessingMode::Default,
    {
        ProcessingMode::Default
    }
}

/// A user-supplied literal replacement applied after all built-in passes.
/// With `whole_word`, a match is rejected when an adjacent character is
/// alphabetic or numeric.
#[derive(Debug, Clone)]
pub struct CustomRule {
    /// Literal text to search for.
    pub pattern: String,
    /// Text to substitute in place of the match.
    pub replacement: String,
    /// When `true`, only replace at word boundaries.
    pub whole_word: bool,
}

/// How `Debug` writes a string: quoted, with escapes.
pub uninterp spec fn debug_str(s: Seq<char>) -> Seq<char>;

/// `format!("{:?}", s)` for a string slice: the quoted, escaped form that
/// std's `Debug` writes.  The result is named `debug_str(s)`; nothing more
/// is claimed of it.
#[verifier::external_body]
pub(crate) fn debug_quoted(s: &str) -> (r: String)
    ensures
        r@ == debug_str(s@),
{
    format!("{:?}", s)
}

impl CustomRule {
    /// Convenience constructor.
    pub fn new(pattern: &str, replacement: &str, whole_word: bool) -> (r: Self)
        ensures
            r.pattern@ == pattern@,
            r.replacement@ == replacement@,
            r.whole_word == whole_word,
    {
        CustomRule { pattern: pattern.to_owned(), replacement: replacement.to_owned(), whole_word }
    }

    /// `"pattern" → "replacement"`, both in their `Debug` form.
    pub fn to_string(&self) -> (s: String)
        ensures
            s@ == debug_str(self.pattern@) + " → "@ + debug_str(self.replacement@),
    {
        let mut s = debug_quoted(self.pattern.as_str());
        s.append(" → ");
        let r = debug_quoted(self.replacement.as_str());
        s.append(r.as_str());
        s
    }
}

/// Full configuration of the processing pipeline.
#[derive(Debug, Clone)]
pub struct ParsitextConfig {
    /// Normalise ZWNJ placement.
    pub normalize_zwnj: bool,
    /// Unify all digit scripts to a single target.
    pub unify_digits: DigitTarget,
    /// Replace Arabic character variants with Persian forms.
    pub normalize_orthography: bool,
    /// Collapse runs of whitespace and trim.
    pub remove_extra_spaces: bool,
    /// Shorten emphatic character repetitions to at most two.
    pub reduce_repetitions: bool,
    /// Strip Arabic harakat.
    pub remove_diacritics: bool,
    /// Insert ZWNJ at common morphological boundaries (opt-in).
    pub insert_zwnj: bool,
    /// Normalise informal (*goftari*) forms to written Persian.
    pub enable_slang: bool,
    /// Detect structured entities (phone, date, money, …).
    pub enable_entity_recognition: bool,
    /// Profanity filter level.
    pub profanity_level: ProfanityLevel,
    /// Speed / quality trade-off hint.
    pub mode: ProcessingMode,
    /// User-supplied literal replacements, applied last.
    pub custom_rules: Vec<CustomRule>,
}

/// The production defaults: ZWNJ normalisation on, digits to Persian,
/// orthography normalised, spaces collapsed, repetitions reduced,
/// diacritics kept, no ZWNJ insertion, slang off, entity recognition on, no
/// profanity filtering, default mode, no custom rules.
pub open spec fn is_default_config(c: ParsitextConfig) -> bool {
    &&& c.normalize_zwnj
    &&& c.unify_digits == DigitTarget::Persian
    &&& c.normalize_orthography
    &&& c.remove_extra_spaces
    &&& c.reduce_repetitions
    &&& !c.remove_diacritics
    &&& !c.insert_zwnj
    &&& !c.enable_slang
    &&& c.enable_entity_recognition
    &&& c.profanity_level == ProfanityLevel::Off
    &&& c.mode == ProcessingMode::Default
    &&& c.custom_rules@.len() == 0
}

fn default_config() -> (c: ParsitextConfig)
    ensures
        is_default_config(c),
{
    ParsitextConfig {
        normalize_zwnj: true,
        unify_digits: DigitTarget::Persian,
        normalize_orthography: true,
        remove_extra_spaces: true,
        reduce_repetitions: true,
        remove_diacritics: false,
        insert_zwnj: false,
        enable_slang: false,
        enable_entity_recognition: true,
        profanity_level: ProfanityLevel::Off,
        mode: ProcessingMode::Default,
        custom_rules: Vec::new(),
    }
}

impl ParsitextConfig {
    /// A builder pre-filled with the defaults.
    pub fn builder() -> (b: ParsitextConfigBuilder)
        ensures
            is_default_config(b.spec_config()),
    {
        ParsitextConfigBuilder { inner: default_config() }
    }
}

impl Default for ParsitextConfig {
    /// The default configuration (same as `ParsitextConfig::builder().build()`).
    fn default() -> (c: Self)
        ensures
            is_default_config(c),
    {
        default_config()
    }
}

/// Step-builder for [`ParsitextConfig`].
#[derive(Debug)]
pub struct ParsitextConfigBuilder {
    inner: ParsitextConfig,
}

impl Default for ParsitextConfigBuilder {
    fn default() -> (b: Self)
        ensures
            is_default_config(b.spec_config()),
    {
        ParsitextConfigBuilder { inner: default_config() }
    }
}

impl ParsitextConfigBuilder {
    /// The configuration built so far.
    pub closed spec fn spec_config(self) -> ParsitextConfig {
        self.inner
    }

    /// Toggle ZWNJ normalisation.
    pub fn normalize_zwnj(self, v: bool) -> (r: Self)
        ensures
            r.spec_config() == (ParsitextConfig { normalize_zwnj: v, ..self.spec_config() }),
    {
        let mut b = self;
        b.inner.normalize_zwnj = v;
        b
    }

    /// Set the target digit script.
    pub fn unify_digits(self, target: DigitTarget) -> (r: Self)
        ensures
            r.spec_config() == (ParsitextConfig { unify_digits: target, ..self.spec_config() }),
    {
        let mut b = self;
        b.inner.unify_digits = target;
        b
    }

    /// Toggle Arabic→Persian orthography fixes.
    pub fn normalize_orthography(self, v: bool) -> (r: Self)
        ensures
            r.spec_config() == (ParsitextConfig {
                normalize_orthography: v,
                ..self.spec_config()
            }),
    {
        let mut b = self;
        b.inner.normalize_orthography = v;
        b
    }

    /// Toggle whitespace collapse.
    pub fn remove_extra_spaces(self, v: bool) -> (r: Self)
        ensures
            r.spec_config() == (ParsitextConfig { remove_extra_spaces: v, ..self.spec_config() }),
    {
        let mut b = self;
        b.inner.remove_extra_spaces = v;
        b
    }

    /// Toggle emphatic-repetition reduction.
    pub fn reduce_repetitions(self, v: bool) -> (r: Self)
        ensures
            r.spec_config() == (ParsitextConfig { reduce_repetitions: v, ..self.spec_config() }),
    {
        let mut b = self;
        b.inner.reduce_repetitions = v;
        b
    }

    /// Toggle Arabic harakat removal.
    pub fn remove_diacritics(self, v: bool) -> (r: Self)
        ensures
            r.spec_config() == (ParsitextConfig { remove_diacritics: v, ..self.spec_config() }),
    {
        let mut b = self;
        b.inner.remove_diacritics = v;
        b
    }

    /// Toggle heuristic ZWNJ insertion.
    pub fn insert_zwnj(self, v: bool) -> (r: Self)
        ensures
            r.spec_config() == (ParsitextConfig { insert_zwnj: v, ..self.spec_config() }),
    {
        let mut b = self;
        b.inner.insert_zwnj = v;
        b
    }

    /// Toggle informal (*goftari*) slang normalisation.
    pub fn enable_slang(self, v: bool) -> (r: Self)
        ensures
            r.spec_config() == (ParsitextConfig { enable_slang: v, ..self.spec_config() }),
    {
        let mut b = self;
        b.inner.enable_slang = v;
        b
    }

    /// Toggle entity recognition.
    pub fn enable_entity_recognition(self, v: bool) -> (r: Self)
        ensures
            r.spec_config() == (ParsitextConfig {
                enable_entity_recognition: v,
                ..self.spec_config()
            }),
    {
        let mut b = self;
        b.inner.enable_entity_recognition = v;
        b
    }

    /// Set the profanity filter level.
    pub fn profanity_level(self, level: ProfanityLevel) -> (r: Self)
        ensures
            r.spec_config() == (ParsitextConfig { profanity_level: level, ..self.spec_config() }),
    {
        let mut b = self;
        b.inner.profanity_level = level;
        b
    }

    /// Set the speed / quality mode.
    pub fn mode(self, mode: ProcessingMode) -> (r: Self)
        ensures
            r.spec_config() == (ParsitextConfig { mode: mode, ..self.spec_config() }),
    {
        let mut b = self;
        b.inner.mode = mode;
        b
    }

    /// Set user-defined replacement rules (applied last in the pipeline).
    pub fn custom_rules(self, rules: Vec<CustomRule>) -> (r: Self)
        ensures
            r.spec_config() == (ParsitextConfig { custom_rules: rules, ..self.spec_config() }),
    {
        let mut b = self;
        b.inner.custom_rules = rules;
        b
    }

    /// Append a single custom rule.
    pub fn add_rule(self, rule: CustomRule) -> (r: Self)
        ensures
            r.spec_config().custom_rules@ == self.spec_config().custom_rules@.push(rule),
            r.spec_config() == (ParsitextConfig {
                custom_rules: r.spec_config().custom_rules,
                ..self.spec_config()
            }),
    {
        let mut b = self;
        b.inner.custom_rules.push(rule);
        b
    }

    /// Consume the builder and produce the configuration.
    pub fn build(self) -> (c: ParsitextConfig)
        ensures
            c == self.spec_config(),
    {
        self.inner
    }
}

} // verus!
