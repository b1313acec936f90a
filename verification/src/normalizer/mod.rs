//! The normalisation pipeline: orthography → digits → ZWNJ → diacritics →
//! repetitions → spaces → ZWNJ insertion → slang → profanity → custom rules.

pub mod digits;
pub mod orthography;
pub mod spacing;
pub mod zwnj;

use vstd::prelude::*;
use crate::config::{CustomRule, DigitTarget, ParsitextConfig, ProfanityLevel};
use crate::data::{
    lemma_profanity_light_shape, lemma_profanity_medium_shape,
    lemma_slang_informal_shape, PROFANITY_LIGHT, PROFANITY_MEDIUM, SLANG_FORMAL, SLANG_INFORMAL,
};
use crate::diacritics::{remove_diacritics, spec_remove_diacritics};
use crate::matcher::{
    all_matches, lemma_small_table, nonempty_patterns, replace_matches, replaced,
    small_pattern_set, str_views, strings_of, Matcher,
};
use crate::normalizer::digits::{
    latin_digit_of, persian_digit_of, to_latin, to_persian, PERSIAN_DIGITS,
};
use crate::normalizer::orthography::{fix_arabic_chars, spec_fix_arabic_chars};
use crate::normalizer::spacing::{
    normalize_spaces, reduce_repetitions, spec_normalize_spaces, spec_reduce_repetitions,
};
use crate::normalizer::zwnj::{normalize_zwnj, spec_normalize_zwnj};
use crate::text::views;
use crate::zwnj_insert::{insert, spec_insert};

verus! {

/// The patterns of custom rules.
pub open spec fn rule_patterns(rules: Seq<CustomRule>) -> Seq<Seq<char>> {
    rules.map_values(|r: CustomRule| r.pattern@)
}

/// The replacements of custom rules.
pub open spec fn rule_replacements(rules: Seq<CustomRule>) -> Seq<Seq<char>> {
    rules.map_values(|r: CustomRule| r.replacement@)
}

/// The whole-word flags of custom rules.
pub open spec fn rule_whole(rules: Seq<CustomRule>) -> Seq<bool> {
    rules.map_values(|r: CustomRule| r.whole_word)
}

/// `t` with every match of `pats` replaced by the matching entry of `reps`,
/// at word boundaries only when `whole` says so.
pub open spec fn word_replace(t: Seq<char>, pats: Seq<Seq<char>>, reps: Seq<Seq<char>>, whole: Seq<bool>) -> Seq<char> {
    replaced(t, all_matches(t, pats), reps, whole)
}

/// Whole-word flags, all equal to `w`.
pub open spec fn all_flags(n: nat, w: bool) -> Seq<bool> {
    Seq::new(n, |i: int| w)
}

/// The profanity mask, `n` times.
pub open spec fn masks(n: nat) -> Seq<Seq<char>> {
    Seq::new(n, |i: int| "***"@)
}

/// Whole-word profanity masking with the given list.
pub open spec fn mask_profanity(t: Seq<char>, words: Seq<Seq<char>>) -> Seq<char> {
    word_replace(t, words, masks(words.len()), all_flags(words.len(), true))
}

/// The text after every pass the configuration enables.
pub open spec fn spec_normalize(c: ParsitextConfig, t: Seq<char>) -> Seq<char> {
    let s1 = if c.normalize_orthography {
        spec_fix_arabic_chars(t)
    } else {
        t
    };
    let s2 = match c.unify_digits {
        DigitTarget::Persian => s1.map_values(|ch: char| persian_digit_of(ch)),
        DigitTarget::Latin => s1.map_values(|ch: char| latin_digit_of(ch)),
        DigitTarget::Unchanged => s1,
    };
    let s3 = if c.normalize_zwnj {
        spec_normalize_zwnj(s2)
    } else {
        s2
    };
    let s4 = if c.remove_diacritics {
        spec_remove_diacritics(s3)
    } else {
        s3
    };
    let s5 = if c.reduce_repetitions {
        spec_reduce_repetitions(s4)
    } else {
        s4
    };
    let s6 = if c.remove_extra_spaces {
        spec_normalize_spaces(s5)
    } else {
        s5
    };
    let s7 = if c.insert_zwnj {
        spec_insert(s6)
    } else {
        s6
    };
    let s8 = if c.enable_slang {
        word_replace(
            s7,
            str_views(SLANG_INFORMAL@),
            str_views(SLANG_FORMAL@),
            all_flags(SLANG_INFORMAL@.len(), true),
        )
    } else {
        s7
    };
    let s9 = match c.profanity_level {
        ProfanityLevel::Off => s8,
        ProfanityLevel::Light => mask_profanity(s8, str_views(PROFANITY_LIGHT@)),
        ProfanityLevel::Medium => mask_profanity(s8, str_views(PROFANITY_MEDIUM@)),
    };
    let rules = c.custom_rules@;
    if rules.len() == 0 {
        s9
    } else {
        word_replace(s9, rule_patterns(rules), rule_replacements(rules), rule_whole(rules))
    }
}

/// A character the canonicalising passes leave: no Arabic Kaf, Arabic Yeh,
/// Alef Maksura, Teh Marbuta or hamza Alef, and no Latin or Arabic-Indic
/// digit.
pub open spec fn canonical_persian_char(c: char) -> bool {
    &&& c != 'ك' && c != 'ي' && c != 'ى' && c != 'ة' && c != 'إ' && c != 'أ'
    &&& !('0' <= c <= '9')
    &&& !(0x0660 <= (c as u32) <= 0x0669)
}

/// With orthography normalisation on and digits unified to Persian, no
/// Arabic letter variant and no non-Persian digit is left, whichever of the
/// removing passes (ZWNJ, diacritics, repetitions, spaces) are on, as long
/// as no pass that writes new text (ZWNJ insertion, slang, profanity,
/// custom rules) is on.
pub proof fn law_normalized_text_is_canonical(c: ParsitextConfig, t: Seq<char>)
    requires
        c.normalize_orthography,
        c.unify_digits == DigitTarget::Persian,
        !c.insert_zwnj,
        !c.enable_slang,
        c.profanity_level == ProfanityLevel::Off,
        c.custom_rules@.len() == 0,
    ensures
        forall|k: int|
            0 <= k < spec_normalize(c, t).len() ==> canonical_persian_char(
                #[trigger] spec_normalize(c, t)[k],
            ),
{
    let p = |ch: char| canonical_persian_char(ch);
    let s1 = spec_fix_arabic_chars(t);
    crate::normalizer::orthography::law_orthography_canonical(t);
    let s2 = s1.map_values(|ch: char| persian_digit_of(ch));
    assert forall|i: int| 0 <= i < s2.len() implies p(#[trigger] s2[i]) by {
        assert(s2[i] == persian_digit_of(s1[i]));
        let x = s1[i];
        assert(x != 'ك' && x != 'ي' && x != 'ى' && x != 'ة' && x != 'إ' && x != 'أ');
        assert(PERSIAN_DIGITS[0] == '۰' && PERSIAN_DIGITS[1] == '۱' && PERSIAN_DIGITS[2] == '۲'
            && PERSIAN_DIGITS[3] == '۳' && PERSIAN_DIGITS[4] == '۴' && PERSIAN_DIGITS[5] == '۵'
            && PERSIAN_DIGITS[6] == '۶' && PERSIAN_DIGITS[7] == '۷' && PERSIAN_DIGITS[8] == '۸'
            && PERSIAN_DIGITS[9] == '۹');
    }
    let s3 = if c.normalize_zwnj {
        spec_normalize_zwnj(s2)
    } else {
        s2
    };
    if c.normalize_zwnj {
        crate::text::lemma_keep_indices_preserves(
            s2,
            crate::normalizer::zwnj::zwnj_keep(s2),
            s2.len() as int,
            p,
        );
    }
    assert forall|i: int| 0 <= i < s3.len() implies p(#[trigger] s3[i]) by {}
    let s4 = if c.remove_diacritics {
        spec_remove_diacritics(s3)
    } else {
        s3
    };
    if c.remove_diacritics {
        crate::text::lemma_keep_chars_preserves(
            s3,
            |ch: char| !crate::diacritics::spec_is_diacritic(ch),
            p,
        );
    }
    assert forall|i: int| 0 <= i < s4.len() implies p(#[trigger] s4[i]) by {}
    let s5 = if c.reduce_repetitions {
        spec_reduce_repetitions(s4)
    } else {
        s4
    };
    if c.reduce_repetitions {
        crate::text::lemma_keep_indices_preserves(
            s4,
            crate::normalizer::spacing::not_excess(s4),
            s4.len() as int,
            p,
        );
    }
    assert forall|i: int| 0 <= i < s5.len() implies p(#[trigger] s5[i]) by {}
    if c.remove_extra_spaces {
        crate::normalizer::spacing::lemma_normalize_spaces_preserves(s5, p);
    }
    assert(spec_normalize(c, t) == if c.remove_extra_spaces {
        spec_normalize_spaces(s5)
    } else {
        s5
    });
}

/// A multi-pattern replacer with one replacement per pattern.
pub struct WordReplacer {
    matcher: Matcher,
    replacements: Vec<String>,
}

impl WordReplacer {
    pub closed spec fn patterns(&self) -> Seq<Seq<char>> {
        self.matcher.patterns()
    }

    pub closed spec fn replacements(&self) -> Seq<Seq<char>> {
        views(self.replacements@)
    }

    /// Non-empty patterns, one replacement each.
    pub open spec fn wf(&self) -> bool {
        nonempty_patterns(self.patterns()) && self.replacements().len() == self.patterns().len()
    }

    /// Compile `patterns`, to be replaced index by index by `replacements`.
    pub fn from_pairs(patterns: Vec<String>, replacements: Vec<String>) -> (r: Option<Self>)
        requires
            patterns@.len() == replacements@.len(),
            nonempty_patterns(views(patterns@)),
        ensures
            r matches Some(w) ==> w.wf() && w.patterns() == views(patterns@) && w.replacements()
                == views(replacements@),
            small_pattern_set(views(patterns@)) ==> r is Some,
    {
        match Matcher::new(patterns) {
            Some(matcher) => Some(WordReplacer { matcher, replacements }),
            None => None,
        }
    }

    /// Replace every match, at word boundaries only when `whole_word`.
    pub fn replace(&self, text: &str, whole_word: bool) -> (s: String)
        requires
            self.wf(),
        ensures
            s@ == word_replace(
                text@,
                self.patterns(),
                self.replacements(),
                all_flags(self.patterns().len(), whole_word),
            ),
    {
        let n = self.matcher.len();
        let mut whole: Vec<bool> = Vec::new();
        let mut i: usize = 0;
        while i < n
            invariant
                0 <= i <= n,
                n == self.patterns().len(),
                whole@ == all_flags(i as nat, whole_word),
            decreases n - i,
        {
            whole.push(whole_word);
            assert(whole@ =~= all_flags((i + 1) as nat, whole_word));
            i += 1;
        }
        replace_matches(text, &self.matcher, &self.replacements, &whole)
    }

    /// Replace every match, with the word-boundary rule of the custom rule
    /// at the same index (none where there is no such rule).
    pub fn replace_custom(&self, text: &str, rules: &Vec<CustomRule>) -> (s: String)
        requires
            self.wf(),
            rules@.len() == self.patterns().len(),
        ensures
            s@ == word_replace(text@, self.patterns(), self.replacements(), rule_whole(rules@)),
    {
        let n = self.matcher.len();
        let mut whole: Vec<bool> = Vec::new();
        let mut i: usize = 0;
        while i < n
            invariant
                0 <= i <= n,
                n == self.patterns().len(),
                rules@.len() == n,
                whole@ == rule_whole(rules@).take(i as int),
            decreases n - i,
        {
            whole.push(rules[i].whole_word);
            assert(rule_whole(rules@).take(i + 1) =~= rule_whole(rules@).take(i as int).push(
                rules@[i as int].whole_word,
            ));
            i += 1;
        }
        assert(rule_whole(rules@).take(n as int) =~= rule_whole(rules@));
        replace_matches(text, &self.matcher, &self.replacements, &whole)
    }
}

/// Whole-word masking of a word list with `"***"`.
pub struct ProfanityFilter {
    matcher: Matcher,
    word_count: usize,
}

impl ProfanityFilter {
    pub closed spec fn words(&self) -> Seq<Seq<char>> {
        self.matcher.patterns()
    }

    pub open spec fn wf(&self) -> bool {
        nonempty_patterns(self.words())
    }

    /// Compile a word list.
    pub fn new(words: Vec<String>) -> (r: Option<Self>)
        requires
            nonempty_patterns(views(words@)),
        ensures
            r matches Some(f) ==> f.wf() && f.words() == views(words@),
            small_pattern_set(views(words@)) ==> r is Some,
    {
        let n = words.len();
        match Matcher::new(words) {
            Some(matcher) => Some(ProfanityFilter { matcher, word_count: n }),
            None => None,
        }
    }

    /// Mask every whole-word occurrence of a listed word.
    pub fn replace(&self, text: &str) -> (s: String)
        requires
            self.wf(),
        ensures
            s@ == mask_profanity(text@, self.words()),
    {
        let n = self.matcher.len();
        let mut reps: Vec<String> = Vec::new();
        let mut whole: Vec<bool> = Vec::new();
        let mut i: usize = 0;
        while i < n
            invariant
                0 <= i <= n,
                n == self.words().len(),
                views(reps@) == masks(i as nat),
                whole@ == all_flags(i as nat, true),
            decreases n - i,
        {
            let ghost before = reps@;
            let m = "***".to_owned();
            reps.push(m);
            proof {
                crate::text::lemma_views_push(before, m);
            }
            assert(views(reps@) =~= masks((i + 1) as nat));
            whole.push(true);
            assert(whole@ =~= all_flags((i + 1) as nat, true));
            i += 1;
        }
        replace_matches(text, &self.matcher, &reps, &whole)
    }
}

/// The normalisation pipeline, compiled once and reused.
pub struct Normalizer {
    config: ParsitextConfig,
    slang: Option<WordReplacer>,
    profanity: Option<ProfanityFilter>,
    custom: Option<WordReplacer>,
}

/// Custom rules whose patterns are all non-empty.
pub open spec fn rules_ok(rules: Seq<CustomRule>) -> bool {
    nonempty_patterns(rule_patterns(rules))
}

impl Normalizer {
    /// The configuration the pipeline runs.
    pub closed spec fn config(&self) -> ParsitextConfig {
        self.config
    }

    /// The configuration the pipeline runs.
    pub fn config_ref(&self) -> (c: &ParsitextConfig)
        ensures
            *c == self.config(),
    {
        &self.config
    }

    /// The compiled passes match the configuration.
    pub closed spec fn wf(&self) -> bool {
        &&& (self.slang matches Some(w) ==> w.wf() && w.patterns() == str_views(SLANG_INFORMAL@)
            && w.replacements() == str_views(SLANG_FORMAL@))
        &&& (self.slang is Some <==> self.config.enable_slang)
        &&& (self.profanity matches Some(f) ==> f.wf() && match self.config.profanity_level {
            ProfanityLevel::Light => f.words() == str_views(PROFANITY_LIGHT@),
            ProfanityLevel::Medium => f.words() == str_views(PROFANITY_MEDIUM@),
            ProfanityLevel::Off => false,
        })
        &&& (self.profanity is None <==> self.config.profanity_level == ProfanityLevel::Off)
        &&& (self.custom matches Some(w) ==> w.wf() && w.patterns() == rule_patterns(
            self.config.custom_rules@,
        ) && w.replacements() == rule_replacements(self.config.custom_rules@))
        &&& (self.custom is None <==> self.config.custom_rules@.len() == 0)
    }

    /// Build the pipeline for `config`, compiling every matcher once.
    /// `None` only when the custom rules' automaton cannot be built (never
    /// for a small rule set).
    pub fn new(config: ParsitextConfig) -> (r: Option<Self>)
        requires
            rules_ok(config.custom_rules@),
        ensures
            r matches Some(n) ==> n.wf() && n.config() == config,
            small_pattern_set(rule_patterns(config.custom_rules@)) ==> r is Some,
    {
        proof {
            lemma_slang_informal_shape();
            lemma_profanity_light_shape();
            lemma_profanity_medium_shape();
            lemma_small_table(str_views(SLANG_INFORMAL@));
            lemma_small_table(str_views(PROFANITY_LIGHT@));
            lemma_small_table(str_views(PROFANITY_MEDIUM@));
        }
        let slang = if config.enable_slang {
            let pats = strings_of(&SLANG_INFORMAL);
            let reps = strings_of(&SLANG_FORMAL);
            assert(pats@.len() == views(pats@).len());
            assert(reps@.len() == views(reps@).len());
            match WordReplacer::from_pairs(pats, reps) {
                Some(w) => Some(w),
                None => {
                    return None;
                },
            }
        } else {
            None
        };
        let profanity = match config.profanity_level {
            ProfanityLevel::Off => None,
            ProfanityLevel::Light => match ProfanityFilter::new(strings_of(&PROFANITY_LIGHT)) {
                Some(f) => Some(f),
                None => {
                    return None;
                },
            },
            ProfanityLevel::Medium => match ProfanityFilter::new(strings_of(&PROFANITY_MEDIUM)) {
                Some(f) => Some(f),
                None => {
                    return None;
                },
            },
        };
        let custom = if config.custom_rules.len() == 0 {
            None
        } else {
            let mut pats: Vec<String> = Vec::new();
            let mut reps: Vec<String> = Vec::new();
            let mut i: usize = 0;
            while i < config.custom_rules.len()
                invariant
                    0 <= i <= config.custom_rules@.len(),
                    views(pats@) == rule_patterns(config.custom_rules@).take(i as int),
                    views(reps@) == rule_replacements(config.custom_rules@).take(i as int),
                decreases config.custom_rules@.len() - i,
            {
                let ghost bp = pats@;
                let ghost br = reps@;
                let p = config.custom_rules[i].pattern.as_str().to_owned();
                let q = config.custom_rules[i].replacement.as_str().to_owned();
                pats.push(p);
                reps.push(q);
                proof {
                    crate::text::lemma_views_push(bp, p);
                    crate::text::lemma_views_push(br, q);
                    assert(rule_patterns(config.custom_rules@).take(i + 1) =~= rule_patterns(
                        config.custom_rules@,
                    ).take(i as int).push(config.custom_rules@[i as int].pattern@));
                    assert(rule_replacements(config.custom_rules@).take(i + 1)
                        =~= rule_replacements(config.custom_rules@).take(i as int).push(
                        config.custom_rules@[i as int].replacement@,
                    ));
                }
                i += 1;
            }
            assert(rule_patterns(config.custom_rules@).take(i as int) =~= rule_patterns(
                config.custom_rules@,
            ));
            assert(rule_replacements(config.custom_rules@).take(i as int) =~= rule_replacements(
                config.custom_rules@,
            ));
            match WordReplacer::from_pairs(pats, reps) {
                Some(w) => Some(w),
                None => {
                    return None;
                },
            }
        };
        Some(Normalizer { config, slang, profanity, custom })
    }

    /// Run every enabled pass in order.
    pub fn normalize(&self, text: &str) -> (s: String)
        requires
            self.wf(),
        ensures
            s@ == spec_normalize(self.config(), text@),
    {
        let mut s = text.to_owned();
        if self.config.normalize_orthography {
            s = fix_arabic_chars(s.as_str());
        }
        match self.config.unify_digits {
            DigitTarget::Persian => {
                s = to_persian(s.as_str());
            },
            DigitTarget::Latin => {
                s = to_latin(s.as_str());
            },
            DigitTarget::Unchanged => {},
        }
        if self.config.normalize_zwnj {
            s = normalize_zwnj(s.as_str());
        }
        if self.config.remove_diacritics {
            s = remove_diacritics(s.as_str());
        }
        if self.config.reduce_repetitions {
            s = reduce_repetitions(s.as_str());
        }
        if self.config.remove_extra_spaces {
            s = normalize_spaces(s.as_str());
        }
        if self.config.insert_zwnj {
            s = insert(s.as_str());
        }
        match &self.slang {
            Some(sr) => {
                s = sr.replace(s.as_str(), true);
            },
            None => {},
        }
        match &self.profanity {
            Some(pf) => {
                s = pf.replace(s.as_str());
            },
            None => {},
        }
        match &self.custom {
            Some(cr) => {
                assert(self.config.custom_rules@.len() == rule_patterns(self.config.custom_rules@).len());
                s = cr.replace_custom(s.as_str(), &self.config.custom_rules);
            },
            None => {},
        }
        s
    }
}

} // verus!
