use parsitext::config::{ParsitextConfig, ProcessingMode};
use parsitext::engine::Parsitext;
use parsitext::stats::TextStats;

/// The share of letters that are Persian, zero when there are no letters.
fn persian_ratio(s: &TextStats) -> f64 {
    if s.letter_count > 0 {
        s.persian_letter_count as f64 / s.letter_count as f64
    } else {
        0.0
    }
}

fn pt() -> Parsitext {
    Parsitext::default()
}

#[test]
fn full_pipeline_orthography_and_digits() {
    let r = pt().process("سلام داداش، قيمتش ١.٥ میلیون تومنه؟");
    assert!(r.normalized.contains('ی'));
    assert!(r.normalized.contains('۱'));
    assert!(!r.tokens.is_empty());
}

#[test]
fn normalize_only() {
    assert_eq!(pt().normalize_only("كتاب"), "کتاب");
}

#[test]
fn remove_diacritics_only() {
    assert_eq!(pt().remove_diacritics_only("مُحَمَّد"), "محمد");
}

#[test]
fn split_sentences_basic() {
    let s = pt().split_sentences("جمله اول. جمله دوم؟");
    assert_eq!(s.len(), 2);
}

#[test]
fn text_stats_word_count() {
    let s = pt().text_stats("سلام دنیا خوبی");
    assert_eq!(s.word_count, 3);
    assert!(persian_ratio(&s) > 0.9);
}

#[test]
fn is_persian_true() {
    assert!(pt().is_persian("سلام دنیا"));
}

#[test]
fn is_persian_false() {
    assert!(!pt().is_persian("hello world"));
}

#[test]
fn contains_persian_mixed() {
    assert!(pt().contains_persian("hello سلام"));
    assert!(!pt().contains_persian("hello 123"));
}

#[test]
fn batch_length_matches() {
    let texts = vec!["سلام", "دنیا", "ایران"];
    assert_eq!(pt().process_batch(&texts).len(), 3);
}

#[test]
fn default_equals_new_default() {
    let a = Parsitext::default().normalize_only("كتاب");
    let b = Parsitext::new(ParsitextConfig::default()).normalize_only("كتاب");
    assert_eq!(a, b);
}

#[test]
fn process_with_mode_speed_skips_entities() {
    let r = pt().process_with_mode("09121234567", ProcessingMode::MaximumSpeed);
    assert!(r.entities.is_empty());
}

#[test]
fn config_accessor() {
    let pt = Parsitext::default();
    assert!(pt.config().normalize_orthography);
}
