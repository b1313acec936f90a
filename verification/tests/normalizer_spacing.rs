use parsitext::normalizer::spacing::{normalize_spaces, reduce_repetitions};

#[test]
fn collapses_multiple_spaces() {
    assert_eq!(normalize_spaces("سلام  دنیا"), "سلام دنیا");
}

#[test]
fn trims_edges() {
    assert_eq!(normalize_spaces("  سلام  "), "سلام");
}

#[test]
fn collapses_tab_nbsp() {
    assert_eq!(normalize_spaces("a\t\u{00A0}b"), "a b");
}

#[test]
fn reduces_letter_run() {
    // 5× ی collapses to 2× ی (not to 1; the rule is "max 2").
    assert_eq!(reduce_repetitions("خیییییلی"), "خییلی");
}

#[test]
fn reduces_punctuation_run() {
    assert_eq!(reduce_repetitions("!!!!!!"), "!!");
}

#[test]
fn keeps_two_repetitions() {
    assert_eq!(reduce_repetitions("آآ"), "آآ");
}

#[test]
fn preserves_newlines() {
    assert_eq!(reduce_repetitions("a\n\n\nb"), "a\n\n\nb");
}
