use parsitext::sentence::split_sentences;

#[test]
fn sentence_basic_split() {
    let r = split_sentences("سلام. چطوری؟ خوبم!");
    assert_eq!(r, vec!["سلام.", "چطوری؟", "خوبم!"]);
}

#[test]
fn no_delimiter() {
    assert_eq!(
        split_sentences("یک جمله بدون نقطه"),
        vec!["یک جمله بدون نقطه"]
    );
}

#[test]
fn trailing_whitespace_trimmed() {
    let r = split_sentences("  سلام.   خداحافظ؟  ");
    assert_eq!(r, vec!["سلام.", "خداحافظ؟"]);
}

#[test]
fn sentence_empty_input() {
    assert!(split_sentences("").is_empty());
}

#[test]
fn zwnj_not_a_boundary() {
    // می‌روم is one token; the ZWNJ must NOT split it.
    let r = split_sentences("می\u{200C}روم به خانه.");
    assert_eq!(r.len(), 1);
    assert!(r[0].contains('\u{200C}'));
}

#[test]
fn arabic_semicolon_splits() {
    let r = split_sentences("اول؛ دوم.");
    assert_eq!(r.len(), 2);
}
