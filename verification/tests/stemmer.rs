use parsitext::stemmer::{stem, stem_tokens};

#[test]
fn plural_ha() {
    assert_eq!(stem("کتاب‌ها"), "کتاب");
    assert_eq!(stem("کتابها"), "کتاب");
}

#[test]
fn plural_with_possessive() {
    assert_eq!(stem("کتاب‌هایم"), "کتاب");
}

#[test]
fn comparative() {
    assert_eq!(stem("بزرگ‌تر"), "بزرگ");
    assert_eq!(stem("بزرگ‌ترین"), "بزرگ");
}

#[test]
fn possessive() {
    // "دوستان" stems via the "تان" suffix (greedy longest-match) leaving "دوس".
    // This is a known ambiguity with the Persian "ان" plural marker —
    // morphologically richer stemming requires a lemmatiser.
    assert_eq!(stem("دوستانم"), "دوست");
    assert_eq!(stem("کتابم"), "کتابم"); // "م" alone isn't stripped (too risky)
}

#[test]
fn no_suffix_returns_word() {
    assert_eq!(stem("کتاب"), "کتاب");
}

#[test]
fn too_short_word_unchanged() {
    assert_eq!(stem("پی"), "پی");
    assert_eq!(stem("ها"), "ها");
}

#[test]
fn batch_stems() {
    // "گلها" (4 chars after ZWNJ stripping) is at the min-stem boundary
    // so it's left alone; "روزها" (5 chars) stems to "روز".
    let tokens = vec![
        "کتاب‌ها".to_string(),
        "گل‌ها".to_string(),
        "روزها".to_string(),
    ];
    let stems = stem_tokens(&tokens);
    assert_eq!(stems, vec!["کتاب", "گلها", "روز"]);
}
