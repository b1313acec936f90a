use parsitext::spell::{levenshtein, suggest};

#[test]
fn distance_zero_for_equal() {
    assert_eq!(levenshtein("کتاب", "کتاب"), 0);
    assert_eq!(levenshtein("", ""), 0);
}

#[test]
fn distance_simple_edits() {
    assert_eq!(levenshtein("کتاب", "کتیب"), 1);
    assert_eq!(levenshtein("سلام", "سلامتی"), 2);
    assert_eq!(levenshtein("kitten", "sitting"), 3);
}

#[test]
fn distance_empty_inputs() {
    assert_eq!(levenshtein("", "abc"), 3);
    assert_eq!(levenshtein("abc", ""), 3);
}

#[test]
fn suggest_basic() {
    let dict = ["سلام", "کتاب", "سفر"];
    let s = suggest("سلامی", &dict, 1);
    assert_eq!(s, vec!["سلام"]);
}

#[test]
fn suggest_sorted_by_distance() {
    let dict = ["سفر", "سفره", "سلام"];
    let s = suggest("سفری", &dict, 2);
    // "سفر" (d=1) should come before "سفره" (d=2) and "سلام" (d=3)
    assert_eq!(s[0], "سفر");
}

#[test]
fn suggest_no_matches() {
    let dict = ["alpha", "beta"];
    assert!(suggest("سلام", &dict, 1).is_empty());
}
