use parsitext::tokenizer::tokenize;

#[test]
fn mod_basic_split() {
    assert_eq!(tokenize("سلام دنیا"), vec!["سلام", "دنیا"]);
}

#[test]
fn keeps_zwnj_compound() {
    // می‌روم is a single compound token
    let tokens = tokenize("می\u{200C}روم به خانه");
    assert_eq!(tokens[0], "می\u{200C}روم");
}

#[test]
fn detaches_punctuation() {
    let t = tokenize("سلام، دنیا!");
    assert!(t.contains(&"،".to_string()));
    assert!(t.contains(&"!".to_string()));
}

#[test]
fn mod_empty_input() {
    assert!(tokenize("").is_empty());
}
