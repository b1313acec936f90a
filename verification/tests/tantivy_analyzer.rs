use parsitext::tantivy_analyzer::PersianTokenizer;

fn tokens(s: &str, tk: PersianTokenizer) -> Vec<String> {
    tk.token_spans(s).into_iter().map(|t| t.text).collect()
}

#[test]
fn splits_on_whitespace_and_punct() {
    let r = tokens("سلام، دنیا!", PersianTokenizer::new());
    assert_eq!(r, vec!["سلام", "دنیا"]);
}

#[test]
fn keeps_zwnj_inside_token() {
    let r = tokens("می\u{200C}روم به خانه", PersianTokenizer::new());
    assert_eq!(r[0], "می\u{200C}روم");
}

#[test]
fn stem_filter() {
    let r = tokens("کتاب‌ها را خواندم", PersianTokenizer::new().with_stem(true));
    assert!(r[0].contains("کتاب"));
}

#[test]
fn empty_input_yields_no_tokens() {
    assert!(tokens("", PersianTokenizer::new()).is_empty());
    assert!(tokens("   ", PersianTokenizer::new()).is_empty());
}

#[test]
fn byte_offsets_correct() {
    let text = "سلام دنیا";
    let tk = PersianTokenizer::new();
    let spans = tk.token_spans(text);
    let mut stream = spans.iter();
    let t = stream.next().unwrap();
    assert_eq!(t.byte_start, 0);
    // "سلام" is 4 chars × 2 bytes = 8 bytes.
    assert_eq!(t.byte_end, 8);
    let t = stream.next().unwrap();
    // After "سلام " (9 bytes): start of "دنیا".
    assert_eq!(t.byte_start, 9);
}
