use parsitext::style::{convert, to_chat, to_formal, to_genz, Style};

#[test]
fn formal_to_chat_basic() {
    assert_eq!(to_chat("می‌خواهم"), "میخوام");
    assert_eq!(to_chat("نمی‌دانم"), "نمیدونم");
}

#[test]
fn chat_to_formal_basic() {
    assert_eq!(to_formal("میخوام"), "می‌خواهم");
    assert_eq!(to_formal("نمیدونم"), "نمی‌دانم");
}

#[test]
fn finglish_input_to_chat() {
    let out = to_chat("salam khoobi");
    assert!(out.contains("سلام"));
    assert!(out.contains("خوب"));
}

#[test]
fn genz_swaps_loanwords() {
    let out = to_genz("سلام، ممنون از دعوت به مهمانی!");
    assert!(out.contains("های") || out.contains("مرسی"));
    assert!(out.contains("پارتی"));
}

#[test]
fn convert_dispatches() {
    assert_eq!(convert("می‌خواهم", Style::Chat), "میخوام");
    assert_eq!(convert("میخوام", Style::Formal), "می‌خواهم");
}

#[test]
fn whole_word_boundary_respected() {
    // "می‌خواهمی" should not match "می‌خواهم" because the trailing ی
    // is a word character — but our test patterns all end at word
    // boundaries so we just verify no panic on adjacent text.
    let _ = to_chat("ام می‌خواهم بروم");
}

#[test]
fn style_empty_string() {
    assert_eq!(to_chat(""), "");
    assert_eq!(to_formal(""), "");
    assert_eq!(to_genz(""), "");
}
