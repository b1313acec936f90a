use parsitext::url_fix::{decode, encode, fix};

#[test]
fn encode_persian() {
    assert_eq!(encode("سلام"), "%D8%B3%D9%84%D8%A7%D9%85");
}

#[test]
fn encode_keeps_unreserved() {
    assert_eq!(encode("a-b_c.d~e0"), "a-b_c.d~e0");
}

#[test]
fn encode_space_and_punct() {
    assert_eq!(encode(" "), "%20");
    assert_eq!(encode("/"), "%2F");
}

#[test]
fn url_fix_round_trip() {
    for s in ["سلام", "ایران", "tehran-طهران-2024", "مدرسه ای"] {
        assert_eq!(decode(&encode(s)), s);
    }
}

#[test]
fn decode_passes_through_stray_percent() {
    assert_eq!(decode("100%"), "100%");
    assert_eq!(decode("%ZZ"), "%ZZ");
}

#[test]
fn decode_lowercase_hex() {
    assert_eq!(decode("%d8%a7"), "ا");
}

#[test]
fn fix_keeps_authority() {
    assert_eq!(
        fix("https://fa.wikipedia.org/wiki/%D8%A7%DB%8C%D8%B1%D8%A7%D9%86"),
        "https://fa.wikipedia.org/wiki/ایران"
    );
}

#[test]
fn fix_query_string() {
    assert_eq!(
        fix("https://x.com/?q=%D8%B3%D9%84%D8%A7%D9%85"),
        "https://x.com/?q=سلام"
    );
}

#[test]
fn fix_no_scheme() {
    assert_eq!(fix("/wiki/%D8%A7%DB%8C%D8%B1%D8%A7%D9%86"), "/wiki/ایران");
}
