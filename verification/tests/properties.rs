//! Concrete instances of the library's laws, edge cases and error paths.

use parsitext::config::{CustomRule, ParsitextConfig, ProcessingMode};
use parsitext::diacritics::remove_diacritics;
use parsitext::entity::EntityRecognizer;
use parsitext::engine::Parsitext;
use parsitext::finglish::to_persian as finglish_to_persian;
use parsitext::jalali::parse as parse_date;
use parsitext::money::{parse as parse_money, MoneyAmount, MoneyUnit};
use parsitext::normalizer::digits::{to_latin, to_persian};
use parsitext::normalizer::orthography::fix_arabic_chars;
use parsitext::normalizer::spacing::{normalize_spaces, reduce_repetitions};
use parsitext::normalizer::zwnj::normalize_zwnj;
use parsitext::numbers::{from_words, to_words};
use parsitext::phonetic::soundex;
use parsitext::script::{has_arabic, is_arabic_only_letter, to_arabic};
use parsitext::spell::{levenshtein, suggest};
use parsitext::sentence::split_sentences;
use parsitext::stats::compute;
use parsitext::tokenizer::tokenize;
use parsitext::stemmer::stem;
use parsitext::tantivy_analyzer::{collect_spans, PersianTokenizer};
use parsitext::url_fix::{decode, encode};
use parsitext::validators::car_plate::{parse as parse_plate, Plate};
use parsitext::validators::phone;
use parsitext::validators::sheba;
use parsitext::zwnj_insert::insert;
use parsitext::Error;

#[test]
fn generated_sheba_validates() {
    let iban = sheba::generate("017", '0', "123456789").unwrap();
    assert_eq!(iban.len(), 26);
    assert!(iban.starts_with("IR"));
    assert!(sheba::validate(&iban));
    assert_eq!(sheba::bank_code(&iban).as_deref(), Some("017"));
}

#[test]
fn generate_rejects_malformed_input() {
    assert!(sheba::generate("17", '0', "123").is_none());
    assert!(sheba::generate("017", 'x', "123").is_none());
    assert!(sheba::generate("017", '0', "12a").is_none());
    assert!(sheba::generate("017", '0', "1234567890123456789").is_none());
}

#[test]
fn plate_text_round_trips() {
    let p = Plate { first: 12, letter: 'ب', second: 345, province: 67 };
    assert_eq!(parse_plate(&p.to_string()), Some(p));
    let q = Plate { first: 99, letter: 'ی', second: 100, province: 11 };
    assert_eq!(parse_plate(&q.to_string()), Some(q));
}

#[test]
fn words_round_trip_various_magnitudes() {
    for n in [0i64, 7, -50, 999, 1_000, 1_000_001, 20_000_000_000, -999_999_999_999_999] {
        assert_eq!(from_words(&to_words(n)), Some(n), "round trip failed for {n}");
    }
}

#[test]
fn toman_rial_round_trip() {
    let m = MoneyAmount { value: 1_234, unit: MoneyUnit::Toman, raw: String::new() };
    assert_eq!(m.as_rials(), 12_340);
    let r = MoneyAmount { value: m.as_rials(), unit: MoneyUnit::Rial, raw: String::new() };
    assert_eq!(r.as_tomans(), 1_234);
}

#[test]
fn money_display_and_words() {
    let m = parse_money("۱.۵ میلیون تومان").unwrap();
    assert_eq!(m.value, 1_500_000);
    assert_eq!(m.unit.to_string(), "Toman");
    assert!(m.to_string().ends_with("Toman"));
    assert!(parse_money("تومان").is_none());
}

#[test]
fn soundex_of_homophone_spellings() {
    assert_eq!(soundex("ثابت"), soundex("سابت"));
    assert_eq!(soundex("ظرف"), soundex("زرف"));
    assert_eq!(soundex("حسن"), soundex("هسن"));
    assert_eq!(soundex("طلا"), soundex("تلا"));
}

#[test]
fn levenshtein_identity_and_symmetry() {
    assert_eq!(levenshtein("ایران", "ایران"), 0);
    assert_eq!(levenshtein("ایران", "ایرانی"), levenshtein("ایرانی", "ایران"));
    assert_eq!(levenshtein("flaw", "lawn"), 2);
    assert_eq!(levenshtein("lawn", "flaw"), 2);
}

#[test]
fn suggestions_within_distance_closest_first() {
    let dict = ["سلامت", "سلام", "کلام", "سفر"];
    let s = suggest("سلام", &dict, 1);
    assert_eq!(s, vec!["سلام", "سلامت", "کلام"]);
    for w in &s {
        assert!(levenshtein("سلام", w) <= 1);
    }
}

#[test]
fn stem_is_prefix_of_word_without_zwnj() {
    for w in ["کتاب‌هایم", "بزرگ‌ترین", "دوستانم", "روزها"] {
        let s = stem(w);
        let plain: String = w.chars().filter(|c| *c != '\u{200C}').collect();
        assert!(plain.starts_with(&s), "{s} is not a prefix of {plain}");
        assert!(s.chars().count() >= 3);
    }
}

#[test]
fn digit_scripts_round_trip() {
    let s = "۱٢3 و ۴۵";
    assert_eq!(to_latin(&to_persian(s)), to_latin(s));
    assert_eq!(to_persian(&to_latin(s)), to_persian(s));
    assert_eq!(to_latin(s), "123 و 45");
}

#[test]
fn reduced_repetitions_have_no_triple_runs() {
    let out = reduce_repetitions("واااااای!!!!! عالیییی");
    let v: Vec<char> = out.chars().collect();
    for w in v.windows(3) {
        assert!(!(w[0] == w[1] && w[1] == w[2]), "triple run in {out}");
    }
    assert_eq!(out, "واای!! عالیی");
    assert_eq!(reduce_repetitions(&out), out);
    assert_eq!(reduce_repetitions("۱۱۱۱ و \n\n\n"), "۱۱ و \n\n\n");
    assert_eq!(reduce_repetitions("11111"), "11");
    assert_eq!(reduce_repetitions("a\r\r\r\rb"), "a\r\r\r\rb");
}

#[test]
fn orthography_undoes_to_arabic() {
    for s in ["کتاب یک", "یا علی", "سلام"] {
        assert_eq!(fix_arabic_chars(&to_arabic(s)), fix_arabic_chars(s));
    }
}

#[test]
fn decode_undoes_encode() {
    for s in ["", "a b/c?d=e&f", "می‌روم ۱۲۳", "😀 emoji", "100%"] {
        assert_eq!(decode(&encode(s)), s);
    }
}

#[test]
fn insert_is_idempotent() {
    for s in ["میروم به خانه", "کتابهای نمیدانم", "ما", "کتابام."] {
        let once = insert(s);
        assert_eq!(insert(&once), once);
    }
}

#[test]
fn stats_counts_nest() {
    let s = compute("سلام hello ۱۲۳، دنیا!");
    assert!(s.persian_letter_count + s.latin_letter_count <= s.letter_count);
    assert!(s.space_count + s.letter_count + s.digit_count <= s.char_count);
    assert_eq!(s.latin_letter_count, 5);
    assert_eq!(s.persian_letter_count, 8);
    assert_eq!(s.digit_count, 3);
    assert_eq!(s.space_count, 3);
    assert_eq!(s.byte_count, "سلام hello ۱۲۳، دنیا!".len());
}

#[test]
fn stats_unique_tokens() {
    let s = compute("سلام سلام دنیا");
    assert_eq!(s.unique_token_count, 2);
    assert_eq!(s.word_count, 3);
    assert_eq!(s.sentence_count, 1);
}

#[test]
fn token_spans_cover_their_text() {
    let text = "«سلام»، می‌روم (به) خانه—فردا";
    let spans = collect_spans(text);
    let texts: Vec<&str> = spans.iter().map(|s| s.text.as_str()).collect();
    assert_eq!(texts, vec!["سلام", "می‌روم", "به", "خانه", "فردا"]);
    let mut last_end = 0;
    for s in &spans {
        assert_eq!(&text[s.byte_start..s.byte_end], s.text);
        assert!(s.byte_start >= last_end);
        last_end = s.byte_end;
    }
}

#[test]
fn tokenizer_with_normalization() {
    let tk = PersianTokenizer::new().with_normalize(true);
    let spans = tk.token_spans("كتاب 123");
    let texts: Vec<&str> = spans.iter().map(|s| s.text.as_str()).collect();
    assert_eq!(texts, vec!["کتاب", "۱۲۳"]);
}

#[test]
fn process_twice_agrees_and_batch_matches() {
    let pt = Parsitext::default();
    let a = pt.process("قيمت ۵۰۰ هزار تومان، تماس 09121234567");
    let b = pt.process("قيمت ۵۰۰ هزار تومان، تماس 09121234567");
    assert_eq!(a.normalized, b.normalized);
    assert_eq!(a.tokens, b.tokens);
    assert_eq!(a.entity_count(), b.entity_count());
    assert_eq!(a.stats.original_length, "قيمت ۵۰۰ هزار تومان، تماس 09121234567".len());
    assert_eq!(a.stats.normalized_length, a.normalized.len());
    let batch = pt.process_batch(&["كتاب", "", "09121234567"]);
    assert_eq!(batch.len(), 3);
    assert_eq!(batch[0].normalized, "کتاب");
    assert_eq!(batch[1].token_count(), 0);
    assert!(batch[2].entities.iter().any(|e| e.kind == parsitext::EntityKind::PhoneNumber));
}

#[test]
fn recognition_off_yields_no_entities() {
    let pt = Parsitext::new(ParsitextConfig::builder().enable_entity_recognition(false).build());
    assert!(pt.process("09121234567").entities.is_empty());
    assert!(pt.detect_entities("info@example.com").is_empty());
    let r = pt.process_with_mode("09121234567", ProcessingMode::MaximumQuality);
    assert!(r.entities.is_empty());
}

#[test]
fn try_new_rejects_empty_custom_pattern() {
    let bad = ParsitextConfig::builder().add_rule(CustomRule::new("", "x", false)).build();
    assert!(Parsitext::try_new(bad).is_none());
    let good = ParsitextConfig::builder().add_rule(CustomRule::new("الف", "ب", false)).build();
    let pt = Parsitext::try_new(good).unwrap();
    assert_eq!(pt.normalize_only("الفبا"), "ببا");
}

#[test]
fn jalali_leap_years_and_months() {
    assert!(parse_date("1399/12/30").is_some());
    assert!(parse_date("1400/12/30").is_none());
    assert!(parse_date("1402/07/31").is_none());
    assert!(parse_date("1402/06/31").is_some());
    assert!(parse_date("1402/13/01").is_none());
    assert!(parse_date("1402/01/00").is_none());
    let d = parse_date(" ۱ اسفند ۱۴۰۲ ").unwrap();
    assert_eq!((d.year(), d.month(), d.day()), (1402, 12, 1));
    let d = parse_date("  1402 - 1 - 2 ").unwrap();
    assert_eq!((d.year(), d.month(), d.day()), (1402, 1, 2));
    assert!(parse_date("1402/1").is_none());
    assert!(parse_date("۱۵ تیرماه ۱۴۰۲").is_none());
}

#[test]
fn error_messages() {
    assert_eq!(
        Error::PatternBuild("a\"b".to_string()).to_string(),
        "failed to compile pattern into automaton: \"a\\\"b\""
    );
    assert_eq!(Error::InvalidNationalId("1".to_string()).to_string(), "invalid Iranian national ID: \"1\"");
    assert_eq!(Error::InvalidIban("x".to_string()).to_string(), "invalid Iranian Sheba (IBAN): \"x\"");
    assert_eq!(Error::InvalidPhone("0".to_string()).to_string(), "invalid Iranian phone number: \"0\"");
    assert_eq!(Error::InvalidBankCard("6".to_string()).to_string(), "invalid Iranian bank card: \"6\"");
    assert_eq!(Error::InvalidPostalCode("".to_string()).to_string(), "invalid Iranian postal code: \"\"");
    assert_eq!(Error::InvalidCarPlate("ب".to_string()).to_string(), "invalid Iranian vehicle plate: \"ب\"");
}

#[test]
fn custom_rule_display() {
    assert_eq!(CustomRule::new("a", "b", true).to_string(), "\"a\" → \"b\"");
}

#[test]
fn engine_helpers_delegate() {
    let pt = Parsitext::default();
    assert_eq!(pt.number_to_words(1234), "یک هزار و دویست و سی و چهار");
    assert_eq!(pt.number_from_words("دو میلیون و پانصد هزار"), Some(2_500_000));
    assert_eq!(pt.format_number(1_234_567), "۱،۲۳۴،۵۶۷");
    assert_eq!(pt.stem("کتاب‌ها"), "کتاب");
    assert_eq!(pt.finglish_to_persian("salam"), "سلام");
    assert_eq!(pt.transliterate("سلام"), "slam");
    assert_eq!(pt.to_arabic("کتاب"), "كتاب");
    assert!(pt.has_arabic("كتاب"));
    assert_eq!(pt.describe_time_diff(-3600), "۱ ساعت پیش");
    assert_eq!(pt.url_decode(&pt.url_encode("سلام")), "سلام");
    assert_eq!(pt.parse_money("۲ میلیون تومان").unwrap().value, 2_000_000);
    assert_eq!(pt.insert_zwnj("میروم"), "می\u{200C}روم");
    assert_eq!(pt.levenshtein("kitten", "sitting"), 3);
    assert_eq!(pt.phonetic_code("صبر"), pt.phonetic_code("سبر"));
    assert!(pt.spell_suggest("سلام", 0).contains(&"سلام"));
    let d = pt.parse_jalali_date("1402/03/15").unwrap();
    assert_eq!((d.year(), d.month(), d.day()), (1402, 3, 15));
    let stems = pt.stem_tokens("کتاب‌های بزرگ‌ترین");
    assert_eq!(stems, vec!["کتاب", "بزرگ"]);
    assert_eq!(pt.to_formal("میخوام"), "می‌خواهم");
}

#[test]
fn orthography_pass_is_canonical() {
    let once = fix_arabic_chars("كتاب يك مدرسة إيران أحمد ى");
    for c in ['ك', 'ي', 'ى', 'ة', 'إ', 'أ'] {
        assert!(!once.contains(c), "{c} left in {once}");
    }
    assert_eq!(fix_arabic_chars(&once), once);
    assert_eq!(once, "کتاب یک مدرسه ایران احمد ی");
}

#[test]
fn zwnj_only_between_persian_letters() {
    let out = normalize_zwnj("\u{200C}می\u{200C}\u{200C}روم \u{200C}به Air\u{200C}خانه\u{200C}");
    let v: Vec<char> = out.chars().collect();
    let arabic = |c: char| ('\u{0600}'..='\u{06FF}').contains(&c);
    for (k, c) in v.iter().enumerate() {
        if *c == '\u{200C}' {
            assert!(k > 0 && k + 1 < v.len());
            assert!(arabic(v[k - 1]) && arabic(v[k + 1]));
        }
    }
    assert_eq!(out, "می\u{200C}روم به Airخانه");
    assert_eq!(normalize_zwnj("۱\u{200C}۲"), "۱۲");
    assert_eq!(normalize_zwnj("،\u{200C}؟"), "،؟");
    assert_eq!(normalize_zwnj("ب\u{200C}\u{200C}ب"), "ب\u{200C}ب");
}

#[test]
fn spaces_are_single_and_inner() {
    let out = normalize_spaces("\u{3000} سلام\t\t\u{00A0}دنیا \u{200B} !  ");
    assert_eq!(out, "سلام دنیا !");
    assert!(!out.starts_with(' ') && !out.ends_with(' '));
    assert!(!out.contains("  "));
    assert_eq!(normalize_spaces("   "), "");
    assert_eq!(normalize_spaces("a\nb"), "a\nb");
}

#[test]
fn tokens_lose_only_whitespace() {
    let text = "  سلام، دنیا!\tمی\u{200C}روم (به) «خانه»  ";
    let tokens = tokenize(text);
    let joined: String = tokens.concat();
    let no_ws: String = text.chars().filter(|c| !c.is_whitespace()).collect();
    assert_eq!(joined, no_ws);
    for t in &tokens {
        assert!(!t.is_empty());
        assert!(!t.chars().any(char::is_whitespace));
    }
}

#[test]
fn sentences_end_at_their_delimiter() {
    let sents = split_sentences("  اول.  دوم!! سوم؛ چهارم؟ پنجم بی‌نقطه  ");
    assert_eq!(sents, vec!["اول.", "دوم!", "سوم؛", "چهارم؟", "پنجم بی‌نقطه"]);
    let delims = ['.', '!', '؟', '؛'];
    for (j, t) in sents.iter().enumerate() {
        assert!(!t.is_empty());
        assert_eq!(t.trim(), t);
        let v: Vec<char> = t.chars().collect();
        assert!(v[..v.len() - 1].iter().all(|c| !delims.contains(c)));
        if j + 1 < sents.len() {
            assert!(delims.contains(v.last().unwrap()));
        }
    }
}

#[test]
fn diacritics_gone_and_stable() {
    let once = remove_diacritics("مُحَمَّدٌ سلاـــم كِتَابٌ");
    assert!(once.chars().all(|c| !('\u{064B}'..='\u{0655}').contains(&c) && c != '\u{0640}'));
    assert_eq!(remove_diacritics(&once), once);
    assert_eq!(once, "محمد سلام كتاب");
}

#[test]
fn finglish_ignores_case() {
    for s in ["Salam Doste Man!", "KHOSH amadid", "Chetori? MERCI"] {
        assert_eq!(finglish_to_persian(s), finglish_to_persian(&s.to_ascii_lowercase()));
    }
}

#[test]
fn phone_canonical_form_is_stable() {
    for p in ["+98 912 123 4567", "0098-935-123-4567", "۰۹۲۱۱۲۳۴۵۶۷"] {
        let c = phone::canonicalize(p).unwrap();
        assert!(phone::validate(&c));
        assert_eq!(phone::canonicalize(&c).as_deref(), Some(c.as_str()));
    }
    assert_eq!(phone::canonicalize("+98 912 123 4567").as_deref(), Some("09121234567"));
}

#[test]
fn normalized_text_has_no_arabic_variants_or_foreign_digits() {
    let pt = Parsitext::new(ParsitextConfig::builder().remove_diacritics(true).build());
    let out = pt.normalize_only("كِتابِ يك ١٢٣ و 456 مدرسة إ أ ى");
    for c in out.chars() {
        assert!(!"كيىةإأ".contains(c), "{c} left in {out}");
        assert!(!c.is_ascii_digit());
        assert!(!('\u{0660}'..='\u{0669}').contains(&c));
    }
    assert_eq!(out, "کتاب یک ۱۲۳ و ۴۵۶ مدرسه ا ا ی");
}

#[test]
fn money_format_then_parse() {
    for v in [0i64, 5, 1_000, 2_500_000, i64::MAX] {
        for u in [MoneyUnit::Toman, MoneyUnit::Rial] {
            let text = parsitext::money::format(v, u);
            let m = parse_money(&text).unwrap();
            assert_eq!((m.value, m.unit), (v, u));
            assert_eq!(m.raw, text);
        }
    }
}

#[test]
fn slug_lookup_ignores_case() {
    for s in ["Razavi-Khorasan", "TEHRAN", "isfahan", "Kohgiluyeh-And-Boyer-Ahmad", "nowhere"] {
        let a = parsitext::geo::find_province_by_slug(s);
        let b = parsitext::geo::find_province_by_slug(&s.to_ascii_lowercase());
        assert_eq!(a.map(|p| p.id), b.map(|p| p.id));
    }
    assert_eq!(parsitext::geo::find_province_by_slug("TEHRAN").unwrap().id, 1);
}

#[test]
fn default_tokenizer_neither_stems_nor_normalizes() {
    let spans = PersianTokenizer::default().token_spans("كتاب‌ها 12");
    let texts: Vec<&str> = spans.iter().map(|s| s.text.as_str()).collect();
    assert_eq!(texts, vec!["كتاب‌ها", "12"]);
}

#[test]
fn every_capital_is_found() {
    for p in parsitext::geo::get_all_provinces() {
        assert!(parsitext::geo::find_province_by_city(p.capital_en).is_some(), "{}", p.capital_en);
        assert!(parsitext::geo::find_province_by_city(p.capital_fa).is_some(), "{}", p.capital_fa);
    }
}

#[test]
fn insert_only_adds_zwnj() {
    for s in ["میروم و نمیدانم کتابهایم را.", "می\u{200C}روم", "hello کتابام!", ""] {
        let out = insert(s);
        let strip = |t: &str| t.chars().filter(|c| *c != '\u{200C}').collect::<String>();
        assert_eq!(strip(&out), strip(s));
        assert!(!out.contains("\u{200C}\u{200C}"));
    }
}

#[test]
fn arabic_only_letters_are_four() {
    for c in ['ة', 'ى', 'ي', 'ك'] {
        assert!(is_arabic_only_letter(c));
    }
    for c in ['إ', 'أ', 'ؤ', 'ئ', 'ک', 'ی', 'ه', 'a'] {
        assert!(!is_arabic_only_letter(c), "{c}");
    }
    assert!(!has_arabic("مسئول مؤسسه"));
    assert!(has_arabic("مدرسة"));
}

#[test]
fn repeated_delimiters_add_no_sentence() {
    assert_eq!(split_sentences("سلام!!"), vec!["سلام!"]);
    assert_eq!(split_sentences("!!! ..."), Vec::<String>::new());
    assert_eq!(split_sentences("الف.. ب"), vec!["الف.", "ب"]);
}

#[test]
fn detected_text_is_its_span() {
    let er = EntityRecognizer::new();
    let text = "شماره من ۰۹۱۲۳۴۵۶۷۸۹ و ایمیل a.b@example.com است";
    let es = er.detect(text);
    assert!(!es.is_empty());
    for e in &es {
        assert!(text.is_char_boundary(e.span.start) && text.is_char_boundary(e.span.end));
        assert_eq!(e.text, &text[e.span.start..e.span.end]);
    }
}

#[test]
fn levenshtein_bounds_and_triangle() {
    let words = ["kitten", "sitting", "", "کتاب", "کتابها", "sit", "kit"];
    for a in words {
        for b in words {
            let d = levenshtein(a, b);
            let (la, lb) = (a.chars().count(), b.chars().count());
            assert!(d >= la.abs_diff(lb) && d <= la.max(lb), "{a} {b}");
            assert_eq!(d == 0, a == b);
            for c in words {
                assert!(d <= levenshtein(a, c) + levenshtein(c, b), "{a} {b} {c}");
            }
        }
    }
    assert_eq!(levenshtein("kitten", "sitting"), 3);
}

#[test]
fn soundex_shape_and_spacing() {
    assert_eq!(soundex(""), "0000");
    assert_eq!(soundex(" \u{200C} "), "0000");
    for w in ["کتاب", "صبر", "خانه", "ا", "محمدرضا پهلوی"] {
        let code: Vec<char> = soundex(w).chars().collect();
        assert_eq!(code.len(), 4);
        assert!(code[1..].iter().all(|c| ('0'..='8').contains(c)), "{w}");
    }
    assert_eq!(soundex("کت\u{200C}اب"), soundex("کتاب"));
    assert_eq!(soundex(" کت اب\t"), soundex("کتاب"));
}

#[test]
fn finglish_keeps_separators_in_place() {
    let whole = finglish_to_persian("salam, khoobi?");
    let parts = format!("{}, {}?", finglish_to_persian("salam"), finglish_to_persian("khoobi"));
    assert_eq!(whole, parts);
    assert_eq!(whole, "سلام, خوبی?");
    for s in ["۱۲۳ !؟", "", "سلام دنیا", "12 - 34"] {
        assert_eq!(finglish_to_persian(s), s);
    }
}

#[test]
fn money_needs_a_unit_and_keeps_trimmed_text() {
    for s in ["۱۰۰ دلار", "۵۰۰", "", "هزار"] {
        assert_eq!(parse_money(s), None, "{s}");
    }
    let m = parse_money("  ۵ هزار تومان \n").unwrap();
    assert_eq!(m.raw, "۵ هزار تومان");
    assert_eq!(m.value, 5_000);
}

#[test]
fn to_words_sign_and_zero_word() {
    for n in [1i64, 5, 20, 100, 1_000, 1_000_000, 1_000_000_007, i64::MAX] {
        let w = to_words(n);
        assert!(!w.starts_with("منفی"), "{n}");
        assert!(!w.contains("صفر"), "{n}");
        assert_eq!(to_words(-n), format!("منفی {w}"));
        assert!(!to_words(-n).contains("صفر"));
    }
    assert!(to_words(i64::MIN).starts_with("منفی "));
    assert!(!to_words(i64::MIN).contains("صفر"));
    assert_eq!(to_words(0), "صفر");
}

#[test]
fn each_province_lists_its_capital_first() {
    for p in parsitext::geo::get_all_provinces() {
        let cities = parsitext::geo::get_cities_of_province(p.id);
        assert!(!cities.is_empty(), "{}", p.id);
        assert_eq!(cities[0], (p.capital_en, p.capital_fa));
    }
    assert!(parsitext::geo::get_cities_of_province(0).is_empty());
    assert!(parsitext::geo::get_cities_of_province(32).is_empty());
}

#[test]
fn zwnj_pass_drops_only_zwnj() {
    let strip = |s: &str| s.chars().filter(|c| *c != '\u{200C}').collect::<String>();
    for s in ["\u{200C}می\u{200C}\u{200C}روم \u{200C}به Air\u{200C}خانه\u{200C}", "۱\u{200C}۲", "abc", ""] {
        assert_eq!(strip(&normalize_zwnj(s)), strip(s));
    }
}

#[test]
fn sentences_keep_all_content() {
    let keep = |s: &str| {
        s.chars()
            .filter(|c| !c.is_whitespace() && !['.', '!', '؟', '؛'].contains(c))
            .collect::<String>()
    };
    for text in ["  اول.  دوم!! سوم؛ چهارم؟ پنجم بی‌نقطه  ", "!!! ...", "بدون نقطه", "a. b!c؟ ؛"] {
        assert_eq!(keep(&split_sentences(text).concat()), keep(text));
    }
}

#[test]
fn plate_parse_accepts_only_in_range() {
    let letters: Vec<char> = "ابپتثجچحدذرزژسشصضطظعغفقکگلمنوهی".chars().collect();
    for s in ["12ب345-67", "۱۲ ب ۳۴۵ ۶۷", "12-ی-999-11", "10ا10011", "99ه 999.99"] {
        let p = parse_plate(s).unwrap();
        assert!((10..=99).contains(&p.first) && (100..=999).contains(&p.second));
        assert!((11..=99).contains(&p.province) && letters.contains(&p.letter), "{s}");
    }
    for s in ["12بب345-67", "12ب345ب67", "12ب345-67x", "12ب345/67", "12a345-67", "12ك345-67"] {
        assert_eq!(parse_plate(s), None, "{s}");
    }
}

#[test]
fn soundex_same_group_same_code() {
    for (a, b) in [("صبر", "سبر"), ("ثابت", "سابط"), ("ذرت", "ظرط"), ("غم", "قم"), ("حال", "هال")] {
        assert_eq!(soundex(a), soundex(b), "{a} {b}");
    }
    assert_ne!(soundex("کتاب"), soundex("کنار"));
}

#[test]
fn canonical_phone_is_eleven_digits() {
    for s in ["+989121234567", "00989121234567", "09121234567", "۰۹۱۲ ۱۲۳ ۴۵۶۷"] {
        let c = phone::canonicalize(s).unwrap();
        assert_eq!(c.len(), 11);
        assert!(c.starts_with("09") && c.chars().all(|d| d.is_ascii_digit()));
        assert_eq!(phone::canonicalize(&c), Some(c.clone()));
    }
    assert_eq!(phone::canonicalize("+989121234567").as_deref(), Some("09121234567"));
}

#[test]
fn stats_sizes() {
    for t in ["سلام دنیا. خوبی؟", "", "abc!! def"] {
        let s = compute(t);
        assert_eq!(s.char_count, t.chars().count());
        assert_eq!(s.byte_count, t.len());
        assert_eq!(s.sentence_count, split_sentences(t).len());
    }
}

#[test]
fn fix_keeps_scheme_and_authority() {
    let q = "https://x.com/?q=%D8%B3%D9%84%D8%A7%D9%85";
    assert_eq!(parsitext::url_fix::fix(q), format!("https://x.com/{}", decode("?q=%D8%B3%D9%84%D8%A7%D9%85")));
    assert_eq!(parsitext::url_fix::fix(q), "https://x.com/?q=سلام");
    let p = "/wiki/%D8%A7%DB%8C%D8%B1%D8%A7%D9%86";
    assert_eq!(parsitext::url_fix::fix(p), decode(p));
    assert_eq!(parsitext::url_fix::fix("https://a.b"), "https://a.b");
}

#[test]
fn repetitions_reduced_run_by_run() {
    assert_eq!(reduce_repetitions("ییییی"), "یی");
    assert_eq!(reduce_repetitions("\n\n\n\n"), "\n\n\n\n");
    assert_eq!(reduce_repetitions("aa"), "aa");
    let (x, y) = ("خیییی", "لییی!!!");
    assert_eq!(reduce_repetitions(&format!("{x}{y}")), format!("{}{}", reduce_repetitions(x), reduce_repetitions(y)));
}
