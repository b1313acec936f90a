//! The usage examples of the documentation, one test each.

use parsitext::money::parse as parse_money;
use parsitext::validators::{
    bank_card, bill, car_plate, landline, legal_id, national_id, phone, postal_code, sheba,
    Operator,
};
use parsitext::{
    diacritics, finglish, geo, numbers, phonetic, script, sentence, spell, stemmer, style,
    time_diff, transliterate, url_fix, zwnj_insert,
};
use parsitext::{
    CustomRule, DigitTarget, MoneyUnit, Parsitext, ParsitextConfig, ProfanityLevel, TextStats,
};

/// The share of letters that are Persian, zero when there are no letters.
fn persian_ratio(s: &TextStats) -> f64 {
    if s.letter_count > 0 {
        s.persian_letter_count as f64 / s.letter_count as f64
    } else {
        0.0
    }
}

#[test]
fn example_digits_to_latin() {
    let pt = Parsitext::new(ParsitextConfig::builder().unify_digits(DigitTarget::Latin).build());
    assert_eq!(pt.normalize_only("قیمت: ۱۵۰۰"), "قیمت: 1500");
}

#[test]
fn example_custom_rule_config() {
    let rule = CustomRule {
        pattern: "دوستانه".into(),
        replacement: "دوستانه‌ای".into(),
        whole_word: true,
    };
    let pt = Parsitext::new(ParsitextConfig::builder().custom_rules(vec![rule]).build());
    assert_eq!(pt.normalize_only("رفتار دوستانه"), "رفتار دوستانه‌ای");
}

#[test]
fn example_builder() {
    let config = ParsitextConfig::builder()
        .unify_digits(DigitTarget::Latin)
        .profanity_level(ProfanityLevel::Light)
        .enable_slang(true)
        .build();
    assert_eq!(config.unify_digits, DigitTarget::Latin);
    assert_eq!(config.profanity_level, ProfanityLevel::Light);
    assert!(config.enable_slang);
}

#[test]
fn example_remove_diacritics() {
    assert_eq!(diacritics::remove_diacritics("مُحَمَّد"), "محمد");
    assert_eq!(diacritics::remove_diacritics("كِتَابٌ"), "كتاب");
    assert_eq!(diacritics::remove_diacritics("سلاـم"), "سلام");
}

#[test]
fn example_process() {
    let pt = Parsitext::default();
    let result = pt.process("سلام داداش، قيمتش حدود 1.5 میلیون تومنه؟");
    assert!(result.normalized.contains('ی'));
    assert!(result.normalized.contains('۱'));
}

#[test]
fn example_process_entities() {
    let result = Parsitext::default().process("كتاب 09121234567");
    assert_eq!(result.entities.len(), 1);
    assert_eq!(result.normalized, "کتاب ۰۹۱۲۱۲۳۴۵۶۷");
}

#[test]
fn example_process_money_entity() {
    let pt = Parsitext::default();
    let result = pt.process("سلام داداش، قيمتش حدود ١.٥ میلیون تومنه؟");
    assert!(result.normalized.contains('ی'));
    assert!(result.normalized.contains('۱'));
    assert!(!result.entities.is_empty());
}

#[test]
fn example_engine_helpers() {
    let pt = Parsitext::default();
    assert_eq!(pt.normalize_only("كتاب"), "کتاب");
    assert!(pt.tokenize_only("سلام، دنیا!").contains(&"سلام".to_string()));
    assert_eq!(pt.remove_diacritics_only("مُحَمَّد"), "محمد");
    assert_eq!(pt.split_sentences("سلام. خوبی؟"), vec!["سلام.", "خوبی؟"]);
    assert_eq!(pt.text_stats("سلام دنیا!").word_count, 2);
    assert_eq!(pt.number_to_words(1234), "یک هزار و دویست و سی و چهار");
    assert_eq!(pt.number_from_words("دو میلیون و پانصد هزار"), Some(2_500_000));
    assert_eq!(pt.format_number(1_234_567), "۱،۲۳۴،۵۶۷");
    assert_eq!(pt.stem("کتاب‌ها"), "کتاب");
    let stems = pt.stem_tokens("کتاب‌های بزرگ‌ترین");
    assert!(stems.contains(&"کتاب".to_string()));
    assert!(stems.contains(&"بزرگ".to_string()));
    assert_eq!(pt.finglish_to_persian("salam"), "سلام");
    assert_eq!(pt.transliterate("سلام"), "slam");
    assert_eq!(pt.parse_money("۲ میلیون تومان").unwrap().value, 2_000_000);
    assert!(pt.is_persian("سلام دنیا"));
    assert!(!pt.is_persian("hello world"));
    assert!(pt.contains_persian("hello سلام"));
    assert!(!pt.contains_persian("hello world 123"));
    assert_eq!(pt.to_arabic("کتاب"), "كتاب");
    assert_eq!(pt.describe_time_diff(-3600), "۱ ساعت پیش");
    assert_eq!(pt.process("كتاب").to_string(), "کتاب");
}

#[test]
fn example_jalali_date() {
    let pt = Parsitext::default();
    let jd = pt.parse_jalali_date("1402/03/15").unwrap();
    assert_eq!((jd.year(), jd.month(), jd.day()), (1402, 3, 15));
}

#[test]
fn example_entity_display() {
    let entities = Parsitext::default().detect_entities("@reza");
    assert_eq!(entities[0].to_string(), "[Mention: \"@reza\"]");
}

#[test]
fn example_finglish() {
    assert_eq!(finglish::to_persian("salam"), "سلام");
    assert_eq!(finglish::to_persian("chetori?"), "چطوری?");
    assert_eq!(finglish::to_persian("man khoobam"), "من خوبم");
    assert_eq!(finglish::to_persian("salam khoobi?"), "سلام خوبی?");
    assert_eq!(finglish::to_persian("merci :)"), "مرسی :)");
}

#[test]
fn example_geo() {
    let p = geo::find_province_by_id(1).unwrap();
    assert_eq!(p.name_en, "Tehran");
    assert_eq!(p.capital_fa, "تهران");
    let p = geo::find_province_by_city("اصفهان").unwrap();
    assert_eq!(p.name_en, "Isfahan");
    assert_eq!(geo::find_province_by_city("Mashhad").unwrap().slug, "razavi-khorasan");
    assert_eq!(geo::find_province_by_city("اصفهان").unwrap().slug, "isfahan");
    assert_eq!(geo::find_province_by_city("Borujerd").unwrap().slug, "lorestan");
    assert_eq!(geo::find_province_by_city("کاشان").unwrap().slug, "isfahan");
    assert!(geo::find_province_by_city("Atlantis").is_none());
}

#[test]
fn example_money() {
    assert_eq!(parsitext::money::format(2_500_000, MoneyUnit::Toman), "۲،۵۰۰،۰۰۰ تومان");
    assert_eq!(parsitext::money::format(500, MoneyUnit::Rial), "۵۰۰ ریال");
    let m = parse_money("۵۰۰ هزار تومان").unwrap();
    assert_eq!(m.value, 500_000);
    assert_eq!(m.unit, MoneyUnit::Toman);
    assert_eq!(m.as_rials(), 5_000_000);
    let m = parse_money("دو میلیون ریال").unwrap();
    assert_eq!(m.value, 2_000_000);
    assert_eq!(m.unit, MoneyUnit::Rial);
    assert_eq!(parse_money("1,500,000 ریال").unwrap().value, 1_500_000);
    assert_eq!(parse_money("۲۰۰،۰۰۰ تومان").unwrap().value, 200_000);
    assert_eq!(parse_money("۱.۵ میلیون تومن").unwrap().value, 1_500_000);
    assert_eq!(parse_money("۲ میلیارد ریال").unwrap().value, 2_000_000_000);
}

#[test]
fn example_numbers() {
    assert_eq!(numbers::from_words("صفر"), Some(0));
    assert_eq!(numbers::from_words("بیست و یک"), Some(21));
    assert_eq!(numbers::from_words("صد و پنج"), Some(105));
    assert_eq!(numbers::from_words("یک هزار و دویست"), Some(1200));
    assert_eq!(numbers::from_words("دو میلیون"), Some(2_000_000));
    assert_eq!(numbers::from_words("منفی پنجاه"), Some(-50));
    assert_eq!(numbers::from_words("nope"), None);
    assert_eq!(numbers::format(1_234_567), "۱،۲۳۴،۵۶۷");
    assert_eq!(numbers::format(-1_000), "-۱،۰۰۰");
    assert_eq!(numbers::format(42), "۴۲");
    assert_eq!(numbers::to_words(0), "صفر");
    assert_eq!(numbers::to_words(7), "هفت");
    assert_eq!(numbers::to_words(21), "بیست و یک");
    assert_eq!(numbers::to_words(105), "صد و پنج");
    assert_eq!(numbers::to_words(1_234), "یک هزار و دویست و سی و چهار");
    assert_eq!(numbers::to_words(-42), "منفی چهل و دو");
    assert_eq!(numbers::ordinal(1), "اول");
    assert_eq!(numbers::ordinal(2), "دوم");
    assert_eq!(numbers::ordinal(3), "سوم");
    assert_eq!(numbers::ordinal(7), "هفتم");
    assert_eq!(numbers::ordinal(20), "بیستم");
    assert_eq!(numbers::ordinal(30), "سی‌ام");
}

#[test]
fn example_phonetic() {
    assert_eq!(phonetic::soundex("صبر"), phonetic::soundex("سبر"));
    assert_ne!(phonetic::soundex("کتاب"), phonetic::soundex("کنار"));
}

#[test]
fn example_script() {
    assert!(script::has_arabic("ك"));
    assert!(script::has_arabic("مدرسة"));
    assert!(!script::has_arabic("سلام دنیا"));
    assert!(script::has_persian("پارسی"));
    assert!(!script::has_persian("hello"));
    assert!(script::is_pure_persian("سلام دنیا"));
    assert!(script::is_pure_persian("سلام، خوبی؟"));
    assert!(!script::is_pure_persian("hello سلام"));
    assert_eq!(script::to_arabic("کتاب"), "كتاب");
    assert_eq!(script::to_arabic("یا علی"), "يا علي");
}

#[test]
fn example_sentences() {
    let sents = sentence::split_sentences("سلام. چطوری؟ خوبم!");
    assert_eq!(sents, vec!["سلام.", "چطوری؟", "خوبم!"]);
}

#[test]
fn example_spell() {
    let dict = ["سلام", "سلامتی", "سفر", "سفره"];
    assert!(spell::suggest("سلامن", &dict, 2).contains(&"سلام"));
    assert_eq!(spell::levenshtein("سلام", "سلام"), 0);
    assert_eq!(spell::levenshtein("کتاب", "کتیب"), 1);
    assert_eq!(spell::levenshtein("سلام", "سلامتی"), 2);
    assert!(spell::suggest_builtin("سلامن", 1).contains(&"سلام"));
    let dict = ["سلام", "کتاب", "سفر"];
    assert_eq!(spell::suggest("سلامی", &dict, 1), vec!["سلام"]);
}

#[test]
fn example_text_stats() {
    let stats = Parsitext::default().text_stats("سلام دنیا! امروز شنبه است.");
    assert_eq!(stats.word_count, 5);
    assert!(persian_ratio(&stats) > 0.9);
}

#[test]
fn example_stemmer() {
    assert_eq!(stemmer::stem("کتاب‌ها"), "کتاب");
    assert_eq!(stemmer::stem("کتاب‌هایم"), "کتاب");
    assert_eq!(stemmer::stem("بزرگ‌ترین"), "بزرگ");
    assert_eq!(stemmer::stem("دوستانم"), "دوست");
    assert_eq!(stemmer::stem("کتاب"), "کتاب");
    assert_eq!(stemmer::stem("پی"), "پی");
    let stems = stemmer::stem_tokens(&["کتاب‌ها".to_string(), "بزرگ‌ترین".to_string()]);
    assert_eq!(stems, vec!["کتاب", "بزرگ"]);
}

#[test]
fn example_style() {
    assert_eq!(style::to_chat("می‌خواهم"), "میخوام");
    assert_eq!(style::to_formal("میخوام"), "می‌خواهم");
    assert!(style::to_chat("salam khoobi").contains("سلام"));
    assert!(style::to_genz("ممنون").contains("مرسی") || style::to_genz("ممنون").contains("تنکس"));
}

#[test]
fn example_time_diff() {
    assert_eq!(time_diff::describe(0), "همین الان");
    assert_eq!(time_diff::describe(-90), "۱ دقیقه پیش");
    assert_eq!(time_diff::describe(-3 * 3600), "۳ ساعت پیش");
    assert_eq!(time_diff::describe(2 * 86400), "۲ روز دیگر");
    assert_eq!(time_diff::describe(-365 * 86400 * 5), "۵ سال پیش");
    assert_eq!(time_diff::describe_between(1_000_000, 1_000_000 + 3600), "۱ ساعت دیگر");
    assert_eq!(time_diff::describe_between(1_000_000, 1_000_000 - 7 * 86400), "۱ هفته پیش");
}

#[test]
fn example_transliterate() {
    assert_eq!(transliterate::to_latin("سلام"), "slam");
    assert_eq!(transliterate::to_latin("کتاب"), "ktab");
    assert_eq!(transliterate::to_latin("ایران"), "ayran");
}

#[test]
fn example_url_fix() {
    assert_eq!(url_fix::encode("سلام"), "%D8%B3%D9%84%D8%A7%D9%85");
    assert_eq!(url_fix::encode("hello-world"), "hello-world");
    assert_eq!(url_fix::decode("%D8%B3%D9%84%D8%A7%D9%85"), "سلام");
    assert_eq!(url_fix::decode("hello-%D8%A7"), "hello-ا");
    assert_eq!(url_fix::decode("100%"), "100%");
    assert_eq!(
        url_fix::fix("https://fa.wikipedia.org/wiki/%D8%A7%DB%8C%D8%B1%D8%A7%D9%86"),
        "https://fa.wikipedia.org/wiki/ایران"
    );
}

#[test]
fn example_bank_card() {
    assert!(bank_card::validate("6037990000000006"));
    assert!(bank_card::validate("6037-9900-0000-0006"));
    assert!(bank_card::validate("۶۰۳۷۹۹۰۰۰۰۰۰۰۰۰۶"));
    assert!(!bank_card::validate("6037990000000007"));
    assert!(!bank_card::validate("12345"));
}

#[test]
fn example_bill() {
    assert!(bill::validate_bill_id("7748317801"));
    assert!(bill::validate_bill_id("۷۷۴۸۳۱۷۸۰۱"));
    assert!(!bill::validate_bill_id("7748317800"));
    assert!(!bill::validate_bill_id("12345"));
    assert!(bill::validate_pay_id("7748317801", "1234986"));
    assert!(!bill::validate_pay_id("7748317801", "1234987"));
    assert!(!bill::validate_pay_id("123", "1234986"));
    assert_eq!(bill::bill_type("7748317801"), Some(bill::BillType::Other));
}

#[test]
fn example_car_plate() {
    assert!(car_plate::validate("12 ب 345 - 67"));
    assert!(car_plate::validate("۱۲ب۳۴۵۶۷"));
    assert!(!car_plate::validate("12 X 345 67"));
    assert!(!car_plate::validate("12 ب 345"));
    let p = car_plate::parse("12 ب 345 - 67").unwrap();
    assert_eq!(p.first, 12);
    assert_eq!(p.letter, 'ب');
    assert_eq!(p.second, 345);
    assert_eq!(p.province, 67);
}

#[test]
fn example_landline() {
    assert!(landline::validate("02112345678"));
    assert!(landline::validate("021-12345678"));
    assert!(landline::validate("۰۲۱۱۲۳۴۵۶۷۸"));
    assert!(!landline::validate("09121234567"));
    assert!(!landline::validate("0211234567"));
    assert_eq!(landline::province("02112345678"), Some(landline::Province::Tehran));
    assert_eq!(landline::province("03112345678"), Some(landline::Province::Isfahan));
}

#[test]
fn example_legal_id() {
    assert!(legal_id::validate("10380284790"));
    assert!(legal_id::validate("۱۰۳۸۰۲۸۴۷۹۰"));
    assert!(!legal_id::validate("12345678901"));
    assert!(!legal_id::validate("00000000000"));
    assert!(!legal_id::validate("123"));
}

#[test]
fn example_national_id() {
    assert!(national_id::validate("0499370899"));
    assert!(national_id::validate("۰۴۹۹۳۷۰۸۹۹"));
    assert!(!national_id::validate("1234567890"));
    assert!(!national_id::validate("0000000000"));
    assert!(!national_id::validate("12345"));
    assert_eq!(national_id::issuance_prefix("0499370899").as_deref(), Some("049"));
    assert_eq!(national_id::issuance_prefix("12"), None);
}

#[test]
fn example_phone() {
    assert!(phone::validate("09121234567"));
    assert!(phone::validate("+989121234567"));
    assert!(phone::validate("0098 912 123 4567"));
    assert!(phone::validate("۰۹۱۲۱۲۳۴۵۶۷"));
    assert!(!phone::validate("0812345678"));
    assert!(!phone::validate("0912123456"));
    assert_eq!(phone::canonicalize("+989121234567"), Some("09121234567".into()));
    assert_eq!(phone::canonicalize("۰۹۱۲۱۲۳۴۵۶۷"), Some("09121234567".into()));
    assert_eq!(phone::canonicalize("0812345678"), None);
    assert_eq!(phone::operator("09121234567"), Some(Operator::MCI));
    assert_eq!(phone::operator("09301234567"), Some(Operator::Irancell));
    assert_eq!(phone::operator("09221234567"), Some(Operator::RighTel));
}

#[test]
fn example_postal_code() {
    assert!(postal_code::validate("1969833114"));
    assert!(postal_code::validate("19698-33114"));
    assert!(postal_code::validate("۱۹۶۹۸۳۳۱۱۴"));
    assert!(!postal_code::validate("0123456789"));
    assert!(!postal_code::validate("12342567890"));
    assert!(!postal_code::validate("1111111111"));
}

#[test]
fn example_sheba() {
    assert!(sheba::validate("IR062960000000100324200001"));
    assert!(sheba::validate("IR06 2960 0000 0010 0324 2000 01"));
    assert!(!sheba::validate("IR062960000000100324200002"));
    assert!(!sheba::validate("US062960000000100324200001"));
    let iban = sheba::generate("017", '0', "0225264111007").unwrap();
    assert_eq!(iban, "IR720170000000225264111007");
    assert!(sheba::validate(&iban));
    assert_eq!(sheba::bank_code(&iban).as_deref(), Some("017"));
}

#[test]
fn example_zwnj_insert() {
    assert_eq!(zwnj_insert::insert("میروم"), "می\u{200C}روم");
    assert_eq!(zwnj_insert::insert("نمیدانم"), "نمی\u{200C}دانم");
    assert_eq!(zwnj_insert::insert("کتابها"), "کتاب\u{200C}ها");
    assert_eq!(zwnj_insert::insert("کتابهای"), "کتاب\u{200C}های");
}
