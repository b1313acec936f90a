//! Iranian geographic data: the 31 provinces with their capitals and area
//! codes, and a curated list of major cities for province lookup.

use vstd::prelude::*;
use crate::text::{
    chars_eq, chars_of, eq_ignore_ascii_case, fold_ascii, fold_chars, spec_is_whitespace, spec_trim,
    trim_chars,
};

verus! {

/// A single Iranian province with its capital and telephone area code.
#[derive(Debug, Clone, Copy, PartialEq, Eq)]
pub struct Province {
    /// 1-based stable identifier (1..=31), in the order of [`get_all_provinces`].
    pub id: u32,
    /// URL-safe English slug, e.g. `"east-azerbaijan"`.
    pub slug: &'static str,
    /// English name, e.g. `"Tehran"`.
    pub name_en: &'static str,
    /// Persian name, e.g. `"تهران"`.
    pub name_fa: &'static str,
    /// English capital city, e.g. `"Tehran"`.
    pub capital_en: &'static str,
    /// Persian capital city, e.g. `"تهران"`.
    pub capital_fa: &'static str,
    /// Provincial telephone area code, e.g. `"21"` for Tehran.
    pub tel_prefix: &'static str,
}

/// URL-safe English slugs of the 31 provinces, in id order.
pub const PROVINCE_SLUGS: [&'static str; 31] = [
    "tehran",
    "qom",
    "markazi",
    "qazvin",
    "gilan",
    "ardabil",
    "zanjan",
    "east-azerbaijan",
    "west-azerbaijan",
    "kurdistan",
    "hamadan",
    "kermanshah",
    "ilam",
    "lorestan",
    "khuzestan",
    "chaharmahal",
    "kohgiluyeh",
    "bushehr",
    "fars",
    "hormozgan",
    "sistan-baluchestan",
    "kerman",
    "yazd",
    "isfahan",
    "semnan",
    "mazandaran",
    "golestan",
    "north-khorasan",
    "razavi-khorasan",
    "south-khorasan",
    "alborz",
];

/// English names of the 31 provinces, in id order.
pub const PROVINCE_NAMES_EN: [&'static str; 31] = [
    "Tehran",
    "Qom",
    "Markazi",
    "Qazvin",
    "Gilan",
    "Ardabil",
    "Zanjan",
    "East Azerbaijan",
    "West Azerbaijan",
    "Kurdistan",
    "Hamadan",
    "Kermanshah",
    "Ilam",
    "Lorestan",
    "Khuzestan",
    "Chaharmahal & Bakhtiari",
    "Kohgiluyeh & Boyer-Ahmad",
    "Bushehr",
    "Fars",
    "Hormozgan",
    "Sistan & Baluchestan",
    "Kerman",
    "Yazd",
    "Isfahan",
    "Semnan",
    "Mazandaran",
    "Golestan",
    "North Khorasan",
    "Razavi Khorasan",
    "South Khorasan",
    "Alborz",
];

/// Persian names of the 31 provinces, in id order.
pub const PROVINCE_NAMES_FA: [&'static str; 31] = [
    "تهران",
    "قم",
    "مرکزی",
    "قزوین",
    "گیلان",
    "اردبیل",
    "زنجان",
    "آذربایجان شرقی",
    "آذربایجان غربی",
    "کردستان",
    "همدان",
    "کرمانشاه",
    "ایلام",
    "لرستان",
    "خوزستان",
    "چهارمحال و بختیاری",
    "کهگیلویه و بویراحمد",
    "بوشهر",
    "فارس",
    "هرمزگان",
    "سیستان و بلوچستان",
    "کرمان",
    "یزد",
    "اصفهان",
    "سمنان",
    "مازندران",
    "گلستان",
    "خراسان شمالی",
    "خراسان رضوی",
    "خراسان جنوبی",
    "البرز",
];

/// English capital names of the 31 provinces, in id order.
pub const CAPITALS_EN: [&'static str; 31] = [
    "Tehran",
    "Qom",
    "Arak",
    "Qazvin",
    "Rasht",
    "Ardabil",
    "Zanjan",
    "Tabriz",
    "Urmia",
    "Sanandaj",
    "Hamadan",
    "Kermanshah",
    "Ilam",
    "Khorramabad",
    "Ahvaz",
    "Shahrekord",
    "Yasuj",
    "Bushehr",
    "Shiraz",
    "Bandar Abbas",
    "Zahedan",
    "Kerman",
    "Yazd",
    "Isfahan",
    "Semnan",
    "Sari",
    "Gorgan",
    "Bojnurd",
    "Mashhad",
    "Birjand",
    "Karaj",
];

/// Persian capital names of the 31 provinces, in id order.
pub const CAPITALS_FA: [&'static str; 31] = [
    "تهران",
    "قم",
    "اراک",
    "قزوین",
    "رشت",
    "اردبیل",
    "زنجان",
    "تبریز",
    "ارومیه",
    "سنندج",
    "همدان",
    "کرمانشاه",
    "ایلام",
    "خرم‌آباد",
    "اهواز",
    "شهرکرد",
    "یاسوج",
    "بوشهر",
    "شیراز",
    "بندرعباس",
    "زاهدان",
    "کرمان",
    "یزد",
    "اصفهان",
    "سمنان",
    "ساری",
    "گرگان",
    "بجنورد",
    "مشهد",
    "بیرجند",
    "کرج",
];

/// Telephone area codes of the 31 provinces, in id order.
pub const TEL_PREFIXES: [&'static str; 31] = [
    "21",
    "25",
    "86",
    "28",
    "13",
    "45",
    "24",
    "41",
    "44",
    "87",
    "81",
    "83",
    "84",
    "66",
    "61",
    "38",
    "74",
    "77",
    "71",
    "76",
    "54",
    "34",
    "35",
    "31",
    "23",
    "11",
    "17",
    "58",
    "51",
    "56",
    "26",
];

/// The province at position `i` (id `i + 1`).
pub open spec fn province_at(i: int) -> Province {
    Province {
        id: (i + 1) as u32,
        slug: PROVINCE_SLUGS[i],
        name_en: PROVINCE_NAMES_EN[i],
        name_fa: PROVINCE_NAMES_FA[i],
        capital_en: CAPITALS_EN[i],
        capital_fa: CAPITALS_FA[i],
        tel_prefix: TEL_PREFIXES[i],
    }
}

/// All provinces, in id order.
pub open spec fn all_provinces() -> Seq<Province> {
    Seq::new(31, |i: int| province_at(i))
}

fn make_province(i: usize) -> (p: Province)
    requires
        i < 31,
    ensures
        p == province_at(i as int),
{
    Province {
        id: (i + 1) as u32,
        slug: PROVINCE_SLUGS[i],
        name_en: PROVINCE_NAMES_EN[i],
        name_fa: PROVINCE_NAMES_FA[i],
        capital_en: CAPITALS_EN[i],
        capital_fa: CAPITALS_FA[i],
        tel_prefix: TEL_PREFIXES[i],
    }
}

/// English names of the embedded cities.
pub const CITY_EN: [&'static str; 132] = [
    "Tehran",
    "Rey",
    "Shemiranat",
    "Eslamshahr",
    "Pakdasht",
    "Damavand",
    "Qom",
    "Arak",
    "Saveh",
    "Khomein",
    "Mahalat",
    "Qazvin",
    "Takestan",
    "Rasht",
    "Anzali",
    "Lahijan",
    "Astara",
    "Langarud",
    "Ardabil",
    "Meshgin Shahr",
    "Parsabad",
    "Zanjan",
    "Abhar",
    "Tabriz",
    "Maragheh",
    "Marand",
    "Ahar",
    "Bonab",
    "Urmia",
    "Khoy",
    "Mahabad",
    "Miandoab",
    "Salmas",
    "Sanandaj",
    "Saqqez",
    "Marivan",
    "Bijar",
    "Hamadan",
    "Malayer",
    "Nahavand",
    "Tuyserkan",
    "Kermanshah",
    "Eslamabad-e Gharb",
    "Sonqor",
    "Ilam",
    "Dehloran",
    "Khorramabad",
    "Borujerd",
    "Aligudarz",
    "Dorud",
    "Ahvaz",
    "Abadan",
    "Khorramshahr",
    "Dezful",
    "Mahshahr",
    "Shushtar",
    "Behbahan",
    "Shahrekord",
    "Borujen",
    "Yasuj",
    "Dogonbadan",
    "Bushehr",
    "Borazjan",
    "Genaveh",
    "Asaluyeh",
    "Shiraz",
    "Marvdasht",
    "Jahrom",
    "Kazerun",
    "Fasa",
    "Lar",
    "Bandar Abbas",
    "Bandar Lengeh",
    "Minab",
    "Qeshm",
    "Kish",
    "Zahedan",
    "Zabol",
    "Iranshahr",
    "Chabahar",
    "Kerman",
    "Rafsanjan",
    "Bam",
    "Sirjan",
    "Jiroft",
    "Zarand",
    "Yazd",
    "Meybod",
    "Ardakan",
    "Bafq",
    "Isfahan",
    "Kashan",
    "Najafabad",
    "Khomeyni Shahr",
    "Shahin Shahr",
    "Falavarjan",
    "Mobarakeh",
    "Natanz",
    "Semnan",
    "Shahrud",
    "Damghan",
    "Garmsar",
    "Sari",
    "Babol",
    "Amol",
    "Qaem Shahr",
    "Behshahr",
    "Tonekabon",
    "Chalus",
    "Nowshahr",
    "Ramsar",
    "Gorgan",
    "Gonbad-e Kavus",
    "Aliabad-e Katul",
    "Bandar Torkaman",
    "Bojnurd",
    "Esfarayen",
    "Shirvan",
    "Mashhad",
    "Neyshabur",
    "Sabzevar",
    "Torbat-e Heydarieh",
    "Quchan",
    "Kashmar",
    "Gonabad",
    "Birjand",
    "Qaen",
    "Ferdows",
    "Karaj",
    "Nazarabad",
    "Hashtgerd",
    "Eshtehard",
];

/// Persian names of the embedded cities.
pub const CITY_FA: [&'static str; 132] = [
    "تهران",
    "ری",
    "شمیرانات",
    "اسلامشهر",
    "پاکدشت",
    "دماوند",
    "قم",
    "اراک",
    "ساوه",
    "خمین",
    "محلات",
    "قزوین",
    "تاکستان",
    "رشت",
    "بندر انزلی",
    "لاهیجان",
    "آستارا",
    "لنگرود",
    "اردبیل",
    "مشگین شهر",
    "پارس‌آباد",
    "زنجان",
    "ابهر",
    "تبریز",
    "مراغه",
    "مرند",
    "اهر",
    "بناب",
    "ارومیه",
    "خوی",
    "مهاباد",
    "میاندوآب",
    "سلماس",
    "سنندج",
    "سقز",
    "مریوان",
    "بیجار",
    "همدان",
    "ملایر",
    "نهاوند",
    "تویسرکان",
    "کرمانشاه",
    "اسلام‌آباد غرب",
    "سنقر",
    "ایلام",
    "دهلران",
    "خرم‌آباد",
    "بروجرد",
    "الیگودرز",
    "دورود",
    "اهواز",
    "آبادان",
    "خرمشهر",
    "دزفول",
    "ماهشهر",
    "شوشتر",
    "بهبهان",
    "شهرکرد",
    "بروجن",
    "یاسوج",
    "دوگنبدان",
    "بوشهر",
    "برازجان",
    "گناوه",
    "عسلویه",
    "شیراز",
    "مرودشت",
    "جهرم",
    "کازرون",
    "فسا",
    "لار",
    "بندرعباس",
    "بندر لنگه",
    "میناب",
    "قشم",
    "کیش",
    "زاهدان",
    "زابل",
    "ایرانشهر",
    "چابهار",
    "کرمان",
    "رفسنجان",
    "بم",
    "سیرجان",
    "جیرفت",
    "زرند",
    "یزد",
    "میبد",
    "اردکان",
    "بافق",
    "اصفهان",
    "کاشان",
    "نجف‌آباد",
    "خمینی‌شهر",
    "شاهین‌شهر",
    "فلاورجان",
    "مبارکه",
    "نطنز",
    "سمنان",
    "شاهرود",
    "دامغان",
    "گرمسار",
    "ساری",
    "بابل",
    "آمل",
    "قائم‌شهر",
    "بهشهر",
    "تنکابن",
    "چالوس",
    "نوشهر",
    "رامسر",
    "گرگان",
    "گنبد کاووس",
    "علی‌آباد کتول",
    "بندر ترکمن",
    "بجنورد",
    "اسفراین",
    "شیروان",
    "مشهد",
    "نیشابور",
    "سبزوار",
    "تربت حیدریه",
    "قوچان",
    "کاشمر",
    "گناباد",
    "بیرجند",
    "قائن",
    "فردوس",
    "کرج",
    "نظرآباد",
    "هشتگرد",
    "اشتهارد",
];

/// Province id of each embedded city.
pub const CITY_PROVINCE: [u32; 132] = [
    1, 1, 1, 1, 1, 1, 2, 3, 3, 3, 3, 4, 4, 5, 5, 5, 5, 5, 6, 6,
    6, 7, 7, 8, 8, 8, 8, 8, 9, 9, 9, 9, 9, 10, 10, 10, 10, 11, 11, 11,
    11, 12, 12, 12, 13, 13, 14, 14, 14, 14, 15, 15, 15, 15, 15, 15, 15, 16, 16, 17,
    17, 18, 18, 18, 18, 19, 19, 19, 19, 19, 19, 20, 20, 20, 20, 20, 21, 21, 21, 21,
    22, 22, 22, 22, 22, 22, 23, 23, 23, 23, 24, 24, 24, 24, 24, 24, 24, 24, 25, 25,
    25, 25, 26, 26, 26, 26, 26, 26, 26, 26, 26, 27, 27, 27, 27, 28, 28, 28, 29, 29,
    29, 29, 29, 29, 29, 30, 30, 30, 31, 31, 31, 31,
];

pub const N_CITIES: usize = 132;

/// Index of the first province (from `i` on) with the given id.
pub open spec fn province_index(id: u32, i: int) -> Option<int>
    decreases 31 - i,
{
    if i < 0 || i >= 31 {
        None
    } else if province_at(i).id == id {
        Some(i)
    } else {
        province_index(id, i + 1)
    }
}

/// The province with the given id.
pub open spec fn spec_by_id(id: u32) -> Option<Province> {
    match province_index(id, 0) {
        Some(i) => Some(province_at(i)),
        None => None,
    }
}

/// Index of the first province (from `i` on) whose slug matches `s`,
/// ignoring ASCII case.
pub open spec fn slug_index(s: Seq<char>, i: int) -> Option<int>
    decreases 31 - i,
{
    if i < 0 || i >= 31 {
        None
    } else if fold_ascii(province_at(i).slug@) == fold_ascii(s) {
        Some(i)
    } else {
        slug_index(s, i + 1)
    }
}

/// Index of the first city (from `k` on) named `t`: its English name
/// ignoring ASCII case, or its Persian name exactly.
pub open spec fn city_index(t: Seq<char>, k: int) -> Option<int>
    decreases N_CITIES - k,
{
    if k < 0 || k >= N_CITIES {
        None
    } else if fold_ascii(CITY_EN[k]@) == fold_ascii(t) || CITY_FA[k]@ == t {
        Some(k)
    } else {
        city_index(t, k + 1)
    }
}

/// Whether `t` names province `p` or its capital.
pub open spec fn names_province(p: Province, t: Seq<char>) -> bool {
    fold_ascii(p.name_en@) == fold_ascii(t) || fold_ascii(p.capital_en@) == fold_ascii(t)
        || p.name_fa@ == t || p.capital_fa@ == t
}

/// Index of the first province (from `i` on) that `t` names.
pub open spec fn name_index(t: Seq<char>, i: int) -> Option<int>
    decreases 31 - i,
{
    if i < 0 || i >= 31 {
        None
    } else if names_province(province_at(i), t) {
        Some(i)
    } else {
        name_index(t, i + 1)
    }
}

/// The province a place name belongs to.
pub open spec fn spec_by_city(name: Seq<char>) -> Option<Province> {
    let t = spec_trim(name);
    if t.len() == 0 {
        None
    } else {
        match city_index(t, 0) {
            Some(k) => spec_by_id(CITY_PROVINCE[k]),
            None => match name_index(t, 0) {
                Some(i) => Some(province_at(i)),
                None => None,
            },
        }
    }
}

/// The cities among the first `k` entries that belong to `pid`.
pub open spec fn cities_of(pid: u32, k: int) -> Seq<(&'static str, &'static str)>
    decreases k,
{
    if k <= 0 {
        seq![]
    } else if CITY_PROVINCE[k - 1] == pid {
        cities_of(pid, k - 1).push((CITY_EN[k - 1], CITY_FA[k - 1]))
    } else {
        cities_of(pid, k - 1)
    }
}

/// Return all 31 provinces.
pub fn get_all_provinces() -> (r: Vec<Province>)
    ensures
        r@ == all_provinces(),
{
    let mut out: Vec<Province> = Vec::new();
    let mut i: usize = 0;
    while i < 31
        invariant
            0 <= i <= 31,
            out@ == all_provinces().take(i as int),
        decreases 31 - i,
    {
        out.push(make_province(i));
        assert(all_provinces().take(i + 1) =~= all_provinces().take(i as int).push(province_at(i as int)));
        i += 1;
    }
    assert(all_provinces().take(31) =~= all_provinces());
    out
}

/// Find a province by its stable 1-based id.
pub fn find_province_by_id(id: u32) -> (r: Option<Province>)
    ensures
        r == spec_by_id(id),
{
    let mut i: usize = 0;
    while i < 31
        invariant
            0 <= i <= 31,
            province_index(id, 0) == province_index(id, i as int),
        decreases 31 - i,
    {
        if i as u32 + 1 == id {
            return Some(make_province(i));
        }
        i += 1;
    }
    None
}

/// Find a province by URL slug (e.g. `"razavi-khorasan"`), ignoring ASCII
/// case.
pub fn find_province_by_slug(slug: &str) -> (r: Option<Province>)
    ensures
        r == (match slug_index(fold_ascii(slug@), 0) {
            Some(i) => Some(province_at(i)),
            None => None,
        }),
{
    let s = fold_chars(&chars_of(slug));
    let mut i: usize = 0;
    while i < 31
        invariant
            0 <= i <= 31,
            s@ == fold_ascii(slug@),
            slug_index(s@, 0) == slug_index(s@, i as int),
        decreases 31 - i,
    {
        if eq_ignore_ascii_case(&chars_of(PROVINCE_SLUGS[i]), &s) {
            return Some(make_province(i));
        }
        i += 1;
    }
    None
}

/// Find a province by any name: a city of the embedded list (English name
/// ignoring ASCII case, or Persian name), then the province's English or
/// Persian name or capital.
pub fn find_province_by_city(name: &str) -> (r: Option<Province>)
    ensures
        r == spec_by_city(name@),
{
    let t = trim_chars(&chars_of(name));
    if t.len() == 0 {
        return None;
    }
    let mut k: usize = 0;
    while k < N_CITIES
        invariant
            0 <= k <= N_CITIES,
            t@ == spec_trim(name@),
            t@.len() > 0,
            city_index(t@, 0) == city_index(t@, k as int),
        decreases N_CITIES - k,
    {
        if eq_ignore_ascii_case(&chars_of(CITY_EN[k]), &t) || chars_eq(&chars_of(CITY_FA[k]), &t) {
            return find_province_by_id(CITY_PROVINCE[k]);
        }
        k += 1;
    }
    let mut i: usize = 0;
    while i < 31
        invariant
            0 <= i <= 31,
            t@ == spec_trim(name@),
            t@.len() > 0,
            city_index(t@, 0) is None,
            name_index(t@, 0) == name_index(t@, i as int),
        decreases 31 - i,
    {
        let p = make_province(i);
        if eq_ignore_ascii_case(&chars_of(p.name_en), &t) || eq_ignore_ascii_case(
            &chars_of(p.capital_en),
            &t,
        ) || chars_eq(&chars_of(p.name_fa), &t) || chars_eq(&chars_of(p.capital_fa), &t) {
            return Some(p);
        }
        i += 1;
    }
    None
}

/// All known cities of a province, as `(English, Persian)` pairs in list
/// order.
pub fn get_cities_of_province(province_id: u32) -> (r: Vec<(&'static str, &'static str)>)
    ensures
        r@ == cities_of(province_id, N_CITIES as int),
{
    let mut out: Vec<(&'static str, &'static str)> = Vec::new();
    let mut k: usize = 0;
    while k < N_CITIES
        invariant
            0 <= k <= N_CITIES,
            out@ == cities_of(province_id, k as int),
        decreases N_CITIES - k,
    {
        if CITY_PROVINCE[k] == province_id {
            out.push((CITY_EN[k], CITY_FA[k]));
        }
        k += 1;
    }
    out
}


proof fn lemma_province_index(id: u32, i: int)
    requires
        0 <= i <= 31,
    ensures
        province_index(id, i) == (if i + 1 <= id <= 31 {
            Some(id - 1)
        } else {
            None::<int>
        }),
    decreases 31 - i,
{
    if i < 31 {
        lemma_province_index(id, i + 1);
    }
}

/// Ids are dense: exactly the ids `1..=31` name a province, and the
/// province found carries the id asked for.
pub proof fn law_province_ids_dense(id: u32)
    ensures
        spec_by_id(id) is Some <==> 1 <= id <= 31,
        spec_by_id(id) matches Some(p) ==> p.id == id,
{
    lemma_province_index(id, 0);
}

/// Every embedded city belongs to an existing province.
pub proof fn law_city_provinces_exist(k: int)
    requires
        0 <= k < N_CITIES,
    ensures
        spec_by_id(CITY_PROVINCE[k]) is Some,
{
    assert(1 <= CITY_PROVINCE[k] <= 31);
    law_province_ids_dense(CITY_PROVINCE[k]);
}

/// Slug lookup ignores ASCII case: a slug and its lower-cased form find the
/// same province.
pub proof fn law_slug_lookup_ignores_case(s: Seq<char>)
    ensures
        slug_index(fold_ascii(fold_ascii(s)), 0) == slug_index(fold_ascii(s), 0),
{
    assert forall|k: int| 0 <= k < s.len() implies #[trigger] crate::text::ascii_lower(
        crate::text::ascii_lower(s[k]),
    ) == crate::text::ascii_lower(s[k]) by {}
    assert(fold_ascii(fold_ascii(s)) =~= fold_ascii(s));
}

/// A nonempty name with no whitespace at either end is found when it names
/// a province or its capital.
proof fn lemma_by_city_found(t: Seq<char>, i: int)
    requires
        0 <= i < 31,
        t.len() > 0,
        !spec_is_whitespace(t[0]),
        !spec_is_whitespace(t.last()),
        names_province(province_at(i), t),
    ensures
        spec_by_city(t) is Some,
{
    assert(crate::text::skip_ws(t, 0) == 0);
    assert(crate::text::skip_ws_back(t, 0, t.len() as int) == t.len());
    assert(t.subrange(0, t.len() as int) =~= t);
    match city_index(t, 0) {
        Some(k) => {
            lemma_city_index_range(t, 0);
            law_city_provinces_exist(k);
        },
        None => {
            lemma_name_index_found(t, 0, i);
        },
    }
}

proof fn lemma_city_index_range(t: Seq<char>, k: int)
    requires
        0 <= k,
    ensures
        city_index(t, k) matches Some(j) ==> k <= j < N_CITIES,
    decreases N_CITIES - k,
{
    if k < N_CITIES {
        lemma_city_index_range(t, k + 1);
    }
}

proof fn lemma_name_index_found(t: Seq<char>, j: int, i: int)
    requires
        0 <= j <= i < 31,
        names_province(province_at(i), t),
    ensures
        name_index(t, j) is Some,
    decreases i - j,
{
    if j < i && !names_province(province_at(j), t) {
        lemma_name_index_found(t, j + 1, i);
    }
}

proof fn lemma_capitals_en_trimmed(i: int)
    requires
        0 <= i < 31,
    ensures
        CAPITALS_EN[i]@.len() > 0,
        !spec_is_whitespace(CAPITALS_EN[i]@[0]),
        !spec_is_whitespace(CAPITALS_EN[i]@.last()),
{
    if i == 0 {
        reveal_strlit("Tehran");
        assert(CAPITALS_EN[0]@ == "Tehran"@);
    } else if i == 1 {
        reveal_strlit("Qom");
        assert(CAPITALS_EN[1]@ == "Qom"@);
    } else if i == 2 {
        reveal_strlit("Arak");
        assert(CAPITALS_EN[2]@ == "Arak"@);
    } else if i == 3 {
        reveal_strlit("Qazvin");
        assert(CAPITALS_EN[3]@ == "Qazvin"@);
    } else if i == 4 {
        reveal_strlit("Rasht");
        assert(CAPITALS_EN[4]@ == "Rasht"@);
    } else if i == 5 {
        reveal_strlit("Ardabil");
        assert(CAPITALS_EN[5]@ == "Ardabil"@);
    } else if i == 6 {
        reveal_strlit("Zanjan");
        assert(CAPITALS_EN[6]@ == "Zanjan"@);
    } else if i == 7 {
        reveal_strlit("Tabriz");
        assert(CAPITALS_EN[7]@ == "Tabriz"@);
    } else if i == 8 {
        reveal_strlit("Urmia");
        assert(CAPITALS_EN[8]@ == "Urmia"@);
    } else if i == 9 {
        reveal_strlit("Sanandaj");
        assert(CAPITALS_EN[9]@ == "Sanandaj"@);
    } else if i == 10 {
        reveal_strlit("Hamadan");
        assert(CAPITALS_EN[10]@ == "Hamadan"@);
    } else if i == 11 {
        reveal_strlit("Kermanshah");
        assert(CAPITALS_EN[11]@ == "Kermanshah"@);
    } else if i == 12 {
        reveal_strlit("Ilam");
        assert(CAPITALS_EN[12]@ == "Ilam"@);
    } else if i == 13 {
        reveal_strlit("Khorramabad");
        assert(CAPITALS_EN[13]@ == "Khorramabad"@);
    } else if i == 14 {
        reveal_strlit("Ahvaz");
        assert(CAPITALS_EN[14]@ == "Ahvaz"@);
    } else if i == 15 {
        reveal_strlit("Shahrekord");
        assert(CAPITALS_EN[15]@ == "Shahrekord"@);
    } else if i == 16 {
        reveal_strlit("Yasuj");
        assert(CAPITALS_EN[16]@ == "Yasuj"@);
    } else if i == 17 {
        reveal_strlit("Bushehr");
        assert(CAPITALS_EN[17]@ == "Bushehr"@);
    } else if i == 18 {
        reveal_strlit("Shiraz");
        assert(CAPITALS_EN[18]@ == "Shiraz"@);
    } else if i == 19 {
        reveal_strlit("Bandar Abbas");
        assert(CAPITALS_EN[19]@ == "Bandar Abbas"@);
    } else if i == 20 {
        reveal_strlit("Zahedan");
        assert(CAPITALS_EN[20]@ == "Zahedan"@);
    } else if i == 21 {
        reveal_strlit("Kerman");
        assert(CAPITALS_EN[21]@ == "Kerman"@);
    } else if i == 22 {
        reveal_strlit("Yazd");
        assert(CAPITALS_EN[22]@ == "Yazd"@);
    } else if i == 23 {
        reveal_strlit("Isfahan");
        assert(CAPITALS_EN[23]@ == "Isfahan"@);
    } else if i == 24 {
        reveal_strlit("Semnan");
        assert(CAPITALS_EN[24]@ == "Semnan"@);
    } else if i == 25 {
        reveal_strlit("Sari");
        assert(CAPITALS_EN[25]@ == "Sari"@);
    } else if i == 26 {
        reveal_strlit("Gorgan");
        assert(CAPITALS_EN[26]@ == "Gorgan"@);
    } else if i == 27 {
        reveal_strlit("Bojnurd");
        assert(CAPITALS_EN[27]@ == "Bojnurd"@);
    } else if i == 28 {
        reveal_strlit("Mashhad");
        assert(CAPITALS_EN[28]@ == "Mashhad"@);
    } else if i == 29 {
        reveal_strlit("Birjand");
        assert(CAPITALS_EN[29]@ == "Birjand"@);
    } else if i == 30 {
        reveal_strlit("Karaj");
        assert(CAPITALS_EN[30]@ == "Karaj"@);
    }
}

proof fn lemma_capitals_fa_trimmed(i: int)
    requires
        0 <= i < 31,
    ensures
        CAPITALS_FA[i]@.len() > 0,
        !spec_is_whitespace(CAPITALS_FA[i]@[0]),
        !spec_is_whitespace(CAPITALS_FA[i]@.last()),
{
    if i == 0 {
        reveal_strlit("تهران");
        assert(CAPITALS_FA[0]@ == "تهران"@);
    } else if i == 1 {
        reveal_strlit("قم");
        assert(CAPITALS_FA[1]@ == "قم"@);
    } else if i == 2 {
        reveal_strlit("اراک");
        assert(CAPITALS_FA[2]@ == "اراک"@);
    } else if i == 3 {
        reveal_strlit("قزوین");
        assert(CAPITALS_FA[3]@ == "قزوین"@);
    } else if i == 4 {
        reveal_strlit("رشت");
        assert(CAPITALS_FA[4]@ == "رشت"@);
    } else if i == 5 {
        reveal_strlit("اردبیل");
        assert(CAPITALS_FA[5]@ == "اردبیل"@);
    } else if i == 6 {
        reveal_strlit("زنجان");
        assert(CAPITALS_FA[6]@ == "زنجان"@);
    } else if i == 7 {
        reveal_strlit("تبریز");
        assert(CAPITALS_FA[7]@ == "تبریز"@);
    } else if i == 8 {
        reveal_strlit("ارومیه");
        assert(CAPITALS_FA[8]@ == "ارومیه"@);
    } else if i == 9 {
        reveal_strlit("سنندج");
        assert(CAPITALS_FA[9]@ == "سنندج"@);
    } else if i == 10 {
        reveal_strlit("همدان");
        assert(CAPITALS_FA[10]@ == "همدان"@);
    } else if i == 11 {
        reveal_strlit("کرمانشاه");
        assert(CAPITALS_FA[11]@ == "کرمانشاه"@);
    } else if i == 12 {
        reveal_strlit("ایلام");
        assert(CAPITALS_FA[12]@ == "ایلام"@);
    } else if i == 13 {
        reveal_strlit("خرم‌آباد");
        assert(CAPITALS_FA[13]@ == "خرم‌آباد"@);
    } else if i == 14 {
        reveal_strlit("اهواز");
        assert(CAPITALS_FA[14]@ == "اهواز"@);
    } else if i == 15 {
        reveal_strlit("شهرکرد");
        assert(CAPITALS_FA[15]@ == "شهرکرد"@);
    } else if i == 16 {
        reveal_strlit("یاسوج");
        assert(CAPITALS_FA[16]@ == "یاسوج"@);
    } else if i == 17 {
        reveal_strlit("بوشهر");
        assert(CAPITALS_FA[17]@ == "بوشهر"@);
    } else if i == 18 {
        reveal_strlit("شیراز");
        assert(CAPITALS_FA[18]@ == "شیراز"@);
    } else if i == 19 {
        reveal_strlit("بندرعباس");
        assert(CAPITALS_FA[19]@ == "بندرعباس"@);
    } else if i == 20 {
        reveal_strlit("زاهدان");
        assert(CAPITALS_FA[20]@ == "زاهدان"@);
    } else if i == 21 {
        reveal_strlit("کرمان");
        assert(CAPITALS_FA[21]@ == "کرمان"@);
    } else if i == 22 {
        reveal_strlit("یزد");
        assert(CAPITALS_FA[22]@ == "یزد"@);
    } else if i == 23 {
        reveal_strlit("اصفهان");
        assert(CAPITALS_FA[23]@ == "اصفهان"@);
    } else if i == 24 {
        reveal_strlit("سمنان");
        assert(CAPITALS_FA[24]@ == "سمنان"@);
    } else if i == 25 {
        reveal_strlit("ساری");
        assert(CAPITALS_FA[25]@ == "ساری"@);
    } else if i == 26 {
        reveal_strlit("گرگان");
        assert(CAPITALS_FA[26]@ == "گرگان"@);
    } else if i == 27 {
        reveal_strlit("بجنورد");
        assert(CAPITALS_FA[27]@ == "بجنورد"@);
    } else if i == 28 {
        reveal_strlit("مشهد");
        assert(CAPITALS_FA[28]@ == "مشهد"@);
    } else if i == 29 {
        reveal_strlit("بیرجند");
        assert(CAPITALS_FA[29]@ == "بیرجند"@);
    } else if i == 30 {
        reveal_strlit("کرج");
        assert(CAPITALS_FA[30]@ == "کرج"@);
    }
}

/// Every provincial capital, by its English or its Persian name, is found
/// by [`find_province_by_city`].
pub proof fn law_capitals_found(i: int)
    requires
        0 <= i < 31,
    ensures
        spec_by_city(CAPITALS_EN[i]@) is Some,
        spec_by_city(CAPITALS_FA[i]@) is Some,
{
    lemma_capitals_en_trimmed(i);
    lemma_capitals_fa_trimmed(i);
    lemma_by_city_found(CAPITALS_EN[i]@, i);
    lemma_by_city_found(CAPITALS_FA[i]@, i);
}

proof fn lemma_cities_empty(pid: u32, k: int)
    requires
        0 <= k <= N_CITIES,
        forall|m: int| 0 <= m < k ==> CITY_PROVINCE[m] != pid,
    ensures
        cities_of(pid, k) == Seq::<(&'static str, &'static str)>::empty(),
    decreases k,
{
    if k > 0 {
        lemma_cities_empty(pid, k - 1);
    }
}

proof fn lemma_cities_first(pid: u32, f: int, k: int)
    requires
        0 <= f < k <= N_CITIES,
        CITY_PROVINCE[f] == pid,
        cities_of(pid, f) == Seq::<(&'static str, &'static str)>::empty(),
    ensures
        cities_of(pid, k).len() > 0,
        cities_of(pid, k)[0] == (CITY_EN[f], CITY_FA[f]),
    decreases k,
{
    if k - 1 > f {
        lemma_cities_first(pid, f, k - 1);
    }
}

/// Position in the city list of the first city of the province at `i`
/// (its capital).
proof fn lemma_first_city(i: int) -> (f: int)
    requires
        0 <= i < 31,
    ensures
        0 <= f < N_CITIES,
        CITY_PROVINCE[f] == (i + 1) as u32,
        forall|m: int| 0 <= m < f ==> CITY_PROVINCE[m] != (i + 1) as u32,
        CITY_EN[f]@ == CAPITALS_EN[i]@,
        CITY_FA[f]@ == CAPITALS_FA[i]@,
{
    if i == 0 {
        assert(forall|m: int| 0 <= m < 0 ==> CITY_PROVINCE[m] != 1u32);
        0
    } else if i == 1 {
        assert(forall|m: int| 0 <= m < 6 ==> CITY_PROVINCE[m] != 2u32);
        6
    } else if i == 2 {
        assert(forall|m: int| 0 <= m < 7 ==> CITY_PROVINCE[m] != 3u32);
        7
    } else if i == 3 {
        assert(forall|m: int| 0 <= m < 11 ==> CITY_PROVINCE[m] != 4u32);
        11
    } else if i == 4 {
        assert(forall|m: int| 0 <= m < 13 ==> CITY_PROVINCE[m] != 5u32);
        13
    } else if i == 5 {
        assert(forall|m: int| 0 <= m < 18 ==> CITY_PROVINCE[m] != 6u32);
        18
    } else if i == 6 {
        assert(forall|m: int| 0 <= m < 21 ==> CITY_PROVINCE[m] != 7u32);
        21
    } else if i == 7 {
        assert(forall|m: int| 0 <= m < 23 ==> CITY_PROVINCE[m] != 8u32);
        23
    } else if i == 8 {
        assert(forall|m: int| 0 <= m < 28 ==> CITY_PROVINCE[m] != 9u32);
        28
    } else if i == 9 {
        assert(forall|m: int| 0 <= m < 33 ==> CITY_PROVINCE[m] != 10u32);
        33
    } else if i == 10 {
        assert(forall|m: int| 0 <= m < 37 ==> CITY_PROVINCE[m] != 11u32);
        37
    } else if i == 11 {
        assert(forall|m: int| 0 <= m < 41 ==> CITY_PROVINCE[m] != 12u32);
        41
    } else if i == 12 {
        assert(forall|m: int| 0 <= m < 44 ==> CITY_PROVINCE[m] != 13u32);
        44
    } else if i == 13 {
        assert(forall|m: int| 0 <= m < 46 ==> CITY_PROVINCE[m] != 14u32);
        46
    } else if i == 14 {
        assert(forall|m: int| 0 <= m < 50 ==> CITY_PROVINCE[m] != 15u32);
        50
    } else if i == 15 {
        assert(forall|m: int| 0 <= m < 57 ==> CITY_PROVINCE[m] != 16u32);
        57
    } else if i == 16 {
        assert(forall|m: int| 0 <= m < 59 ==> CITY_PROVINCE[m] != 17u32);
        59
    } else if i == 17 {
        assert(forall|m: int| 0 <= m < 61 ==> CITY_PROVINCE[m] != 18u32);
        61
    } else if i == 18 {
        assert(forall|m: int| 0 <= m < 65 ==> CITY_PROVINCE[m] != 19u32);
        65
    } else if i == 19 {
        assert(forall|m: int| 0 <= m < 71 ==> CITY_PROVINCE[m] != 20u32);
        71
    } else if i == 20 {
        assert(forall|m: int| 0 <= m < 76 ==> CITY_PROVINCE[m] != 21u32);
        76
    } else if i == 21 {
        assert(forall|m: int| 0 <= m < 80 ==> CITY_PROVINCE[m] != 22u32);
        80
    } else if i == 22 {
        assert(forall|m: int| 0 <= m < 86 ==> CITY_PROVINCE[m] != 23u32);
        86
    } else if i == 23 {
        assert(forall|m: int| 0 <= m < 90 ==> CITY_PROVINCE[m] != 24u32);
        90
    } else if i == 24 {
        assert(forall|m: int| 0 <= m < 98 ==> CITY_PROVINCE[m] != 25u32);
        98
    } else if i == 25 {
        assert(forall|m: int| 0 <= m < 102 ==> CITY_PROVINCE[m] != 26u32);
        102
    } else if i == 26 {
        assert(forall|m: int| 0 <= m < 111 ==> CITY_PROVINCE[m] != 27u32);
        111
    } else if i == 27 {
        assert(forall|m: int| 0 <= m < 115 ==> CITY_PROVINCE[m] != 28u32);
        115
    } else if i == 28 {
        assert(forall|m: int| 0 <= m < 118 ==> CITY_PROVINCE[m] != 29u32);
        118
    } else if i == 29 {
        assert(forall|m: int| 0 <= m < 125 ==> CITY_PROVINCE[m] != 30u32);
        125
    } else if i == 30 {
        assert(forall|m: int| 0 <= m < 128 ==> CITY_PROVINCE[m] != 31u32);
        128
    } else {
        assert(forall|m: int| 0 <= m < 128 ==> CITY_PROVINCE[m] != 31u32);
        128
    }
}

/// Every province has cities, and its list starts with its capital.
pub proof fn law_cities_start_with_capital(i: int)
    requires
        0 <= i < 31,
    ensures
        cities_of(province_at(i).id, N_CITIES as int).len() > 0,
        cities_of(province_at(i).id, N_CITIES as int)[0].0@ == province_at(i).capital_en@,
        cities_of(province_at(i).id, N_CITIES as int)[0].1@ == province_at(i).capital_fa@,
{
    let pid = (i + 1) as u32;
    let f = lemma_first_city(i);
    lemma_cities_empty(pid, f);
    lemma_cities_first(pid, f, N_CITIES as int);
}

/// An id outside `1..=31` has no cities.
pub proof fn law_cities_of_unknown_province(pid: u32)
    requires
        pid < 1 || pid > 31,
    ensures
        cities_of(pid, N_CITIES as int) == Seq::<(&'static str, &'static str)>::empty(),
{
    assert(forall|m: int| 0 <= m < N_CITIES ==> 1 <= #[trigger] CITY_PROVINCE[m] <= 31);
    lemma_cities_empty(pid, N_CITIES as int);
}
} // verus!
