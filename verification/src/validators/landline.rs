//! Iranian landline (fixed-line) phone validation and province lookup.
//!
//! Landline numbers are 11 digits `0XXYYYYYYYY` where `XX` is the area code
//! (`21` Tehran, `26` Karaj, `31` Isfahan, …).

use vstd::prelude::*;
use crate::validators::{
    all_digits, ascii_digits, digit_seq, digit_values, digits_to_string, opt_ascii, opt_view,
};
use crate::validators::banks::{find_code, first_index};

verus! {

/// Iranian provinces reachable as fixed-line area codes.
#[derive(Debug, Clone, Copy, PartialEq, Eq, Structural)]
#[allow(missing_docs)]
pub enum Province {
    Tehran,
    Alborz,
    Mazandaran,
    Gilan,
    Golestan,
    Semnan,
    Zanjan,
    Qom,
    Qazvin,
    Isfahan,
    Kerman,
    Yazd,
    ChaharmahalBakht,
    EastAzerbaijan,
    WestAzerbaijan,
    Ardabil,
    RazaviKhorasan,
    SistanBalu,
    SouthKhorasan,
    NorthKhorasan,
    Khuzestan,
    Lorestan,
    Fars,
    KohgiluyehBoyer,
    Hormozgan,
    Bushehr,
    Hamadan,
    Kermanshah,
    Ilam,
    Markazi,
    Kurdistan,
}

/// Area codes, as numbers.
pub const AREA_CODES: [u32; 32] = [21, 26, 11, 13, 17, 23, 24, 25, 28, 31, 34, 35, 38, 41, 44, 45, 51, 54, 56, 57, 58, 61, 66, 71, 74, 76, 77, 81, 83, 84, 86, 87];

/// Province of each entry of [`AREA_CODES`].
pub const AREA_PROVINCES: [Province; 32] = [Province::Tehran, Province::Alborz, Province::Mazandaran, Province::Gilan, Province::Golestan, Province::Semnan, Province::Zanjan, Province::Qom, Province::Qazvin, Province::Isfahan, Province::Kerman, Province::Yazd, Province::ChaharmahalBakht, Province::EastAzerbaijan, Province::WestAzerbaijan, Province::Ardabil, Province::RazaviKhorasan, Province::SistanBalu, Province::SouthKhorasan, Province::NorthKhorasan, Province::NorthKhorasan, Province::Khuzestan, Province::Lorestan, Province::Fars, Province::KohgiluyehBoyer, Province::Hormozgan, Province::Bushehr, Province::Hamadan, Province::Kermanshah, Province::Ilam, Province::Markazi, Province::Kurdistan];

/// English province name of each entry of [`AREA_CODES`].
pub const AREA_EN: [&'static str; 32] = ["Tehran", "Alborz", "Mazandaran", "Gilan", "Golestan", "Semnan", "Zanjan", "Qom", "Qazvin", "Isfahan", "Kerman", "Yazd", "Chaharmahal & Bakhtiari", "East Azerbaijan", "West Azerbaijan", "Ardabil", "Razavi Khorasan", "Sistan & Baluchestan", "South Khorasan", "North Khorasan", "North Khorasan", "Khuzestan", "Lorestan", "Fars", "Kohgiluyeh & Boyer-Ahmad", "Hormozgan", "Bushehr", "Hamadan", "Kermanshah", "Ilam", "Markazi", "Kurdistan"];

/// Persian province name of each entry of [`AREA_CODES`].
pub const AREA_FA: [&'static str; 32] = ["تهران", "البرز", "مازندران", "گیلان", "گلستان", "سمنان", "زنجان", "قم", "قزوین", "اصفهان", "کرمان", "یزد", "چهارمحال و بختیاری", "آذربایجان شرقی", "آذربایجان غربی", "اردبیل", "خراسان رضوی", "سیستان و بلوچستان", "خراسان جنوبی", "خراسان شمالی", "خراسان شمالی", "خوزستان", "لرستان", "فارس", "کهگیلویه و بویراحمد", "هرمزگان", "بوشهر", "همدان", "کرمانشاه", "ایلام", "مرکزی", "کردستان"];

/// Index of the first table entry for province `p` at or after `from`.
pub open spec fn first_province_index(s: Seq<Province>, p: Province, from: int) -> Option<int>
    decreases s.len() - from,
{
    if from < 0 || from >= s.len() {
        None::<int>
    } else if s[from] == p {
        Some(from)
    } else {
        first_province_index(s, p, from + 1)
    }
}

fn province_index(p: Province) -> (r: Option<usize>)
    ensures
        r matches Some(i) ==> first_province_index(AREA_PROVINCES@, p, 0) == Some(i as int)
            && i < AREA_PROVINCES.len(),
        r is None ==> first_province_index(AREA_PROVINCES@, p, 0) is None,
{
    let mut i: usize = 0;
    while i < AREA_PROVINCES.len()
        invariant
            0 <= i <= AREA_PROVINCES.len(),
            first_province_index(AREA_PROVINCES@, p, i as int) == first_province_index(
                AREA_PROVINCES@,
                p,
                0,
            ),
        decreases AREA_PROVINCES.len() - i,
    {
        if AREA_PROVINCES[i] == p {
            return Some(i);
        }
        i += 1;
    }
    None
}

impl Province {
    /// English name of the province.
    pub fn english_name(self) -> (r: Option<&'static str>)
        ensures
            r == (match first_province_index(AREA_PROVINCES@, self, 0) {
                Some(i) => Some(AREA_EN[i]),
                None => None,
            }),
    {
        match province_index(self) {
            Some(i) => Some(AREA_EN[i]),
            None => None,
        }
    }

    /// Persian name of the province.
    pub fn persian_name(self) -> (r: Option<&'static str>)
        ensures
            r == (match first_province_index(AREA_PROVINCES@, self, 0) {
                Some(i) => Some(AREA_FA[i]),
                None => None,
            }),
    {
        match province_index(self) {
            Some(i) => Some(AREA_FA[i]),
            None => None,
        }
    }

    /// English name, or `"Unknown"`.
    pub fn to_string(&self) -> (r: String)
        ensures
            r@ == (match first_province_index(AREA_PROVINCES@, *self, 0) {
                Some(i) => AREA_EN[i]@,
                None => "Unknown"@,
            }),
    {
        match province_index(*self) {
            Some(i) => AREA_EN[i].to_owned(),
            None => "Unknown".to_owned(),
        }
    }
}

/// The digits of a landline: eleven digits starting with `0` but not `09`.
pub open spec fn spec_canonicalize(s: Seq<char>) -> Option<Seq<u8>> {
    let d = digit_seq(s);
    if d.len() == 11 && d[0] == 0 && d[1] != 9 {
        Some(d)
    } else {
        None
    }
}

/// Canonical 11-digit form (`0XXYYYYYYYY`) with Latin digits, or `None` if
/// invalid.
pub fn canonicalize(phone: &str) -> (r: Option<String>)
    ensures
        opt_view(r) == opt_ascii(spec_canonicalize(phone@)),
{
    let d = digit_values(phone);
    if d.len() != 11 || d[0] != 0 || d[1] == 9 {
        return None;
    }
    let s = digits_to_string(&d, 0, 11);
    assert(d@.subrange(0, 11) =~= d@);
    Some(s)
}

/// Returns `true` if `phone` is a structurally valid Iranian landline.
pub fn validate(phone: &str) -> (b: bool)
    ensures
        b == spec_canonicalize(phone@) is Some,
{
    let d = digit_values(phone);
    d.len() == 11 && d[0] == 0 && d[1] != 9
}

/// The province of a valid landline whose area code is in the table.
pub open spec fn spec_province(s: Seq<char>) -> Option<Province> {
    match spec_canonicalize(s) {
        Some(d) => match first_index(AREA_CODES@, (d[1] * 10 + d[2]) as u32, 0) {
            Some(i) => Some(AREA_PROVINCES[i]),
            None => None,
        },
        None => None,
    }
}

/// Detect the Iranian province from a landline phone's area code.
pub fn province(phone: &str) -> (r: Option<Province>)
    ensures
        r == spec_province(phone@),
{
    let d = digit_values(phone);
    if d.len() != 11 || d[0] != 0 || d[1] == 9 {
        return None;
    }
    let area = d[1] as u32 * 10 + d[2] as u32;
    match find_code(&AREA_CODES, area) {
        Some(i) => Some(AREA_PROVINCES[i]),
        None => None,
    }
}

} // verus!
