//! Iranian bank databases: Sheba (IBAN) bank codes and bank-card BIN
//! prefixes, from the public Central Bank of Iran registries.
//!
//! Each table is held as parallel arrays: the numeric code, the English name
//! and the Persian name of the bank at the same index.

use vstd::prelude::*;

verus! {

/// Sheba bank codes (digits 5–7 of the IBAN), as numbers.
pub const SHEBA_CODES: [u32; 36] = [10, 11, 12, 13, 14, 15, 16, 17, 18, 19, 20, 21, 22, 51, 52, 53, 54, 55, 56, 57, 58, 59, 60, 61, 62, 63, 64, 65, 66, 69, 70, 73, 75, 78, 80, 95];

/// English names of the banks in [`SHEBA_CODES`].
pub const SHEBA_EN: [&'static str; 36] = ["Central Bank of Iran", "Sanat o Madan Bank", "Bank Mellat", "Bank Refah Kargaran", "Bank Maskan", "Bank Sepah", "Bank Keshavarzi", "Bank Melli Iran", "Bank Tejarat", "Bank Saderat Iran", "Export Development Bank", "Post Bank", "Tose'e Ta'avon Bank", "Tose'e Credit Institution", "Ghavamin Bank", "Bank Karafarin", "Bank Parsian", "Bank Eghtesad Novin", "Bank Saman", "Bank Pasargad", "Bank Sarmayeh", "Bank Sina", "Mehr Iran Credit Institution", "Bank Shahr", "Bank Ayandeh", "Bank Ansar", "Bank Gardeshgari", "Bank Hekmat Iranian", "Bank Day", "Iran Zamin Bank", "Bank Resalat", "Kowsar Credit Institution", "Mellat Credit Institution", "Khavarmianeh Bank", "Noor Credit Institution", "Iran Venezuela Bi-National Bank"];

/// Persian names of the banks in [`SHEBA_CODES`].
pub const SHEBA_FA: [&'static str; 36] = ["بانک مرکزی", "بانک صنعت و معدن", "بانک ملت", "بانک رفاه کارگران", "بانک مسکن", "بانک سپه", "بانک کشاورزی", "بانک ملی ایران", "بانک تجارت", "بانک صادرات ایران", "بانک توسعه صادرات", "پست بانک ایران", "بانک توسعه تعاون", "موسسه اعتباری توسعه", "بانک قوامین", "بانک کارآفرین", "بانک پارسیان", "بانک اقتصاد نوین", "بانک سامان", "بانک پاسارگاد", "بانک سرمایه", "بانک سینا", "موسسه قرض الحسنه مهر ایران", "بانک شهر", "بانک آینده", "بانک انصار", "بانک گردشگری", "بانک حکمت ایرانیان", "بانک دی", "بانک ایران زمین", "بانک قرض‌الحسنه رسالت", "موسسه اعتباری کوثر", "موسسه اعتباری ملل", "بانک خاورمیانه", "موسسه اعتباری نور", "بانک ایران ونزوئلا"];

/// Bank-card BINs (first six digits), as numbers.
pub const CARD_BINS: [u32; 37] = [603799, 589210, 627648, 627961, 603770, 628023, 627353, 603769, 610433, 991975, 589463, 627760, 502908, 627412, 622106, 639194, 621986, 502229, 639347, 639607, 639346, 606373, 502806, 504706, 636214, 627381, 505416, 636949, 502938, 505785, 504172, 505801, 627488, 502910, 585983, 585947, 639599];

/// English names of the banks in [`CARD_BINS`].
pub const CARD_EN: [&'static str; 37] = ["Bank Melli Iran", "Bank Sepah", "Tose'e Saderat Bank", "Sanat o Madan Bank", "Bank Keshavarzi", "Bank Maskan", "Bank Tejarat", "Bank Saderat Iran", "Bank Mellat", "Bank Mellat", "Bank Refah Kargaran", "Post Bank", "Tose'e Ta'avon Bank", "Bank Eghtesad Novin", "Bank Parsian", "Bank Parsian", "Bank Saman", "Bank Pasargad", "Bank Pasargad", "Bank Sarmayeh", "Bank Sina", "Mehr Iran Credit Institution", "Bank Shahr", "Bank Shahr", "Bank Ayandeh", "Bank Ansar", "Bank Gardeshgari", "Hekmat Iranian Bank", "Bank Day", "Iran Zamin Bank", "Bank Resalat", "Kowsar Credit Institution", "Bank Karafarin", "Caspian Credit Institution", "Bank Tejarat", "Khavarmianeh Bank", "Ghavamin Bank"];

/// Persian names of the banks in [`CARD_BINS`].
pub const CARD_FA: [&'static str; 37] = ["بانک ملی ایران", "بانک سپه", "بانک توسعه صادرات", "بانک صنعت و معدن", "بانک کشاورزی", "بانک مسکن", "بانک تجارت", "بانک صادرات ایران", "بانک ملت", "بانک ملت", "بانک رفاه کارگران", "پست بانک", "بانک توسعه تعاون", "بانک اقتصاد نوین", "بانک پارسیان", "بانک پارسیان", "بانک سامان", "بانک پاسارگاد", "بانک پاسارگاد", "بانک سرمایه", "بانک سینا", "موسسه قرض الحسنه مهر ایران", "بانک شهر", "بانک شهر", "بانک آینده", "بانک انصار", "بانک گردشگری", "بانک حکمت ایرانیان", "بانک دی", "بانک ایران زمین", "بانک قرض الحسنه رسالت", "موسسه اعتباری کوثر", "بانک کارآفرین", "موسسه اعتباری کاسپین", "بانک تجارت", "بانک خاورمیانه", "بانک قوامین"];

/// Index of the first occurrence of `x` in `s` at or after `from`.
pub open spec fn first_index(s: Seq<u32>, x: u32, from: int) -> Option<int>
    decreases s.len() - from,
{
    if from < 0 || from >= s.len() {
        None::<int>
    } else if s[from] == x {
        Some(from)
    } else {
        first_index(s, x, from + 1)
    }
}

/// Index of the first occurrence of `x` in `codes`.
pub fn find_code(codes: &[u32], x: u32) -> (r: Option<usize>)
    ensures
        r matches Some(i) ==> first_index(codes@, x, 0) == Some(i as int) && i < codes.len(),
        r is None ==> first_index(codes@, x, 0) is None,
{
    let mut i: usize = 0;
    while i < codes.len()
        invariant
            0 <= i <= codes.len(),
            first_index(codes@, x, i as int) == first_index(codes@, x, 0),
        decreases codes.len() - i,
    {
        if codes[i] == x {
            return Some(i);
        }
        i += 1;
    }
    None
}

} // verus!
