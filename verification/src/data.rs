//! Word lists: informal (*goftari*) forms with their written equivalents,
//! and the profanity lists.

use vstd::prelude::*;

verus! {

/// Informal spoken-Persian forms; `SLANG_FORMAL[i]` is the written form of `SLANG_INFORMAL[i]`.
pub const SLANG_INFORMAL: [&'static str; 38] = [
    "میخوام",
    "میخواد",
    "میخوای",
    "میخوان",
    "نمیخوام",
    "نمیخواد",
    "نمیخوای",
    "نمیخوان",
    "میدونم",
    "میدونی",
    "میدونه",
    "میدونن",
    "نمیدونم",
    "نمیدونی",
    "نمیدونه",
    "نمیدونن",
    "میتونم",
    "میتونی",
    "میتونه",
    "میتونن",
    "نمیتونم",
    "نمیتونی",
    "نمیتونه",
    "میشه",
    "نمیشه",
    "میگه",
    "میگن",
    "داره",
    "دارن",
    "هستن",
    "نیستن",
    "بریم",
    "بیاین",
    "اینجاس",
    "اونجاس",
    "چیه",
    "کیه",
    "کجاس",
];

/// Written-Persian equivalents of `SLANG_INFORMAL`, index by index.
pub const SLANG_FORMAL: [&'static str; 38] = [
    "می‌خواهم",
    "می‌خواهد",
    "می‌خواهی",
    "می‌خواهند",
    "نمی‌خواهم",
    "نمی‌خواهد",
    "نمی‌خواهی",
    "نمی‌خواهند",
    "می‌دانم",
    "می‌دانی",
    "می‌داند",
    "می‌دانند",
    "نمی‌دانم",
    "نمی‌دانی",
    "نمی‌داند",
    "نمی‌دانند",
    "می‌توانم",
    "می‌توانی",
    "می‌تواند",
    "می‌توانند",
    "نمی‌توانم",
    "نمی‌توانی",
    "نمی‌تواند",
    "می‌شود",
    "نمی‌شود",
    "می‌گوید",
    "می‌گویند",
    "دارد",
    "دارند",
    "هستند",
    "نیستند",
    "برویم",
    "بیایید",
    "اینجاست",
    "آنجاست",
    "چیست",
    "کیست",
    "کجاست",
];

/// High-confidence insult words filtered at the light level.
pub const PROFANITY_LIGHT: [&'static str; 5] = [
    "احمق",
    "کودن",
    "ابله",
    "خنگ",
    "نادان",
];

/// The light list plus stronger terms, filtered at the medium level.
pub const PROFANITY_MEDIUM: [&'static str; 16] = [
    "احمق",
    "کودن",
    "ابله",
    "خنگ",
    "نادان",
    "عوضی",
    "بی‌شعور",
    "کثیف",
    "حرامزاده",
    "بی‌ناموس",
    "جنده",
    "کیر",
    "کس",
    "کون",
    "گوه",
    "خاک‌بر",
];

/// Every entry of `SLANG_INFORMAL` is a non-empty word of at most 60 characters.
pub proof fn lemma_slang_informal_shape()
    ensures
        forall|i: int| #![trigger SLANG_INFORMAL[i]] 0 <= i < 38 ==> 1 <= SLANG_INFORMAL[i]@.len() <= 60,
{
    reveal_strlit("اونجاس");
    reveal_strlit("اینجاس");
    reveal_strlit("بریم");
    reveal_strlit("بیاین");
    reveal_strlit("دارن");
    reveal_strlit("داره");
    reveal_strlit("میتونم");
    reveal_strlit("میتونن");
    reveal_strlit("میتونه");
    reveal_strlit("میتونی");
    reveal_strlit("میخواد");
    reveal_strlit("میخوام");
    reveal_strlit("میخوان");
    reveal_strlit("میخوای");
    reveal_strlit("میدونم");
    reveal_strlit("میدونن");
    reveal_strlit("میدونه");
    reveal_strlit("میدونی");
    reveal_strlit("میشه");
    reveal_strlit("میگن");
    reveal_strlit("میگه");
    reveal_strlit("نمیتونم");
    reveal_strlit("نمیتونه");
    reveal_strlit("نمیتونی");
    reveal_strlit("نمیخواد");
    reveal_strlit("نمیخوام");
    reveal_strlit("نمیخوان");
    reveal_strlit("نمیخوای");
    reveal_strlit("نمیدونم");
    reveal_strlit("نمیدونن");
    reveal_strlit("نمیدونه");
    reveal_strlit("نمیدونی");
    reveal_strlit("نمیشه");
    reveal_strlit("نیستن");
    reveal_strlit("هستن");
    reveal_strlit("چیه");
    reveal_strlit("کجاس");
    reveal_strlit("کیه");
    assert forall|i: int| #![trigger SLANG_INFORMAL[i]] 0 <= i < 38 implies 1 <= SLANG_INFORMAL[i]@.len() <= 60 by {
        if i == 0 {
            assert(SLANG_INFORMAL[i]@ == "میخوام"@);
            assert("میخوام"@.len() == 6);
        } else if i == 1 {
            assert(SLANG_INFORMAL[i]@ == "میخواد"@);
            assert("میخواد"@.len() == 6);
        } else if i == 2 {
            assert(SLANG_INFORMAL[i]@ == "میخوای"@);
            assert("میخوای"@.len() == 6);
        } else if i == 3 {
            assert(SLANG_INFORMAL[i]@ == "میخوان"@);
            assert("میخوان"@.len() == 6);
        } else if i == 4 {
            assert(SLANG_INFORMAL[i]@ == "نمیخوام"@);
            assert("نمیخوام"@.len() == 7);
        } else if i == 5 {
            assert(SLANG_INFORMAL[i]@ == "نمیخواد"@);
            assert("نمیخواد"@.len() == 7);
        } else if i == 6 {
            assert(SLANG_INFORMAL[i]@ == "نمیخوای"@);
            assert("نمیخوای"@.len() == 7);
        } else if i == 7 {
            assert(SLANG_INFORMAL[i]@ == "نمیخوان"@);
            assert("نمیخوان"@.len() == 7);
        } else if i == 8 {
            assert(SLANG_INFORMAL[i]@ == "میدونم"@);
            assert("میدونم"@.len() == 6);
        } else if i == 9 {
            assert(SLANG_INFORMAL[i]@ == "میدونی"@);
            assert("میدونی"@.len() == 6);
        } else if i == 10 {
            assert(SLANG_INFORMAL[i]@ == "میدونه"@);
            assert("میدونه"@.len() == 6);
        } else if i == 11 {
            assert(SLANG_INFORMAL[i]@ == "میدونن"@);
            assert("میدونن"@.len() == 6);
        } else if i == 12 {
            assert(SLANG_INFORMAL[i]@ == "نمیدونم"@);
            assert("نمیدونم"@.len() == 7);
        } else if i == 13 {
            assert(SLANG_INFORMAL[i]@ == "نمیدونی"@);
            assert("نمیدونی"@.len() == 7);
        } else if i == 14 {
            assert(SLANG_INFORMAL[i]@ == "نمیدونه"@);
            assert("نمیدونه"@.len() == 7);
        } else if i == 15 {
            assert(SLANG_INFORMAL[i]@ == "نمیدونن"@);
            assert("نمیدونن"@.len() == 7);
        } else if i == 16 {
            assert(SLANG_INFORMAL[i]@ == "میتونم"@);
            assert("میتونم"@.len() == 6);
        } else if i == 17 {
            assert(SLANG_INFORMAL[i]@ == "میتونی"@);
            assert("میتونی"@.len() == 6);
        } else if i == 18 {
            assert(SLANG_INFORMAL[i]@ == "میتونه"@);
            assert("میتونه"@.len() == 6);
        } else if i == 19 {
            assert(SLANG_INFORMAL[i]@ == "میتونن"@);
            assert("میتونن"@.len() == 6);
        } else if i == 20 {
            assert(SLANG_INFORMAL[i]@ == "نمیتونم"@);
            assert("نمیتونم"@.len() == 7);
        } else if i == 21 {
            assert(SLANG_INFORMAL[i]@ == "نمیتونی"@);
            assert("نمیتونی"@.len() == 7);
        } else if i == 22 {
            assert(SLANG_INFORMAL[i]@ == "نمیتونه"@);
            assert("نمیتونه"@.len() == 7);
        } else if i == 23 {
            assert(SLANG_INFORMAL[i]@ == "میشه"@);
            assert("میشه"@.len() == 4);
        } else if i == 24 {
            assert(SLANG_INFORMAL[i]@ == "نمیشه"@);
            assert("نمیشه"@.len() == 5);
        } else if i == 25 {
            assert(SLANG_INFORMAL[i]@ == "میگه"@);
            assert("میگه"@.len() == 4);
        } else if i == 26 {
            assert(SLANG_INFORMAL[i]@ == "میگن"@);
            assert("میگن"@.len() == 4);
        } else if i == 27 {
            assert(SLANG_INFORMAL[i]@ == "داره"@);
            assert("داره"@.len() == 4);
        } else if i == 28 {
            assert(SLANG_INFORMAL[i]@ == "دارن"@);
            assert("دارن"@.len() == 4);
        } else if i == 29 {
            assert(SLANG_INFORMAL[i]@ == "هستن"@);
            assert("هستن"@.len() == 4);
        } else if i == 30 {
            assert(SLANG_INFORMAL[i]@ == "نیستن"@);
            assert("نیستن"@.len() == 5);
        } else if i == 31 {
            assert(SLANG_INFORMAL[i]@ == "بریم"@);
            assert("بریم"@.len() == 4);
        } else if i == 32 {
            assert(SLANG_INFORMAL[i]@ == "بیاین"@);
            assert("بیاین"@.len() == 5);
        } else if i == 33 {
            assert(SLANG_INFORMAL[i]@ == "اینجاس"@);
            assert("اینجاس"@.len() == 6);
        } else if i == 34 {
            assert(SLANG_INFORMAL[i]@ == "اونجاس"@);
            assert("اونجاس"@.len() == 6);
        } else if i == 35 {
            assert(SLANG_INFORMAL[i]@ == "چیه"@);
            assert("چیه"@.len() == 3);
        } else if i == 36 {
            assert(SLANG_INFORMAL[i]@ == "کیه"@);
            assert("کیه"@.len() == 3);
        } else if i == 37 {
            assert(SLANG_INFORMAL[i]@ == "کجاس"@);
            assert("کجاس"@.len() == 4);
        }
    }
}

/// Every entry of `SLANG_FORMAL` is a non-empty word of at most 60 characters.
pub proof fn lemma_slang_formal_shape()
    ensures
        forall|i: int| #![trigger SLANG_FORMAL[i]] 0 <= i < 38 ==> 1 <= SLANG_FORMAL[i]@.len() <= 60,
{
    reveal_strlit("آنجاست");
    reveal_strlit("اینجاست");
    reveal_strlit("برویم");
    reveal_strlit("بیایید");
    reveal_strlit("دارد");
    reveal_strlit("دارند");
    reveal_strlit("می‌تواند");
    reveal_strlit("می‌توانم");
    reveal_strlit("می‌توانند");
    reveal_strlit("می‌توانی");
    reveal_strlit("می‌خواهد");
    reveal_strlit("می‌خواهم");
    reveal_strlit("می‌خواهند");
    reveal_strlit("می‌خواهی");
    reveal_strlit("می‌داند");
    reveal_strlit("می‌دانم");
    reveal_strlit("می‌دانند");
    reveal_strlit("می‌دانی");
    reveal_strlit("می‌شود");
    reveal_strlit("می‌گوید");
    reveal_strlit("می‌گویند");
    reveal_strlit("نمی‌تواند");
    reveal_strlit("نمی‌توانم");
    reveal_strlit("نمی‌توانی");
    reveal_strlit("نمی‌خواهد");
    reveal_strlit("نمی‌خواهم");
    reveal_strlit("نمی‌خواهند");
    reveal_strlit("نمی‌خواهی");
    reveal_strlit("نمی‌داند");
    reveal_strlit("نمی‌دانم");
    reveal_strlit("نمی‌دانند");
    reveal_strlit("نمی‌دانی");
    reveal_strlit("نمی‌شود");
    reveal_strlit("نیستند");
    reveal_strlit("هستند");
    reveal_strlit("چیست");
    reveal_strlit("کجاست");
    reveal_strlit("کیست");
    assert forall|i: int| #![trigger SLANG_FORMAL[i]] 0 <= i < 38 implies 1 <= SLANG_FORMAL[i]@.len() <= 60 by {
        if i == 0 {
            assert(SLANG_FORMAL[i]@ == "می‌خواهم"@);
            assert("می‌خواهم"@.len() == 8);
        } else if i == 1 {
            assert(SLANG_FORMAL[i]@ == "می‌خواهد"@);
            assert("می‌خواهد"@.len() == 8);
        } else if i == 2 {
            assert(SLANG_FORMAL[i]@ == "می‌خواهی"@);
            assert("می‌خواهی"@.len() == 8);
        } else if i == 3 {
            assert(SLANG_FORMAL[i]@ == "می‌خواهند"@);
            assert("می‌خواهند"@.len() == 9);
        } else if i == 4 {
            assert(SLANG_FORMAL[i]@ == "نمی‌خواهم"@);
            assert("نمی‌خواهم"@.len() == 9);
        } else if i == 5 {
            assert(SLANG_FORMAL[i]@ == "نمی‌خواهد"@);
            assert("نمی‌خواهد"@.len() == 9);
        } else if i == 6 {
            assert(SLANG_FORMAL[i]@ == "نمی‌خواهی"@);
            assert("نمی‌خواهی"@.len() == 9);
        } else if i == 7 {
            assert(SLANG_FORMAL[i]@ == "نمی‌خواهند"@);
            assert("نمی‌خواهند"@.len() == 10);
        } else if i == 8 {
            assert(SLANG_FORMAL[i]@ == "می‌دانم"@);
            assert("می‌دانم"@.len() == 7);
        } else if i == 9 {
            assert(SLANG_FORMAL[i]@ == "می‌دانی"@);
            assert("می‌دانی"@.len() == 7);
        } else if i == 10 {
            assert(SLANG_FORMAL[i]@ == "می‌داند"@);
            assert("می‌داند"@.len() == 7);
        } else if i == 11 {
            assert(SLANG_FORMAL[i]@ == "می‌دانند"@);
            assert("می‌دانند"@.len() == 8);
        } else if i == 12 {
            assert(SLANG_FORMAL[i]@ == "نمی‌دانم"@);
            assert("نمی‌دانم"@.len() == 8);
        } else if i == 13 {
            assert(SLANG_FORMAL[i]@ == "نمی‌دانی"@);
            assert("نمی‌دانی"@.len() == 8);
        } else if i == 14 {
            assert(SLANG_FORMAL[i]@ == "نمی‌داند"@);
            assert("نمی‌داند"@.len() == 8);
        } else if i == 15 {
            assert(SLANG_FORMAL[i]@ == "نمی‌دانند"@);
            assert("نمی‌دانند"@.len() == 9);
        } else if i == 16 {
            assert(SLANG_FORMAL[i]@ == "می‌توانم"@);
            assert("می‌توانم"@.len() == 8);
        } else if i == 17 {
            assert(SLANG_FORMAL[i]@ == "می‌توانی"@);
            assert("می‌توانی"@.len() == 8);
        } else if i == 18 {
            assert(SLANG_FORMAL[i]@ == "می‌تواند"@);
            assert("می‌تواند"@.len() == 8);
        } else if i == 19 {
            assert(SLANG_FORMAL[i]@ == "می‌توانند"@);
            assert("می‌توانند"@.len() == 9);
        } else if i == 20 {
            assert(SLANG_FORMAL[i]@ == "نمی‌توانم"@);
            assert("نمی‌توانم"@.len() == 9);
        } else if i == 21 {
            assert(SLANG_FORMAL[i]@ == "نمی‌توانی"@);
            assert("نمی‌توانی"@.len() == 9);
        } else if i == 22 {
            assert(SLANG_FORMAL[i]@ == "نمی‌تواند"@);
            assert("نمی‌تواند"@.len() == 9);
        } else if i == 23 {
            assert(SLANG_FORMAL[i]@ == "می‌شود"@);
            assert("می‌شود"@.len() == 6);
        } else if i == 24 {
            assert(SLANG_FORMAL[i]@ == "نمی‌شود"@);
            assert("نمی‌شود"@.len() == 7);
        } else if i == 25 {
            assert(SLANG_FORMAL[i]@ == "می‌گوید"@);
            assert("می‌گوید"@.len() == 7);
        } else if i == 26 {
            assert(SLANG_FORMAL[i]@ == "می‌گویند"@);
            assert("می‌گویند"@.len() == 8);
        } else if i == 27 {
            assert(SLANG_FORMAL[i]@ == "دارد"@);
            assert("دارد"@.len() == 4);
        } else if i == 28 {
            assert(SLANG_FORMAL[i]@ == "دارند"@);
            assert("دارند"@.len() == 5);
        } else if i == 29 {
            assert(SLANG_FORMAL[i]@ == "هستند"@);
            assert("هستند"@.len() == 5);
        } else if i == 30 {
            assert(SLANG_FORMAL[i]@ == "نیستند"@);
            assert("نیستند"@.len() == 6);
        } else if i == 31 {
            assert(SLANG_FORMAL[i]@ == "برویم"@);
            assert("برویم"@.len() == 5);
        } else if i == 32 {
            assert(SLANG_FORMAL[i]@ == "بیایید"@);
            assert("بیایید"@.len() == 6);
        } else if i == 33 {
            assert(SLANG_FORMAL[i]@ == "اینجاست"@);
            assert("اینجاست"@.len() == 7);
        } else if i == 34 {
            assert(SLANG_FORMAL[i]@ == "آنجاست"@);
            assert("آنجاست"@.len() == 6);
        } else if i == 35 {
            assert(SLANG_FORMAL[i]@ == "چیست"@);
            assert("چیست"@.len() == 4);
        } else if i == 36 {
            assert(SLANG_FORMAL[i]@ == "کیست"@);
            assert("کیست"@.len() == 4);
        } else if i == 37 {
            assert(SLANG_FORMAL[i]@ == "کجاست"@);
            assert("کجاست"@.len() == 5);
        }
    }
}

/// Every entry of `PROFANITY_LIGHT` is a non-empty word of at most 60 characters.
pub proof fn lemma_profanity_light_shape()
    ensures
        forall|i: int| #![trigger PROFANITY_LIGHT[i]] 0 <= i < 5 ==> 1 <= PROFANITY_LIGHT[i]@.len() <= 60,
{
    reveal_strlit("ابله");
    reveal_strlit("احمق");
    reveal_strlit("خنگ");
    reveal_strlit("نادان");
    reveal_strlit("کودن");
    assert forall|i: int| #![trigger PROFANITY_LIGHT[i]] 0 <= i < 5 implies 1 <= PROFANITY_LIGHT[i]@.len() <= 60 by {
        if i == 0 {
            assert(PROFANITY_LIGHT[i]@ == "احمق"@);
            assert("احمق"@.len() == 4);
        } else if i == 1 {
            assert(PROFANITY_LIGHT[i]@ == "کودن"@);
            assert("کودن"@.len() == 4);
        } else if i == 2 {
            assert(PROFANITY_LIGHT[i]@ == "ابله"@);
            assert("ابله"@.len() == 4);
        } else if i == 3 {
            assert(PROFANITY_LIGHT[i]@ == "خنگ"@);
            assert("خنگ"@.len() == 3);
        } else if i == 4 {
            assert(PROFANITY_LIGHT[i]@ == "نادان"@);
            assert("نادان"@.len() == 5);
        }
    }
}

/// Every entry of `PROFANITY_MEDIUM` is a non-empty word of at most 60 characters.
pub proof fn lemma_profanity_medium_shape()
    ensures
        forall|i: int| #![trigger PROFANITY_MEDIUM[i]] 0 <= i < 16 ==> 1 <= PROFANITY_MEDIUM[i]@.len() <= 60,
{
    reveal_strlit("ابله");
    reveal_strlit("احمق");
    reveal_strlit("بی‌شعور");
    reveal_strlit("بی‌ناموس");
    reveal_strlit("جنده");
    reveal_strlit("حرامزاده");
    reveal_strlit("خاک‌بر");
    reveal_strlit("خنگ");
    reveal_strlit("عوضی");
    reveal_strlit("نادان");
    reveal_strlit("کثیف");
    reveal_strlit("کس");
    reveal_strlit("کودن");
    reveal_strlit("کون");
    reveal_strlit("کیر");
    reveal_strlit("گوه");
    assert forall|i: int| #![trigger PROFANITY_MEDIUM[i]] 0 <= i < 16 implies 1 <= PROFANITY_MEDIUM[i]@.len() <= 60 by {
        if i == 0 {
            assert(PROFANITY_MEDIUM[i]@ == "احمق"@);
            assert("احمق"@.len() == 4);
        } else if i == 1 {
            assert(PROFANITY_MEDIUM[i]@ == "کودن"@);
            assert("کودن"@.len() == 4);
        } else if i == 2 {
            assert(PROFANITY_MEDIUM[i]@ == "ابله"@);
            assert("ابله"@.len() == 4);
        } else if i == 3 {
            assert(PROFANITY_MEDIUM[i]@ == "خنگ"@);
            assert("خنگ"@.len() == 3);
        } else if i == 4 {
            assert(PROFANITY_MEDIUM[i]@ == "نادان"@);
            assert("نادان"@.len() == 5);
        } else if i == 5 {
            assert(PROFANITY_MEDIUM[i]@ == "عوضی"@);
            assert("عوضی"@.len() == 4);
        } else if i == 6 {
            assert(PROFANITY_MEDIUM[i]@ == "بی‌شعور"@);
            assert("بی‌شعور"@.len() == 7);
        } else if i == 7 {
            assert(PROFANITY_MEDIUM[i]@ == "کثیف"@);
            assert("کثیف"@.len() == 4);
        } else if i == 8 {
            assert(PROFANITY_MEDIUM[i]@ == "حرامزاده"@);
            assert("حرامزاده"@.len() == 8);
        } else if i == 9 {
            assert(PROFANITY_MEDIUM[i]@ == "بی‌ناموس"@);
            assert("بی‌ناموس"@.len() == 8);
        } else if i == 10 {
            assert(PROFANITY_MEDIUM[i]@ == "جنده"@);
            assert("جنده"@.len() == 4);
        } else if i == 11 {
            assert(PROFANITY_MEDIUM[i]@ == "کیر"@);
            assert("کیر"@.len() == 3);
        } else if i == 12 {
            assert(PROFANITY_MEDIUM[i]@ == "کس"@);
            assert("کس"@.len() == 2);
        } else if i == 13 {
            assert(PROFANITY_MEDIUM[i]@ == "کون"@);
            assert("کون"@.len() == 3);
        } else if i == 14 {
            assert(PROFANITY_MEDIUM[i]@ == "گوه"@);
            assert("گوه"@.len() == 3);
        } else if i == 15 {
            assert(PROFANITY_MEDIUM[i]@ == "خاک‌بر"@);
            assert("خاک‌بر"@.len() == 6);
        }
    }
}

} // verus!
