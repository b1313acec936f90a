//! Reading back what `to_words` writes.

use vstd::prelude::*;
use crate::numbers::from_words::{
    acc_from, acc_step, accumulate, good_word, is_word_sep, lemma_accumulate_append,
    lemma_words_and, lemma_words_single, lemma_words_space, number_words, scale_value,
    spec_from_words, starts_with_minus, unit_value, word_index, AND_WORD,
};
use crate::numbers::to_words::{
    abs_i64, base1000, group_part, magnitude_text, parts_from, pow1000, spec_to_words,
    three_text, three_words, AND, HUNDREDS, MINUS, ONES, SCALES, TENS,
};
use crate::text::{join_sep, skip_ws, skip_ws_back, spec_is_whitespace, spec_trim, spec_trim_start};

verus! {

/// The shapes of the number-word literals.
proof fn lemma_literals()
    ensures
        "صفر"@.len() == 3 && "صفر"@[0] == 'ص' && "صفر"@[1] == 'ف' && "صفر"@[2] == 'ر',
        forall|k: int| 0 <= k < 3 ==> !is_word_sep(#[trigger] "صفر"@[k]),
        "یک"@.len() == 2 && "یک"@[0] == 'ی' && "یک"@[1] == 'ک',
        forall|k: int| 0 <= k < 2 ==> !is_word_sep(#[trigger] "یک"@[k]),
        "یه"@.len() == 2 && "یه"@[0] == 'ی' && "یه"@[1] == 'ه',
        forall|k: int| 0 <= k < 2 ==> !is_word_sep(#[trigger] "یه"@[k]),
        "دو"@.len() == 2 && "دو"@[0] == 'د' && "دو"@[1] == 'و',
        forall|k: int| 0 <= k < 2 ==> !is_word_sep(#[trigger] "دو"@[k]),
        "سه"@.len() == 2 && "سه"@[0] == 'س' && "سه"@[1] == 'ه',
        forall|k: int| 0 <= k < 2 ==> !is_word_sep(#[trigger] "سه"@[k]),
        "چهار"@.len() == 4 && "چهار"@[0] == 'چ' && "چهار"@[1] == 'ه' && "چهار"@[2] == 'ا' && "چهار"@[3] == 'ر',
        forall|k: int| 0 <= k < 4 ==> !is_word_sep(#[trigger] "چهار"@[k]),
        "پنج"@.len() == 3 && "پنج"@[0] == 'پ' && "پنج"@[1] == 'ن' && "پنج"@[2] == 'ج',
        forall|k: int| 0 <= k < 3 ==> !is_word_sep(#[trigger] "پنج"@[k]),
        "شش"@.len() == 2 && "شش"@[0] == 'ش' && "شش"@[1] == 'ش',
        forall|k: int| 0 <= k < 2 ==> !is_word_sep(#[trigger] "شش"@[k]),
        "شیش"@.len() == 3 && "شیش"@[0] == 'ش' && "شیش"@[1] == 'ی' && "شیش"@[2] == 'ش',
        forall|k: int| 0 <= k < 3 ==> !is_word_sep(#[trigger] "شیش"@[k]),
        "هفت"@.len() == 3 && "هفت"@[0] == 'ه' && "هفت"@[1] == 'ف' && "هفت"@[2] == 'ت',
        forall|k: int| 0 <= k < 3 ==> !is_word_sep(#[trigger] "هفت"@[k]),
        "هشت"@.len() == 3 && "هشت"@[0] == 'ه' && "هشت"@[1] == 'ش' && "هشت"@[2] == 'ت',
        forall|k: int| 0 <= k < 3 ==> !is_word_sep(#[trigger] "هشت"@[k]),
        "نه"@.len() == 2 && "نه"@[0] == 'ن' && "نه"@[1] == 'ه',
        forall|k: int| 0 <= k < 2 ==> !is_word_sep(#[trigger] "نه"@[k]),
        "ده"@.len() == 2 && "ده"@[0] == 'د' && "ده"@[1] == 'ه',
        forall|k: int| 0 <= k < 2 ==> !is_word_sep(#[trigger] "ده"@[k]),
        "یازده"@.len() == 5 && "یازده"@[0] == 'ی' && "یازده"@[1] == 'ا' && "یازده"@[2] == 'ز' && "یازده"@[3] == 'د' && "یازده"@[4] == 'ه',
        forall|k: int| 0 <= k < 5 ==> !is_word_sep(#[trigger] "یازده"@[k]),
        "دوازده"@.len() == 6 && "دوازده"@[0] == 'د' && "دوازده"@[1] == 'و' && "دوازده"@[2] == 'ا' && "دوازده"@[3] == 'ز' && "دوازده"@[4] == 'د' && "دوازده"@[5] == 'ه',
        forall|k: int| 0 <= k < 6 ==> !is_word_sep(#[trigger] "دوازده"@[k]),
        "سیزده"@.len() == 5 && "سیزده"@[0] == 'س' && "سیزده"@[1] == 'ی' && "سیزده"@[2] == 'ز' && "سیزده"@[3] == 'د' && "سیزده"@[4] == 'ه',
        forall|k: int| 0 <= k < 5 ==> !is_word_sep(#[trigger] "سیزده"@[k]),
        "چهارده"@.len() == 6 && "چهارده"@[0] == 'چ' && "چهارده"@[1] == 'ه' && "چهارده"@[2] == 'ا' && "چهارده"@[3] == 'ر' && "چهارده"@[4] == 'د' && "چهارده"@[5] == 'ه',
        forall|k: int| 0 <= k < 6 ==> !is_word_sep(#[trigger] "چهارده"@[k]),
        "پانزده"@.len() == 6 && "پانزده"@[0] == 'پ' && "پانزده"@[1] == 'ا' && "پانزده"@[2] == 'ن' && "پانزده"@[3] == 'ز' && "پانزده"@[4] == 'د' && "پانزده"@[5] == 'ه',
        forall|k: int| 0 <= k < 6 ==> !is_word_sep(#[trigger] "پانزده"@[k]),
        "پونزده"@.len() == 6 && "پونزده"@[0] == 'پ' && "پونزده"@[1] == 'و' && "پونزده"@[2] == 'ن' && "پونزده"@[3] == 'ز' && "پونزده"@[4] == 'د' && "پونزده"@[5] == 'ه',
        forall|k: int| 0 <= k < 6 ==> !is_word_sep(#[trigger] "پونزده"@[k]),
        "شانزده"@.len() == 6 && "شانزده"@[0] == 'ش' && "شانزده"@[1] == 'ا' && "شانزده"@[2] == 'ن' && "شانزده"@[3] == 'ز' && "شانزده"@[4] == 'د' && "شانزده"@[5] == 'ه',
        forall|k: int| 0 <= k < 6 ==> !is_word_sep(#[trigger] "شانزده"@[k]),
        "شونزده"@.len() == 6 && "شونزده"@[0] == 'ش' && "شونزده"@[1] == 'و' && "شونزده"@[2] == 'ن' && "شونزده"@[3] == 'ز' && "شونزده"@[4] == 'د' && "شونزده"@[5] == 'ه',
        forall|k: int| 0 <= k < 6 ==> !is_word_sep(#[trigger] "شونزده"@[k]),
        "هفده"@.len() == 4 && "هفده"@[0] == 'ه' && "هفده"@[1] == 'ف' && "هفده"@[2] == 'د' && "هفده"@[3] == 'ه',
        forall|k: int| 0 <= k < 4 ==> !is_word_sep(#[trigger] "هفده"@[k]),
        "هیفده"@.len() == 5 && "هیفده"@[0] == 'ه' && "هیفده"@[1] == 'ی' && "هیفده"@[2] == 'ف' && "هیفده"@[3] == 'د' && "هیفده"@[4] == 'ه',
        forall|k: int| 0 <= k < 5 ==> !is_word_sep(#[trigger] "هیفده"@[k]),
        "هجده"@.len() == 4 && "هجده"@[0] == 'ه' && "هجده"@[1] == 'ج' && "هجده"@[2] == 'د' && "هجده"@[3] == 'ه',
        forall|k: int| 0 <= k < 4 ==> !is_word_sep(#[trigger] "هجده"@[k]),
        "هیجده"@.len() == 5 && "هیجده"@[0] == 'ه' && "هیجده"@[1] == 'ی' && "هیجده"@[2] == 'ج' && "هیجده"@[3] == 'د' && "هیجده"@[4] == 'ه',
        forall|k: int| 0 <= k < 5 ==> !is_word_sep(#[trigger] "هیجده"@[k]),
        "نوزده"@.len() == 5 && "نوزده"@[0] == 'ن' && "نوزده"@[1] == 'و' && "نوزده"@[2] == 'ز' && "نوزده"@[3] == 'د' && "نوزده"@[4] == 'ه',
        forall|k: int| 0 <= k < 5 ==> !is_word_sep(#[trigger] "نوزده"@[k]),
        "بیست"@.len() == 4 && "بیست"@[0] == 'ب' && "بیست"@[1] == 'ی' && "بیست"@[2] == 'س' && "بیست"@[3] == 'ت',
        forall|k: int| 0 <= k < 4 ==> !is_word_sep(#[trigger] "بیست"@[k]),
        "سی"@.len() == 2 && "سی"@[0] == 'س' && "سی"@[1] == 'ی',
        forall|k: int| 0 <= k < 2 ==> !is_word_sep(#[trigger] "سی"@[k]),
        "چهل"@.len() == 3 && "چهل"@[0] == 'چ' && "چهل"@[1] == 'ه' && "چهل"@[2] == 'ل',
        forall|k: int| 0 <= k < 3 ==> !is_word_sep(#[trigger] "چهل"@[k]),
        "پنجاه"@.len() == 5 && "پنجاه"@[0] == 'پ' && "پنجاه"@[1] == 'ن' && "پنجاه"@[2] == 'ج' && "پنجاه"@[3] == 'ا' && "پنجاه"@[4] == 'ه',
        forall|k: int| 0 <= k < 5 ==> !is_word_sep(#[trigger] "پنجاه"@[k]),
        "شصت"@.len() == 3 && "شصت"@[0] == 'ش' && "شصت"@[1] == 'ص' && "شصت"@[2] == 'ت',
        forall|k: int| 0 <= k < 3 ==> !is_word_sep(#[trigger] "شصت"@[k]),
        "هفتاد"@.len() == 5 && "هفتاد"@[0] == 'ه' && "هفتاد"@[1] == 'ف' && "هفتاد"@[2] == 'ت' && "هفتاد"@[3] == 'ا' && "هفتاد"@[4] == 'د',
        forall|k: int| 0 <= k < 5 ==> !is_word_sep(#[trigger] "هفتاد"@[k]),
        "هشتاد"@.len() == 5 && "هشتاد"@[0] == 'ه' && "هشتاد"@[1] == 'ش' && "هشتاد"@[2] == 'ت' && "هشتاد"@[3] == 'ا' && "هشتاد"@[4] == 'د',
        forall|k: int| 0 <= k < 5 ==> !is_word_sep(#[trigger] "هشتاد"@[k]),
        "نود"@.len() == 3 && "نود"@[0] == 'ن' && "نود"@[1] == 'و' && "نود"@[2] == 'د',
        forall|k: int| 0 <= k < 3 ==> !is_word_sep(#[trigger] "نود"@[k]),
        "صد"@.len() == 2 && "صد"@[0] == 'ص' && "صد"@[1] == 'د',
        forall|k: int| 0 <= k < 2 ==> !is_word_sep(#[trigger] "صد"@[k]),
        "یکصد"@.len() == 4 && "یکصد"@[0] == 'ی' && "یکصد"@[1] == 'ک' && "یکصد"@[2] == 'ص' && "یکصد"@[3] == 'د',
        forall|k: int| 0 <= k < 4 ==> !is_word_sep(#[trigger] "یکصد"@[k]),
        "دویست"@.len() == 5 && "دویست"@[0] == 'د' && "دویست"@[1] == 'و' && "دویست"@[2] == 'ی' && "دویست"@[3] == 'س' && "دویست"@[4] == 'ت',
        forall|k: int| 0 <= k < 5 ==> !is_word_sep(#[trigger] "دویست"@[k]),
        "سیصد"@.len() == 4 && "سیصد"@[0] == 'س' && "سیصد"@[1] == 'ی' && "سیصد"@[2] == 'ص' && "سیصد"@[3] == 'د',
        forall|k: int| 0 <= k < 4 ==> !is_word_sep(#[trigger] "سیصد"@[k]),
        "چهارصد"@.len() == 6 && "چهارصد"@[0] == 'چ' && "چهارصد"@[1] == 'ه' && "چهارصد"@[2] == 'ا' && "چهارصد"@[3] == 'ر' && "چهارصد"@[4] == 'ص' && "چهارصد"@[5] == 'د',
        forall|k: int| 0 <= k < 6 ==> !is_word_sep(#[trigger] "چهارصد"@[k]),
        "پانصد"@.len() == 5 && "پانصد"@[0] == 'پ' && "پانصد"@[1] == 'ا' && "پانصد"@[2] == 'ن' && "پانصد"@[3] == 'ص' && "پانصد"@[4] == 'د',
        forall|k: int| 0 <= k < 5 ==> !is_word_sep(#[trigger] "پانصد"@[k]),
        "ششصد"@.len() == 4 && "ششصد"@[0] == 'ش' && "ششصد"@[1] == 'ش' && "ششصد"@[2] == 'ص' && "ششصد"@[3] == 'د',
        forall|k: int| 0 <= k < 4 ==> !is_word_sep(#[trigger] "ششصد"@[k]),
        "هفتصد"@.len() == 5 && "هفتصد"@[0] == 'ه' && "هفتصد"@[1] == 'ف' && "هفتصد"@[2] == 'ت' && "هفتصد"@[3] == 'ص' && "هفتصد"@[4] == 'د',
        forall|k: int| 0 <= k < 5 ==> !is_word_sep(#[trigger] "هفتصد"@[k]),
        "هشتصد"@.len() == 5 && "هشتصد"@[0] == 'ه' && "هشتصد"@[1] == 'ش' && "هشتصد"@[2] == 'ت' && "هشتصد"@[3] == 'ص' && "هشتصد"@[4] == 'د',
        forall|k: int| 0 <= k < 5 ==> !is_word_sep(#[trigger] "هشتصد"@[k]),
        "نهصد"@.len() == 4 && "نهصد"@[0] == 'ن' && "نهصد"@[1] == 'ه' && "نهصد"@[2] == 'ص' && "نهصد"@[3] == 'د',
        forall|k: int| 0 <= k < 4 ==> !is_word_sep(#[trigger] "نهصد"@[k]),
        "هزار"@.len() == 4 && "هزار"@[0] == 'ه' && "هزار"@[1] == 'ز' && "هزار"@[2] == 'ا' && "هزار"@[3] == 'ر',
        forall|k: int| 0 <= k < 4 ==> !is_word_sep(#[trigger] "هزار"@[k]),
        "میلیون"@.len() == 6 && "میلیون"@[0] == 'م' && "میلیون"@[1] == 'ی' && "میلیون"@[2] == 'ل' && "میلیون"@[3] == 'ی' && "میلیون"@[4] == 'و' && "میلیون"@[5] == 'ن',
        forall|k: int| 0 <= k < 6 ==> !is_word_sep(#[trigger] "میلیون"@[k]),
        "میلیارد"@.len() == 7 && "میلیارد"@[0] == 'م' && "میلیارد"@[1] == 'ی' && "میلیارد"@[2] == 'ل' && "میلیارد"@[3] == 'ی' && "میلیارد"@[4] == 'ا' && "میلیارد"@[5] == 'ر' && "میلیارد"@[6] == 'د',
        forall|k: int| 0 <= k < 7 ==> !is_word_sep(#[trigger] "میلیارد"@[k]),
        "تریلیون"@.len() == 7 && "تریلیون"@[0] == 'ت' && "تریلیون"@[1] == 'ر' && "تریلیون"@[2] == 'ی' && "تریلیون"@[3] == 'ل' && "تریلیون"@[4] == 'ی' && "تریلیون"@[5] == 'و' && "تریلیون"@[6] == 'ن',
        forall|k: int| 0 <= k < 7 ==> !is_word_sep(#[trigger] "تریلیون"@[k]),
        AND@ == seq![' ', 'و', ' '],
        AND_WORD@ == seq!['و'],
        MINUS@ == seq!['م', 'ن', 'ف', 'ی'],
{
    reveal_strlit("صفر");
    reveal_strlit("یک");
    reveal_strlit("یه");
    reveal_strlit("دو");
    reveal_strlit("سه");
    reveal_strlit("چهار");
    reveal_strlit("پنج");
    reveal_strlit("شش");
    reveal_strlit("شیش");
    reveal_strlit("هفت");
    reveal_strlit("هشت");
    reveal_strlit("نه");
    reveal_strlit("ده");
    reveal_strlit("یازده");
    reveal_strlit("دوازده");
    reveal_strlit("سیزده");
    reveal_strlit("چهارده");
    reveal_strlit("پانزده");
    reveal_strlit("پونزده");
    reveal_strlit("شانزده");
    reveal_strlit("شونزده");
    reveal_strlit("هفده");
    reveal_strlit("هیفده");
    reveal_strlit("هجده");
    reveal_strlit("هیجده");
    reveal_strlit("نوزده");
    reveal_strlit("بیست");
    reveal_strlit("سی");
    reveal_strlit("چهل");
    reveal_strlit("پنجاه");
    reveal_strlit("شصت");
    reveal_strlit("هفتاد");
    reveal_strlit("هشتاد");
    reveal_strlit("نود");
    reveal_strlit("صد");
    reveal_strlit("یکصد");
    reveal_strlit("دویست");
    reveal_strlit("سیصد");
    reveal_strlit("چهارصد");
    reveal_strlit("پانصد");
    reveal_strlit("ششصد");
    reveal_strlit("هفتصد");
    reveal_strlit("هشتصد");
    reveal_strlit("نهصد");
    reveal_strlit("هزار");
    reveal_strlit("میلیون");
    reveal_strlit("میلیارد");
    reveal_strlit("تریلیون");
    reveal_strlit(" و ");
    reveal_strlit("و");
    reveal_strlit("منفی");
    assert forall|k: int| 0 <= k < 3 implies !is_word_sep(#[trigger] "صفر"@[k]) by {
        assert(k == 0 || k == 1 || k == 2);
    }
    assert forall|k: int| 0 <= k < 2 implies !is_word_sep(#[trigger] "یک"@[k]) by {
        assert(k == 0 || k == 1);
    }
    assert forall|k: int| 0 <= k < 2 implies !is_word_sep(#[trigger] "یه"@[k]) by {
        assert(k == 0 || k == 1);
    }
    assert forall|k: int| 0 <= k < 2 implies !is_word_sep(#[trigger] "دو"@[k]) by {
        assert(k == 0 || k == 1);
    }
    assert forall|k: int| 0 <= k < 2 implies !is_word_sep(#[trigger] "سه"@[k]) by {
        assert(k == 0 || k == 1);
    }
    assert forall|k: int| 0 <= k < 4 implies !is_word_sep(#[trigger] "چهار"@[k]) by {
        assert(k == 0 || k == 1 || k == 2 || k == 3);
    }
    assert forall|k: int| 0 <= k < 3 implies !is_word_sep(#[trigger] "پنج"@[k]) by {
        assert(k == 0 || k == 1 || k == 2);
    }
    assert forall|k: int| 0 <= k < 2 implies !is_word_sep(#[trigger] "شش"@[k]) by {
        assert(k == 0 || k == 1);
    }
    assert forall|k: int| 0 <= k < 3 implies !is_word_sep(#[trigger] "شیش"@[k]) by {
        assert(k == 0 || k == 1 || k == 2);
    }
    assert forall|k: int| 0 <= k < 3 implies !is_word_sep(#[trigger] "هفت"@[k]) by {
        assert(k == 0 || k == 1 || k == 2);
    }
    assert forall|k: int| 0 <= k < 3 implies !is_word_sep(#[trigger] "هشت"@[k]) by {
        assert(k == 0 || k == 1 || k == 2);
    }
    assert forall|k: int| 0 <= k < 2 implies !is_word_sep(#[trigger] "نه"@[k]) by {
        assert(k == 0 || k == 1);
    }
    assert forall|k: int| 0 <= k < 2 implies !is_word_sep(#[trigger] "ده"@[k]) by {
        assert(k == 0 || k == 1);
    }
    assert forall|k: int| 0 <= k < 5 implies !is_word_sep(#[trigger] "یازده"@[k]) by {
        assert(k == 0 || k == 1 || k == 2 || k == 3 || k == 4);
    }
    assert forall|k: int| 0 <= k < 6 implies !is_word_sep(#[trigger] "دوازده"@[k]) by {
        assert(k == 0 || k == 1 || k == 2 || k == 3 || k == 4 || k == 5);
    }
    assert forall|k: int| 0 <= k < 5 implies !is_word_sep(#[trigger] "سیزده"@[k]) by {
        assert(k == 0 || k == 1 || k == 2 || k == 3 || k == 4);
    }
    assert forall|k: int| 0 <= k < 6 implies !is_word_sep(#[trigger] "چهارده"@[k]) by {
        assert(k == 0 || k == 1 || k == 2 || k == 3 || k == 4 || k == 5);
    }
    assert forall|k: int| 0 <= k < 6 implies !is_word_sep(#[trigger] "پانزده"@[k]) by {
        assert(k == 0 || k == 1 || k == 2 || k == 3 || k == 4 || k == 5);
    }
    assert forall|k: int| 0 <= k < 6 implies !is_word_sep(#[trigger] "پونزده"@[k]) by {
        assert(k == 0 || k == 1 || k == 2 || k == 3 || k == 4 || k == 5);
    }
    assert forall|k: int| 0 <= k < 6 implies !is_word_sep(#[trigger] "شانزده"@[k]) by {
        assert(k == 0 || k == 1 || k == 2 || k == 3 || k == 4 || k == 5);
    }
    assert forall|k: int| 0 <= k < 6 implies !is_word_sep(#[trigger] "شونزده"@[k]) by {
        assert(k == 0 || k == 1 || k == 2 || k == 3 || k == 4 || k == 5);
    }
    assert forall|k: int| 0 <= k < 4 implies !is_word_sep(#[trigger] "هفده"@[k]) by {
        assert(k == 0 || k == 1 || k == 2 || k == 3);
    }
    assert forall|k: int| 0 <= k < 5 implies !is_word_sep(#[trigger] "هیفده"@[k]) by {
        assert(k == 0 || k == 1 || k == 2 || k == 3 || k == 4);
    }
    assert forall|k: int| 0 <= k < 4 implies !is_word_sep(#[trigger] "هجده"@[k]) by {
        assert(k == 0 || k == 1 || k == 2 || k == 3);
    }
    assert forall|k: int| 0 <= k < 5 implies !is_word_sep(#[trigger] "هیجده"@[k]) by {
        assert(k == 0 || k == 1 || k == 2 || k == 3 || k == 4);
    }
    assert forall|k: int| 0 <= k < 5 implies !is_word_sep(#[trigger] "نوزده"@[k]) by {
        assert(k == 0 || k == 1 || k == 2 || k == 3 || k == 4);
    }
    assert forall|k: int| 0 <= k < 4 implies !is_word_sep(#[trigger] "بیست"@[k]) by {
        assert(k == 0 || k == 1 || k == 2 || k == 3);
    }
    assert forall|k: int| 0 <= k < 2 implies !is_word_sep(#[trigger] "سی"@[k]) by {
        assert(k == 0 || k == 1);
    }
    assert forall|k: int| 0 <= k < 3 implies !is_word_sep(#[trigger] "چهل"@[k]) by {
        assert(k == 0 || k == 1 || k == 2);
    }
    assert forall|k: int| 0 <= k < 5 implies !is_word_sep(#[trigger] "پنجاه"@[k]) by {
        assert(k == 0 || k == 1 || k == 2 || k == 3 || k == 4);
    }
    assert forall|k: int| 0 <= k < 3 implies !is_word_sep(#[trigger] "شصت"@[k]) by {
        assert(k == 0 || k == 1 || k == 2);
    }
    assert forall|k: int| 0 <= k < 5 implies !is_word_sep(#[trigger] "هفتاد"@[k]) by {
        assert(k == 0 || k == 1 || k == 2 || k == 3 || k == 4);
    }
    assert forall|k: int| 0 <= k < 5 implies !is_word_sep(#[trigger] "هشتاد"@[k]) by {
        assert(k == 0 || k == 1 || k == 2 || k == 3 || k == 4);
    }
    assert forall|k: int| 0 <= k < 3 implies !is_word_sep(#[trigger] "نود"@[k]) by {
        assert(k == 0 || k == 1 || k == 2);
    }
    assert forall|k: int| 0 <= k < 2 implies !is_word_sep(#[trigger] "صد"@[k]) by {
        assert(k == 0 || k == 1);
    }
    assert forall|k: int| 0 <= k < 4 implies !is_word_sep(#[trigger] "یکصد"@[k]) by {
        assert(k == 0 || k == 1 || k == 2 || k == 3);
    }
    assert forall|k: int| 0 <= k < 5 implies !is_word_sep(#[trigger] "دویست"@[k]) by {
        assert(k == 0 || k == 1 || k == 2 || k == 3 || k == 4);
    }
    assert forall|k: int| 0 <= k < 4 implies !is_word_sep(#[trigger] "سیصد"@[k]) by {
        assert(k == 0 || k == 1 || k == 2 || k == 3);
    }
    assert forall|k: int| 0 <= k < 6 implies !is_word_sep(#[trigger] "چهارصد"@[k]) by {
        assert(k == 0 || k == 1 || k == 2 || k == 3 || k == 4 || k == 5);
    }
    assert forall|k: int| 0 <= k < 5 implies !is_word_sep(#[trigger] "پانصد"@[k]) by {
        assert(k == 0 || k == 1 || k == 2 || k == 3 || k == 4);
    }
    assert forall|k: int| 0 <= k < 4 implies !is_word_sep(#[trigger] "ششصد"@[k]) by {
        assert(k == 0 || k == 1 || k == 2 || k == 3);
    }
    assert forall|k: int| 0 <= k < 5 implies !is_word_sep(#[trigger] "هفتصد"@[k]) by {
        assert(k == 0 || k == 1 || k == 2 || k == 3 || k == 4);
    }
    assert forall|k: int| 0 <= k < 5 implies !is_word_sep(#[trigger] "هشتصد"@[k]) by {
        assert(k == 0 || k == 1 || k == 2 || k == 3 || k == 4);
    }
    assert forall|k: int| 0 <= k < 4 implies !is_word_sep(#[trigger] "نهصد"@[k]) by {
        assert(k == 0 || k == 1 || k == 2 || k == 3);
    }
    assert forall|k: int| 0 <= k < 4 implies !is_word_sep(#[trigger] "هزار"@[k]) by {
        assert(k == 0 || k == 1 || k == 2 || k == 3);
    }
    assert forall|k: int| 0 <= k < 6 implies !is_word_sep(#[trigger] "میلیون"@[k]) by {
        assert(k == 0 || k == 1 || k == 2 || k == 3 || k == 4 || k == 5);
    }
    assert forall|k: int| 0 <= k < 7 implies !is_word_sep(#[trigger] "میلیارد"@[k]) by {
        assert(k == 0 || k == 1 || k == 2 || k == 3 || k == 4 || k == 5 || k == 6);
    }
    assert forall|k: int| 0 <= k < 7 implies !is_word_sep(#[trigger] "تریلیون"@[k]) by {
        assert(k == 0 || k == 1 || k == 2 || k == 3 || k == 4 || k == 5 || k == 6);
    }
    assert(AND@ =~= seq![' ', 'و', ' ']);
    assert(AND_WORD@ =~= seq!['و']);
    assert(MINUS@ =~= seq!['م', 'ن', 'ف', 'ی']);
}

/// Every cardinal word below twenty reads back as its value.
proof fn lemma_ones()
    ensures
        forall|i: int| #![trigger ONES[i]] 0 <= i < 20 ==> unit_value(ONES[i]@) == Some(i) && good_word(ONES[i]@) && ONES[i]@[0] != 'م',
{
    lemma_literals();
    reveal_with_fuel(word_index, 46);
    assert forall|i: int| #![trigger ONES[i]] 0 <= i < 20 implies unit_value(ONES[i]@) == Some(i) && good_word(ONES[i]@) && ONES[i]@[0] != 'م' by {
        if i == 0 {
            assert(ONES[i]@ == "صفر"@);
        } else if i == 1 {
            assert(ONES[i]@ == "یک"@);
        } else if i == 2 {
            assert(ONES[i]@ == "دو"@);
        } else if i == 3 {
            assert(ONES[i]@ == "سه"@);
        } else if i == 4 {
            assert(ONES[i]@ == "چهار"@);
        } else if i == 5 {
            assert(ONES[i]@ == "پنج"@);
        } else if i == 6 {
            assert(ONES[i]@ == "شش"@);
        } else if i == 7 {
            assert(ONES[i]@ == "هفت"@);
        } else if i == 8 {
            assert(ONES[i]@ == "هشت"@);
        } else if i == 9 {
            assert(ONES[i]@ == "نه"@);
        } else if i == 10 {
            assert(ONES[i]@ == "ده"@);
        } else if i == 11 {
            assert(ONES[i]@ == "یازده"@);
        } else if i == 12 {
            assert(ONES[i]@ == "دوازده"@);
        } else if i == 13 {
            assert(ONES[i]@ == "سیزده"@);
        } else if i == 14 {
            assert(ONES[i]@ == "چهارده"@);
        } else if i == 15 {
            assert(ONES[i]@ == "پانزده"@);
        } else if i == 16 {
            assert(ONES[i]@ == "شانزده"@);
        } else if i == 17 {
            assert(ONES[i]@ == "هفده"@);
        } else if i == 18 {
            assert(ONES[i]@ == "هجده"@);
        } else if i == 19 {
            assert(ONES[i]@ == "نوزده"@);
        }
    }
}

/// Every tens word reads back as its value.
proof fn lemma_tens()
    ensures
        forall|i: int| #![trigger TENS[i]] 2 <= i < 10 ==> unit_value(TENS[i]@) == Some(10 * i) && good_word(TENS[i]@) && TENS[i]@[0] != 'م',
{
    lemma_literals();
    reveal_with_fuel(word_index, 46);
    assert forall|i: int| #![trigger TENS[i]] 2 <= i < 10 implies unit_value(TENS[i]@) == Some(10 * i) && good_word(TENS[i]@) && TENS[i]@[0] != 'م' by {
        if i == 2 {
            assert(TENS[i]@ == "بیست"@);
        } else if i == 3 {
            assert(TENS[i]@ == "سی"@);
        } else if i == 4 {
            assert(TENS[i]@ == "چهل"@);
        } else if i == 5 {
            assert(TENS[i]@ == "پنجاه"@);
        } else if i == 6 {
            assert(TENS[i]@ == "شصت"@);
        } else if i == 7 {
            assert(TENS[i]@ == "هفتاد"@);
        } else if i == 8 {
            assert(TENS[i]@ == "هشتاد"@);
        } else if i == 9 {
            assert(TENS[i]@ == "نود"@);
        }
    }
}

/// Every hundreds word reads back as its value.
proof fn lemma_hundreds()
    ensures
        forall|i: int| #![trigger HUNDREDS[i]] 1 <= i < 10 ==> unit_value(HUNDREDS[i]@) == Some(100 * i) && good_word(HUNDREDS[i]@) && HUNDREDS[i]@[0] != 'م',
{
    lemma_literals();
    reveal_with_fuel(word_index, 46);
    assert forall|i: int| #![trigger HUNDREDS[i]] 1 <= i < 10 implies unit_value(HUNDREDS[i]@) == Some(100 * i) && good_word(HUNDREDS[i]@) && HUNDREDS[i]@[0] != 'م' by {
        if i == 1 {
            assert(HUNDREDS[i]@ == "صد"@);
        } else if i == 2 {
            assert(HUNDREDS[i]@ == "دویست"@);
        } else if i == 3 {
            assert(HUNDREDS[i]@ == "سیصد"@);
        } else if i == 4 {
            assert(HUNDREDS[i]@ == "چهارصد"@);
        } else if i == 5 {
            assert(HUNDREDS[i]@ == "پانصد"@);
        } else if i == 6 {
            assert(HUNDREDS[i]@ == "ششصد"@);
        } else if i == 7 {
            assert(HUNDREDS[i]@ == "هفتصد"@);
        } else if i == 8 {
            assert(HUNDREDS[i]@ == "هشتصد"@);
        } else if i == 9 {
            assert(HUNDREDS[i]@ == "نهصد"@);
        }
    }
}

/// The scale words up to a trillion read back as their multipliers.
proof fn lemma_scales()
    ensures
        forall|i: int| #![trigger SCALES[i]] 1 <= i < 5 ==> unit_value(SCALES[i]@) is None && scale_value(SCALES[i]@) == Some(pow1000(i as nat)) && good_word(SCALES[i]@),
{
    lemma_literals();
    reveal_with_fuel(word_index, 46);
    reveal_with_fuel(pow1000, 5);
    assert forall|i: int| #![trigger SCALES[i]] 1 <= i < 5 implies unit_value(SCALES[i]@) is None && scale_value(SCALES[i]@) == Some(pow1000(i as nat)) && good_word(SCALES[i]@) by {
        if i == 1 {
            assert(SCALES[i]@ == "هزار"@);
        } else if i == 2 {
            assert(SCALES[i]@ == "میلیون"@);
        } else if i == 3 {
            assert(SCALES[i]@ == "میلیارد"@);
        } else if i == 4 {
            assert(SCALES[i]@ == "تریلیون"@);
        }
    }
}

/// The words of each text, concatenated.
pub open spec fn flat_words(ps: Seq<Seq<char>>) -> Seq<Seq<char>>
    decreases ps.len(),
{
    if ps.len() == 0 {
        seq![]
    } else {
        flat_words(ps.drop_last()) + number_words(ps.last())
    }
}

/// Texts joined by the conjunction read as the words of each in turn.
proof fn lemma_words_join(ps: Seq<Seq<char>>)
    ensures
        number_words(join_sep(ps, AND@)) == flat_words(ps),
    decreases ps.len(),
{
    lemma_literals();
    if ps.len() == 0 {
        assert(number_words(seq![]) =~= seq![]);
    } else if ps.len() == 1 {
        assert(ps.drop_last() =~= seq![]);
        assert(flat_words(ps.drop_last()) =~= seq![]);
        assert(flat_words(ps) =~= number_words(ps[0]));
    } else {
        lemma_words_join(ps.drop_last());
        lemma_words_and(join_sep(ps.drop_last(), AND@), ps.last());
    }
}

/// Words that are each a single word read as themselves.
proof fn lemma_flat_good(ws: Seq<Seq<char>>)
    requires
        forall|i: int| 0 <= i < ws.len() ==> good_word(#[trigger] ws[i]),
    ensures
        flat_words(ws) == ws,
    decreases ws.len(),
{
    if ws.len() > 0 {
        assert(forall|i: int| 0 <= i < ws.drop_last().len() ==> ws.drop_last()[i] == ws[i]);
        lemma_flat_good(ws.drop_last());
        lemma_words_single(ws.last());
        assert(ws.drop_last() + seq![ws.last()] =~= ws);
    }
}

/// Continuing a sum over a concatenation continues over each part.
proof fn lemma_acc_from_append(st: Option<(int, int)>, a: Seq<Seq<char>>, b: Seq<Seq<char>>)
    ensures
        acc_from(st, a + b) == acc_from(acc_from(st, a), b),
    decreases b.len(),
{
    if b.len() == 0 {
        assert(a + b =~= a);
    } else {
        lemma_acc_from_append(st, a, b.drop_last());
        assert((a + b).drop_last() =~= a + b.drop_last());
    }
}

/// Facts about the words of a number below one thousand.
proof fn lemma_three(g: int, t: int)
    requires
        1 <= g < 1000,
    ensures
        three_words(g).len() > 0,
        forall|i: int| 0 <= i < three_words(g).len() ==> good_word(#[trigger] three_words(g)[i]),
        three_words(g)[0][0] != 'م',
        acc_from(Some((t, 0)), three_words(g)) == Some((t, g)),
        number_words(three_text(g)) == three_words(g),
{
    lemma_ones();
    lemma_tens();
    lemma_hundreds();
    let ws = three_words(g);
    let h = g / 100;
    let rem = g % 100;
    assert(ONES[rem % 10] == ONES[rem % 10]);
    assert(TENS[rem / 10] == TENS[rem / 10]);
    assert(HUNDREDS[h] == HUNDREDS[h]);
    assert(ONES[rem] == ONES[rem]);
    assert(forall|i: int| 0 <= i < ws.len() ==> good_word(#[trigger] ws[i]));
    reveal_with_fuel(acc_from, 4);
    if ws.len() >= 1 {
        assert(ws.drop_last().len() == ws.len() - 1);
    }
    if ws.len() >= 2 {
        assert(ws.drop_last().drop_last().len() == ws.len() - 2);
    }
    lemma_words_join(ws);
    lemma_flat_good(ws);
}

/// The words of one thousand-group with its scale.
proof fn lemma_part_words(g: int, idx: int)
    requires
        1 <= g < 1000,
        0 <= idx < 5,
    ensures
        number_words(group_part(g, idx)) == (if idx == 0 {
            three_words(g)
        } else {
            three_words(g).push(SCALES[idx]@)
        }),
{
    lemma_three(g, 0);
    if idx > 0 {
        lemma_scales();
        assert(SCALES[idx] == SCALES[idx]);
        lemma_words_space(three_text(g), SCALES[idx]@);
        lemma_words_single(SCALES[idx]@);
    }
}

/// Sum of `gs[j] * 1000^j` for `j >= k`.
pub open spec fn hi_value(gs: Seq<int>, k: int) -> int
    decreases gs.len() - k,
{
    if k < 0 || k >= gs.len() {
        0
    } else {
        gs[k] * pow1000(k as nat) + hi_value(gs, k + 1)
    }
}

proof fn lemma_hi_shift(x: int, rest: Seq<int>, k: int)
    requires
        0 <= k,
    ensures
        hi_value(seq![x] + rest, k + 1) == 1000 * hi_value(rest, k),
    decreases rest.len() - k,
{
    if k < rest.len() {
        lemma_hi_shift(x, rest, k + 1);
        let p = pow1000(k as nat);
        assert((seq![x] + rest)[k + 1] == rest[k]);
        assert(pow1000((k + 1) as nat) == 1000 * p);
        assert(rest[k] * (1000 * p) == 1000 * (rest[k] * p)) by (nonlinear_arith);
    }
}

/// The base-1000 digits of `a` spell `a`, each below 1000, and there are at
/// most `m` of them when `a < 1000^m`.
pub(crate) proof fn lemma_base1000(a: nat, m: nat)
    requires
        a < pow1000(m),
    ensures
        hi_value(base1000(a), 0) == a,
        base1000(a).len() <= m,
        forall|i: int| 0 <= i < base1000(a).len() ==> 0 <= #[trigger] base1000(a)[i] < 1000,
    decreases a,
{
    if a > 0 {
        assert(m > 0);
        let p = pow1000((m - 1) as nat);
        assert(a / 1000 < p) by (nonlinear_arith)
            requires
                a < 1000 * p,
        ;
        lemma_base1000(a / 1000, (m - 1) as nat);
        let rest = base1000(a / 1000);
        lemma_hi_shift((a % 1000) as int, rest, 0);
        assert(base1000(a) == seq![(a % 1000) as int] + rest);
        assert(forall|i: int| 0 < i < base1000(a).len() ==> base1000(a)[i] == rest[i - 1]);
    }
}

/// What each text of `parts_from(gs, k)` looks like at its ends.
pub open spec fn part_ok(p: Seq<char>) -> bool {
    &&& p.len() > 0
    &&& !spec_is_whitespace(p[0])
    &&& p[0] != 'م'
    &&& !spec_is_whitespace(p.last())
}

/// Summing the parts of the groups from `k` up gives their value.
proof fn lemma_parts(gs: Seq<int>, k: int)
    requires
        1 <= k <= gs.len() <= 5,
        forall|i: int| 0 <= i < gs.len() ==> 0 <= #[trigger] gs[i] < 1000,
    ensures
        accumulate(flat_words(parts_from(gs, k))) == Some((hi_value(gs, k), 0int)),
        forall|i: int|
            0 <= i < parts_from(gs, k).len() ==> part_ok(#[trigger] parts_from(gs, k)[i]),
    decreases gs.len() - k,
{
    if k == gs.len() {
        assert(flat_words(parts_from(gs, k)) =~= seq![]);
    } else {
        lemma_parts(gs, k + 1);
        let g = gs[k];
        let prev = parts_from(gs, k + 1);
        if g != 0 {
            let part = group_part(g, k);
            lemma_part_words(g, k);
            lemma_three(g, hi_value(gs, k + 1));
            lemma_scales();
            assert(SCALES[k] == SCALES[k]);
            assert(parts_from(gs, k).drop_last() =~= prev);
            let ws = three_words(g);
            lemma_accumulate_append(flat_words(prev), ws.push(SCALES[k]@));
            assert(ws.push(SCALES[k]@) =~= ws + seq![SCALES[k]@]);
            lemma_acc_from_append(Some((hi_value(gs, k + 1), 0)), ws, seq![SCALES[k]@]);
            assert(seq![SCALES[k]@].drop_last() =~= Seq::<Seq<char>>::empty());
            let sw = SCALES[k]@;
            let hk = hi_value(gs, k + 1);
            assert(parts_from(gs, k).last() == part);
            assert(flat_words(parts_from(gs, k)) == flat_words(prev) + number_words(part));
            assert(number_words(part) == ws.push(sw));
            assert(acc_from(Some((hk, 0int)), ws) == Some((hk, g)));
            assert(seq![sw].drop_last() =~= Seq::<Seq<char>>::empty());
            assert(seq![sw].last() == sw);
            assert(acc_from(Some((hk, g)), Seq::<Seq<char>>::empty()) == Some((hk, g)));
            assert(acc_from(Some((hk, g)), seq![sw]) == acc_step((hk, g), sw));
            assert(unit_value(sw) is None && scale_value(sw) == Some(pow1000(k as nat)));
            assert(acc_step((hk, g), sw) == Some((hk + g * pow1000(k as nat), 0int)));
            assert(g * pow1000(k as nat) >= 0) by (nonlinear_arith)
                requires
                    g >= 1,
                    pow1000(k as nat) >= 0,
            ;
            // The part's ends.
            lemma_join_first(ws, AND@);
            assert(part =~= three_text(g) + seq![' '] + SCALES[k]@);
            assert(part.last() == SCALES[k]@.last());
            assert(!is_word_sep(SCALES[k]@[SCALES[k]@.len() - 1]));
            assert(!is_word_sep(ws[0][0]));
            assert(part[0] == three_text(g)[0]);
            assert forall|i: int|
                0 <= i < parts_from(gs, k).len() implies part_ok(
                #[trigger] parts_from(gs, k)[i],
            ) by {
                if i < prev.len() {
                    assert(parts_from(gs, k)[i] == prev[i]);
                }
            }
        } else {
            assert(g * pow1000(k as nat) == 0) by (nonlinear_arith)
                requires
                    g == 0,
            ;
            assert(hi_value(gs, k) == hi_value(gs, k + 1));
            assert(parts_from(gs, k) == prev);
        }
    }
}

/// The first character of a join is that of its first element.
proof fn lemma_join_first(ps: Seq<Seq<char>>, sep: Seq<char>)
    requires
        ps.len() > 0,
        ps[0].len() > 0,
    ensures
        join_sep(ps, sep).len() > 0,
        join_sep(ps, sep)[0] == ps[0][0],
        join_sep(ps, sep).last() == ps.last().last() || ps.last().len() == 0,
    decreases ps.len(),
{
    if ps.len() > 1 {
        lemma_join_first(ps.drop_last(), sep);
    }
}

/// The lowest group's text has the same shape as the others.
proof fn lemma_part0_ok(g: int)
    requires
        1 <= g < 1000,
    ensures
        part_ok(group_part(g, 0)),
{
    lemma_three(g, 0);
    let ws = three_words(g);
    lemma_join_first(ws, AND@);
    assert(!is_word_sep(ws[0][0]));
    let l = ws.last();
    assert(good_word(ws[ws.len() - 1]));
    assert(!is_word_sep(l[l.len() - 1]));
}

/// A text that starts and ends with non-whitespace is its own trim.
proof fn lemma_trim_id(s: Seq<char>)
    requires
        s.len() > 0,
        !spec_is_whitespace(s[0]),
        !spec_is_whitespace(s.last()),
    ensures
        spec_trim(s) == s,
{
    assert(skip_ws(s, 0) == 0);
    assert(skip_ws_back(s, 0, s.len() as int) == s.len());
    assert(s.subrange(0, s.len() as int) =~= s);
}

/// The words of a non-zero magnitude below `10^15`, and their sum.
proof fn lemma_magnitude(a: nat)
    requires
        1 <= a < 1_000_000_000_000_000,
    ensures
        ({
            let m = magnitude_text(a);
            &&& m.len() > 0
            &&& !spec_is_whitespace(m[0])
            &&& m[0] != 'م'
            &&& !spec_is_whitespace(m.last())
            &&& number_words(m).len() > 0
            &&& accumulate(number_words(m)) matches Some(st) && st.0 + st.1 == a
        }),
{
    reveal_with_fuel(pow1000, 6);
    lemma_base1000(a, 5);
    let gs = base1000(a);
    assert(gs.len() >= 1);
    lemma_parts(gs, 1);
    let p1 = parts_from(gs, 1);
    let ps = parts_from(gs, 0);
    let hi1 = hi_value(gs, 1);
    let g0 = gs[0];
    assert(hi_value(gs, 0) == g0 * pow1000(0) + hi1);
    if g0 != 0 {
        let part0 = group_part(g0, 0);
        lemma_part_words(g0, 0);
        lemma_three(g0, hi1);
        lemma_part0_ok(g0);
        assert(ps == p1.push(part0));
        assert(ps.drop_last() =~= p1);
        assert(flat_words(ps) == flat_words(p1) + three_words(g0));
        lemma_accumulate_append(flat_words(p1), three_words(g0));
        assert forall|i: int| 0 <= i < ps.len() implies part_ok(#[trigger] ps[i]) by {
            if i < p1.len() {
                assert(ps[i] == p1[i]);
            }
        }
    } else {
        assert(ps == p1);
    }
    lemma_words_join(ps);
    let m = join_sep(ps, AND@);
    assert(m == magnitude_text(a));
    let ws = number_words(m);
    assert(accumulate(ws) == Some((hi1, g0)));
    if ws.len() == 0 {
        assert(accumulate(ws) == Some((0int, 0int)));
    }
    if ps.len() == 0 {
        assert(flat_words(ps) =~= seq![]);
    }
    assert(part_ok(ps[0]));
    assert(part_ok(ps[ps.len() - 1]));
    lemma_join_first(ps, AND@);
}

/// Writing a number in words and reading the words back gives the number,
/// for every magnitude below `10^15` (the largest scale word that is read
/// back is تریلیون).
pub proof fn law_words_round_trip(n: i64)
    requires
        -1_000_000_000_000_000 < n < 1_000_000_000_000_000,
    ensures
        spec_from_words(spec_to_words(n)) == Some(n),
{
    lemma_literals();
    lemma_ones();
    if n == 0 {
        let s = ONES[0]@;
        assert(s == "صفر"@);
        lemma_trim_id(s);
        lemma_words_single(s);
        assert(!starts_with_minus(s));
        assert(seq![s].drop_last() =~= Seq::<Seq<char>>::empty());
        assert(seq![s].last() == s);
        assert(accumulate(seq![s]) == acc_step((0int, 0int), s));
    } else {
        let a = abs_i64(n);
        lemma_magnitude(a);
        let m = magnitude_text(a);
        if n > 0 {
            lemma_trim_id(m);
            if m.len() >= 4 {
                assert(m.subrange(0, 4)[0] == m[0]);
            }
            assert(!starts_with_minus(m));
        } else {
            let s = MINUS@ + seq![' '] + m;
            assert(s[0] == 'م');
            assert(s.last() == m.last());
            lemma_trim_id(s);
            assert(s.subrange(0, 4) =~= MINUS@);
            let rest = s.skip(4);
            assert(rest =~= seq![' '] + m);
            assert(rest[0] == ' ');
            assert(rest[1] == m[0]);
            assert(skip_ws(rest, 1) == 1);
            assert(skip_ws(rest, 0) == 1);
            assert(spec_trim_start(rest) =~= m);
        }
    }
}
} // verus!
