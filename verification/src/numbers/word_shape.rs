//! What the words of `to_words` never hold: a positive number's words do
//! not start with the minus word, and a non-zero number's words never
//! contain the zero word.

use vstd::prelude::*;
use crate::numbers::from_words::starts_with_minus;
use crate::numbers::round_trip::lemma_base1000;
use crate::numbers::to_words::{
    abs_i64, base1000, group_part, magnitude_text, parts_from, pow1000, spec_to_words, three_text,
    three_words, AND, HUNDREDS, MINUS, ONES, SCALES, TENS,
};
use crate::text::join_sep;

verus! {

/// No `ص` of `s` is followed by `ف`, and none ends it.
pub open spec fn clean(s: Seq<char>) -> bool
    decreases s.len(),
{
    if s.len() == 0 {
        true
    } else {
        (s[0] == 'ص' ==> s.len() > 1 && s[1] != 'ف') && clean(s.skip(1))
    }
}

/// A non-empty clean text that does not start with `م`.
pub open spec fn word_ok(s: Seq<char>) -> bool {
    s.len() > 0 && s[0] != 'م' && clean(s)
}

/// `w` occurs somewhere in `s`.
pub open spec fn occurs(s: Seq<char>, w: Seq<char>) -> bool {
    exists|i: int| 0 <= i && i + w.len() <= s.len() && #[trigger] s.subrange(i, i + w.len()) == w
}

proof fn lemma_clean_concat(x: Seq<char>, y: Seq<char>)
    requires
        clean(x),
        clean(y),
    ensures
        clean(x + y),
    decreases x.len(),
{
    if x.len() == 0 {
        assert(x + y =~= y);
    } else {
        lemma_clean_concat(x.skip(1), y);
        assert((x + y).skip(1) =~= x.skip(1) + y);
        assert((x + y)[0] == x[0]);
        if x[0] == 'ص' {
            assert((x + y)[1] == x[1]);
        }
    }
}

proof fn lemma_clean_at(s: Seq<char>, i: int)
    requires
        clean(s),
        0 <= i < s.len(),
        s[i] == 'ص',
    ensures
        i + 1 < s.len(),
        s[i + 1] != 'ف',
    decreases i,
{
    if i > 0 {
        assert(s.skip(1)[i - 1] == s[i]);
        lemma_clean_at(s.skip(1), i - 1);
        assert(s.skip(1)[i] == s[i + 1]);
    }
}

proof fn lemma_word_ok_concat(x: Seq<char>, y: Seq<char>)
    requires
        word_ok(x),
        clean(y),
    ensures
        word_ok(x + y),
{
    lemma_clean_concat(x, y);
    assert((x + y)[0] == x[0]);
}

proof fn lemma_separators()
    ensures
        clean(AND@),
        clean(MINUS@),
        clean(seq![' ']),
        MINUS@.len() == 4,
        MINUS@[0] == 'م',
        ONES[0]@ == seq!['ص', 'ف', 'ر'],
{
    reveal_with_fuel(clean, 5);
    reveal_strlit(" و ");
    reveal_strlit("منفی");
    reveal_strlit("صفر");
    assert(AND@ == " و "@);
    assert(MINUS@ == "منفی"@);
    assert(ONES[0]@ == "صفر"@);
    assert(seq![' '].skip(1) =~= Seq::<char>::empty());
}

proof fn lemma_ones_words()
    ensures
        forall|i: int| #![trigger ONES[i]] 1 <= i < 20 ==> word_ok(ONES[i]@),
{
    reveal_with_fuel(clean, 12);
    assert forall|i: int| #![trigger ONES[i]] 1 <= i < 20 implies word_ok(ONES[i]@) by {
        if i == 1 {
            reveal_strlit("یک");
            assert(ONES[i]@ == "یک"@);
        } else if i == 2 {
            reveal_strlit("دو");
            assert(ONES[i]@ == "دو"@);
        } else if i == 3 {
            reveal_strlit("سه");
            assert(ONES[i]@ == "سه"@);
        } else if i == 4 {
            reveal_strlit("چهار");
            assert(ONES[i]@ == "چهار"@);
        } else if i == 5 {
            reveal_strlit("پنج");
            assert(ONES[i]@ == "پنج"@);
        } else if i == 6 {
            reveal_strlit("شش");
            assert(ONES[i]@ == "شش"@);
        } else if i == 7 {
            reveal_strlit("هفت");
            assert(ONES[i]@ == "هفت"@);
        } else if i == 8 {
            reveal_strlit("هشت");
            assert(ONES[i]@ == "هشت"@);
        } else if i == 9 {
            reveal_strlit("نه");
            assert(ONES[i]@ == "نه"@);
        } else if i == 10 {
            reveal_strlit("ده");
            assert(ONES[i]@ == "ده"@);
        } else if i == 11 {
            reveal_strlit("یازده");
            assert(ONES[i]@ == "یازده"@);
        } else if i == 12 {
            reveal_strlit("دوازده");
            assert(ONES[i]@ == "دوازده"@);
        } else if i == 13 {
            reveal_strlit("سیزده");
            assert(ONES[i]@ == "سیزده"@);
        } else if i == 14 {
            reveal_strlit("چهارده");
            assert(ONES[i]@ == "چهارده"@);
        } else if i == 15 {
            reveal_strlit("پانزده");
            assert(ONES[i]@ == "پانزده"@);
        } else if i == 16 {
            reveal_strlit("شانزده");
            assert(ONES[i]@ == "شانزده"@);
        } else if i == 17 {
            reveal_strlit("هفده");
            assert(ONES[i]@ == "هفده"@);
        } else if i == 18 {
            reveal_strlit("هجده");
            assert(ONES[i]@ == "هجده"@);
        } else if i == 19 {
            reveal_strlit("نوزده");
            assert(ONES[i]@ == "نوزده"@);
        }
    }
}

proof fn lemma_tens_words()
    ensures
        forall|i: int| #![trigger TENS[i]] 2 <= i < 10 ==> word_ok(TENS[i]@),
{
    reveal_with_fuel(clean, 12);
    assert forall|i: int| #![trigger TENS[i]] 2 <= i < 10 implies word_ok(TENS[i]@) by {
        if i == 2 {
            reveal_strlit("بیست");
            assert(TENS[i]@ == "بیست"@);
        } else if i == 3 {
            reveal_strlit("سی");
            assert(TENS[i]@ == "سی"@);
        } else if i == 4 {
            reveal_strlit("چهل");
            assert(TENS[i]@ == "چهل"@);
        } else if i == 5 {
            reveal_strlit("پنجاه");
            assert(TENS[i]@ == "پنجاه"@);
        } else if i == 6 {
            reveal_strlit("شصت");
            assert(TENS[i]@ == "شصت"@);
        } else if i == 7 {
            reveal_strlit("هفتاد");
            assert(TENS[i]@ == "هفتاد"@);
        } else if i == 8 {
            reveal_strlit("هشتاد");
            assert(TENS[i]@ == "هشتاد"@);
        } else if i == 9 {
            reveal_strlit("نود");
            assert(TENS[i]@ == "نود"@);
        }
    }
}

proof fn lemma_hundreds_words()
    ensures
        forall|i: int| #![trigger HUNDREDS[i]] 1 <= i < 10 ==> word_ok(HUNDREDS[i]@),
{
    reveal_with_fuel(clean, 12);
    assert forall|i: int| #![trigger HUNDREDS[i]] 1 <= i < 10 implies word_ok(HUNDREDS[i]@) by {
        if i == 1 {
            reveal_strlit("صد");
            assert(HUNDREDS[i]@ == "صد"@);
        } else if i == 2 {
            reveal_strlit("دویست");
            assert(HUNDREDS[i]@ == "دویست"@);
        } else if i == 3 {
            reveal_strlit("سیصد");
            assert(HUNDREDS[i]@ == "سیصد"@);
        } else if i == 4 {
            reveal_strlit("چهارصد");
            assert(HUNDREDS[i]@ == "چهارصد"@);
        } else if i == 5 {
            reveal_strlit("پانصد");
            assert(HUNDREDS[i]@ == "پانصد"@);
        } else if i == 6 {
            reveal_strlit("ششصد");
            assert(HUNDREDS[i]@ == "ششصد"@);
        } else if i == 7 {
            reveal_strlit("هفتصد");
            assert(HUNDREDS[i]@ == "هفتصد"@);
        } else if i == 8 {
            reveal_strlit("هشتصد");
            assert(HUNDREDS[i]@ == "هشتصد"@);
        } else if i == 9 {
            reveal_strlit("نهصد");
            assert(HUNDREDS[i]@ == "نهصد"@);
        }
    }
}

proof fn lemma_scales_words()
    ensures
        forall|i: int| #![trigger SCALES[i]] 1 <= i < 7 ==> clean(SCALES[i]@),
{
    reveal_with_fuel(clean, 12);
    assert forall|i: int| #![trigger SCALES[i]] 1 <= i < 7 implies clean(SCALES[i]@) by {
        if i == 1 {
            reveal_strlit("هزار");
            assert(SCALES[i]@ == "هزار"@);
        } else if i == 2 {
            reveal_strlit("میلیون");
            assert(SCALES[i]@ == "میلیون"@);
        } else if i == 3 {
            reveal_strlit("میلیارد");
            assert(SCALES[i]@ == "میلیارد"@);
        } else if i == 4 {
            reveal_strlit("تریلیون");
            assert(SCALES[i]@ == "تریلیون"@);
        } else if i == 5 {
            reveal_strlit("کوادریلیون");
            assert(SCALES[i]@ == "کوادریلیون"@);
        } else if i == 6 {
            reveal_strlit("کوینتیلیون");
            assert(SCALES[i]@ == "کوینتیلیون"@);
        }
    }
}

proof fn lemma_join_ok(ws: Seq<Seq<char>>, sep: Seq<char>)
    requires
        ws.len() > 0,
        forall|k: int| 0 <= k < ws.len() ==> word_ok(#[trigger] ws[k]),
        clean(sep),
    ensures
        word_ok(join_sep(ws, sep)),
    decreases ws.len(),
{
    if ws.len() > 1 {
        let p = ws.drop_last();
        assert forall|k: int| 0 <= k < p.len() implies word_ok(#[trigger] p[k]) by {
            assert(p[k] == ws[k]);
        }
        lemma_join_ok(p, sep);
        assert(word_ok(ws[ws.len() - 1]));
        lemma_word_ok_concat(join_sep(p, sep), sep);
        lemma_word_ok_concat(join_sep(p, sep) + sep, ws.last());
    }
}

proof fn lemma_three_ok(g: int)
    requires
        1 <= g < 1000,
    ensures
        word_ok(three_text(g)),
{
    lemma_ones_words();
    lemma_tens_words();
    lemma_hundreds_words();
    lemma_separators();
    let ws = three_words(g);
    let h = g / 100;
    let rem = g % 100;
    assert(h > 0 ==> word_ok(HUNDREDS[h]@));
    assert(0 < rem < 20 ==> word_ok(ONES[rem]@));
    assert(rem >= 20 ==> word_ok(TENS[rem / 10]@));
    assert(rem >= 20 && rem % 10 != 0 ==> word_ok(ONES[rem % 10]@));
    assert(ws.len() > 0);
    assert forall|k: int| 0 <= k < ws.len() implies word_ok(#[trigger] ws[k]) by {}
    lemma_join_ok(ws, AND@);
}

proof fn lemma_part_ok(g: int, idx: int)
    requires
        1 <= g < 1000,
        0 <= idx < 7,
    ensures
        word_ok(group_part(g, idx)),
{
    lemma_three_ok(g);
    if idx > 0 {
        lemma_scales_words();
        lemma_separators();
        assert(clean(SCALES[idx]@));
        lemma_word_ok_concat(three_text(g), seq![' ']);
        lemma_word_ok_concat(three_text(g) + seq![' '], SCALES[idx]@);
    }
}

proof fn lemma_parts_ok(gs: Seq<int>, k: int)
    requires
        0 <= k <= gs.len() <= 7,
        forall|i: int| 0 <= i < gs.len() ==> 0 <= #[trigger] gs[i] < 1000,
    ensures
        forall|i: int| 0 <= i < parts_from(gs, k).len() ==> word_ok(#[trigger] parts_from(gs, k)[i]),
    decreases gs.len() - k,
{
    if k < gs.len() {
        lemma_parts_ok(gs, k + 1);
        if gs[k] != 0 {
            lemma_part_ok(gs[k], k);
            let prev = parts_from(gs, k + 1);
            assert forall|i: int| 0 <= i < parts_from(gs, k).len() implies word_ok(
                #[trigger] parts_from(gs, k)[i],
            ) by {
                if i < prev.len() {
                    assert(parts_from(gs, k)[i] == prev[i]);
                }
            }
        }
    }
}

proof fn lemma_parts_nonempty(gs: Seq<int>, k: int, j: int)
    requires
        0 <= k <= j < gs.len(),
        gs[j] != 0,
    ensures
        parts_from(gs, k).len() > 0,
    decreases j - k,
{
    if gs[k] == 0 {
        lemma_parts_nonempty(gs, k + 1, j);
    }
}

proof fn lemma_base1000_top(a: nat)
    requires
        a > 0,
    ensures
        base1000(a).len() > 0,
        base1000(a).last() != 0,
    decreases a,
{
    if a / 1000 > 0 {
        lemma_base1000_top(a / 1000);
    } else {
        assert(base1000(a / 1000) == Seq::<int>::empty());
    }
}

proof fn lemma_magnitude_ok(a: nat)
    requires
        1 <= a <= 9_223_372_036_854_775_808,
    ensures
        word_ok(magnitude_text(a)),
{
    reveal_with_fuel(pow1000, 8);
    lemma_base1000(a, 7);
    let gs = base1000(a);
    lemma_base1000_top(a);
    lemma_parts_nonempty(gs, 0, gs.len() - 1);
    lemma_parts_ok(gs, 0);
    lemma_separators();
    lemma_join_ok(parts_from(gs, 0), AND@);
}

/// The sign is spelled only by the minus word: a negative number reads as
/// the minus word, a space and the words of its magnitude, and the words of
/// zero or a positive number never start with the minus word.
pub proof fn law_to_words_sign(n: i64)
    requires
        n > i64::MIN,
    ensures
        n < 0 ==> spec_to_words(n) == MINUS@ + seq![' '] + spec_to_words((-n) as i64),
        n >= 0 ==> !starts_with_minus(spec_to_words(n)),
{
    lemma_separators();
    if n > 0 {
        lemma_magnitude_ok(abs_i64(n));
    } else if n < 0 {
        assert(abs_i64(n) == abs_i64((-n) as i64));
    }
    if n >= 0 {
        let s = spec_to_words(n);
        if starts_with_minus(s) {
            assert(s.subrange(0, 4)[0] == s[0]);
        }
    }
}

/// The zero word appears only in the words of zero itself.
pub proof fn law_to_words_zero_word(n: i64)
    requires
        n != 0,
    ensures
        !occurs(spec_to_words(n), ONES[0]@),
{
    lemma_separators();
    let a = abs_i64(n);
    lemma_magnitude_ok(a);
    let m = magnitude_text(a);
    let s = spec_to_words(n);
    if n < 0 {
        lemma_clean_concat(MINUS@, seq![' ']);
        lemma_clean_concat(MINUS@ + seq![' '], m);
    }
    assert(clean(s));
    if occurs(s, ONES[0]@) {
        let i = choose|i: int|
            0 <= i && i + ONES[0]@.len() <= s.len() && #[trigger] s.subrange(i, i + ONES[0]@.len())
                == ONES[0]@;
        assert(s.subrange(i, i + 3)[0] == s[i]);
        assert(s.subrange(i, i + 3)[1] == s[i + 1]);
        lemma_clean_at(s, i);
    }
}

} // verus!
