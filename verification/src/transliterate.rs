//! Persian → Latin transliteration (romanisation).
//!
//! A character-level mapping suitable for search keys and casual
//! romanisation: `سلام دنیا` → `slam dnya`, `کتاب` → `ktab`.  Short vowels are
//! not written in Persian, so the output is consonant-faithful but
//! vowel-bare.

use vstd::prelude::*;
use crate::text::{chars_of, concat_map, cp, lemma_concat_map_step, lemma_take_full, push_char, ZWNJ};

verus! {

/// The romanisation of one Persian character, `None` when it passes through.
pub open spec fn spec_map_char(c: char) -> Option<&'static str> {
    if c == 'ا' || c == 'آ' || c == 'أ' || c == 'إ' {
        Some("a")
    } else if c == 'و' {
        Some("v")
    } else if c == 'ی' || c == 'ي' || c == 'ى' {
        Some("y")
    } else if c == 'ب' {
        Some("b")
    } else if c == 'پ' {
        Some("p")
    } else if c == 'ت' || c == 'ط' {
        Some("t")
    } else if c == 'ث' || c == 'س' || c == 'ص' {
        Some("s")
    } else if c == 'ج' {
        Some("j")
    } else if c == 'چ' {
        Some("ch")
    } else if c == 'ح' || c == 'ه' || c == 'ة' {
        Some("h")
    } else if c == 'خ' {
        Some("kh")
    } else if c == 'د' {
        Some("d")
    } else if c == 'ذ' || c == 'ز' || c == 'ظ' || c == 'ض' {
        Some("z")
    } else if c == 'ر' {
        Some("r")
    } else if c == 'ژ' {
        Some("zh")
    } else if c == 'ش' {
        Some("sh")
    } else if c == 'ع' || c == 'ء' {
        Some("'")
    } else if c == 'غ' || c == 'ق' {
        Some("gh")
    } else if c == 'ف' {
        Some("f")
    } else if c == 'ک' || c == 'ك' {
        Some("k")
    } else if c == 'گ' {
        Some("g")
    } else if c == 'ل' {
        Some("l")
    } else if c == 'م' {
        Some("m")
    } else if c == 'ن' {
        Some("n")
    } else if (0x064B <= cp(c) <= 0x0655) || cp(c) == 0x0640 {
        Some("")
    } else {
        None
    }
}

pub fn map_char(c: char) -> (r: Option<&'static str>)
    ensures
        r == spec_map_char(c),
{
    let u = c as u32;
    if c == 'ا' || c == 'آ' || c == 'أ' || c == 'إ' {
        Some("a")
    } else if c == 'و' {
        Some("v")
    } else if c == 'ی' || c == 'ي' || c == 'ى' {
        Some("y")
    } else if c == 'ب' {
        Some("b")
    } else if c == 'پ' {
        Some("p")
    } else if c == 'ت' || c == 'ط' {
        Some("t")
    } else if c == 'ث' || c == 'س' || c == 'ص' {
        Some("s")
    } else if c == 'ج' {
        Some("j")
    } else if c == 'چ' {
        Some("ch")
    } else if c == 'ح' || c == 'ه' || c == 'ة' {
        Some("h")
    } else if c == 'خ' {
        Some("kh")
    } else if c == 'د' {
        Some("d")
    } else if c == 'ذ' || c == 'ز' || c == 'ظ' || c == 'ض' {
        Some("z")
    } else if c == 'ر' {
        Some("r")
    } else if c == 'ژ' {
        Some("zh")
    } else if c == 'ش' {
        Some("sh")
    } else if c == 'ع' || c == 'ء' {
        Some("'")
    } else if c == 'غ' || c == 'ق' {
        Some("gh")
    } else if c == 'ف' {
        Some("f")
    } else if c == 'ک' || c == 'ك' {
        Some("k")
    } else if c == 'گ' {
        Some("g")
    } else if c == 'ل' {
        Some("l")
    } else if c == 'م' {
        Some("m")
    } else if c == 'ن' {
        Some("n")
    } else if (0x064B <= u && u <= 0x0655) || u == 0x0640 {
        Some("")
    } else {
        None
    }
}

/// What one input character becomes: nothing for ZWNJ, its romanisation, or
/// itself.
pub open spec fn translit_piece(c: char) -> Seq<char> {
    if c == ZWNJ {
        seq![]
    } else {
        match spec_map_char(c) {
            Some(s) => s@,
            None => seq![c],
        }
    }
}

/// Transliterate Persian text to Latin characters; unmapped characters pass
/// through and ZWNJ is dropped.
pub fn to_latin(text: &str) -> (r: String)
    ensures
        r@ == concat_map(text@, |c: char| translit_piece(c)),
{
    let chars = chars_of(text);
    let mut out = String::new();
    let mut i: usize = 0;
    while i < chars.len()
        invariant
            0 <= i <= chars.len(),
            out@ == concat_map(chars@.take(i as int), |c: char| translit_piece(c)),
        decreases chars.len() - i,
    {
        proof {
            lemma_concat_map_step(chars@, |c: char| translit_piece(c), i as int);
        }
        let c = chars[i];
        if c != ZWNJ {
            match map_char(c) {
                Some(s) => out.append(s),
                None => {
                    push_char(&mut out, c);
                    assert(seq![c] == Seq::<char>::empty().push(c));
                },
            }
        } else {
            assert(out@ + Seq::<char>::empty() =~= out@);
        }
        i += 1;
    }
    proof {
        lemma_take_full(chars@);
    }
    out
}

} // verus!
