//! Arabic-variant → Persian-canonical character mappings.
//!
//! Arabic Kaf (ك) becomes Persian Keheh (ک); Arabic Yeh (ي) and Alef Maksura
//! (ى) become Farsi Yeh (ی); Teh Marbuta (ة) becomes Heh (ه); hamza-bearing
//! Alefs (إ أ) and the presentation-form Alefs become plain Alef (ا); the
//! lam-alef ligatures become Lam (ل).

use vstd::prelude::*;
use crate::text::{chars_of, lemma_take_full, push_char};

verus! {

/// The canonical Persian form of one character.
pub open spec fn spec_canonical(c: char) -> char {
    if c == 'ك' {
        'ک'
    } else if c == 'ي' || c == 'ى' {
        'ی'
    } else if c == 'ة' {
        'ه'
    } else if c == 'إ' || c == 'أ' || c == '\u{FE8D}' || c == '\u{FE8E}' {
        'ا'
    } else if c == '\u{FEFB}' || c == '\u{FEFC}' {
        'ل'
    } else {
        c
    }
}

pub fn canonical(c: char) -> (r: char)
    ensures
        r == spec_canonical(c),
{
    if c == 'ك' {
        'ک'
    } else if c == 'ي' || c == 'ى' {
        'ی'
    } else if c == 'ة' {
        'ه'
    } else if c == 'إ' || c == 'أ' || c == '\u{FE8D}' || c == '\u{FE8E}' {
        'ا'
    } else if c == '\u{FEFB}' || c == '\u{FEFC}' {
        'ل'
    } else {
        c
    }
}

/// `s` with every character replaced by its canonical Persian form.
pub open spec fn spec_fix_arabic_chars(s: Seq<char>) -> Seq<char> {
    s.map_values(|c: char| spec_canonical(c))
}

/// Replace Arabic character variants with their canonical Persian equivalents.
pub fn fix_arabic_chars(text: &str) -> (r: String)
    ensures
        r@ == spec_fix_arabic_chars(text@),
{
    let chars = chars_of(text);
    let mut out = String::new();
    let mut i: usize = 0;
    while i < chars.len()
        invariant
            0 <= i <= chars.len(),
            out@ == chars@.take(i as int).map_values(|c: char| spec_canonical(c)),
        decreases chars.len() - i,
    {
        push_char(&mut out, canonical(chars[i]));
        assert(chars@.take(i + 1).map_values(|c: char| spec_canonical(c)) =~= chars@.take(
            i as int,
        ).map_values(|c: char| spec_canonical(c)).push(spec_canonical(chars@[i as int])));
        i += 1;
    }
    proof {
        lemma_take_full(chars@);
    }
    out
}

/// After the pass no Arabic Kaf, Arabic Yeh, Alef Maksura, Teh Marbuta or
/// hamza-bearing Alef is left, and running the pass again changes nothing.
pub proof fn law_orthography_canonical(s: Seq<char>)
    ensures
        forall|i: int|
            0 <= i < s.len() ==> {
                let c = #[trigger] spec_fix_arabic_chars(s)[i];
                c != 'ك' && c != 'ي' && c != 'ى' && c != 'ة' && c != 'إ' && c != 'أ'
            },
        spec_fix_arabic_chars(spec_fix_arabic_chars(s)) == spec_fix_arabic_chars(s),
{
    assert(spec_fix_arabic_chars(spec_fix_arabic_chars(s)) =~= spec_fix_arabic_chars(s));
}

} // verus!
