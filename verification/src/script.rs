//! Script-detection helpers: distinguish Arabic, Persian and Latin
//! characters and convert canonical Persian letters back to Arabic ones.
//!
//! | Sound | Persian | Arabic |
//! |-------|---------|--------|
//! | k     | ک (U+06A9) | ك (U+0643) |
//! | y     | ی (U+06CC) | ي (U+064A) |

use vstd::prelude::*;
use crate::normalizer::orthography::spec_fix_arabic_chars;
use crate::text::{chars_of, cp, is_alphabetic, lemma_take_full, push_char, unicode_alphabetic};

verus! {

/// پ چ ژ گ ی ک
pub open spec fn spec_is_persian_letter(c: char) -> bool {
    c == 'پ' || c == 'چ' || c == 'ژ' || c == 'گ' || c == 'ی' || c == 'ک'
}

/// ة ى ي ك
pub open spec fn spec_is_arabic_only_letter(c: char) -> bool {
    c == 'ة' || c == 'ى' || c == 'ي' || c == 'ك'
}

/// U+0600..=U+06FF, U+FB50..=U+FDFF or U+FE70..=U+FEFF.
pub open spec fn spec_is_arabic_or_persian(c: char) -> bool {
    (0x0600 <= cp(c) <= 0x06FF) || (0xFB50 <= cp(c) <= 0xFDFF) || (0xFE70 <= cp(c) <= 0xFEFF)
}

/// Returns `true` iff `c` is a letter unique to Persian (پ چ ژ گ ی ک).
pub fn is_persian_letter(c: char) -> (b: bool)
    ensures
        b == spec_is_persian_letter(c),
{
    c == 'پ' || c == 'چ' || c == 'ژ' || c == 'گ' || c == 'ی' || c == 'ک'
}

/// Returns `true` iff `c` is an Arabic-only letter that Persian does not use
/// canonically (ة ى ي ك).
pub fn is_arabic_only_letter(c: char) -> (b: bool)
    ensures
        b == spec_is_arabic_only_letter(c),
{
    c == 'ة' || c == 'ى' || c == 'ي' || c == 'ك'
}

/// Returns `true` iff `c` belongs to the Arabic block or one of the Arabic
/// presentation-form blocks.
pub fn is_arabic_or_persian(c: char) -> (b: bool)
    ensures
        b == spec_is_arabic_or_persian(c),
{
    let u = c as u32;
    (0x0600 <= u && u <= 0x06FF) || (0xFB50 <= u && u <= 0xFDFF) || (0xFE70 <= u && u <= 0xFEFF)
}

/// Returns `true` if `text` contains at least one Arabic-only letter.
pub fn has_arabic(text: &str) -> (b: bool)
    ensures
        b == exists|i: int| 0 <= i < text@.len() && spec_is_arabic_only_letter(#[trigger] text@[i]),
{
    let chars = chars_of(text);
    let mut i: usize = 0;
    while i < chars.len()
        invariant
            chars@ == text@,
            0 <= i <= chars.len(),
            forall|j: int| 0 <= j < i ==> !spec_is_arabic_only_letter(#[trigger] chars@[j]),
        decreases chars.len() - i,
    {
        if is_arabic_only_letter(chars[i]) {
            return true;
        }
        i += 1;
    }
    false
}

/// Returns `true` if `text` contains at least one Persian-specific letter.
pub fn has_persian(text: &str) -> (b: bool)
    ensures
        b == exists|i: int| 0 <= i < text@.len() && spec_is_persian_letter(#[trigger] text@[i]),
{
    let chars = chars_of(text);
    let mut i: usize = 0;
    while i < chars.len()
        invariant
            chars@ == text@,
            0 <= i <= chars.len(),
            forall|j: int| 0 <= j < i ==> !spec_is_persian_letter(#[trigger] chars@[j]),
        decreases chars.len() - i,
    {
        if is_persian_letter(chars[i]) {
            return true;
        }
        i += 1;
    }
    false
}

/// Some character is alphabetic, and every alphabetic character is in the
/// Arabic / Persian blocks.
pub open spec fn spec_is_pure_persian(s: Seq<char>) -> bool {
    &&& exists|i: int| 0 <= i < s.len() && unicode_alphabetic(#[trigger] s[i])
    &&& forall|i: int|
        0 <= i < s.len() && unicode_alphabetic(#[trigger] s[i]) ==> spec_is_arabic_or_persian(
            s[i],
        )
}

/// Returns `true` if every alphabetic character is Persian or shared
/// Arabic-block, and there is at least one.
pub fn is_pure_persian(text: &str) -> (b: bool)
    ensures
        b == spec_is_pure_persian(text@),
{
    let chars = chars_of(text);
    let mut had_letter = false;
    let mut i: usize = 0;
    while i < chars.len()
        invariant
            chars@ == text@,
            0 <= i <= chars.len(),
            had_letter == exists|j: int| 0 <= j < i && unicode_alphabetic(#[trigger] chars@[j]),
            forall|j: int|
                0 <= j < i && unicode_alphabetic(#[trigger] chars@[j]) ==> spec_is_arabic_or_persian(
                    chars@[j],
                ),
        decreases chars.len() - i,
    {
        let c = chars[i];
        if is_alphabetic(c) {
            had_letter = true;
            if !is_arabic_or_persian(c) {
                return false;
            }
        }
        i += 1;
    }
    had_letter
}

/// ک → ك and ی → ي; every other character is kept.
pub open spec fn spec_arabic_form(c: char) -> char {
    if c == 'ک' {
        'ك'
    } else if c == 'ی' {
        'ي'
    } else {
        c
    }
}

/// Convert canonical Persian letters to their Arabic equivalents
/// (ک → ك, ی → ي).
pub fn to_arabic(text: &str) -> (r: String)
    ensures
        r@ == text@.map_values(|c: char| spec_arabic_form(c)),
{
    let chars = chars_of(text);
    let mut out = String::new();
    let mut i: usize = 0;
    while i < chars.len()
        invariant
            0 <= i <= chars.len(),
            out@ == chars@.take(i as int).map_values(|c: char| spec_arabic_form(c)),
        decreases chars.len() - i,
    {
        let c = chars[i];
        let d = if c == 'ک' {
            'ك'
        } else if c == 'ی' {
            'ي'
        } else {
            c
        };
        push_char(&mut out, d);
        assert(chars@.take(i + 1).map_values(|c: char| spec_arabic_form(c)) =~= chars@.take(
            i as int,
        ).map_values(|c: char| spec_arabic_form(c)).push(spec_arabic_form(chars@[i as int])));
        i += 1;
    }
    proof {
        lemma_take_full(chars@);
    }
    out
}

/// The orthography pass undoes [`to_arabic`]: converting to Arabic letters
/// and normalising again gives the same text as normalising directly.
pub proof fn law_orthography_undoes_to_arabic(s: Seq<char>)
    ensures
        spec_fix_arabic_chars(s.map_values(|c: char| spec_arabic_form(c))) == spec_fix_arabic_chars(
            s,
        ),
{
    assert(spec_fix_arabic_chars(s.map_values(|c: char| spec_arabic_form(c)))
        =~= spec_fix_arabic_chars(s));
}

} // verus!
