//! Arabic diacritics (harakat / تشکیل) removal.
//!
//! Diacritics are combining marks that annotate vowel sounds in Arabic and
//! occasionally appear in Persian text.  For search and matching they add
//! noise, so this module strips them together with the tatweel extender.

use vstd::prelude::*;
use crate::text::{chars_of, cp, keep_chars, lemma_keep_chars_step, lemma_take_full, push_char};

verus! {

/// Harakat U+064B..=U+0655 and tatweel U+0640.
pub open spec fn spec_is_diacritic(c: char) -> bool {
    (0x064B <= cp(c) <= 0x0655) || cp(c) == 0x0640
}

/// Returns `true` if `c` is an Arabic diacritic or tatweel character that
/// [`remove_diacritics`] strips.
pub fn is_diacritic(c: char) -> (b: bool)
    ensures
        b == spec_is_diacritic(c),
{
    let u = c as u32;
    (0x064B <= u && u <= 0x0655) || u == 0x0640
}

/// The characters of `s` that are not diacritics.
pub open spec fn spec_remove_diacritics(s: Seq<char>) -> Seq<char> {
    keep_chars(s, |c: char| !spec_is_diacritic(c))
}

/// Remove Arabic harakat and the tatweel extender from `text`.
pub fn remove_diacritics(text: &str) -> (r: String)
    ensures
        r@ == spec_remove_diacritics(text@),
{
    let chars = chars_of(text);
    let mut out = String::new();
    let mut i: usize = 0;
    while i < chars.len()
        invariant
            0 <= i <= chars.len(),
            out@ == keep_chars(chars@.take(i as int), |c: char| !spec_is_diacritic(c)),
        decreases chars.len() - i,
    {
        proof {
            lemma_keep_chars_step(chars@, |c: char| !spec_is_diacritic(c), i as int);
        }
        if !is_diacritic(chars[i]) {
            push_char(&mut out, chars[i]);
        }
        i += 1;
    }
    proof {
        lemma_take_full(chars@);
    }
    out
}

/// No diacritic or tatweel is left, and removing again changes nothing.
pub proof fn law_diacritics_removed(s: Seq<char>)
    ensures
        forall|k: int|
            0 <= k < spec_remove_diacritics(s).len() ==> !spec_is_diacritic(
                #[trigger] spec_remove_diacritics(s)[k],
            ),
        spec_remove_diacritics(spec_remove_diacritics(s)) == spec_remove_diacritics(s),
{
    crate::text::lemma_keep_chars_kept(s, |c: char| !spec_is_diacritic(c));
}

} // verus!
