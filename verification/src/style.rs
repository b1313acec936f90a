//! Persian register conversions: formal ↔ chat ↔ GenZ.
//!
//! - **Formal** (نوشتاری): written style, full verb forms (`می‌خواهم`).
//! - **Chat** (گفتاری): spoken style, contracted forms (`میخوام`).
//! - **GenZ**: chat plus social-media loanwords (`مرسی`, `پارتی`).
//!
//! Text holding ASCII letters is first read as Finglish.  Every swap is
//! whole-word.

use vstd::prelude::*;
use crate::data::{lemma_slang_formal_shape, lemma_slang_informal_shape, SLANG_FORMAL, SLANG_INFORMAL};
use crate::finglish::{spec_to_persian, to_persian};
use crate::matcher::{lemma_small_table, str_views, strings_of};
use crate::normalizer::{all_flags, word_replace, WordReplacer};
use crate::text::{chars_of, spec_is_ascii_alphabetic, views};

verus! {

/// Persian writing register.
#[derive(Debug, Clone, Copy, PartialEq, Eq, Structural)]
pub enum Style {
    /// Written-style Persian (نوشتاری) with full verb conjugations.
    Formal,
    /// Spoken/chat Persian (گفتاری) with contracted forms.
    Chat,
    /// Informal social-media Persian with English loanwords.
    GenZ,
}

/// Formal words swapped in the GenZ register; `GENZ_TO[i]` replaces `GENZ_FROM[i]`.
pub const GENZ_FROM: [&'static str; 32] = [
    "ممنون",
    "متشکرم",
    "سپاسگزارم",
    "بله",
    "خیر",
    "سلام",
    "خداحافظ",
    "بسیار خوب",
    "بسیار",
    "عالی",
    "عالیه",
    "جالب",
    "جذاب",
    "خنده‌دار",
    "خنده دار",
    "دوست داشتنی",
    "مهمانی",
    "جشن",
    "دوستان",
    "دوست‌دختر",
    "دوست‌پسر",
    "کار",
    "شغل",
    "پیام",
    "فیلم",
    "موسیقی",
    "غذا",
    "نوشیدنی",
    "واقعاً",
    "واقعا",
    "کاملاً",
    "دقیقاً",
];

/// Their social-media replacements, index by index.
pub const GENZ_TO: [&'static str; 32] = [
    "مرسی",
    "مرسی",
    "تنکس",
    "آره",
    "نه",
    "های",
    "بای",
    "اوسم",
    "خیلی",
    "اوسم",
    "اوسمه",
    "کول",
    "کول",
    "فانی",
    "فانی",
    "کیوت",
    "پارتی",
    "پارتی",
    "فرندز",
    "گرل‌فرند",
    "بوی‌فرند",
    "جاب",
    "جاب",
    "مسیج",
    "مووی",
    "میوزیک",
    "فود",
    "درینک",
    "ریلی",
    "ریلی",
    "تتلی",
    "اگزکتلی",
];

/// Every entry of `GENZ_FROM` is a non-empty word of at most 60 characters.
pub proof fn lemma_genz_from_shape()
    ensures
        forall|i: int| #![trigger GENZ_FROM[i]] 0 <= i < 32 ==> 1 <= GENZ_FROM[i]@.len() <= 60,
{
    reveal_strlit("بسیار");
    reveal_strlit("بسیار خوب");
    reveal_strlit("بله");
    reveal_strlit("جالب");
    reveal_strlit("جذاب");
    reveal_strlit("جشن");
    reveal_strlit("خداحافظ");
    reveal_strlit("خنده دار");
    reveal_strlit("خنده‌دار");
    reveal_strlit("خیر");
    reveal_strlit("دقیقاً");
    reveal_strlit("دوست داشتنی");
    reveal_strlit("دوستان");
    reveal_strlit("دوست‌دختر");
    reveal_strlit("دوست‌پسر");
    reveal_strlit("سلام");
    reveal_strlit("سپاسگزارم");
    reveal_strlit("شغل");
    reveal_strlit("عالی");
    reveal_strlit("عالیه");
    reveal_strlit("غذا");
    reveal_strlit("فیلم");
    reveal_strlit("متشکرم");
    reveal_strlit("ممنون");
    reveal_strlit("مهمانی");
    reveal_strlit("موسیقی");
    reveal_strlit("نوشیدنی");
    reveal_strlit("واقعا");
    reveal_strlit("واقعاً");
    reveal_strlit("پیام");
    reveal_strlit("کار");
    reveal_strlit("کاملاً");
    assert forall|i: int| #![trigger GENZ_FROM[i]] 0 <= i < 32 implies 1 <= GENZ_FROM[i]@.len() <= 60 by {
        if i == 0 {
            assert(GENZ_FROM[i]@ == "ممنون"@);
            assert("ممنون"@.len() == 5);
        } else if i == 1 {
            assert(GENZ_FROM[i]@ == "متشکرم"@);
            assert("متشکرم"@.len() == 6);
        } else if i == 2 {
            assert(GENZ_FROM[i]@ == "سپاسگزارم"@);
            assert("سپاسگزارم"@.len() == 9);
        } else if i == 3 {
            assert(GENZ_FROM[i]@ == "بله"@);
            assert("بله"@.len() == 3);
        } else if i == 4 {
            assert(GENZ_FROM[i]@ == "خیر"@);
            assert("خیر"@.len() == 3);
        } else if i == 5 {
            assert(GENZ_FROM[i]@ == "سلام"@);
            assert("سلام"@.len() == 4);
        } else if i == 6 {
            assert(GENZ_FROM[i]@ == "خداحافظ"@);
            assert("خداحافظ"@.len() == 7);
        } else if i == 7 {
            assert(GENZ_FROM[i]@ == "بسیار خوب"@);
            assert("بسیار خوب"@.len() == 9);
        } else if i == 8 {
            assert(GENZ_FROM[i]@ == "بسیار"@);
            assert("بسیار"@.len() == 5);
        } else if i == 9 {
            assert(GENZ_FROM[i]@ == "عالی"@);
            assert("عالی"@.len() == 4);
        } else if i == 10 {
            assert(GENZ_FROM[i]@ == "عالیه"@);
            assert("عالیه"@.len() == 5);
        } else if i == 11 {
            assert(GENZ_FROM[i]@ == "جالب"@);
            assert("جالب"@.len() == 4);
        } else if i == 12 {
            assert(GENZ_FROM[i]@ == "جذاب"@);
            assert("جذاب"@.len() == 4);
        } else if i == 13 {
            assert(GENZ_FROM[i]@ == "خنده‌دار"@);
            assert("خنده‌دار"@.len() == 8);
        } else if i == 14 {
            assert(GENZ_FROM[i]@ == "خنده دار"@);
            assert("خنده دار"@.len() == 8);
        } else if i == 15 {
            assert(GENZ_FROM[i]@ == "دوست داشتنی"@);
            assert("دوست داشتنی"@.len() == 11);
        } else if i == 16 {
            assert(GENZ_FROM[i]@ == "مهمانی"@);
            assert("مهمانی"@.len() == 6);
        } else if i == 17 {
            assert(GENZ_FROM[i]@ == "جشن"@);
            assert("جشن"@.len() == 3);
        } else if i == 18 {
            assert(GENZ_FROM[i]@ == "دوستان"@);
            assert("دوستان"@.len() == 6);
        } else if i == 19 {
            assert(GENZ_FROM[i]@ == "دوست‌دختر"@);
            assert("دوست‌دختر"@.len() == 9);
        } else if i == 20 {
            assert(GENZ_FROM[i]@ == "دوست‌پسر"@);
            assert("دوست‌پسر"@.len() == 8);
        } else if i == 21 {
            assert(GENZ_FROM[i]@ == "کار"@);
            assert("کار"@.len() == 3);
        } else if i == 22 {
            assert(GENZ_FROM[i]@ == "شغل"@);
            assert("شغل"@.len() == 3);
        } else if i == 23 {
            assert(GENZ_FROM[i]@ == "پیام"@);
            assert("پیام"@.len() == 4);
        } else if i == 24 {
            assert(GENZ_FROM[i]@ == "فیلم"@);
            assert("فیلم"@.len() == 4);
        } else if i == 25 {
            assert(GENZ_FROM[i]@ == "موسیقی"@);
            assert("موسیقی"@.len() == 6);
        } else if i == 26 {
            assert(GENZ_FROM[i]@ == "غذا"@);
            assert("غذا"@.len() == 3);
        } else if i == 27 {
            assert(GENZ_FROM[i]@ == "نوشیدنی"@);
            assert("نوشیدنی"@.len() == 7);
        } else if i == 28 {
            assert(GENZ_FROM[i]@ == "واقعاً"@);
            assert("واقعاً"@.len() == 6);
        } else if i == 29 {
            assert(GENZ_FROM[i]@ == "واقعا"@);
            assert("واقعا"@.len() == 5);
        } else if i == 30 {
            assert(GENZ_FROM[i]@ == "کاملاً"@);
            assert("کاملاً"@.len() == 6);
        } else if i == 31 {
            assert(GENZ_FROM[i]@ == "دقیقاً"@);
            assert("دقیقاً"@.len() == 6);
        }
    }
}
/// Finglish input is converted to Persian first.
pub open spec fn spec_ensure_persian(t: Seq<char>) -> Seq<char> {
    if exists|i: int| 0 <= i < t.len() && spec_is_ascii_alphabetic(#[trigger] t[i]) {
        spec_to_persian(t)
    } else {
        t
    }
}

/// Whole-word replacement with a table.
pub open spec fn swap_words(t: Seq<char>, from: Seq<Seq<char>>, to: Seq<Seq<char>>) -> Seq<char> {
    word_replace(t, from, to, all_flags(from.len(), true))
}

pub open spec fn spec_to_formal(t: Seq<char>) -> Seq<char> {
    swap_words(spec_ensure_persian(t), str_views(SLANG_INFORMAL@), str_views(SLANG_FORMAL@))
}

pub open spec fn spec_to_chat(t: Seq<char>) -> Seq<char> {
    swap_words(spec_ensure_persian(t), str_views(SLANG_FORMAL@), str_views(SLANG_INFORMAL@))
}

pub open spec fn spec_to_genz(t: Seq<char>) -> Seq<char> {
    swap_words(spec_to_chat(t), str_views(GENZ_FROM@), str_views(GENZ_TO@))
}

pub open spec fn spec_convert(t: Seq<char>, style: Style) -> Seq<char> {
    match style {
        Style::Formal => spec_to_formal(t),
        Style::Chat => spec_to_chat(t),
        Style::GenZ => spec_to_genz(t),
    }
}

fn ensure_persian(text: &str) -> (s: String)
    ensures
        s@ == spec_ensure_persian(text@),
{
    let v = chars_of(text);
    let mut i: usize = 0;
    while i < v.len()
        invariant
            0 <= i <= v.len(),
            v@ == text@,
            forall|j: int| 0 <= j < i ==> !spec_is_ascii_alphabetic(#[trigger] v@[j]),
        decreases v.len() - i,
    {
        if ('a' <= v[i] && v[i] <= 'z') || ('A' <= v[i] && v[i] <= 'Z') {
            assert(spec_is_ascii_alphabetic(text@[i as int]));
            return to_persian(text);
        }
        i += 1;
    }
    text.to_owned()
}

/// Whole-word swap of `from[i]` by `to[i]` over `text`.
fn swap(text: &str, from: &[&'static str], to: &[&'static str]) -> (s: String)
    requires
        from@.len() == to@.len(),
        from@.len() <= 40,
        forall|i: int| 0 <= i < from@.len() ==> 1 <= (#[trigger] from@[i])@.len() <= 60,
    ensures
        s@ == swap_words(text@, str_views(from@), str_views(to@)),
{
    proof {
        assert forall|i: int| 0 <= i < str_views(from@).len() implies 1 <= (
        #[trigger] str_views(from@)[i]).len() <= 60 by {
            assert(str_views(from@)[i] == from@[i]@);
        }
        lemma_small_table(str_views(from@));
    }
    let pats = strings_of(from);
    let reps = strings_of(to);
    assert(pats@.len() == views(pats@).len());
    assert(reps@.len() == views(reps@).len());
    match WordReplacer::from_pairs(pats, reps) {
        Some(w) => w.replace(text, true),
        None => {
            assert(false);
            String::new()
        },
    }
}

/// Convert any text (Persian or Finglish) to formal written Persian,
/// expanding contracted verb forms (`میخوام` → `می‌خواهم`).
pub fn to_formal(text: &str) -> (s: String)
    ensures
        s@ == spec_to_formal(text@),
{
    proof {
        lemma_slang_informal_shape();
    }
    let p = ensure_persian(text);
    swap(p.as_str(), &SLANG_INFORMAL, &SLANG_FORMAL)
}

/// Convert any text (Persian or Finglish) to chat-style Persian
/// (`می‌خواهم` → `میخوام`).
pub fn to_chat(text: &str) -> (s: String)
    ensures
        s@ == spec_to_chat(text@),
{
    proof {
        lemma_slang_formal_shape();
    }
    let p = ensure_persian(text);
    swap(p.as_str(), &SLANG_FORMAL, &SLANG_INFORMAL)
}

/// Convert any text to GenZ-style Persian: the chat pass, then loanword
/// swaps.
pub fn to_genz(text: &str) -> (s: String)
    ensures
        s@ == spec_to_genz(text@),
{
    proof {
        lemma_genz_from_shape();
    }
    let c = to_chat(text);
    swap(c.as_str(), &GENZ_FROM, &GENZ_TO)
}

/// Convert `text` to the given register.
pub fn convert(text: &str, style: Style) -> (s: String)
    ensures
        s@ == spec_convert(text@, style),
{
    match style {
        Style::Formal => to_formal(text),
        Style::Chat => to_chat(text),
        Style::GenZ => to_genz(text),
    }
}

} // verus!
