//! Finglish (Persian written in Latin letters) → Persian.
//!
//! Each run of ASCII letters (and `'`) is a word.  Known words come from a
//! dictionary of common forms; other words are rebuilt letter by letter,
//! digraphs (`kh`, `sh`, `ch`, `zh`, `gh`, `oo`, `ou`, `aa`, `ee`) first.
//! Everything else passes through unchanged.

use vstd::prelude::*;
use crate::text::{ascii_lower, chars_eq, chars_of, push_char, spec_is_ascii_alphabetic};

verus! {

/// Common Finglish words and their Persian spelling.
pub const DICT_WORDS: [&'static str; 60] = [
    "salam",
    "merci",
    "mersi",
    "chetori",
    "chetor",
    "khoobi",
    "khoobam",
    "khoob",
    "man",
    "to",
    "ma",
    "shoma",
    "oon",
    "in",
    "ke",
    "ham",
    "va",
    "ba",
    "be",
    "az",
    "dar",
    "ta",
    "na",
    "are",
    "bale",
    "kheili",
    "khaili",
    "mamnoon",
    "mamnun",
    "lotfan",
    "khodafez",
    "khodahafez",
    "doost",
    "chi",
    "chera",
    "koja",
    "kojai",
    "hast",
    "nist",
    "hastam",
    "mikham",
    "miram",
    "boro",
    "bia",
    "emrooz",
    "farda",
    "dirooz",
    "khoone",
    "kar",
    "ye",
    "yek",
    "che",
    "age",
    "vali",
    "chon",
    "baraye",
    "esm",
    "ok",
    "aziz",
    "jan",
];

pub const DICT_PERSIAN: [&'static str; 60] = [
    "سلام",
    "مرسی",
    "مرسی",
    "چطوری",
    "چطور",
    "خوبی",
    "خوبم",
    "خوب",
    "من",
    "تو",
    "ما",
    "شما",
    "اون",
    "این",
    "که",
    "هم",
    "و",
    "با",
    "به",
    "از",
    "در",
    "تا",
    "نه",
    "آره",
    "بله",
    "خیلی",
    "خیلی",
    "ممنون",
    "ممنون",
    "لطفا",
    "خداحافظ",
    "خداحافظ",
    "دوست",
    "چی",
    "چرا",
    "کجا",
    "کجایی",
    "هست",
    "نیست",
    "هستم",
    "میخوام",
    "میرم",
    "برو",
    "بیا",
    "امروز",
    "فردا",
    "دیروز",
    "خونه",
    "کار",
    "یه",
    "یک",
    "چه",
    "اگه",
    "ولی",
    "چون",
    "برای",
    "اسم",
    "اوکی",
    "عزیز",
    "جان",
];

/// Whether `c` belongs to a Finglish word.
pub open spec fn is_word_char(c: char) -> bool {
    spec_is_ascii_alphabetic(c) || c == '\''
}

/// Index of the dictionary entry spelled `w`, from `i` on.
pub open spec fn dict_index(w: Seq<char>, i: int) -> Option<int>
    decreases DICT_WORDS@.len() - i,
{
    if i < 0 || i >= DICT_WORDS@.len() {
        None
    } else if DICT_WORDS[i]@ == w {
        Some(i)
    } else {
        dict_index(w, i + 1)
    }
}

/// The Persian letter for a Latin digraph.
pub open spec fn spec_digraph(a: char, b: char) -> Option<Seq<char>> {
    if a == 'k' && b == 'h' {
        Some("خ"@)
    } else if a == 's' && b == 'h' {
        Some("ش"@)
    } else if a == 'c' && b == 'h' {
        Some("چ"@)
    } else if a == 'z' && b == 'h' {
        Some("ژ"@)
    } else if a == 'g' && b == 'h' {
        Some("ق"@)
    } else if a == 'o' && b == 'o' {
        Some("و"@)
    } else if a == 'o' && b == 'u' {
        Some("و"@)
    } else if a == 'a' && b == 'a' {
        Some("ا"@)
    } else if a == 'e' && b == 'e' {
        Some("ی"@)
    } else {
        None
    }
}

/// The Persian letter(s) for one Latin letter at `pos` in a word of `len`.
pub open spec fn spec_monograph(c: char, pos: int, len: int) -> Seq<char> {
    if c == 'a' {
        if pos == 0 && len > 1 {
            "آ"@
        } else {
            "ا"@
        }
    } else if c == 'e' {
        if pos == len - 1 {
            "ه"@
        } else {
            seq![]
        }
    } else if c == 'b' {
        "ب"@
    } else if c == 'c' || c == 'k' {
        "ک"@
    } else if c == 'd' {
        "د"@
    } else if c == 'f' {
        "ف"@
    } else if c == 'g' {
        "گ"@
    } else if c == 'h' {
        "ه"@
    } else if c == 'i' || c == 'y' {
        "ی"@
    } else if c == 'j' {
        "ج"@
    } else if c == 'l' {
        "ل"@
    } else if c == 'm' {
        "م"@
    } else if c == 'n' {
        "ن"@
    } else if c == 'o' || c == 'u' || c == 'v' || c == 'w' {
        "و"@
    } else if c == 'p' {
        "پ"@
    } else if c == 'q' {
        "ق"@
    } else if c == 'r' {
        "ر"@
    } else if c == 's' {
        "س"@
    } else if c == 't' {
        "ت"@
    } else if c == 'x' {
        "خ"@
    } else if c == 'z' {
        "ز"@
    } else if c == '\'' {
        "ع"@
    } else {
        seq![]
    }
}

/// Letter-by-letter conversion of `w` from position `i` on.
pub open spec fn char_level_from(w: Seq<char>, i: int) -> Seq<char>
    decreases w.len() - i,
{
    if i < 0 || i >= w.len() {
        seq![]
    } else if i + 1 < w.len() && spec_digraph(w[i], w[i + 1]) is Some {
        spec_digraph(w[i], w[i + 1])->0 + char_level_from(w, i + 2)
    } else {
        spec_monograph(w[i], i, w.len() as int) + char_level_from(w, i + 1)
    }
}

/// The Persian for one Finglish word.
pub open spec fn spec_convert_word(word: Seq<char>) -> Seq<char> {
    let lower = word.map_values(|c: char| ascii_lower(c));
    match dict_index(lower, 0) {
        Some(i) => DICT_PERSIAN[i]@,
        None => char_level_from(lower, 0),
    }
}

/// Output so far and the word being read.
pub open spec fn fg_scan(s: Seq<char>) -> (Seq<char>, Seq<char>)
    decreases s.len(),
{
    if s.len() == 0 {
        (seq![], seq![])
    } else {
        let (out, cur) = fg_scan(s.drop_last());
        let c = s.last();
        if is_word_char(c) {
            (out, cur.push(c))
        } else {
            let flushed = if cur.len() > 0 {
                out + spec_convert_word(cur)
            } else {
                out
            };
            (flushed.push(c), seq![])
        }
    }
}

/// The Persian rendering of a Finglish text.
pub open spec fn spec_to_persian(s: Seq<char>) -> Seq<char> {
    let (out, cur) = fg_scan(s);
    if cur.len() > 0 {
        out + spec_convert_word(cur)
    } else {
        out
    }
}

fn digraph(a: char, b: char) -> (r: Option<&'static str>)
    ensures
        r matches Some(s) ==> spec_digraph(a, b) == Some(s@),
        r is None ==> spec_digraph(a, b) is None,
{
    if a == 'k' && b == 'h' {
        Some("خ")
    } else if a == 's' && b == 'h' {
        Some("ش")
    } else if a == 'c' && b == 'h' {
        Some("چ")
    } else if a == 'z' && b == 'h' {
        Some("ژ")
    } else if a == 'g' && b == 'h' {
        Some("ق")
    } else if a == 'o' && b == 'o' {
        Some("و")
    } else if a == 'o' && b == 'u' {
        Some("و")
    } else if a == 'a' && b == 'a' {
        Some("ا")
    } else if a == 'e' && b == 'e' {
        Some("ی")
    } else {
        None
    }
}

fn monograph(c: char, pos: usize, len: usize) -> (r: &'static str)
    ensures
        r@ == spec_monograph(c, pos as int, len as int),
{
    if c == 'a' {
        if pos == 0 && len > 1 {
            "آ"
        } else {
            "ا"
        }
    } else if c == 'e' {
        if len >= 1 && pos == len - 1 {
            "ه"
        } else {
            proof {
                reveal_strlit("");
            }
            ""
        }
    } else if c == 'b' {
        "ب"
    } else if c == 'c' || c == 'k' {
        "ک"
    } else if c == 'd' {
        "د"
    } else if c == 'f' {
        "ف"
    } else if c == 'g' {
        "گ"
    } else if c == 'h' {
        "ه"
    } else if c == 'i' || c == 'y' {
        "ی"
    } else if c == 'j' {
        "ج"
    } else if c == 'l' {
        "ل"
    } else if c == 'm' {
        "م"
    } else if c == 'n' {
        "ن"
    } else if c == 'o' || c == 'u' || c == 'v' || c == 'w' {
        "و"
    } else if c == 'p' {
        "پ"
    } else if c == 'q' {
        "ق"
    } else if c == 'r' {
        "ر"
    } else if c == 's' {
        "س"
    } else if c == 't' {
        "ت"
    } else if c == 'x' {
        "خ"
    } else if c == 'z' {
        "ز"
    } else if c == '\'' {
        "ع"
    } else {
        proof {
            reveal_strlit("");
        }
        ""
    }
}

fn char_level(w: &Vec<char>) -> (s: String)
    ensures
        s@ == char_level_from(w@, 0),
{
    let mut out = String::new();
    let mut i: usize = 0;
    while i < w.len()
        invariant
            0 <= i <= w.len(),
            out@ + char_level_from(w@, i as int) == char_level_from(w@, 0),
        decreases w.len() - i,
    {
        if i + 1 < w.len() {
            match digraph(w[i], w[i + 1]) {
                Some(p) => {
                    assert(out@ + p@ + char_level_from(w@, i + 2) =~= out@ + char_level_from(
                        w@,
                        i as int,
                    ));
                    out.append(p);
                    i += 2;
                    continue ;
                },
                None => {},
            }
        }
        let m = monograph(w[i], i, w.len());
        assert(out@ + m@ + char_level_from(w@, i + 1) =~= out@ + char_level_from(w@, i as int));
        out.append(m);
        i += 1;
    }
    assert(out@ + char_level_from(w@, i as int) =~= out@);
    out
}

fn convert_word(word: &Vec<char>) -> (s: String)
    ensures
        s@ == spec_convert_word(word@),
{
    let mut lower: Vec<char> = Vec::new();
    let mut i: usize = 0;
    while i < word.len()
        invariant
            0 <= i <= word.len(),
            lower@ == word@.take(i as int).map_values(|c: char| ascii_lower(c)),
        decreases word.len() - i,
    {
        let c = word[i];
        let l = if 'A' <= c && c <= 'Z' {
            ((c as u32) + 32) as u8 as char
        } else {
            c
        };
        assert(l == ascii_lower(c));
        lower.push(l);
        assert(word@.take(i + 1).map_values(|c: char| ascii_lower(c)) =~= word@.take(
            i as int,
        ).map_values(|c: char| ascii_lower(c)).push(ascii_lower(c)));
        i += 1;
    }
    assert(word@.take(word.len() as int) =~= word@);
    let mut k: usize = 0;
    while k < DICT_WORDS.len()
        invariant
            0 <= k <= DICT_WORDS@.len(),
            lower@ == word@.map_values(|c: char| ascii_lower(c)),
            dict_index(lower@, 0) == dict_index(lower@, k as int),
        decreases DICT_WORDS@.len() - k,
    {
        if chars_eq(&chars_of(DICT_WORDS[k]), &lower) {
            return DICT_PERSIAN[k].to_owned();
        }
        k += 1;
    }
    char_level(&lower)
}

/// Convert Finglish text to Persian: ASCII letters (with `'`) are read as
/// Finglish words; whitespace, punctuation, digits and Persian characters
/// pass through unchanged.
pub fn to_persian(text: &str) -> (s: String)
    ensures
        s@ == spec_to_persian(text@),
{
    let v = chars_of(text);
    let mut out = String::new();
    let mut cur: Vec<char> = Vec::new();
    let mut i: usize = 0;
    while i < v.len()
        invariant
            0 <= i <= v.len(),
            (out@, cur@) == fg_scan(v@.take(i as int)),
        decreases v.len() - i,
    {
        assert(v@.take(i + 1).drop_last() =~= v@.take(i as int));
        let c = v[i];
        if ('a' <= c && c <= 'z') || ('A' <= c && c <= 'Z') || c == '\'' {
            cur.push(c);
        } else {
            if cur.len() > 0 {
                let w = convert_word(&cur);
                out.append(w.as_str());
            }
            push_char(&mut out, c);
            cur = Vec::new();
        }
        i += 1;
    }
    assert(v@.take(v.len() as int) =~= v@);
    if cur.len() > 0 {
        let w = convert_word(&cur);
        out.append(w.as_str());
    }
    out
}

/// `s` with ASCII capitals lowered.
pub open spec fn lowered(s: Seq<char>) -> Seq<char> {
    s.map_values(|c: char| ascii_lower(c))
}

proof fn lemma_lower_char(c: char)
    ensures
        is_word_char(ascii_lower(c)) == is_word_char(c),
        !is_word_char(c) ==> ascii_lower(c) == c,
        ascii_lower(ascii_lower(c)) == ascii_lower(c),
{
}

proof fn lemma_fg_scan_lowered(s: Seq<char>)
    ensures
        fg_scan(lowered(s)).0 == fg_scan(s).0,
        fg_scan(lowered(s)).1 == lowered(fg_scan(s).1),
    decreases s.len(),
{
    if s.len() > 0 {
        let p = s.drop_last();
        assert(lowered(s).drop_last() =~= lowered(p));
        lemma_fg_scan_lowered(p);
        let c = s.last();
        lemma_lower_char(c);
        let (out, cur) = fg_scan(p);
        if is_word_char(c) {
            assert(lowered(cur.push(c)) =~= lowered(cur).push(ascii_lower(c)));
        } else {
            lemma_convert_word_lowered(cur);
            assert(lowered(seq![]) =~= Seq::<char>::empty());
        }
    }
}

proof fn lemma_convert_word_lowered(w: Seq<char>)
    ensures
        spec_convert_word(lowered(w)) == spec_convert_word(w),
        (lowered(w).len() > 0) == (w.len() > 0),
{
    assert forall|k: int| 0 <= k < w.len() implies #[trigger] ascii_lower(ascii_lower(w[k])) == ascii_lower(
        w[k],
    ) by {
        lemma_lower_char(w[k]);
    }
    assert(lowered(lowered(w)) =~= lowered(w));
}

/// Conversion ignores ASCII case: a text and its lower-cased form give the
/// same Persian.
pub proof fn law_case_insensitive(s: Seq<char>)
    ensures
        spec_to_persian(lowered(s)) == spec_to_persian(s),
{
    lemma_fg_scan_lowered(s);
    lemma_convert_word_lowered(fg_scan(s).1);
}


/// Reading `t` after a prefix that ends outside a word appends `t`'s own
/// output and leaves `t`'s open word.
proof fn lemma_fg_scan_concat(p: Seq<char>, t: Seq<char>)
    requires
        fg_scan(p).1.len() == 0,
    ensures
        fg_scan(p + t).0 == fg_scan(p).0 + fg_scan(t).0,
        fg_scan(p + t).1 == fg_scan(t).1,
    decreases t.len(),
{
    if t.len() == 0 {
        assert(p + t =~= p);
        assert(fg_scan(p).0 + fg_scan(t).0 =~= fg_scan(p).0);
    } else {
        lemma_fg_scan_concat(p, t.drop_last());
        assert((p + t).drop_last() =~= p + t.drop_last());
        assert((p + t).last() == t.last());
        let (o1, c1) = fg_scan(t.drop_last());
        let c = t.last();
        if !is_word_char(c) {
            if c1.len() > 0 {
                assert(fg_scan(p).0 + o1 + spec_convert_word(c1) =~= fg_scan(p).0 + (o1
                    + spec_convert_word(c1)));
                assert((fg_scan(p).0 + (o1 + spec_convert_word(c1))).push(c) =~= fg_scan(p).0 + (
                o1 + spec_convert_word(c1)).push(c));
            } else {
                assert((fg_scan(p).0 + o1).push(c) =~= fg_scan(p).0 + o1.push(c));
            }
        }
    }
}

/// A character outside Finglish words (anything but an ASCII letter or an
/// apostrophe) is copied unchanged, in place, and splits the text: the
/// parts on either side are converted on their own.
pub proof fn law_separator_kept(x: Seq<char>, c: char, y: Seq<char>)
    requires
        !is_word_char(c),
    ensures
        spec_to_persian(x + seq![c] + y) == spec_to_persian(x) + seq![c] + spec_to_persian(y),
{
    let p = x.push(c);
    assert(x + seq![c] =~= p);
    assert(p.drop_last() =~= x);
    assert(p.last() == c);
    assert(fg_scan(p).0 == spec_to_persian(x).push(c));
    lemma_fg_scan_concat(p, y);
    assert(spec_to_persian(x).push(c) =~= spec_to_persian(x) + seq![c]);
    let (oy, cy) = fg_scan(y);
    if cy.len() > 0 {
        assert(spec_to_persian(x) + seq![c] + oy + spec_convert_word(cy) =~= spec_to_persian(x)
            + seq![c] + (oy + spec_convert_word(cy)));
    }
}

/// A text with no Finglish word comes back unchanged.
pub proof fn law_no_word_unchanged(s: Seq<char>)
    requires
        forall|k: int| 0 <= k < s.len() ==> !is_word_char(#[trigger] s[k]),
    ensures
        spec_to_persian(s) == s,
    decreases s.len(),
{
    if s.len() > 0 {
        let p = s.drop_last();
        assert forall|k: int| 0 <= k < p.len() implies !is_word_char(#[trigger] p[k]) by {
            assert(p[k] == s[k]);
        }
        law_no_word_unchanged(p);
        assert(!is_word_char(s[s.len() - 1]));
        assert(fg_scan(p).1.len() == 0) by {
            lemma_fg_scan_no_word(p);
        }
        assert(p.push(s.last()) =~= s);
    }
}

proof fn lemma_fg_scan_no_word(s: Seq<char>)
    requires
        forall|k: int| 0 <= k < s.len() ==> !is_word_char(#[trigger] s[k]),
    ensures
        fg_scan(s).1.len() == 0,
    decreases s.len(),
{
    if s.len() > 0 {
        let p = s.drop_last();
        assert forall|k: int| 0 <= k < p.len() implies !is_word_char(#[trigger] p[k]) by {
            assert(p[k] == s[k]);
        }
        lemma_fg_scan_no_word(p);
        assert(!is_word_char(s[s.len() - 1]));
    }
}
} // verus!
