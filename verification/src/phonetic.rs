//! Persian phonetic matching — a Soundex-style codec.
//!
//! Letters that share a phoneme (`س` `ص` `ث`; `ز` `ذ` `ض` `ظ`; `ت` `ط`; …)
//! get the same digit.  [`soundex`] keeps the first letter (as its group's
//! representative), replaces later letters by digits, drops vowels and
//! silent letters, collapses adjacent equal digits, and cuts or pads the
//! result to four characters.

use vstd::prelude::*;
use crate::text::{chars_eq, chars_of, is_whitespace, push_char, spec_is_whitespace, ZWNJ};

verus! {

/// The representative of a letter's phonetic group (e.g. ص → س).
pub open spec fn spec_first_letter_repr(c: char) -> char {
    if c == 'ص' || c == 'ث' {
        'س'
    } else if c == 'ذ' || c == 'ض' || c == 'ظ' {
        'ز'
    } else if c == 'ط' {
        'ت'
    } else if c == 'غ' {
        'ق'
    } else if c == 'ح' {
        'ه'
    } else if c == 'ا' || c == 'آ' || c == 'إ' || c == 'أ' {
        'ا'
    } else {
        c
    }
}

/// The phoneme-group digit of a letter; `'0'` for vowels and silent letters.
pub open spec fn spec_phoneme_code(c: char) -> char {
    if c == 'ب' || c == 'پ' {
        '1'
    } else if c == 'ف' || c == 'و' {
        '2'
    } else if c == 'ت' || c == 'د' || c == 'ط' {
        '3'
    } else if c == 'ث' || c == 'س' || c == 'ص' || c == 'ز' || c == 'ذ' || c == 'ض' || c == 'ظ'
        || c == 'ش' || c == 'ژ' {
        '4'
    } else if c == 'ج' || c == 'چ' || c == 'ک' || c == 'گ' || c == 'ق' || c == 'غ' || c == 'خ' {
        '5'
    } else if c == 'ل' {
        '6'
    } else if c == 'م' || c == 'ن' {
        '7'
    } else if c == 'ر' {
        '8'
    } else {
        '0'
    }
}

/// Characters that take part in the code: everything but whitespace and ZWNJ.
pub open spec fn is_sound_char(c: char) -> bool {
    !spec_is_whitespace(c) && c != ZWNJ
}

/// `s` without whitespace and ZWNJ.
pub open spec fn sound_chars(s: Seq<char>) -> Seq<char>
    decreases s.len(),
{
    if s.len() == 0 {
        seq![]
    } else if is_sound_char(s.last()) {
        sound_chars(s.drop_last()).push(s.last())
    } else {
        sound_chars(s.drop_last())
    }
}

/// The code built so far and the previous digit.
pub open spec fn sx_step(st: (Seq<char>, char), c: char) -> (Seq<char>, char) {
    if st.0.len() >= 4 {
        st
    } else {
        let d = spec_phoneme_code(c);
        if d == '0' {
            (st.0, '0')
        } else if d == st.1 {
            st
        } else {
            (st.0.push(d), d)
        }
    }
}

/// The code state after the letters of `rest`, starting from `init`.
pub open spec fn sx_run(init: (Seq<char>, char), rest: Seq<char>) -> (Seq<char>, char)
    decreases rest.len(),
{
    if rest.len() == 0 {
        init
    } else {
        sx_step(sx_run(init, rest.drop_last()), rest.last())
    }
}

/// `code` padded with `'0'` to four characters.
pub open spec fn pad4(code: Seq<char>) -> Seq<char> {
    if code.len() < 4 {
        code + Seq::new((4 - code.len()) as nat, |i: int| '0')
    } else {
        code
    }
}

/// The Persian Soundex code of `word`.
pub open spec fn spec_soundex(word: Seq<char>) -> Seq<char> {
    let cs = sound_chars(word);
    if cs.len() == 0 {
        seq!['0', '0', '0', '0']
    } else {
        let init = (seq![spec_first_letter_repr(cs[0])], spec_phoneme_code(cs[0]));
        pad4(sx_run(init, cs.skip(1)).0)
    }
}

fn first_letter_repr(c: char) -> (r: char)
    ensures
        r == spec_first_letter_repr(c),
{
    if c == 'ص' || c == 'ث' {
        'س'
    } else if c == 'ذ' || c == 'ض' || c == 'ظ' {
        'ز'
    } else if c == 'ط' {
        'ت'
    } else if c == 'غ' {
        'ق'
    } else if c == 'ح' {
        'ه'
    } else if c == 'ا' || c == 'آ' || c == 'إ' || c == 'أ' {
        'ا'
    } else {
        c
    }
}

fn phoneme_code(c: char) -> (r: char)
    ensures
        r == spec_phoneme_code(c),
{
    if c == 'ب' || c == 'پ' {
        '1'
    } else if c == 'ف' || c == 'و' {
        '2'
    } else if c == 'ت' || c == 'د' || c == 'ط' {
        '3'
    } else if c == 'ث' || c == 'س' || c == 'ص' || c == 'ز' || c == 'ذ' || c == 'ض' || c == 'ظ'
        || c == 'ش' || c == 'ژ' {
        '4'
    } else if c == 'ج' || c == 'چ' || c == 'ک' || c == 'گ' || c == 'ق' || c == 'غ' || c == 'خ' {
        '5'
    } else if c == 'ل' {
        '6'
    } else if c == 'م' || c == 'ن' {
        '7'
    } else if c == 'ر' {
        '8'
    } else {
        '0'
    }
}

/// The code never grows past four characters.
proof fn lemma_sx_run_len(init: (Seq<char>, char), rest: Seq<char>)
    requires
        init.0.len() <= 4,
    ensures
        sx_run(init, rest).0.len() <= 4,
    decreases rest.len(),
{
    if rest.len() > 0 {
        lemma_sx_run_len(init, rest.drop_last());
    }
}

/// Compute the Persian Soundex code for `word`: always four characters.
pub fn soundex(word: &str) -> (s: String)
    ensures
        s@ == spec_soundex(word@),
        s@.len() == 4,
{
    let all = chars_of(word);
    let mut cs: Vec<char> = Vec::new();
    let mut i: usize = 0;
    while i < all.len()
        invariant
            0 <= i <= all.len(),
            cs@ == sound_chars(all@.take(i as int)),
        decreases all.len() - i,
    {
        assert(all@.take(i + 1).drop_last() =~= all@.take(i as int));
        let c = all[i];
        if !is_whitespace(c) && c != ZWNJ {
            cs.push(c);
        }
        i += 1;
    }
    assert(all@.take(all.len() as int) =~= all@);
    if cs.len() == 0 {
        let mut z = String::new();
        push_char(&mut z, '0');
        push_char(&mut z, '0');
        push_char(&mut z, '0');
        push_char(&mut z, '0');
        assert(z@ =~= seq!['0', '0', '0', '0']);
        return z;
    }
    let ghost init = (seq![spec_first_letter_repr(cs@[0])], spec_phoneme_code(cs@[0]));
    let mut code: Vec<char> = Vec::new();
    code.push(first_letter_repr(cs[0]));
    let mut prev = phoneme_code(cs[0]);
    assert(code@ =~= init.0);
    let mut k: usize = 1;
    while k < cs.len()
        invariant
            1 <= k <= cs.len(),
            init == (seq![spec_first_letter_repr(cs@[0])], spec_phoneme_code(cs@[0])),
            (code@, prev) == sx_run(init, cs@.subrange(1, k as int)),
            code@.len() <= 4,
        decreases cs.len() - k,
    {
        assert(cs@.subrange(1, k + 1).drop_last() =~= cs@.subrange(1, k as int));
        if code.len() < 4 {
            let d = phoneme_code(cs[k]);
            if d == '0' {
                prev = '0';
            } else if d != prev {
                code.push(d);
                prev = d;
            }
        }
        k += 1;
    }
    assert(cs@.subrange(1, cs.len() as int) =~= cs@.skip(1));
    let mut out = String::new();
    let mut j: usize = 0;
    while j < code.len()
        invariant
            0 <= j <= code.len() <= 4,
            out@ == code@.take(j as int),
        decreases code.len() - j,
    {
        push_char(&mut out, code[j]);
        assert(code@.take(j + 1) =~= code@.take(j as int).push(code@[j as int]));
        j += 1;
    }
    assert(code@.take(code.len() as int) =~= code@);
    let n = code.len();
    while j < 4
        invariant
            n <= j <= 4,
            n == code.len(),
            out@ == code@ + Seq::new((j - n) as nat, |i: int| '0'),
        decreases 4 - j,
    {
        push_char(&mut out, '0');
        assert(code@ + Seq::new((j + 1 - n) as nat, |i: int| '0') =~= (code@ + Seq::new(
            (j - n) as nat,
            |i: int| '0',
        )).push('0'));
        j += 1;
    }
    assert(out@ =~= pad4(code@));
    out
}

/// Returns `true` if `a` and `b` share the same Persian Soundex code.
pub fn matches(a: &str, b: &str) -> (r: bool)
    ensures
        r == (spec_soundex(a@) == spec_soundex(b@)),
{
    let sa = soundex(a);
    let sb = soundex(b);
    chars_eq(&chars_of(sa.as_str()), &chars_of(sb.as_str()))
}


proof fn lemma_repr_facts(c: char)
    ensures
        spec_phoneme_code(spec_first_letter_repr(c)) == spec_phoneme_code(c),
        spec_first_letter_repr(spec_first_letter_repr(c)) == spec_first_letter_repr(c),
        is_sound_char(spec_first_letter_repr(c)) == is_sound_char(c),
{
}

proof fn lemma_sound_chars_repr(s: Seq<char>)
    ensures
        sound_chars(s.map_values(|c: char| spec_first_letter_repr(c))) == sound_chars(s).map_values(
            |c: char| spec_first_letter_repr(c),
        ),
    decreases s.len(),
{
    if s.len() > 0 {
        lemma_sound_chars_repr(s.drop_last());
        lemma_repr_facts(s.last());
        assert(s.map_values(|c: char| spec_first_letter_repr(c)).drop_last() =~= s.drop_last().map_values(
            |c: char| spec_first_letter_repr(c),
        ));
        assert(sound_chars(s.drop_last()).push(s.last()).map_values(
            |c: char| spec_first_letter_repr(c),
        ) =~= sound_chars(s.drop_last()).map_values(|c: char| spec_first_letter_repr(c)).push(
            spec_first_letter_repr(s.last()),
        ));
    }
}

proof fn lemma_sx_run_repr(init: (Seq<char>, char), rest: Seq<char>)
    ensures
        sx_run(init, rest.map_values(|c: char| spec_first_letter_repr(c))) == sx_run(init, rest),
    decreases rest.len(),
{
    if rest.len() > 0 {
        lemma_sx_run_repr(init, rest.drop_last());
        lemma_repr_facts(rest.last());
        assert(rest.map_values(|c: char| spec_first_letter_repr(c)).drop_last() =~= rest.drop_last().map_values(
            |c: char| spec_first_letter_repr(c),
        ));
    }
}

/// Homophones share a code: writing every letter as the representative of
/// its phonetic group (ص ث → س, ذ ض ظ → ز, ط → ت, غ → ق, ح → ه, آ إ أ → ا)
/// leaves the Soundex code unchanged.
pub proof fn law_soundex_homophones(word: Seq<char>)
    ensures
        spec_soundex(word.map_values(|c: char| spec_first_letter_repr(c))) == spec_soundex(word),
{
    lemma_sound_chars_repr(word);
    let cs = sound_chars(word);
    if cs.len() > 0 {
        lemma_repr_facts(cs[0]);
        let m = cs.map_values(|c: char| spec_first_letter_repr(c));
        assert(m.skip(1) =~= cs.skip(1).map_values(|c: char| spec_first_letter_repr(c)));
        lemma_sx_run_repr(
            (seq![spec_first_letter_repr(cs[0])], spec_phoneme_code(cs[0])),
            cs.skip(1),
        );
    }
}

/// A code digit: `'0'` to `'8'`.
pub open spec fn is_code_digit(c: char) -> bool {
    '0' <= c && c <= '8'
}

proof fn lemma_sx_run_digits(init: (Seq<char>, char), rest: Seq<char>)
    requires
        init.0.len() >= 1,
        forall|k: int| 1 <= k < init.0.len() ==> is_code_digit(#[trigger] init.0[k]),
    ensures
        sx_run(init, rest).0.len() >= 1,
        sx_run(init, rest).0[0] == init.0[0],
        forall|k: int| 1 <= k < sx_run(init, rest).0.len() ==> is_code_digit(#[trigger] sx_run(init, rest).0[k]),
    decreases rest.len(),
{
    if rest.len() > 0 {
        lemma_sx_run_digits(init, rest.drop_last());
    }
}

/// The code is four characters: the first is the word's first sounding
/// letter (as its group's representative), or `'0'` for a word with none;
/// the other three are digits from `'0'` to `'8'`.
pub proof fn law_soundex_shape(word: Seq<char>)
    ensures
        spec_soundex(word).len() == 4,
        forall|k: int| 1 <= k < 4 ==> is_code_digit(#[trigger] spec_soundex(word)[k]),
        sound_chars(word).len() > 0 ==> spec_soundex(word)[0] == spec_first_letter_repr(
            sound_chars(word)[0],
        ),
        sound_chars(word).len() == 0 ==> spec_soundex(word) == seq!['0', '0', '0', '0'],
{
    let cs = sound_chars(word);
    if cs.len() > 0 {
        let init = (seq![spec_first_letter_repr(cs[0])], spec_phoneme_code(cs[0]));
        lemma_sx_run_len(init, cs.skip(1));
        lemma_sx_run_digits(init, cs.skip(1));
    }
}

/// The empty word codes as `"0000"`.
pub proof fn law_soundex_empty()
    ensures
        spec_soundex(seq![]) == seq!['0', '0', '0', '0'],
{
}

proof fn lemma_sound_chars_concat(x: Seq<char>, y: Seq<char>)
    ensures
        sound_chars(x + y) == sound_chars(x) + sound_chars(y),
    decreases y.len(),
{
    if y.len() == 0 {
        assert(x + y =~= x);
        assert(sound_chars(x) + sound_chars(y) =~= sound_chars(x));
    } else {
        lemma_sound_chars_concat(x, y.drop_last());
        assert((x + y).drop_last() =~= x + y.drop_last());
        assert((x + y).last() == y.last());
        if is_sound_char(y.last()) {
            assert(sound_chars(x) + sound_chars(y.drop_last()).push(y.last()) =~= (sound_chars(x)
                + sound_chars(y.drop_last())).push(y.last()));
        }
    }
}

/// Whitespace and ZWNJ do not count: inserting one anywhere in a word
/// leaves its code unchanged.
pub proof fn law_soundex_ignores_spacing(x: Seq<char>, c: char, y: Seq<char>)
    requires
        spec_is_whitespace(c) || c == ZWNJ,
    ensures
        spec_soundex(x + seq![c] + y) == spec_soundex(x + y),
{
    lemma_sound_chars_concat(x + seq![c], y);
    lemma_sound_chars_concat(x, seq![c]);
    lemma_sound_chars_concat(x, y);
    assert(seq![c].drop_last() =~= Seq::<char>::empty());
    assert(sound_chars(Seq::<char>::empty()) =~= Seq::<char>::empty());
    assert(seq![c].last() == c);
    assert(sound_chars(seq![c]) =~= Seq::<char>::empty());
    assert(sound_chars(x) + sound_chars(seq![c]) =~= sound_chars(x));
}

/// Swapping letters for others of the same phonetic group (س ص ث;
/// ز ذ ض ظ; ت ط; ق غ; ه ح; ا آ إ أ) leaves the code unchanged: two words
/// of one length whose letters pairwise share a group have one code.
pub proof fn law_soundex_group_swap(w: Seq<char>, w2: Seq<char>)
    requires
        w.len() == w2.len(),
        forall|k: int|
            0 <= k < w.len() ==> spec_first_letter_repr(#[trigger] w[k]) == spec_first_letter_repr(
                w2[k],
            ),
    ensures
        spec_soundex(w2) == spec_soundex(w),
{
    law_soundex_homophones(w);
    law_soundex_homophones(w2);
    assert(w.map_values(|c: char| spec_first_letter_repr(c)) =~= w2.map_values(
        |c: char| spec_first_letter_repr(c),
    ));
}
} // verus!
