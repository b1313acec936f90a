//! Persian-words-to-integer conversion.

use vstd::prelude::*;
use crate::numbers::to_words::{AND, MINUS};
use crate::text::{
    chars_eq, chars_of, is_whitespace, matches_at, spec_is_whitespace, spec_trim,
    spec_trim_start, subvec, trim_chars, trim_start_chars, ZWNJ,
};

verus! {

/// Number words below one thousand and their values.
pub const UNIT_WORDS: [&'static str; 44] = [
    "صفر",
    "یک",
    "یه",
    "دو",
    "سه",
    "چهار",
    "پنج",
    "شش",
    "شیش",
    "هفت",
    "هشت",
    "نه",
    "ده",
    "یازده",
    "دوازده",
    "سیزده",
    "چهارده",
    "پانزده",
    "پونزده",
    "شانزده",
    "شونزده",
    "هفده",
    "هیفده",
    "هجده",
    "هیجده",
    "نوزده",
    "بیست",
    "سی",
    "چهل",
    "پنجاه",
    "شصت",
    "هفتاد",
    "هشتاد",
    "نود",
    "صد",
    "یکصد",
    "دویست",
    "سیصد",
    "چهارصد",
    "پانصد",
    "ششصد",
    "هفتصد",
    "هشتصد",
    "نهصد",
];

pub const UNIT_VALUES: [u64; 44] = [
    0, 1, 1, 2, 3, 4, 5, 6, 6, 7, 8, 9, 10, 11, 12, 13, 14, 15, 15, 16, 16, 17, 17, 18, 18, 19,
    20, 30, 40, 50, 60, 70, 80, 90, 100, 100, 200, 300, 400, 500, 600, 700, 800, 900,
];

/// Scale words and their multipliers.
pub const SCALE_WORDS: [&'static str; 4] = ["هزار", "میلیون", "میلیارد", "تریلیون"];

pub const SCALE_VALUES: [u64; 4] = [1_000, 1_000_000, 1_000_000_000, 1_000_000_000_000];

/// The conjunction, skipped between components.
pub const AND_WORD: &'static str = "و";

/// The largest magnitude an `i64` can carry (that of `i64::MIN`).
pub const MAGNITUDE_BOUND: u128 = 9_223_372_036_854_775_808;

/// Index of the first entry of `table` (from `i` on) that spells `w`.
pub open spec fn word_index(table: Seq<&'static str>, w: Seq<char>, i: int) -> Option<int>
    decreases table.len() - i,
{
    if i < 0 || i >= table.len() {
        None
    } else if table[i]@ == w {
        Some(i)
    } else {
        word_index(table, w, i + 1)
    }
}

/// Value of a unit word.
pub open spec fn unit_value(w: Seq<char>) -> Option<int> {
    match word_index(UNIT_WORDS@, w, 0) {
        Some(i) => Some(UNIT_VALUES[i] as int),
        None => None,
    }
}

/// Multiplier of a scale word.
pub open spec fn scale_value(w: Seq<char>) -> Option<int> {
    match word_index(SCALE_WORDS@, w, 0) {
        Some(i) => Some(SCALE_VALUES[i] as int),
        None => None,
    }
}

/// Separates words: whitespace or ZWNJ.
pub open spec fn is_word_sep(c: char) -> bool {
    spec_is_whitespace(c) || c == ZWNJ
}

/// `ws` with `w` appended, unless `w` is empty or the conjunction.
pub open spec fn keep_word(ws: Seq<Seq<char>>, w: Seq<char>) -> Seq<Seq<char>> {
    if w.len() > 0 && w != AND_WORD@ {
        ws.push(w)
    } else {
        ws
    }
}

/// Words closed so far, and the word being read.
pub open spec fn word_scan(s: Seq<char>) -> (Seq<Seq<char>>, Seq<char>)
    decreases s.len(),
{
    if s.len() == 0 {
        (seq![], seq![])
    } else {
        let (done, cur) = word_scan(s.drop_last());
        if is_word_sep(s.last()) {
            (keep_word(done, cur), seq![])
        } else {
            (done, cur.push(s.last()))
        }
    }
}

/// The words of `s`, conjunctions dropped.
pub open spec fn number_words(s: Seq<char>) -> Seq<Seq<char>> {
    keep_word(word_scan(s).0, word_scan(s).1)
}

/// One word of the running `(total, current)` sum: a unit adds to the
/// current group; a scale closes the group (an empty group counts as one).
pub open spec fn acc_step(st: (int, int), w: Seq<char>) -> Option<(int, int)> {
    match unit_value(w) {
        Some(v) => Some((st.0, st.1 + v)),
        None => match scale_value(w) {
            Some(sc) => Some(
                (
                    st.0 + (if st.1 == 0 {
                        1
                    } else {
                        st.1
                    }) * sc,
                    0,
                ),
            ),
            None => None,
        },
    }
}

/// The running sum over all words; `None` on an unknown word.
pub open spec fn accumulate(ws: Seq<Seq<char>>) -> Option<(int, int)>
    decreases ws.len(),
{
    if ws.len() == 0 {
        Some((0, 0))
    } else {
        match accumulate(ws.drop_last()) {
            Some(st) => acc_step(st, ws.last()),
            None => None,
        }
    }
}

/// Whether `t` starts with the negative marker.
pub open spec fn starts_with_minus(t: Seq<char>) -> bool {
    MINUS@.len() <= t.len() && t.subrange(0, MINUS@.len() as int) == MINUS@
}

/// The integer spelled by `text`.
pub open spec fn spec_from_words(text: Seq<char>) -> Option<i64> {
    let t = spec_trim(text);
    if t.len() == 0 {
        None
    } else {
        let neg = starts_with_minus(t);
        let body = if neg {
            spec_trim_start(t.skip(MINUS@.len() as int))
        } else {
            t
        };
        let ws = number_words(body);
        if ws.len() == 0 {
            None
        } else {
            match accumulate(ws) {
                Some(st) => {
                    let v = st.0 + st.1;
                    let signed = if neg {
                        -v
                    } else {
                        v
                    };
                    if i64::MIN <= signed <= i64::MAX {
                        Some(signed as i64)
                    } else {
                        None
                    }
                },
                None => None,
            }
        }
    }
}

/// A lookup lands inside the table.
proof fn lemma_word_index_range(table: Seq<&'static str>, w: Seq<char>, i: int)
    requires
        0 <= i,
    ensures
        word_index(table, w, i) matches Some(j) ==> i <= j < table.len() && table[j]@ == w,
    decreases table.len() - i,
{
    if i < table.len() && table[i]@ != w {
        lemma_word_index_range(table, w, i + 1);
    }
}

/// Sums never go negative.
proof fn lemma_accumulate_nonneg(ws: Seq<Seq<char>>)
    ensures
        accumulate(ws) matches Some(st) ==> st.0 >= 0 && st.1 >= 0,
    decreases ws.len(),
{
    if ws.len() > 0 {
        lemma_accumulate_nonneg(ws.drop_last());
    }
}

/// A word never lowers `total + current`.
proof fn lemma_acc_step_grows(st: (int, int), w: Seq<char>)
    requires
        st.0 >= 0,
        st.1 >= 0,
    ensures
        acc_step(st, w) matches Some(n) ==> n.0 + n.1 >= st.0 + st.1 && n.0 >= 0 && n.1 >= 0,
{
    if acc_step(st, w) is Some && unit_value(w) is None {
        lemma_word_index_range(SCALE_WORDS@, w, 0);
        let sc = scale_value(w)->0;
        assert(sc >= 1000);
        let g = if st.1 == 0 {
            1
        } else {
            st.1
        };
        assert(g * sc >= g) by (nonlinear_arith)
            requires
                g >= 1,
                sc >= 1000,
        ;
    }
}

/// Table lookup by character comparison.
fn lookup_word(table: &[&'static str], w: &Vec<char>) -> (r: Option<usize>)
    ensures
        r matches Some(i) ==> word_index(table@, w@, 0) == Some(i as int) && i < table@.len(),
        r is None ==> word_index(table@, w@, 0) is None,
{
    let mut i: usize = 0;
    while i < table.len()
        invariant
            0 <= i <= table@.len(),
            word_index(table@, w@, 0) == word_index(table@, w@, i as int),
        decreases table@.len() - i,
    {
        let entry = chars_of(table[i]);
        if chars_eq(&entry, w) {
            return Some(i);
        }
        i += 1;
    }
    None
}

/// One step of the running sum, for sums that fit the magnitude bound.
fn step_word(w: &Vec<char>, total: u128, current: u128) -> (r: Option<(u128, u128)>)
    requires
        total + current <= MAGNITUDE_BOUND,
    ensures
        r matches Some(n) ==> acc_step((total as int, current as int), w@) == Some(
            (n.0 as int, n.1 as int),
        ),
        r is None ==> acc_step((total as int, current as int), w@) is None,
{
    match lookup_word(&UNIT_WORDS, w) {
        Some(i) => Some((total, current + UNIT_VALUES[i] as u128)),
        None => match lookup_word(&SCALE_WORDS, w) {
            Some(i) => {
                let g: u128 = if current == 0 {
                    1
                } else {
                    current
                };
                let sc = SCALE_VALUES[i] as u128;
                assert(g * sc <= MAGNITUDE_BOUND * 1_000_000_000_000) by (nonlinear_arith)
                    requires
                        1 <= g <= MAGNITUDE_BOUND,
                        sc <= 1_000_000_000_000,
                ;
                Some((total + g * sc, 0))
            },
            None => None,
        },
    }
}

/// What the scan loop knows of the sum so far.
pub open spec fn sum_state(
    ws: Seq<Seq<char>>,
    total: u128,
    current: u128,
    failed: bool,
    big: bool,
) -> bool {
    &&& failed ==> accumulate(ws) is None
    &&& !failed && !big ==> accumulate(ws) == Some((total as int, current as int)) && total
        + current <= MAGNITUDE_BOUND
    &&& !failed && big ==> match accumulate(ws) {
        Some(st) => st.0 + st.1 > MAGNITUDE_BOUND,
        None => true,
    }
}

/// Folds one more word into the loop state.
fn absorb(
    w: &Vec<char>,
    total: &mut u128,
    current: &mut u128,
    failed: &mut bool,
    big: &mut bool,
    Ghost(ws): Ghost<Seq<Seq<char>>>,
)
    requires
        sum_state(ws, *old(total), *old(current), *old(failed), *old(big)),
    ensures
        sum_state(ws.push(w@), *final(total), *final(current), *final(failed), *final(big)),
{
    assert(ws.push(w@).drop_last() =~= ws);
    proof {
        lemma_accumulate_nonneg(ws);
    }
    if *failed {
        return;
    }
    if *big {
        proof {
            if accumulate(ws) is Some {
                lemma_acc_step_grows(accumulate(ws)->0, w@);
            }
        }
        return;
    }
    match step_word(w, *total, *current) {
        None => {
            *failed = true;
        },
        Some((t, c)) => {
            proof {
                lemma_acc_step_grows((*total as int, *current as int), w@);
            }
            if t + c > MAGNITUDE_BOUND {
                *big = true;
            } else {
                *total = t;
                *current = c;
            }
        },
    }
}

/// Parse Persian number words into an `i64`.  Tolerates extra whitespace,
/// ZWNJ and the conjunction "و" between components; `None` if `text` does
/// not spell a number that fits an `i64`.
pub fn from_words(text: &str) -> (r: Option<i64>)
    ensures
        r == spec_from_words(text@),
{
    let chars = chars_of(text);
    let t = trim_chars(&chars);
    if t.len() == 0 {
        return None;
    }
    let minus = chars_of(MINUS);
    let neg = matches_at(&t, 0, &minus);
    let body = if neg {
        let rest = subvec(&t, minus.len(), t.len());
        assert(rest@ =~= t@.skip(MINUS@.len() as int));
        trim_start_chars(&rest)
    } else {
        t
    };
    let and_word = chars_of(AND_WORD);
    let mut total: u128 = 0;
    let mut current: u128 = 0;
    let mut failed = false;
    let mut big = false;
    let mut any = false;
    let mut cur: Vec<char> = Vec::new();
    let mut i: usize = 0;
    while i < body.len()
        invariant
            0 <= i <= body.len(),
            and_word@ == AND_WORD@,
            cur@ == word_scan(body@.take(i as int)).1,
            any == (word_scan(body@.take(i as int)).0.len() > 0),
            sum_state(word_scan(body@.take(i as int)).0, total, current, failed, big),
        decreases body.len() - i,
    {
        assert(body@.take(i + 1).drop_last() =~= body@.take(i as int));
        let c = body[i];
        if is_whitespace(c) || c == ZWNJ {
            if cur.len() > 0 && !chars_eq(&cur, &and_word) {
                absorb(
                    &cur,
                    &mut total,
                    &mut current,
                    &mut failed,
                    &mut big,
                    Ghost(word_scan(body@.take(i as int)).0),
                );
                any = true;
            }
            cur = Vec::new();
        } else {
            cur.push(c);
        }
        i += 1;
    }
    assert(body@.take(body.len() as int) =~= body@);
    if cur.len() > 0 && !chars_eq(&cur, &and_word) {
        absorb(
            &cur,
            &mut total,
            &mut current,
            &mut failed,
            &mut big,
            Ghost(word_scan(body@).0),
        );
        any = true;
    }
    if !any || failed || big {
        return None;
    }
    let v = total + current;
    if neg {
        Some((0i128 - v as i128) as i64)
    } else if v <= 9_223_372_036_854_775_807 {
        Some(v as i64)
    } else {
        None
    }
}


/// A word: non-empty, free of separators, and not the conjunction.
pub open spec fn good_word(w: Seq<char>) -> bool {
    &&& w.len() > 0
    &&& w != AND_WORD@
    &&& forall|k: int| 0 <= k < w.len() ==> !is_word_sep(#[trigger] w[k])
}

proof fn lemma_word_scan_push(s: Seq<char>, c: char)
    ensures
        word_scan(s.push(c)) == (if is_word_sep(c) {
            (keep_word(word_scan(s).0, word_scan(s).1), seq![])
        } else {
            (word_scan(s).0, word_scan(s).1.push(c))
        }),
{
    assert(s.push(c).drop_last() =~= s);
}

/// Scanning continues across a boundary at which no word is open.
proof fn lemma_word_scan_concat(a: Seq<char>, b: Seq<char>)
    requires
        word_scan(a).1.len() == 0,
    ensures
        word_scan(a + b) == (word_scan(a).0 + word_scan(b).0, word_scan(b).1),
    decreases b.len(),
{
    if b.len() == 0 {
        assert(a + b =~= a);
        assert(word_scan(a).0 + word_scan(b).0 =~= word_scan(a).0);
        assert(word_scan(a).1 =~= word_scan(b).1);
    } else {
        lemma_word_scan_concat(a, b.drop_last());
        assert((a + b).drop_last() =~= a + b.drop_last());
        let (d, c) = word_scan(b.drop_last());
        assert(keep_word(word_scan(a).0 + d, c) =~= word_scan(a).0 + keep_word(d, c));
    }
}

/// A space splits the words of the two sides.
pub proof fn lemma_words_space(x: Seq<char>, y: Seq<char>)
    ensures
        number_words(x + seq![' '] + y) == number_words(x) + number_words(y),
{
    let a = x.push(' ');
    assert(x + seq![' '] + y =~= a + y);
    lemma_word_scan_push(x, ' ');
    lemma_word_scan_concat(a, y);
    let (d, c) = word_scan(y);
    assert(keep_word(word_scan(a).0 + d, c) =~= word_scan(a).0 + keep_word(d, c));
}

/// A conjunction between two texts contributes no word.
pub proof fn lemma_words_and(x: Seq<char>, y: Seq<char>)
    requires
        AND@ == seq![' ', 'و', ' '],
        AND_WORD@ == seq!['و'],
    ensures
        number_words(x + AND@ + y) == number_words(x) + number_words(y),
{
    let v: Seq<char> = seq!['و'];
    assert(x + AND@ + y =~= x + seq![' '] + (v + seq![' '] + y));
    lemma_words_space(x, v + seq![' '] + y);
    lemma_words_space(v, y);
    let e: Seq<char> = seq![];
    assert(v =~= e.push('و'));
    lemma_word_scan_push(e, 'و');
    assert(!is_word_sep('و'));
    assert(number_words(v) =~= seq![]);
    assert(number_words(x) + (number_words(v) + number_words(y)) =~= number_words(x)
        + number_words(y));
}

/// A single word reads as itself.
pub proof fn lemma_words_single(w: Seq<char>)
    requires
        good_word(w),
    ensures
        number_words(w) == seq![w],
{
    lemma_scan_no_sep(w);
}

proof fn lemma_scan_no_sep(w: Seq<char>)
    requires
        forall|k: int| 0 <= k < w.len() ==> !is_word_sep(#[trigger] w[k]),
    ensures
        word_scan(w) == (Seq::<Seq<char>>::empty(), w),
    decreases w.len(),
{
    if w.len() > 0 {
        assert(forall|k: int| 0 <= k < w.drop_last().len() ==> w.drop_last()[k] == w[k]);
        lemma_scan_no_sep(w.drop_last());
        assert(w.drop_last().push(w.last()) =~= w);
    }
}

/// The running sum continued over further words.
pub open spec fn acc_from(st: Option<(int, int)>, ws: Seq<Seq<char>>) -> Option<(int, int)>
    decreases ws.len(),
{
    if ws.len() == 0 {
        st
    } else {
        match acc_from(st, ws.drop_last()) {
            Some(s) => acc_step(s, ws.last()),
            None => None,
        }
    }
}

/// Summing a concatenation sums the first part, then continues.
pub proof fn lemma_accumulate_append(a: Seq<Seq<char>>, b: Seq<Seq<char>>)
    ensures
        accumulate(a + b) == acc_from(accumulate(a), b),
    decreases b.len(),
{
    if b.len() == 0 {
        assert(a + b =~= a);
    } else {
        lemma_accumulate_append(a, b.drop_last());
        assert((a + b).drop_last() =~= a + b.drop_last());
    }
}
} // verus!
