//! Iranian vehicle licence-plate validation.
//!
//! Format: `XX [letter] XXX YY` — a 2-digit serial (10–99), one Persian
//! letter from a fixed alphabet, a 3-digit serial (100–999) and a 2-digit
//! province code (11–99).  Separators (whitespace, `-`, `.`, `_`) are
//! tolerated between groups; Persian, Arabic-Indic and Latin digits are all
//! accepted.

use vstd::prelude::*;
use crate::decimal::{digit_char, lemma_decimal_len, push_padded, spec_decimal, spec_padded};
use crate::normalizer::digits::LATIN_DIGITS;
use crate::normalizer::digits::digit_value;
use crate::text::{chars_of, is_whitespace, push_char, spec_is_whitespace};
use crate::validators::{all_digits, dec_value, digit_of, lemma_dec_value_bound, pow10};

verus! {

/// Letters allowed on civilian Iranian plates.
pub const PLATE_LETTERS: [char; 31] = [
    'ا', 'ب', 'پ', 'ت', 'ث', 'ج', 'چ', 'ح', 'د', 'ذ', 'ر', 'ز', 'ژ', 'س', 'ش', 'ص',
    'ض', 'ط', 'ظ', 'ع', 'غ', 'ف', 'ق', 'ک', 'گ', 'ل', 'م', 'ن', 'و', 'ه', 'ی',
];

/// A parsed vehicle plate.
#[derive(Debug, Clone, PartialEq, Eq, Structural)]
pub struct Plate {
    /// First 2-digit group.
    pub first: u32,
    /// Persian letter character.
    pub letter: char,
    /// 3-digit group.
    pub second: u32,
    /// 2-digit province code (11–99).
    pub province: u32,
}

/// The state of a left-to-right scan: the letter seen so far, the digit
/// groups already closed, and the group being read.
pub struct PlateScan {
    pub letter: Option<char>,
    pub done: Seq<Seq<u8>>,
    pub cur: Seq<u8>,
}

/// A separator between groups.
pub open spec fn is_plate_separator(c: char) -> bool {
    spec_is_whitespace(c) || c == '-' || c == '.' || c == '_'
}

/// Closes the current group if it holds any digit.
pub open spec fn close_group(st: PlateScan) -> PlateScan {
    if st.cur.len() > 0 {
        PlateScan { letter: st.letter, done: st.done.push(st.cur), cur: seq![] }
    } else {
        st
    }
}

/// One character of the scan; `None` rejects the plate.
pub open spec fn plate_step(st: PlateScan, c: char) -> Option<PlateScan> {
    if is_plate_separator(c) {
        Some(close_group(st))
    } else if digit_value(c) is Some {
        Some(PlateScan { letter: st.letter, done: st.done, cur: st.cur.push(digit_value(c)->0 as u8) })
    } else if PLATE_LETTERS@.contains(c) {
        if st.letter is Some {
            None
        } else {
            Some(close_group(PlateScan { letter: Some(c), done: st.done, cur: st.cur }))
        }
    } else {
        None
    }
}

/// The scan of a whole input.
pub open spec fn plate_scan(s: Seq<char>) -> Option<PlateScan>
    decreases s.len(),
{
    if s.len() == 0 {
        Some(PlateScan { letter: None, done: seq![], cur: seq![] })
    } else {
        match plate_scan(s.drop_last()) {
            Some(st) => plate_step(st, s.last()),
            None => None,
        }
    }
}

/// The three digit groups of a scanned plate: three separate groups, a
/// 2-digit group and a fused 5-digit group, or one fused 7-digit group.
pub open spec fn plate_parts(gs: Seq<Seq<u8>>) -> Option<(Seq<u8>, Seq<u8>, Seq<u8>)> {
    if gs.len() == 3 {
        Some((gs[0], gs[1], gs[2]))
    } else if gs.len() == 2 && gs[0].len() == 2 && gs[1].len() == 5 {
        Some((gs[0], gs[1].take(3), gs[1].skip(3)))
    } else if gs.len() == 1 && gs[0].len() == 7 {
        Some((gs[0].take(2), gs[0].subrange(2, 5), gs[0].skip(5)))
    } else {
        None
    }
}

/// The plate `s` spells, if it is well-formed.
pub open spec fn spec_parse(s: Seq<char>) -> Option<Plate> {
    match plate_scan(s) {
        Some(st) => {
            let gs = close_group(st).done;
            match (st.letter, plate_parts(gs)) {
                (Some(letter), Some((a, b, c))) => {
                    let first = dec_value(a);
                    let second = dec_value(b);
                    let province = dec_value(c);
                    if a.len() == 2 && b.len() == 3 && c.len() == 2 && 10 <= first <= 99 && 100
                        <= second <= 999 && 11 <= province <= 99 {
                        Some(
                            Plate {
                                first: first as u32,
                                letter,
                                second: second as u32,
                                province: province as u32,
                            },
                        )
                    } else {
                        None
                    }
                },
                _ => None,
            }
        },
        None => None,
    }
}

/// The text form `NNLNNN-NN`, each number zero-padded to its group width.
pub open spec fn spec_plate_string(p: Plate) -> Seq<char> {
    spec_padded(p.first as nat, 2) + seq![p.letter] + spec_padded(p.second as nat, 3) + seq!['-']
        + spec_padded(p.province as nat, 2)
}

fn is_plate_letter(c: char) -> (r: bool)
    ensures
        r == PLATE_LETTERS@.contains(c),
{
    let mut i: usize = 0;
    while i < 31
        invariant
            0 <= i <= 31,
            forall|j: int| 0 <= j < i ==> PLATE_LETTERS@[j] != c,
        decreases 31 - i,
    {
        if PLATE_LETTERS[i] == c {
            assert(PLATE_LETTERS@[i as int] == c);
            return true;
        }
        i += 1;
    }
    false
}

/// Decimal value of a short digit group.
fn group_value(g: &Vec<u8>, lo: usize, hi: usize) -> (r: u32)
    requires
        lo <= hi <= g.len(),
        hi - lo <= 3,
        all_digits(g@),
    ensures
        r == dec_value(g@.subrange(lo as int, hi as int)),
{
    let mut v: u32 = 0;
    let mut i = lo;
    while i < hi
        invariant
            lo <= i <= hi <= g.len(),
            hi - lo <= 3,
            all_digits(g@),
            v == dec_value(g@.subrange(lo as int, i as int)),
            v < pow10((i - lo) as nat),
        decreases hi - i,
    {
        proof {
            assert(g@.subrange(lo as int, i + 1).drop_last() =~= g@.subrange(lo as int, i as int));
            reveal_with_fuel(pow10, 4);
        }
        v = v * 10 + g[i] as u32;
        i += 1;
    }
    v
}

/// Parse `plate` into a structured [`Plate`] value.
pub fn parse(plate: &str) -> (r: Option<Plate>)
    ensures
        r == spec_parse(plate@),
{
    let chars = chars_of(plate);
    let mut letter: Option<char> = None;
    let mut done: Vec<Vec<u8>> = Vec::new();
    let ghost mut gdone: Seq<Seq<u8>> = seq![];
    let mut cur: Vec<u8> = Vec::new();
    let mut i: usize = 0;
    while i < chars.len()
        invariant
            0 <= i <= chars.len(),
            chars@ == plate@,
            plate_scan(chars@.take(i as int)) == Some(PlateScan { letter, done: gdone, cur: cur@ }),
            all_digits(cur@),
            gdone.len() == done@.len(),
            forall|k: int| 0 <= k < done@.len() ==> #[trigger] done@[k]@ == gdone[k],
            forall|k: int| 0 <= k < gdone.len() ==> all_digits(#[trigger] gdone[k]),
        decreases chars.len() - i,
    {
        assert(chars@.take(i + 1).drop_last() =~= chars@.take(i as int));
        let c = chars[i];
        if is_whitespace(c) || c == '-' || c == '.' || c == '_' {
            if cur.len() > 0 {
                proof {
                    gdone = gdone.push(cur@);
                }
                let g = cur;
                cur = Vec::new();
                done.push(g);
            }
        } else {
            match digit_of(c) {
                Some(d) => {
                    cur.push(d);
                },
                None => {
                    if is_plate_letter(c) {
                        if letter.is_some() {
                            proof {
                                lemma_plate_scan_none(chars@, i as int);
                            }
                            return None;
                        }
                        letter = Some(c);
                        if cur.len() > 0 {
                            proof {
                                gdone = gdone.push(cur@);
                            }
                            let g = cur;
                            cur = Vec::new();
                            done.push(g);
                        }
                    } else {
                        proof {
                            lemma_plate_scan_none(chars@, i as int);
                        }
                        return None;
                    }
                },
            }
        }
        i += 1;
    }
    assert(chars@.take(chars.len() as int) =~= chars@);
    let ghost st = PlateScan { letter, done: gdone, cur: cur@ };
    if cur.len() > 0 {
        proof {
            gdone = gdone.push(cur@);
        }
        let g = cur;
        cur = Vec::new();
        done.push(g);
    }
    let ghost gs = gdone;
    assert(gs == close_group(st).done);
    let letter = match letter {
        Some(l) => l,
        None => return None,
    };
    // (group, lo, hi) for each of the three parts.
    let n = done.len();
    let (first, second, province) = if n == 3 {
        assert(done@[0]@ == gs[0] && done@[1]@ == gs[1] && done@[2]@ == gs[2]);
        if done[0].len() != 2 || done[1].len() != 3 || done[2].len() != 2 {
            return None;
        }
        (
            group_value(&done[0], 0, 2),
            group_value(&done[1], 0, 3),
            group_value(&done[2], 0, 2),
        )
    } else if n == 2 && done[0].len() == 2 && done[1].len() == 5 {
        assert(done@[0]@ == gs[0] && done@[1]@ == gs[1]);
        assert(gs[0].subrange(0, 2) =~= gs[0]);
        assert(gs[1].subrange(0, 3) =~= gs[1].take(3));
        assert(gs[1].subrange(3, 5) =~= gs[1].skip(3));
        (group_value(&done[0], 0, 2), group_value(&done[1], 0, 3), group_value(&done[1], 3, 5))
    } else if n == 1 && done[0].len() == 7 {
        assert(done@[0]@ == gs[0]);
        assert(gs[0].subrange(0, 2) =~= gs[0].take(2));
        assert(gs[0].subrange(5, 7) =~= gs[0].skip(5));
        (group_value(&done[0], 0, 2), group_value(&done[0], 2, 5), group_value(&done[0], 5, 7))
    } else {
        return None;
    };
    if n == 3 {
        assert(gs[0].subrange(0, 2) =~= gs[0]);
        assert(gs[1].subrange(0, 3) =~= gs[1]);
        assert(gs[2].subrange(0, 2) =~= gs[2]);
    }
    if !(10 <= first && first <= 99) || !(100 <= second && second <= 999) || !(11 <= province
        && province <= 99) {
        return None;
    }
    Some(Plate { first, letter, second, province })
}

/// A rejection in a prefix rejects the whole input.
proof fn lemma_plate_scan_none(s: Seq<char>, i: int)
    requires
        0 <= i < s.len(),
        plate_scan(s.take(i + 1)) is None,
    ensures
        plate_scan(s) is None,
    decreases s.len() - i,
{
    if i + 1 < s.len() {
        assert(s.take(i + 2).drop_last() =~= s.take(i + 1));
        lemma_plate_scan_none(s, i + 1);
    } else {
        assert(s.take(i + 1) =~= s);
    }
}

/// Returns `true` if `plate` parses as a structurally valid Iranian plate.
pub fn validate(plate: &str) -> (b: bool)
    ensures
        b == spec_parse(plate@) is Some,
{
    parse(plate).is_some()
}

impl Plate {
    /// The plate in canonical text form, e.g. `12ب345-67`.
    pub fn to_string(&self) -> (s: String)
        ensures
            s@ == spec_plate_string(*self),
    {
        let mut s = String::new();
        push_padded(&mut s, self.first as u64, 2);
        push_char(&mut s, self.letter);
        push_padded(&mut s, self.second as u64, 3);
        push_char(&mut s, '-');
        push_padded(&mut s, self.province as u64, 2);
        assert(s@ =~= spec_plate_string(*self));
        s
    }
}


/// Appending a character advances the scan by one step.
proof fn lemma_plate_scan_push(s: Seq<char>, c: char)
    ensures
        plate_scan(s.push(c)) == match plate_scan(s) {
            Some(st) => plate_step(st, c),
            None => None,
        },
{
    assert(s.push(c).drop_last() =~= s);
}

/// The digits of a Latin-digit rendering read back as their values.
proof fn lemma_latin_digit(d: int)
    requires
        0 <= d < 10,
    ensures
        digit_value(digit_char(d)) == Some(d),
        !is_plate_separator(digit_char(d)),
{
    assert(forall|k: int| 0 <= k < 10 ==> #[trigger] LATIN_DIGITS[k] as u32 == 48 + k);
}

/// Two- and three-digit numbers render as their digits.
proof fn lemma_padded_small(n: nat)
    requires
        10 <= n < 1000,
    ensures
        n < 100 ==> spec_padded(n, 2) == seq![digit_char((n / 10) as int), digit_char((n % 10) as int)],
        n >= 100 ==> spec_padded(n, 3) == seq![
            digit_char((n / 100) as int),
            digit_char(((n / 10) % 10) as int),
            digit_char((n % 10) as int),
        ],
{
    lemma_decimal_len(n);
    reveal_with_fuel(spec_decimal, 3);
    if n >= 100 {
        assert(spec_decimal(n / 10) == seq![digit_char((n / 100) as int), digit_char(((n / 10) % 10) as int)]);
    }
}

/// Every plate in range, with a plate letter, parses back from its text form.
pub proof fn law_plate_text_round_trip(p: Plate)
    requires
        10 <= p.first <= 99,
        100 <= p.second <= 999,
        11 <= p.province <= 99,
        PLATE_LETTERS@.contains(p.letter),
    ensures
        spec_parse(spec_plate_string(p)) == Some(p),
{
    let f = p.first as nat;
    let m = p.second as nat;
    let v = p.province as nat;
    lemma_padded_small(f);
    lemma_padded_small(m);
    lemma_padded_small(v);
    let a1 = f / 10;
    let a2 = f % 10;
    let b1 = m / 100;
    let b2 = (m / 10) % 10;
    let b3 = m % 10;
    let c1 = v / 10;
    let c2 = v % 10;
    lemma_latin_digit(a1 as int);
    lemma_latin_digit(a2 as int);
    lemma_latin_digit(b1 as int);
    lemma_latin_digit(b2 as int);
    lemma_latin_digit(b3 as int);
    lemma_latin_digit(c1 as int);
    lemma_latin_digit(c2 as int);
    let l = p.letter;
    assert(digit_value(l) is None && !is_plate_separator(l)) by {
        let k = choose|k: int| 0 <= k < 31 && PLATE_LETTERS@[k] == l;
        assert(0x627 <= l as u32 <= 0x6cc);
        assert(l as u32 != 0x660);
    }
    let s0: Seq<char> = seq![];
    let s1 = s0.push(digit_char(a1 as int));
    let s2 = s1.push(digit_char(a2 as int));
    let s3 = s2.push(l);
    let s4 = s3.push(digit_char(b1 as int));
    let s5 = s4.push(digit_char(b2 as int));
    let s6 = s5.push(digit_char(b3 as int));
    let s7 = s6.push('-');
    let s8 = s7.push(digit_char(c1 as int));
    let s9 = s8.push(digit_char(c2 as int));
    assert(s9 =~= spec_plate_string(p));
    lemma_plate_scan_push(s0, digit_char(a1 as int));
    lemma_plate_scan_push(s1, digit_char(a2 as int));
    lemma_plate_scan_push(s2, l);
    lemma_plate_scan_push(s3, digit_char(b1 as int));
    lemma_plate_scan_push(s4, digit_char(b2 as int));
    lemma_plate_scan_push(s5, digit_char(b3 as int));
    lemma_plate_scan_push(s6, '-');
    lemma_plate_scan_push(s7, digit_char(c1 as int));
    lemma_plate_scan_push(s8, digit_char(c2 as int));
    let ga: Seq<u8> = seq![a1 as u8, a2 as u8];
    let gb: Seq<u8> = seq![b1 as u8, b2 as u8, b3 as u8];
    let gc: Seq<u8> = seq![c1 as u8, c2 as u8];
    let e: Seq<u8> = seq![];
    assert(plate_scan(s1) == Some(PlateScan { letter: None, done: seq![], cur: e.push(a1 as u8) }));
    assert(e.push(a1 as u8).push(a2 as u8) =~= ga);
    assert(plate_scan(s2) == Some(PlateScan { letter: None, done: seq![], cur: ga }));
    assert(seq![].push(ga) =~= seq![ga]);
    assert(plate_scan(s3) == Some(PlateScan { letter: Some(l), done: seq![ga], cur: e }));
    assert(e.push(b1 as u8).push(b2 as u8).push(b3 as u8) =~= gb);
    assert(plate_scan(s6) == Some(PlateScan { letter: Some(l), done: seq![ga], cur: gb }));
    assert(seq![ga].push(gb) =~= seq![ga, gb]);
    assert(plate_scan(s7) == Some(PlateScan { letter: Some(l), done: seq![ga, gb], cur: e }));
    assert(e.push(c1 as u8).push(c2 as u8) =~= gc);
    let st = plate_scan(s9).unwrap();
    assert(st == PlateScan { letter: Some(l), done: seq![ga, gb], cur: gc });
    assert(close_group(st).done =~= seq![ga, gb, gc]);
    reveal_with_fuel(dec_value, 4);
    assert(ga.drop_last() =~= seq![a1 as u8]);
    assert(seq![a1 as u8].drop_last() =~= Seq::<u8>::empty());
    assert(gb.drop_last() =~= seq![b1 as u8, b2 as u8]);
    assert(seq![b1 as u8, b2 as u8].drop_last() =~= seq![b1 as u8]);
    assert(gc.drop_last() =~= seq![c1 as u8]);
    assert(seq![c1 as u8].drop_last() =~= Seq::<u8>::empty());
    assert(dec_value(ga) == f);
    assert(dec_value(gb) == m);
    assert(dec_value(gc) == v);
}

/// A character the plate syntax accepts: a separator, a digit of any of
/// the three scripts, or a plate letter.
pub open spec fn is_plate_char(c: char) -> bool {
    is_plate_separator(c) || digit_value(c) is Some || PLATE_LETTERS@.contains(c)
}

proof fn lemma_plate_scan_chars(s: Seq<char>)
    ensures
        plate_scan(s) matches Some(st) ==> {
            &&& forall|k: int| 0 <= k < s.len() ==> is_plate_char(#[trigger] s[k])
            &&& (st.letter is None <==> forall|k: int|
                0 <= k < s.len() ==> !PLATE_LETTERS@.contains(#[trigger] s[k]))
            &&& (st.letter matches Some(l) ==> PLATE_LETTERS@.contains(l))
            &&& forall|i: int, j: int|
                0 <= i < j < s.len() ==> !(PLATE_LETTERS@.contains(#[trigger] s[i])
                    && PLATE_LETTERS@.contains(#[trigger] s[j]))
        },
    decreases s.len(),
{
    if s.len() > 0 {
        let p = s.drop_last();
        lemma_plate_scan_chars(p);
        if plate_scan(s) is Some {
            let c = s.last();
            assert(forall|k: int| 0 <= k < p.len() ==> p[k] == s[k]);
            let st = plate_scan(p)->0;
            if PLATE_LETTERS@.contains(c) && !is_plate_separator(c) && digit_value(c) is None {
                assert(st.letter is None);
            }
        }
    }
}

/// What `parse` accepts: every plate it returns has a two-digit serial of
/// 10–99, a plate letter, a three-digit serial of 100–999 and a province
/// code of 11–99; text with two plate letters, or with any character that
/// is not a separator, a digit or a plate letter, is rejected.
pub proof fn law_plate_parse_accepts(s: Seq<char>)
    ensures
        spec_parse(s) matches Some(p) ==> {
            &&& 10 <= p.first <= 99
            &&& 100 <= p.second <= 999
            &&& 11 <= p.province <= 99
            &&& PLATE_LETTERS@.contains(p.letter)
        },
        (exists|i: int, j: int|
            0 <= i < j < s.len() && PLATE_LETTERS@.contains(#[trigger] s[i])
                && PLATE_LETTERS@.contains(#[trigger] s[j])) ==> spec_parse(s) is None,
        (exists|k: int| 0 <= k < s.len() && !is_plate_char(#[trigger] s[k])) ==> spec_parse(s) is None,
{
    lemma_plate_scan_chars(s);
}
} // verus!
