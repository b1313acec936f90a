//! Validators for Iranian identifiers and document numbers.
//!
//! Every validator accepts Persian, Arabic-Indic or Latin digits and
//! tolerates separators: the digits are extracted first, then the format and
//! checksum are checked on the digit values.

pub mod bank_card;
pub mod banks;
pub mod bill;
pub mod car_plate;
pub mod landline;
pub mod legal_id;
pub mod national_id;
pub mod phone;
pub mod postal_code;
pub mod sheba;

pub use car_plate::Plate;
pub use landline::Province;
pub use phone::Operator;





use vstd::prelude::*;
use crate::normalizer::digits::{digit_value, LATIN_DIGITS};
use crate::text::{chars_of, cp, lemma_take_full, push_char};

verus! {

/// The decimal digits of `s` (Latin, Arabic-Indic or Persian), in order, as values 0..=9.
pub open spec fn digit_seq(s: Seq<char>) -> Seq<u8>
    decreases s.len(),
{
    if s.len() == 0 {
        seq![]
    } else {
        match digit_value(s.last()) {
            Some(d) => digit_seq(s.drop_last()).push(d as u8),
            None => digit_seq(s.drop_last()),
        }
    }
}

/// Latin-digit rendering of digit values.
pub open spec fn ascii_digits(d: Seq<u8>) -> Seq<char> {
    d.map_values(|x: u8| LATIN_DIGITS[x as int])
}

/// Every element is a decimal digit value.
pub open spec fn all_digits(d: Seq<u8>) -> bool {
    forall|i: int| 0 <= i < d.len() ==> d[i] <= 9
}

/// Decimal value of a digit sequence (most significant first).
pub open spec fn dec_value(d: Seq<u8>) -> int
    decreases d.len(),
{
    if d.len() == 0 {
        0
    } else {
        dec_value(d.drop_last()) * 10 + d.last()
    }
}

/// All elements equal the first one.
pub open spec fn all_same(d: Seq<u8>) -> bool {
    forall|i: int| 0 <= i < d.len() ==> #[trigger] d[i] == d[0]
}

/// Reading back the Latin rendering of digit values gives the values.
pub proof fn lemma_digit_seq_ascii(d: Seq<u8>)
    requires
        all_digits(d),
    ensures
        digit_seq(ascii_digits(d)) == d,
    decreases d.len(),
{
    if d.len() > 0 {
        let p = d.drop_last();
        assert(ascii_digits(d).drop_last() =~= ascii_digits(p));
        lemma_digit_seq_ascii(p);
        let x = d.last();
        assert(ascii_digits(d).last() == LATIN_DIGITS[x as int]);
        assert(digit_value(LATIN_DIGITS[x as int]) == Some(x as int)) by {
            assert(LATIN_DIGITS[0] == '0' && LATIN_DIGITS[1] == '1' && LATIN_DIGITS[2] == '2'
                && LATIN_DIGITS[3] == '3' && LATIN_DIGITS[4] == '4' && LATIN_DIGITS[5] == '5'
                && LATIN_DIGITS[6] == '6' && LATIN_DIGITS[7] == '7' && LATIN_DIGITS[8] == '8'
                && LATIN_DIGITS[9] == '9');
        }
        assert(p.push(x) =~= d);
    }
}

pub proof fn lemma_digit_seq_step(s: Seq<char>, i: int)
    requires
        0 <= i < s.len(),
    ensures
        digit_seq(s.take(i + 1)) == match digit_value(s[i]) {
            Some(d) => digit_seq(s.take(i)).push(d as u8),
            None => digit_seq(s.take(i)),
        },
{
    assert(s.take(i + 1).drop_last() =~= s.take(i));
}

pub proof fn lemma_digit_seq_digits(s: Seq<char>)
    ensures
        all_digits(digit_seq(s)),
    decreases s.len(),
{
    if s.len() > 0 {
        lemma_digit_seq_digits(s.drop_last());
    }
}

/// Decimal value of a Latin, Arabic-Indic or Persian digit.
pub fn digit_of(c: char) -> (r: Option<u8>)
    ensures
        r matches Some(d) ==> digit_value(c) == Some(d as int),
        r is None ==> digit_value(c) is None,
{
    let u = c as u32;
    if 0x30 <= u && u <= 0x39 {
        Some((u - 0x30) as u8)
    } else if 0x0660 <= u && u <= 0x0669 {
        Some((u - 0x0660) as u8)
    } else if 0x06F0 <= u && u <= 0x06F9 {
        Some((u - 0x06F0) as u8)
    } else {
        None
    }
}

/// The digit values of `text`.
pub fn digit_values(text: &str) -> (r: Vec<u8>)
    ensures
        r@ == digit_seq(text@),
        all_digits(r@),
{
    let chars = chars_of(text);
    let mut out: Vec<u8> = Vec::new();
    let mut i: usize = 0;
    while i < chars.len()
        invariant
            0 <= i <= chars.len(),
            out@ == digit_seq(chars@.take(i as int)),
        decreases chars.len() - i,
    {
        proof {
            lemma_digit_seq_step(chars@, i as int);
        }
        match digit_of(chars[i]) {
            Some(d) => out.push(d),
            None => {},
        }
        i += 1;
    }
    proof {
        lemma_take_full(chars@);
        lemma_digit_seq_digits(text@);
    }
    out
}

/// The digits of `s` rendered with Latin digits (separators and other
/// characters dropped).
pub fn extract_digits(s: &str) -> (r: String)
    ensures
        r@ == ascii_digits(digit_seq(s@)),
{
    let d = digit_values(s);
    digits_to_string(&d, 0, d.len())
}

/// Latin-digit string of `d[lo..hi]`.
pub fn digits_to_string(d: &Vec<u8>, lo: usize, hi: usize) -> (r: String)
    requires
        lo <= hi <= d.len(),
        all_digits(d@),
    ensures
        r@ == ascii_digits(d@.subrange(lo as int, hi as int)),
{
    let mut out = String::new();
    let mut i = lo;
    while i < hi
        invariant
            lo <= i <= hi <= d.len(),
            all_digits(d@),
            out@ == ascii_digits(d@.subrange(lo as int, i as int)),
        decreases hi - i,
    {
        push_char(&mut out, LATIN_DIGITS[d[i] as usize]);
        assert(ascii_digits(d@.subrange(lo as int, i + 1)) =~= ascii_digits(
            d@.subrange(lo as int, i as int),
        ).push(LATIN_DIGITS[d@[i as int] as int]));
        i += 1;
    }
    out
}

/// Decimal value of `d[lo..hi]`.
pub fn value_of(d: &Vec<u8>, lo: usize, hi: usize) -> (r: u64)
    requires
        lo <= hi <= d.len(),
        hi - lo <= 18,
        all_digits(d@),
    ensures
        r == dec_value(d@.subrange(lo as int, hi as int)),
{
    let mut v: u64 = 0;
    let mut i = lo;
    while i < hi
        invariant
            lo <= i <= hi <= d.len(),
            hi - lo <= 18,
            all_digits(d@),
            v == dec_value(d@.subrange(lo as int, i as int)),
            v < pow10((i - lo) as nat),
        decreases hi - i,
    {
        proof {
            assert(d@.subrange(lo as int, i + 1).drop_last() =~= d@.subrange(lo as int, i as int));
            lemma_pow10_mono((i + 1 - lo) as nat, 18);
            lemma_pow10_18();
        }
        v = v * 10 + d[i] as u64;
        i += 1;
    }
    v
}

pub open spec fn pow10(n: nat) -> int
    decreases n,
{
    if n == 0 {
        1
    } else {
        10 * pow10((n - 1) as nat)
    }
}

/// A digit sequence of length `n` has a value below `10^n`.
pub proof fn lemma_dec_value_bound(d: Seq<u8>)
    requires
        all_digits(d),
    ensures
        0 <= dec_value(d) < pow10(d.len()),
    decreases d.len(),
{
    if d.len() > 0 {
        assert(all_digits(d.drop_last()));
        lemma_dec_value_bound(d.drop_last());
    }
}

pub proof fn lemma_pow10_pos(n: nat)
    ensures
        pow10(n) >= 1,
    decreases n,
{
    if n > 0 {
        lemma_pow10_pos((n - 1) as nat);
    }
}

pub proof fn lemma_pow10_mono(n: nat, m: nat)
    requires
        n <= m,
    ensures
        1 <= pow10(n) <= pow10(m),
    decreases m,
{
    lemma_pow10_pos(n);
    if n < m {
        lemma_pow10_mono(n, (m - 1) as nat);
        lemma_pow10_pos((m - 1) as nat);
    }
}

pub proof fn lemma_pow10_18()
    ensures
        pow10(18) == 1_000_000_000_000_000_000,
{
    reveal_with_fuel(pow10, 19);
}

} // verus!

verus! {

/// The character view of an optional string.
pub open spec fn opt_view(o: Option<String>) -> Option<Seq<char>> {
    match o {
        Some(s) => Some(s@),
        None => None,
    }
}

/// Latin-digit rendering of optional digit values.
pub open spec fn opt_ascii(o: Option<Seq<u8>>) -> Option<Seq<char>> {
    match o {
        Some(d) => Some(ascii_digits(d)),
        None => None,
    }
}

} // verus!
