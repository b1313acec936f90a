//! Iranian bank card number validation and issuer lookup.
//!
//! Card numbers are 16 digits validated with the Luhn algorithm; the first
//! six digits (BIN) name the issuing bank.

use vstd::prelude::*;
use crate::validators::{all_digits, dec_value, digit_seq, digit_values, lemma_dec_value_bound, pow10, value_of};
use crate::validators::banks::{find_code, first_index, CARD_BINS, CARD_EN, CARD_FA};

verus! {

/// Luhn contribution of digit `k` (counted from the left): digits at odd
/// positions counted from the right are doubled, less 9 when above 9.
pub open spec fn luhn_term(d: Seq<u8>, k: int) -> int {
    let i = d.len() - 1 - k;
    if i % 2 == 1 {
        let dd = 2 * d[k];
        if dd > 9 {
            dd - 9
        } else {
            dd
        }
    } else {
        d[k] as int
    }
}

/// `Σ luhn_term(d, k)` over `k < n`.
pub open spec fn luhn_sum(d: Seq<u8>, n: int) -> int
    decreases n,
{
    if n <= 0 {
        0
    } else {
        luhn_sum(d, n - 1) + luhn_term(d, n - 1)
    }
}

/// The Luhn checksum of `d` is a multiple of 10.
pub open spec fn luhn_ok(d: Seq<u8>) -> bool {
    luhn_sum(d, d.len() as int) % 10 == 0
}

/// A valid card: sixteen digits passing the Luhn check.
pub open spec fn spec_validate(s: Seq<char>) -> bool {
    let d = digit_seq(s);
    d.len() == 16 && luhn_ok(d)
}

fn luhn_check(d: &Vec<u8>) -> (r: bool)
    requires
        d.len() == 16,
        all_digits(d@),
    ensures
        r == luhn_ok(d@),
{
    let mut sum: u32 = 0;
    let mut k: usize = 0;
    while k < 16
        invariant
            0 <= k <= 16,
            d.len() == 16,
            all_digits(d@),
            sum == luhn_sum(d@, k as int),
            sum <= 18 * k,
        decreases 16 - k,
    {
        let i = 15 - k;
        let x = d[k] as u32;
        if i % 2 == 1 {
            let dd = x * 2;
            sum = sum + if dd > 9 {
                dd - 9
            } else {
                dd
            };
        } else {
            sum = sum + x;
        }
        k += 1;
    }
    sum % 10 == 0
}

/// Returns `true` if `card` is a 16-digit card number whose Luhn checksum
/// verifies.
pub fn validate(card: &str) -> (b: bool)
    ensures
        b == spec_validate(card@),
{
    let d = digit_values(card);
    if d.len() != 16 {
        return false;
    }
    luhn_check(&d)
}

/// Index in the BIN table of the issuer of a valid card.
pub open spec fn spec_bank_index(s: Seq<char>) -> Option<int> {
    let d = digit_seq(s);
    if spec_validate(s) {
        first_index(CARD_BINS@, dec_value(d.take(6)) as u32, 0)
    } else {
        None
    }
}

fn bank_index(card: &str) -> (r: Option<usize>)
    ensures
        r matches Some(i) ==> spec_bank_index(card@) == Some(i as int) && i < 37,
        r is None ==> spec_bank_index(card@) is None,
{
    let d = digit_values(card);
    if d.len() != 16 || !luhn_check(&d) {
        return None;
    }
    let bin = value_of(&d, 0, 6);
    assert(d@.subrange(0, 6) =~= d@.take(6));
    proof {
        lemma_dec_value_bound(d@.take(6));
        reveal_with_fuel(pow10, 7);
    }
    find_code(&CARD_BINS, bin as u32)
}

/// English name of the issuing bank, `None` for an invalid card or an
/// unknown BIN.
pub fn bank(card: &str) -> (r: Option<&'static str>)
    ensures
        r == (match spec_bank_index(card@) {
            Some(i) => Some(CARD_EN[i]),
            None => None,
        }),
{
    match bank_index(card) {
        Some(i) => Some(CARD_EN[i]),
        None => None,
    }
}

/// Persian name of the issuing bank.
pub fn bank_persian(card: &str) -> (r: Option<&'static str>)
    ensures
        r == (match spec_bank_index(card@) {
            Some(i) => Some(CARD_FA[i]),
            None => None,
        }),
{
    match bank_index(card) {
        Some(i) => Some(CARD_FA[i]),
        None => None,
    }
}


/// A doubled Luhn digit: twice the digit, less 9 when above 9.
pub open spec fn luhn_doubled(x: int) -> int {
    if 2 * x > 9 {
        2 * x - 9
    } else {
        2 * x
    }
}

/// The Luhn rule written out for sixteen digits: a card is valid exactly
/// when it has sixteen digits and, doubling every second digit from the
/// left starting with the first, the digit sum is a multiple of ten.
pub proof fn law_card_luhn(s: Seq<char>)
    ensures
        spec_validate(s) <==> ({
            let d = digit_seq(s);
            &&& d.len() == 16
            &&& (luhn_doubled(d[0] as int) + d[1] + luhn_doubled(d[2] as int) + d[3] + luhn_doubled(
                d[4] as int,
            ) + d[5] + luhn_doubled(d[6] as int) + d[7] + luhn_doubled(d[8] as int) + d[9]
                + luhn_doubled(d[10] as int) + d[11] + luhn_doubled(d[12] as int) + d[13]
                + luhn_doubled(d[14] as int) + d[15]) % 10 == 0
        }),
{
    reveal_with_fuel(luhn_sum, 17);
}
} // verus!
