//! Iranian National ID (کد ملی) validation.
//!
//! Ten digits whose last digit is a checksum of the first nine:
//! `sum = Σ d[i] * (10 - i)` for `i < 9`, `r = sum mod 11`, and the check
//! digit is `r` when `r < 2`, else `11 - r`.  Repunit IDs (`0000000000`,
//! `1111111111`, …) are rejected because they are never issued.

use vstd::prelude::*;
use crate::validators::{all_digits, all_same, ascii_digits, digit_seq, digit_values, digits_to_string};

verus! {

/// `Σ d[i] * (10 - i)` over `i < n`.
pub open spec fn nid_weighted_sum(d: Seq<u8>, n: int) -> int
    decreases n,
{
    if n <= 0 {
        0
    } else {
        nid_weighted_sum(d, n - 1) + d[n - 1] * (10 - (n - 1))
    }
}

/// The modulo-11 check digit of a weighted sum.
pub open spec fn mod11_check(sum: int) -> int {
    let r = sum % 11;
    if r < 2 {
        r
    } else {
        11 - r
    }
}

/// A valid national ID: exactly ten digits, not all equal, last digit the
/// check digit of the first nine.
pub open spec fn spec_validate(s: Seq<char>) -> bool {
    let d = digit_seq(s);
    &&& d.len() == 10
    &&& !all_same(d)
    &&& d[9] == mod11_check(nid_weighted_sum(d, 9))
}

/// Whether every element of `d` equals the first.
pub fn check_all_same(d: &Vec<u8>) -> (r: bool)
    requires
        d.len() > 0,
    ensures
        r == all_same(d@),
{
    let mut i: usize = 1;
    while i < d.len()
        invariant
            1 <= i <= d.len(),
            forall|j: int| 0 <= j < i ==> #[trigger] d@[j] == d@[0],
        decreases d.len() - i,
    {
        if d[i] != d[0] {
            return false;
        }
        i += 1;
    }
    true
}

/// `nid_weighted_sum(d, 9)` for a digit sequence of length ≥ 9.
fn weighted_sum9(d: &Vec<u8>) -> (r: u32)
    requires
        d.len() >= 9,
        all_digits(d@),
    ensures
        r == nid_weighted_sum(d@, 9),
{
    let mut sum: u32 = 0;
    let mut i: usize = 0;
    while i < 9
        invariant
            0 <= i <= 9,
            d.len() >= 9,
            all_digits(d@),
            sum == nid_weighted_sum(d@, i as int),
            sum <= 90 * i,
        decreases 9 - i,
    {
        let x = d[i] as u32;
        let w = 10 - i as u32;
        assert(x <= 9);
        assert(x * w <= 90) by (nonlinear_arith)
            requires
                x <= 9,
                w <= 10,
        ;
        sum = sum + x * w;
        i += 1;
    }
    sum
}

/// Returns `true` if `id` is a structurally valid Iranian national ID.
pub fn validate(id: &str) -> (b: bool)
    ensures
        b == spec_validate(id@),
{
    let d = digit_values(id);
    if d.len() != 10 {
        return false;
    }
    if check_all_same(&d) {
        return false;
    }
    let sum = weighted_sum9(&d);
    let r = sum % 11;
    let expected = if r < 2 {
        r
    } else {
        11 - r
    };
    d[9] as u32 == expected
}

/// The check digit for the first nine digits, when there are at least nine.
pub open spec fn spec_expected_check_digit(s: Seq<char>) -> Option<int> {
    let d = digit_seq(s);
    if d.len() < 9 {
        None
    } else {
        Some(mod11_check(nid_weighted_sum(d, 9)))
    }
}

/// Compute the expected check digit (`0..=9`) for the first nine digits of an
/// ID.  Returns `None` if `id` has fewer than nine digits.
pub fn expected_check_digit(id: &str) -> (r: Option<u32>)
    ensures
        r matches Some(v) ==> spec_expected_check_digit(id@) == Some(v as int),
        r is None ==> spec_expected_check_digit(id@) is None,
{
    let d = digit_values(id);
    if d.len() < 9 {
        return None;
    }
    let sum = weighted_sum9(&d);
    let r = sum % 11;
    Some(
        if r < 2 {
            r
        } else {
            11 - r
        },
    )
}

/// Issuing-office prefix (first three digits) of a national ID, rendered in
/// Latin digits; `None` if `id` has fewer than three digits.
pub fn issuance_prefix(id: &str) -> (r: Option<String>)
    ensures
        r is Some <==> digit_seq(id@).len() >= 3,
        r matches Some(p) ==> p@ == ascii_digits(digit_seq(id@).take(3)),
{
    let d = digit_values(id);
    if d.len() < 3 {
        return None;
    }
    let p = digits_to_string(&d, 0, 3);
    assert(d@.subrange(0, 3) =~= d@.take(3));
    Some(p)
}


proof fn lemma_nid_sum9(d: Seq<u8>)
    requires
        d.len() >= 9,
    ensures
        nid_weighted_sum(d, 9) == 10 * d[0] + 9 * d[1] + 8 * d[2] + 7 * d[3] + 6 * d[4] + 5 * d[5]
            + 4 * d[6] + 3 * d[7] + 2 * d[8],
{
    assert(nid_weighted_sum(d, 1) == nid_weighted_sum(d, 0) + 10 * d[0]) by {
        let x = d[0] as int;
        assert(x * (10 - 0) == 10 * x) by (nonlinear_arith);
    }
    assert(nid_weighted_sum(d, 2) == nid_weighted_sum(d, 1) + 9 * d[1]) by {
        let x = d[1] as int;
        assert(x * (10 - 1) == 9 * x) by (nonlinear_arith);
    }
    assert(nid_weighted_sum(d, 3) == nid_weighted_sum(d, 2) + 8 * d[2]) by {
        let x = d[2] as int;
        assert(x * (10 - 2) == 8 * x) by (nonlinear_arith);
    }
    assert(nid_weighted_sum(d, 4) == nid_weighted_sum(d, 3) + 7 * d[3]) by {
        let x = d[3] as int;
        assert(x * (10 - 3) == 7 * x) by (nonlinear_arith);
    }
    assert(nid_weighted_sum(d, 5) == nid_weighted_sum(d, 4) + 6 * d[4]) by {
        let x = d[4] as int;
        assert(x * (10 - 4) == 6 * x) by (nonlinear_arith);
    }
    assert(nid_weighted_sum(d, 6) == nid_weighted_sum(d, 5) + 5 * d[5]) by {
        let x = d[5] as int;
        assert(x * (10 - 5) == 5 * x) by (nonlinear_arith);
    }
    assert(nid_weighted_sum(d, 7) == nid_weighted_sum(d, 6) + 4 * d[6]) by {
        let x = d[6] as int;
        assert(x * (10 - 6) == 4 * x) by (nonlinear_arith);
    }
    assert(nid_weighted_sum(d, 8) == nid_weighted_sum(d, 7) + 3 * d[7]) by {
        let x = d[7] as int;
        assert(x * (10 - 7) == 3 * x) by (nonlinear_arith);
    }
    assert(nid_weighted_sum(d, 9) == nid_weighted_sum(d, 8) + 2 * d[8]) by {
        let x = d[8] as int;
        assert(x * (10 - 8) == 2 * x) by (nonlinear_arith);
    }
    assert(nid_weighted_sum(d, 9) == 10 * d[0] + 9 * d[1] + 8 * d[2] + 7 * d[3] + 6 * d[4] + 5
        * d[5] + 4 * d[6] + 3 * d[7] + 2 * d[8]);
}

/// The checksum rule written out: an ID is valid exactly when it has ten
/// digits, not all equal, and with
/// `r = (10·d0 + 9·d1 + 8·d2 + 7·d3 + 6·d4 + 5·d5 + 4·d6 + 3·d7 + 2·d8) mod 11`
/// its last digit is `r` when `r` is 0 or 1 and `11 - r` otherwise.
pub proof fn law_national_id_checksum(s: Seq<char>)
    ensures
        spec_validate(s) <==> ({
            let d = digit_seq(s);
            &&& d.len() == 10
            &&& exists|i: int| 0 <= i < 10 && #[trigger] d[i] != d[0]
            &&& ({
                let r = (10 * d[0] + 9 * d[1] + 8 * d[2] + 7 * d[3] + 6 * d[4] + 5 * d[5] + 4 * d[6]
                    + 3 * d[7] + 2 * d[8]) % 11;
                if r < 2 {
                    d[9] == r
                } else {
                    d[9] == 11 - r
                }
            })
        }),
{
    let d = digit_seq(s);
    if d.len() == 10 {
        lemma_nid_sum9(d);
        if !all_same(d) {
            let i = choose|i: int| 0 <= i < d.len() && #[trigger] d[i] != d[0];
            assert(d[i] != d[0]);
        }
    }
}

/// The expected check digit written out: with at least nine digits and
/// `r = (10·d0 + 9·d1 + … + 2·d8) mod 11`, it is `r` when `r` is 0 or 1 and
/// `11 - r` otherwise; a valid ID ends with it.
pub proof fn law_expected_check_digit(s: Seq<char>)
    ensures
        digit_seq(s).len() < 9 ==> spec_expected_check_digit(s) is None,
        digit_seq(s).len() >= 9 ==> spec_expected_check_digit(s) == Some(
            ({
                let d = digit_seq(s);
                let r = (10 * d[0] + 9 * d[1] + 8 * d[2] + 7 * d[3] + 6 * d[4] + 5 * d[5] + 4 * d[6]
                    + 3 * d[7] + 2 * d[8]) % 11;
                if r < 2 {
                    r
                } else {
                    11 - r
                }
            }),
        ),
        spec_validate(s) ==> spec_expected_check_digit(s) == Some(digit_seq(s)[9] as int),
{
    if digit_seq(s).len() >= 9 {
        lemma_nid_sum9(digit_seq(s));
    }
}
} // verus!
