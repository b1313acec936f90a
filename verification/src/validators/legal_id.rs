//! Iranian legal/company national ID (شناسه ملی) validation.
//!
//! Eleven digits: with `decimal = d[9] + 2` and weights
//! `[29, 27, 23, 19, 17, 29, 27, 23, 19, 17]`,
//! `sum = Σ (d[i] + decimal) * w[i]` over `i < 10`, `r = sum mod 11`, and the
//! last digit must be `r` when `r < 2`, else `11 - r`.  Repunits are rejected.

use vstd::prelude::*;
use crate::validators::{all_digits, all_same, digit_seq, digit_values};
use crate::validators::national_id::{check_all_same, mod11_check};

verus! {

pub const WEIGHTS: [u32; 10] = [29, 27, 23, 19, 17, 29, 27, 23, 19, 17];

/// `Σ (d[i] + decimal) * WEIGHTS[i]` over `i < n`.
pub open spec fn legal_weighted_sum(d: Seq<u8>, decimal: int, n: int) -> int
    decreases n,
{
    if n <= 0 {
        0
    } else {
        legal_weighted_sum(d, decimal, n - 1) + (d[n - 1] + decimal) * WEIGHTS[n - 1]
    }
}

/// A valid legal ID: exactly eleven digits, not all equal, last digit the
/// check digit of the weighted sum.
pub open spec fn spec_validate(s: Seq<char>) -> bool {
    let d = digit_seq(s);
    &&& d.len() == 11
    &&& !all_same(d)
    &&& d[10] == mod11_check(legal_weighted_sum(d, d[9] + 2, 10))
}

/// Returns `true` if `id` is a structurally valid Iranian legal ID.
pub fn validate(id: &str) -> (b: bool)
    ensures
        b == spec_validate(id@),
{
    let d = digit_values(id);
    if d.len() != 11 {
        return false;
    }
    if check_all_same(&d) {
        return false;
    }
    let decimal = d[9] as u32 + 2;
    let mut sum: u32 = 0;
    let mut i: usize = 0;
    while i < 10
        invariant
            0 <= i <= 10,
            d.len() == 11,
            all_digits(d@),
            decimal == d@[9] + 2,
            sum == legal_weighted_sum(d@, decimal as int, i as int),
            sum <= 580 * i,
        decreases 10 - i,
    {
        let w = WEIGHTS[i];
        assert(d@[i as int] <= 9 && d@[9] <= 9);
        assert(w <= 29);
        let x = d[i] as u32 + decimal;
        assert(x * w <= 580) by (nonlinear_arith)
            requires
                x <= 20,
                w <= 29,
        ;
        sum = sum + x * w;
        i += 1;
    }
    let r = sum % 11;
    let expected = if r < 2 {
        r
    } else {
        11 - r
    };
    d[10] as u32 == expected
}

} // verus!
