//! Iranian postal code (کد پستی) validation.
//!
//! Exactly ten digits; the first must not be `0` (it encodes the province)
//! and no digit may repeat four or more times in a row.

use vstd::prelude::*;
use crate::validators::{digit_seq, digit_values};

verus! {

/// Digits `i-3..=i` of `d` are all equal.
pub open spec fn run_of_four_at(d: Seq<u8>, i: int) -> bool {
    i >= 3 && d[i] == d[i - 1] && d[i - 1] == d[i - 2] && d[i - 2] == d[i - 3]
}

/// A valid postal code.
pub open spec fn spec_validate(s: Seq<char>) -> bool {
    let d = digit_seq(s);
    &&& d.len() == 10
    &&& d[0] != 0
    &&& forall|i: int| 0 <= i < 10 ==> !run_of_four_at(d, i)
}

/// Returns `true` if `code` is a structurally valid Iranian postal code.
pub fn validate(code: &str) -> (b: bool)
    ensures
        b == spec_validate(code@),
{
    let d = digit_values(code);
    if d.len() != 10 {
        return false;
    }
    if d[0] == 0 {
        return false;
    }
    let mut run: u32 = 1;
    let mut i: usize = 1;
    while i < d.len()
        invariant
            d@ == digit_seq(code@),
            d.len() == 10,
            1 <= i <= 10,
            1 <= run <= 3,
            run >= 2 ==> i >= 2 && d@[i - 1] == d@[i - 2],
            run >= 3 ==> i >= 3 && d@[i - 2] == d@[i - 3],
            run == 1 ==> (i < 2 || d@[i - 1] != d@[i - 2]),
            run == 2 ==> (i < 3 || d@[i - 2] != d@[i - 3]),
            forall|j: int| 0 <= j < i ==> !run_of_four_at(d@, j),
        decreases d.len() - i,
    {
        if d[i] == d[i - 1] {
            run += 1;
            if run >= 4 {
                assert(run_of_four_at(d@, i as int));
                assert(!spec_validate(code@));
                return false;
            }
        } else {
            run = 1;
        }
        i += 1;
    }
    true
}

} // verus!
