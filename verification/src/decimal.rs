//! Decimal rendering of unsigned integers with Latin digits.

use vstd::prelude::*;
use crate::normalizer::digits::LATIN_DIGITS;
use crate::text::push_char;

verus! {

/// The Latin digit for a value in `0..=9`.
pub open spec fn digit_char(d: int) -> char {
    LATIN_DIGITS[d]
}

/// `n` written in decimal, most significant digit first, no leading zeros
/// (zero is `"0"`).
pub open spec fn spec_decimal(n: nat) -> Seq<char>
    decreases n,
{
    if n < 10 {
        seq![digit_char(n as int)]
    } else {
        spec_decimal(n / 10).push(digit_char((n % 10) as int))
    }
}

/// `n` copies of `'0'`.
pub open spec fn zeros(n: nat) -> Seq<char> {
    Seq::new(n, |i: int| '0')
}

/// `n` in decimal, left-padded with zeros to at least `width` characters.
pub open spec fn spec_padded(n: nat, width: nat) -> Seq<char> {
    let d = spec_decimal(n);
    if d.len() < width {
        zeros((width - d.len()) as nat) + d
    } else {
        d
    }
}

/// The decimal form is never empty.
pub proof fn lemma_decimal_len(n: nat)
    ensures
        spec_decimal(n).len() >= 1,
        n < 10 ==> spec_decimal(n).len() == 1,
        10 <= n < 100 ==> spec_decimal(n).len() == 2,
        100 <= n < 1000 ==> spec_decimal(n).len() == 3,
    decreases n,
{
    if n >= 10 {
        lemma_decimal_len(n / 10);
    }
}

/// Appends the decimal form of `n`.
pub fn push_decimal(out: &mut String, n: u64)
    ensures
        final(out)@ == old(out)@ + spec_decimal(n as nat),
    decreases n,
{
    if n >= 10 {
        push_decimal(out, n / 10);
    }
    push_char(out, LATIN_DIGITS[(n % 10) as usize]);
    assert(final(out)@ =~= old(out)@ + spec_decimal(n as nat)) by {
        if n >= 10 {
            assert(old(out)@ + spec_decimal(n as nat) =~= (old(out)@ + spec_decimal(
                (n / 10) as nat,
            )).push(digit_char((n % 10) as int)));
        }
    }
}

/// Number of decimal digits of `n`.
fn decimal_width(n: u64) -> (w: usize)
    ensures
        w == spec_decimal(n as nat).len(),
    decreases n,
{
    if n >= 10 {
        let w = decimal_width(n / 10);
        proof {
            lemma_decimal_len((n / 10) as nat);
        }
        assert(w <= 20) by {
            lemma_decimal_len_bound((n / 10) as nat);
        }
        w + 1
    } else {
        1
    }
}

/// A number below `2^64` has at most twenty digits.
proof fn lemma_decimal_len_bound(n: nat)
    requires
        n <= u64::MAX,
    ensures
        spec_decimal(n).len() <= 20,
{
    lemma_decimal_len_le(n, 0xFFFF_FFFF_FFFF_FFFF);
    reveal_with_fuel(spec_decimal, 21);
    assert(spec_decimal(0xFFFF_FFFF_FFFF_FFFF).len() == 20);
}

/// More digits only for larger numbers.
proof fn lemma_decimal_len_le(a: nat, b: nat)
    requires
        a <= b,
    ensures
        spec_decimal(a).len() <= spec_decimal(b).len(),
    decreases b,
{
    if a >= 10 {
        lemma_decimal_len_le(a / 10, b / 10);
    }
    lemma_decimal_len(b);
}

/// Appends `n` in decimal, left-padded with zeros to `width` characters.
pub fn push_padded(out: &mut String, n: u64, width: usize)
    ensures
        final(out)@ == old(out)@ + spec_padded(n as nat, width as nat),
{
    let w = decimal_width(n);
    let ghost start = out@;
    if w < width {
        let mut k: usize = 0;
        while k < width - w
            invariant
                w < width,
                0 <= k <= width - w,
                out@ == start + zeros(k as nat),
            decreases width - w - k,
        {
            push_char(out, '0');
            assert(start + zeros((k + 1) as nat) =~= (start + zeros(k as nat)).push('0'));
            k += 1;
        }
    }
    push_decimal(out, n);
    assert(out@ =~= start + spec_padded(n as nat, width as nat));
}

/// `n` in decimal as a new string.
pub fn decimal_string(n: u64) -> (s: String)
    ensures
        s@ == spec_decimal(n as nat),
{
    let mut s = String::new();
    push_decimal(&mut s, n);
    assert(s@ =~= spec_decimal(n as nat));
    s
}

} // verus!
