//! Integer-to-Persian-words conversion.

use vstd::prelude::*;
use crate::text::{join_sep, join_strings, lemma_views_push, push_char, views};

verus! {

pub const ONES: [&'static str; 20] = [
    "صفر",
    "یک",
    "دو",
    "سه",
    "چهار",
    "پنج",
    "شش",
    "هفت",
    "هشت",
    "نه",
    "ده",
    "یازده",
    "دوازده",
    "سیزده",
    "چهارده",
    "پانزده",
    "شانزده",
    "هفده",
    "هجده",
    "نوزده",
];

pub const TENS: [&'static str; 10] = ["", "", "بیست", "سی", "چهل", "پنجاه", "شصت", "هفتاد", "هشتاد", "نود"];

pub const HUNDREDS: [&'static str; 10] = [
    "",
    "صد",
    "دویست",
    "سیصد",
    "چهارصد",
    "پانصد",
    "ششصد",
    "هفتصد",
    "هشتصد",
    "نهصد",
];

/// Scale words for thousand-groups; index 0 has none.
pub const SCALES: [&'static str; 7] = ["", "هزار", "میلیون", "میلیارد", "تریلیون", "کوادریلیون", "کوینتیلیون"];

/// The conjunction placed between number components.
pub const AND: &'static str = " و ";

/// The word that marks a negative number.
pub const MINUS: &'static str = "منفی";

/// The ordinal suffix.
pub const ORDINAL_SUFFIX: char = 'م';

/// The words of a number below 1000, in reading order.
pub open spec fn three_words(n: int) -> Seq<Seq<char>> {
    let h = n / 100;
    let rem = n % 100;
    let hs: Seq<Seq<char>> = if h > 0 {
        seq![HUNDREDS[h]@]
    } else {
        seq![]
    };
    if rem == 0 {
        hs
    } else if rem < 20 {
        hs.push(ONES[rem]@)
    } else if rem % 10 == 0 {
        hs.push(TENS[rem / 10]@)
    } else {
        hs.push(TENS[rem / 10]@).push(ONES[rem % 10]@)
    }
}

/// The words of a number below 1000 joined with the conjunction.
pub open spec fn three_text(n: int) -> Seq<char> {
    join_sep(three_words(n), AND@)
}

/// The text of one non-zero thousand-group at position `idx`.
pub open spec fn group_part(g: int, idx: int) -> Seq<char> {
    if idx == 0 {
        three_text(g)
    } else {
        three_text(g) + seq![' '] + SCALES[idx]@
    }
}

/// Base-1000 digits, least significant first.
pub open spec fn base1000(a: nat) -> Seq<int>
    decreases a,
{
    if a == 0 {
        seq![]
    } else {
        seq![(a % 1000) as int] + base1000(a / 1000)
    }
}

/// The parts for groups `k..`, most significant first, zero groups skipped.
pub open spec fn parts_from(gs: Seq<int>, k: int) -> Seq<Seq<char>>
    decreases gs.len() - k,
{
    if k < 0 || k >= gs.len() {
        seq![]
    } else if gs[k] == 0 {
        parts_from(gs, k + 1)
    } else {
        parts_from(gs, k + 1).push(group_part(gs[k], k))
    }
}

/// Magnitude of an `i64`.
pub open spec fn abs_i64(n: i64) -> nat {
    if n < 0 {
        (-(n as int)) as nat
    } else {
        n as nat
    }
}

/// The words of a non-zero magnitude.
pub open spec fn magnitude_text(a: nat) -> Seq<char> {
    join_sep(parts_from(base1000(a), 0), AND@)
}

/// The Persian words for `n`.
pub open spec fn spec_to_words(n: i64) -> Seq<char> {
    if n == 0 {
        ONES[0]@
    } else if n < 0 {
        MINUS@ + seq![' '] + magnitude_text(abs_i64(n))
    } else {
        magnitude_text(abs_i64(n))
    }
}

/// The Persian ordinal word for `n`.
pub open spec fn spec_ordinal(n: i64) -> Seq<char> {
    if n == 1 {
        "اول"@
    } else if n == 3 {
        "سوم"@
    } else if n == 30 {
        "سی‌ام"@
    } else {
        spec_to_words(n).push(ORDINAL_SUFFIX)
    }
}

pub open spec fn pow1000(k: nat) -> int
    decreases k,
{
    if k == 0 {
        1
    } else {
        1000 * pow1000((k - 1) as nat)
    }
}

fn three_digit_words(n: u32) -> (r: String)
    requires
        n < 1000,
    ensures
        r@ == three_text(n as int),
{
    let h = n / 100;
    let rem = n % 100;
    let mut words: Vec<String> = Vec::new();
    if h > 0 {
        words.push(HUNDREDS[h as usize].to_owned());
    }
    if rem == 0 {
    } else if rem < 20 {
        words.push(ONES[rem as usize].to_owned());
    } else if rem % 10 == 0 {
        words.push(TENS[(rem / 10) as usize].to_owned());
    } else {
        words.push(TENS[(rem / 10) as usize].to_owned());
        words.push(ONES[(rem % 10) as usize].to_owned());
    }
    assert(views(words@) =~= three_words(n as int));
    join_strings(&words, AND)
}

/// The thousand-groups of `a` hold at most seven entries.
proof fn lemma_pow1000_7()
    ensures
        pow1000(7) == 1_000_000_000_000_000_000_000,
{
    reveal_with_fuel(pow1000, 8);
}

/// Base-1000 digits of a `u64`, least significant first.
fn groups_of(abs: u64) -> (gs: Vec<u64>)
    ensures
        gs@.map_values(|g: u64| g as int) == base1000(abs as nat),
        gs.len() <= 7,
        forall|i: int| 0 <= i < gs.len() ==> gs@[i] < 1000,
{
    let mut groups: Vec<u64> = Vec::new();
    let mut a = abs;
    while a > 0
        invariant
            groups@.map_values(|g: u64| g as int) + base1000(a as nat) == base1000(abs as nat),
            groups.len() <= 7,
            a as int * pow1000(groups.len() as nat) <= abs,
            groups.len() == 7 ==> a == 0,
            forall|i: int| 0 <= i < groups.len() ==> groups@[i] < 1000,
        decreases a,
    {
        let ghost old_groups = groups@;
        let ghost k = groups.len() as nat;
        groups.push(a % 1000);
        assert(groups@.map_values(|g: u64| g as int) =~= old_groups.map_values(|g: u64| g as int)
            + seq![(a % 1000) as int]);
        assert(base1000(a as nat) == seq![(a % 1000) as int] + base1000((a / 1000) as nat));
        assert(groups@.map_values(|g: u64| g as int) + base1000((a / 1000) as nat)
            =~= old_groups.map_values(|g: u64| g as int) + base1000(a as nat));
        proof {
            let p = pow1000(k);
            assert(p >= 1) by {
                lemma_pow1000_pos(k);
            }
            assert((a / 1000) as int * (1000 * p) <= a as int * p) by (nonlinear_arith)
                requires
                    p >= 1,
            ;
            assert(pow1000(k + 1) == 1000 * p);
            if k + 1 == 7 {
                lemma_pow1000_7();
                assert((a / 1000) == 0) by (nonlinear_arith)
                    requires
                        (a / 1000) as int * 1_000_000_000_000_000_000_000int <= abs,
                        abs <= u64::MAX,
                ;
            }
        }
        a = a / 1000;
    }
    assert(groups@.map_values(|g: u64| g as int) + base1000(0) =~= groups@.map_values(
        |g: u64| g as int,
    ));
    groups
}

proof fn lemma_pow1000_pos(k: nat)
    ensures
        pow1000(k) >= 1,
    decreases k,
{
    if k > 0 {
        lemma_pow1000_pos((k - 1) as nat);
    }
}

/// Words for the non-zero magnitude `abs`.
fn magnitude_words(abs: u64) -> (s: String)
    ensures
        s@ == magnitude_text(abs as nat),
{
    let groups = groups_of(abs);
    let ghost gv = groups@.map_values(|g: u64| g as int);
    let mut parts: Vec<String> = Vec::new();
    let mut k = groups.len();
    while k > 0
        invariant
            0 <= k <= groups.len() <= 7,
            gv == groups@.map_values(|g: u64| g as int),
            forall|i: int| 0 <= i < groups.len() ==> groups@[i] < 1000,
            views(parts@) == parts_from(gv, k as int),
        decreases k,
    {
        k -= 1;
        let g = groups[k];
        if g != 0 {
            let mut p = three_digit_words(g as u32);
            if k > 0 {
                push_char(&mut p, ' ');
                p.append(SCALES[k]);
            }
            assert(gv[k as int] == g as int);
            assert(p@ == group_part(gv[k as int], k as int));
            let ghost old_parts = parts@;
            parts.push(p);
            proof {
                lemma_views_push(old_parts, p);
            }
        }
    }
    join_strings(&parts, AND)
}

/// Magnitude of an `i64` as a `u64`.
pub(crate) fn unsigned_abs(n: i64) -> (a: u64)
    ensures
        a == abs_i64(n),
{
    if n >= 0 {
        n as u64
    } else if n == i64::MIN {
        9_223_372_036_854_775_808u64
    } else {
        (-n) as u64
    }
}

/// Convert an integer to its Persian-word form.  Negative numbers are
/// prefixed with `"منفی "`; components are joined with `" و "`.
pub fn to_words(n: i64) -> (s: String)
    ensures
        s@ == spec_to_words(n),
{
    if n == 0 {
        return ONES[0].to_owned();
    }
    let joined = magnitude_words(unsigned_abs(n));
    if n < 0 {
        let mut out = MINUS.to_owned();
        push_char(&mut out, ' ');
        out.append(joined.as_str());
        out
    } else {
        joined
    }
}

/// Persian ordinal word for `n`: the cardinal with `"م"` appended, except
/// `1 → "اول"`, `3 → "سوم"` and `30 → "سی‌ام"`.
pub fn ordinal(n: i64) -> (s: String)
    ensures
        s@ == spec_ordinal(n),
{
    if n == 1 {
        "اول".to_owned()
    } else if n == 3 {
        "سوم".to_owned()
    } else if n == 30 {
        "سی‌ام".to_owned()
    } else {
        let mut w = to_words(n);
        push_char(&mut w, ORDINAL_SUFFIX);
        w
    }
}

} // verus!
