//! Zero Width Non-Joiner (ZWNJ, U+200C) normalisation.
//!
//! ZWNJ glues Persian compound words (می‌روم, کتاب‌ها) but is routinely
//! misplaced.  This pass removes misplaced ZWNJs; it does not insert missing
//! ones (see [`crate::zwnj_insert`]).

use vstd::prelude::*;
use crate::text::{chars_of, cp, is_alphabetic, keep_indices, push_char, unicode_alphabetic, ZWNJ};

verus! {

/// Characters of the primary Arabic block U+0600..=U+06FF.
pub open spec fn spec_is_arabic_block(c: char) -> bool {
    0x0600 <= cp(c) <= 0x06FF
}

pub fn is_arabic_block(c: char) -> (b: bool)
    ensures
        b == spec_is_arabic_block(c),
{
    let u = c as u32;
    0x0600 <= u && u <= 0x06FF
}

/// An alphabetic character of the primary Arabic block: the letters a ZWNJ
/// may join.
pub open spec fn spec_is_arabic_letter(c: char) -> bool {
    spec_is_arabic_block(c) && unicode_alphabetic(c)
}

pub fn is_arabic_letter(c: char) -> (b: bool)
    ensures
        b == spec_is_arabic_letter(c),
{
    is_arabic_block(c) && is_alphabetic(c)
}

/// Index of the first non-ZWNJ character at or after `j` (or `s.len()`).
pub open spec fn next_non_zwnj(s: Seq<char>, j: int) -> int
    decreases s.len() - j,
{
    if j >= s.len() || s[j] != ZWNJ {
        j
    } else {
        next_non_zwnj(s, j + 1)
    }
}

proof fn lemma_next_non_zwnj_bounds(s: Seq<char>, j: int)
    requires
        0 <= j <= s.len(),
    ensures
        j <= next_non_zwnj(s, j) <= s.len(),
        next_non_zwnj(s, j) < s.len() ==> s[next_non_zwnj(s, j)] != ZWNJ,
    decreases s.len() - j,
{
    if j < s.len() && s[j] == ZWNJ {
        lemma_next_non_zwnj_bounds(s, j + 1);
    }
}

/// Character `i` survives: it is not a ZWNJ, or it is the first ZWNJ of its
/// run and the characters on both sides of the run are alphabetic letters of
/// the Arabic block.
pub open spec fn zwnj_kept(s: Seq<char>, i: int) -> bool {
    ||| s[i] != ZWNJ
    ||| {
        &&& i > 0
        &&& s[i - 1] != ZWNJ
        &&& spec_is_arabic_letter(s[i - 1])
        &&& next_non_zwnj(s, i + 1) < s.len()
        &&& spec_is_arabic_letter(s[next_non_zwnj(s, i + 1)])
    }
}

pub open spec fn zwnj_keep(s: Seq<char>) -> spec_fn(int) -> bool {
    |i: int| zwnj_kept(s, i)
}

/// `s` without misplaced ZWNJs.
pub open spec fn spec_normalize_zwnj(s: Seq<char>) -> Seq<char> {
    keep_indices(s, zwnj_keep(s), s.len() as int)
}

/// Remove misplaced ZWNJs, keeping only the first of a run that sits
/// between two Arabic/Persian alphabetic letters.
pub fn normalize_zwnj(text: &str) -> (r: String)
    ensures
        r@ == spec_normalize_zwnj(text@),
{
    let chars = chars_of(text);
    let ghost s = chars@;
    let n = chars.len();
    let mut out = String::new();
    let mut i: usize = 0;
    while i < n
        invariant
            s == chars@,
            n == chars.len(),
            0 <= i <= n,
            out@ == keep_indices(s, zwnj_keep(s), i as int),
        decreases n - i,
    {
        let c = chars[i];
        if c != ZWNJ {
            push_char(&mut out, c);
        } else if i > 0 && chars[i - 1] == ZWNJ {
        } else {
            let prev_ok = i > 0 && is_arabic_letter(chars[i - 1]);
            let mut k = i + 1;
            while k < n && chars[k] == ZWNJ
                invariant
                    s == chars@,
                    n == chars.len(),
                    i + 1 <= k <= n,
                    next_non_zwnj(s, k as int) == next_non_zwnj(s, i + 1),
                decreases n - k,
            {
                k += 1;
            }
            if prev_ok && k < n && is_arabic_letter(chars[k]) {
                push_char(&mut out, c);
            }
        }
        i += 1;
    }
    out
}

proof fn lemma_next_non_zwnj_run(s: Seq<char>, j: int, k: int)
    requires
        0 <= j <= k < next_non_zwnj(s, j),
    ensures
        s[k] == ZWNJ,
    decreases k - j,
{
    if j < k {
        lemma_next_non_zwnj_run(s, j + 1, k);
    }
}

/// The state of the pass after the first `n` characters: every ZWNJ kept so
/// far has an alphabetic Arabic-block letter before it and, unless it is the last one
/// kept, after it; a trailing ZWNJ is followed in the input by a run of
/// ZWNJs that ends at an alphabetic Arabic-block letter.
spec fn zwnj_state_ok(s: Seq<char>, n: int) -> bool {
    let out = keep_indices(s, zwnj_keep(s), n);
    &&& forall|k: int|
        0 <= k < out.len() && #[trigger] out[k] == ZWNJ ==> {
            &&& k >= 1
            &&& out[k - 1] != ZWNJ
            &&& spec_is_arabic_letter(out[k - 1])
            &&& (k + 1 < out.len() ==> out[k + 1] != ZWNJ && spec_is_arabic_letter(out[k + 1]))
        }
    &&& (out.len() > 0 && out.last() == ZWNJ) ==> {
        &&& n >= 1
        &&& s[n - 1] == ZWNJ
        &&& exists|m: int|
            n <= m < s.len() && s[m] != ZWNJ && spec_is_arabic_letter(#[trigger] s[m]) && forall|j: int|
                n <= j < m ==> #[trigger] s[j] == ZWNJ
    }
    &&& (n >= 1 && s[n - 1] != ZWNJ) ==> out.len() > 0 && out.last() == s[n - 1]
}

proof fn lemma_zwnj_state(s: Seq<char>, n: int)
    requires
        0 <= n <= s.len(),
    ensures
        zwnj_state_ok(s, n),
    decreases n,
{
    if n > 0 {
        lemma_zwnj_state(s, n - 1);
        let keep = zwnj_keep(s);
        let prev = keep_indices(s, keep, n - 1);
        let out = keep_indices(s, keep, n);
        let i = n - 1;
        let pending = prev.len() > 0 && prev.last() == ZWNJ;
        if s[i] != ZWNJ {
            assert(out == prev.push(s[i]));
            if pending {
                let m = choose|m: int|
                    i <= m < s.len() && s[m] != ZWNJ && spec_is_arabic_letter(#[trigger] s[m])
                        && forall|j: int| i <= j < m ==> #[trigger] s[j] == ZWNJ;
                assert(m == i);
            }
            assert forall|k: int| 0 <= k < out.len() && #[trigger] out[k] == ZWNJ implies {
                &&& k >= 1
                &&& out[k - 1] != ZWNJ
                &&& spec_is_arabic_letter(out[k - 1])
                &&& (k + 1 < out.len() ==> out[k + 1] != ZWNJ && spec_is_arabic_letter(out[k + 1]))
            } by {
                assert(k < prev.len());
                assert(out[k] == prev[k]);
                if k + 1 < prev.len() {
                    assert(out[k + 1] == prev[k + 1]);
                }
            }
        } else if zwnj_kept(s, i) {
            assert(out == prev.push(s[i]));
            lemma_next_non_zwnj_bounds(s, i + 1);
            let m = next_non_zwnj(s, i + 1);
            assert forall|j: int| n <= j < m implies #[trigger] s[j] == ZWNJ by {
                lemma_next_non_zwnj_run(s, i + 1, j);
            }
            assert(s[m] != ZWNJ && spec_is_arabic_letter(s[m]));
            assert forall|k: int| 0 <= k < out.len() && #[trigger] out[k] == ZWNJ implies {
                &&& k >= 1
                &&& out[k - 1] != ZWNJ
                &&& spec_is_arabic_letter(out[k - 1])
                &&& (k + 1 < out.len() ==> out[k + 1] != ZWNJ && spec_is_arabic_letter(out[k + 1]))
            } by {
                if k < prev.len() {
                    assert(out[k] == prev[k]);
                    if k + 1 < prev.len() {
                        assert(out[k + 1] == prev[k + 1]);
                    } else if k + 1 < out.len() {
                        assert(out[k + 1] == ZWNJ);
                        assert(prev.last() == ZWNJ);
                        assert(false);
                    }
                } else {
                    assert(k == prev.len());
                    assert(out[k - 1] == prev.last());
                }
            }
        } else {
            assert(out == prev);
            if pending {
                let m0 = choose|m: int|
                    i <= m < s.len() && s[m] != ZWNJ && spec_is_arabic_letter(#[trigger] s[m])
                        && forall|j: int| i <= j < m ==> #[trigger] s[j] == ZWNJ;
                assert(m0 > i);
                assert(n <= m0 < s.len() && s[m0] != ZWNJ && spec_is_arabic_letter(s[m0]));
                assert forall|j: int| n <= j < m0 implies #[trigger] s[j] == ZWNJ by {
                    assert(i <= j < m0);
                }
            }
        }
    }
}

/// After the pass every ZWNJ sits between two alphabetic Arabic-block letters: none
/// starts or ends the text, and no two are adjacent.
pub proof fn law_zwnj_placement(s: Seq<char>)
    ensures
        forall|k: int|
            0 <= k < spec_normalize_zwnj(s).len() && #[trigger] spec_normalize_zwnj(s)[k] == ZWNJ ==> {
                &&& 0 < k < spec_normalize_zwnj(s).len() - 1
                &&& spec_normalize_zwnj(s)[k - 1] != ZWNJ
                &&& spec_is_arabic_letter(spec_normalize_zwnj(s)[k - 1])
                &&& spec_normalize_zwnj(s)[k + 1] != ZWNJ
                &&& spec_is_arabic_letter(spec_normalize_zwnj(s)[k + 1])
            },
{
    lemma_zwnj_state(s, s.len() as int);
    let out = spec_normalize_zwnj(s);
    assert forall|k: int| 0 <= k < out.len() && #[trigger] out[k] == ZWNJ implies k < out.len() - 1 by {
        if k == out.len() - 1 {
            assert(out.last() == ZWNJ);
        }
    }
}


/// Every character but the ZWNJ.
pub open spec fn not_zwnj() -> spec_fn(char) -> bool {
    |c: char| c != ZWNJ
}

proof fn lemma_zwnj_filter(s: Seq<char>, n: int)
    requires
        0 <= n <= s.len(),
    ensures
        keep_indices(s, zwnj_keep(s), n).filter(not_zwnj()) == s.take(n).filter(not_zwnj()),
    decreases n,
{
    reveal(Seq::filter);
    if n == 0 {
        assert(s.take(0) =~= Seq::<char>::empty());
    } else {
        lemma_zwnj_filter(s, n - 1);
        let prev = keep_indices(s, zwnj_keep(s), n - 1);
        assert(s.take(n).drop_last() =~= s.take(n - 1));
        assert(s.take(n).last() == s[n - 1]);
        if zwnj_kept(s, n - 1) {
            assert(prev.push(s[n - 1]).drop_last() =~= prev);
        }
    }
}

/// The pass removes ZWNJs and nothing else: both texts read the same once
/// their ZWNJs are dropped.
pub proof fn law_zwnj_only_removes_zwnj(s: Seq<char>)
    ensures
        spec_normalize_zwnj(s).filter(not_zwnj()) == s.filter(not_zwnj()),
{
    lemma_zwnj_filter(s, s.len() as int);
    assert(s.take(s.len() as int) =~= s);
}
} // verus!
