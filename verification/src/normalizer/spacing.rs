//! Whitespace normalisation and emphatic-repetition reduction.

use vstd::prelude::*;
use crate::text::{chars_of, cp, keep_indices, lemma_take_full, push_char, push_range};

verus! {

/// Space, tab, NO-BREAK SPACE, ZERO WIDTH SPACE, BOM and IDEOGRAPHIC SPACE.
pub open spec fn spec_is_collapsible_space(c: char) -> bool {
    c == ' ' || c == '\t' || cp(c) == 0x00A0 || cp(c) == 0x200B || cp(c) == 0xFEFF || cp(c)
        == 0x3000
}

pub fn is_collapsible_space(c: char) -> (b: bool)
    ensures
        b == spec_is_collapsible_space(c),
{
    let u = c as u32;
    c == ' ' || c == '\t' || u == 0x00A0 || u == 0x200B || u == 0xFEFF || u == 0x3000
}

/// Every maximal run of collapsible spaces replaced by one ASCII space.
pub open spec fn collapse_spaces(s: Seq<char>) -> Seq<char>
    decreases s.len(),
{
    if s.len() == 0 {
        seq![]
    } else if !spec_is_collapsible_space(s.last()) {
        collapse_spaces(s.drop_last()).push(s.last())
    } else if s.len() >= 2 && spec_is_collapsible_space(s[s.len() - 2]) {
        collapse_spaces(s.drop_last())
    } else {
        collapse_spaces(s.drop_last()).push(' ')
    }
}

/// Index of the first character of `s` at or after `from` that is not `' '`.
pub open spec fn skip_spaces(s: Seq<char>, from: int) -> int
    decreases s.len() - from,
{
    if from >= s.len() || s[from] != ' ' {
        from
    } else {
        skip_spaces(s, from + 1)
    }
}

/// One past the last character before `to` (and at or after `lo`) that is not `' '`.
pub open spec fn skip_spaces_back(s: Seq<char>, lo: int, to: int) -> int
    decreases to - lo,
{
    if to <= lo || s[to - 1] != ' ' {
        to
    } else {
        skip_spaces_back(s, lo, to - 1)
    }
}

/// `s` with leading and trailing ASCII spaces removed (`str::trim_matches(' ')`).
pub open spec fn trim_spaces(s: Seq<char>) -> Seq<char> {
    let lo = skip_spaces(s, 0);
    s.subrange(lo, skip_spaces_back(s, lo, s.len() as int))
}

/// Collapse whitespace runs to one space, then strip edge spaces.
pub open spec fn spec_normalize_spaces(s: Seq<char>) -> Seq<char> {
    trim_spaces(collapse_spaces(s))
}

proof fn lemma_collapse_step(s: Seq<char>, i: int)
    requires
        0 <= i < s.len(),
    ensures
        collapse_spaces(s.take(i + 1)) == if !spec_is_collapsible_space(s[i]) {
            collapse_spaces(s.take(i)).push(s[i])
        } else if i >= 1 && spec_is_collapsible_space(s[i - 1]) {
            collapse_spaces(s.take(i))
        } else {
            collapse_spaces(s.take(i)).push(' ')
        },
{
    assert(s.take(i + 1).drop_last() =~= s.take(i));
}

/// Collapse runs of whitespace (space, tab, NBSP, ZWSP, BOM, ideographic
/// space) to a single ASCII space, and strip leading/trailing spaces.
pub fn normalize_spaces(text: &str) -> (r: String)
    ensures
        r@ == spec_normalize_spaces(text@),
{
    let chars = chars_of(text);
    let mut col: Vec<char> = Vec::new();
    let mut in_space = false;
    let mut i: usize = 0;
    while i < chars.len()
        invariant
            0 <= i <= chars.len(),
            col@ == collapse_spaces(chars@.take(i as int)),
            in_space == (i >= 1 && spec_is_collapsible_space(chars@[i - 1])),
        decreases chars.len() - i,
    {
        proof {
            lemma_collapse_step(chars@, i as int);
        }
        let c = chars[i];
        if is_collapsible_space(c) {
            if !in_space {
                col.push(' ');
            }
            in_space = true;
        } else {
            col.push(c);
            in_space = false;
        }
        i += 1;
    }
    proof {
        lemma_take_full(chars@);
    }
    let mut lo: usize = 0;
    while lo < col.len() && col[lo] == ' '
        invariant
            0 <= lo <= col.len(),
            skip_spaces(col@, lo as int) == skip_spaces(col@, 0),
        decreases col.len() - lo,
    {
        lo += 1;
    }
    let mut hi: usize = col.len();
    while hi > lo && col[hi - 1] == ' '
        invariant
            lo <= hi <= col.len(),
            lo == skip_spaces(col@, 0),
            skip_spaces_back(col@, lo as int, hi as int) == skip_spaces_back(
                col@,
                lo as int,
                col.len() as int,
            ),
        decreases hi - lo,
    {
        hi -= 1;
    }
    let mut out = String::new();
    push_range(&mut out, &col, lo, hi);
    assert(Seq::<char>::empty() + col@.subrange(lo as int, hi as int) =~= col@.subrange(
        lo as int,
        hi as int,
    ));
    out
}

proof fn lemma_collapse_shape(s: Seq<char>)
    ensures
        forall|k: int|
            0 <= k < collapse_spaces(s).len() && spec_is_collapsible_space(
                #[trigger] collapse_spaces(s)[k],
            ) ==> collapse_spaces(s)[k] == ' ' && (k + 1 < collapse_spaces(s).len()
                ==> !spec_is_collapsible_space(collapse_spaces(s)[k + 1])),
        s.len() > 0 ==> collapse_spaces(s).len() > 0 && (spec_is_collapsible_space(
            collapse_spaces(s).last(),
        ) <==> spec_is_collapsible_space(s.last())),
    decreases s.len(),
{
    if s.len() > 0 {
        let p = s.drop_last();
        lemma_collapse_shape(p);
        let prev = collapse_spaces(p);
        let out = collapse_spaces(s);
        if !spec_is_collapsible_space(s.last()) {
            assert(out == prev.push(s.last()));
        } else if s.len() >= 2 && spec_is_collapsible_space(s[s.len() - 2]) {
            assert(p.last() == s[s.len() - 2]);
            assert(out == prev);
        } else {
            assert(out == prev.push(' '));
            if s.len() >= 2 {
                assert(p.last() == s[s.len() - 2]);
            }
        }
        assert forall|k: int|
            0 <= k < out.len() && spec_is_collapsible_space(#[trigger] out[k]) implies out[k] == ' '
            && (k + 1 < out.len() ==> !spec_is_collapsible_space(out[k + 1])) by {
            if k < prev.len() {
                assert(out[k] == prev[k]);
                if k + 1 < prev.len() {
                    assert(out[k + 1] == prev[k + 1]);
                }
            }
        }
    }
}

proof fn lemma_skip_spaces(s: Seq<char>, from: int)
    requires
        0 <= from <= s.len(),
    ensures
        from <= skip_spaces(s, from) <= s.len(),
        skip_spaces(s, from) < s.len() ==> s[skip_spaces(s, from)] != ' ',
    decreases s.len() - from,
{
    if from < s.len() && s[from] == ' ' {
        lemma_skip_spaces(s, from + 1);
    }
}

proof fn lemma_skip_spaces_back(s: Seq<char>, lo: int, to: int)
    requires
        0 <= lo <= to <= s.len(),
    ensures
        lo <= skip_spaces_back(s, lo, to) <= to,
        skip_spaces_back(s, lo, to) > lo ==> s[skip_spaces_back(s, lo, to) - 1] != ' ',
    decreases to - lo,
{
    if to > lo && s[to - 1] == ' ' {
        lemma_skip_spaces_back(s, lo, to - 1);
    }
}

/// After whitespace normalisation the only whitespace left of the
/// collapsible kinds is single ASCII spaces between other characters: none
/// at either end and no two in a row.
pub proof fn law_spaces_normalized(s: Seq<char>)
    ensures
        forall|k: int|
            0 <= k < spec_normalize_spaces(s).len() && spec_is_collapsible_space(
                #[trigger] spec_normalize_spaces(s)[k],
            ) ==> {
                &&& spec_normalize_spaces(s)[k] == ' '
                &&& 0 < k < spec_normalize_spaces(s).len() - 1
                &&& !spec_is_collapsible_space(spec_normalize_spaces(s)[k + 1])
            },
{
    let c = collapse_spaces(s);
    lemma_collapse_shape(s);
    lemma_skip_spaces(c, 0);
    let lo = skip_spaces(c, 0);
    lemma_skip_spaces_back(c, lo, c.len() as int);
    let hi = skip_spaces_back(c, lo, c.len() as int);
    let out = spec_normalize_spaces(s);
    assert(out == c.subrange(lo, hi));
    assert forall|k: int|
        0 <= k < out.len() && spec_is_collapsible_space(#[trigger] out[k]) implies {
        &&& out[k] == ' '
        &&& 0 < k < out.len() - 1
        &&& !spec_is_collapsible_space(out[k + 1])
    } by {
        assert(out[k] == c[lo + k]);
        if k + 1 < out.len() {
            assert(out[k + 1] == c[lo + k + 1]);
        }
        if k == 0 {
            assert(c[lo] != ' ');
        }
        if k == out.len() - 1 {
            assert(c[hi - 1] != ' ');
        }
    }
}

/// A property of the ASCII space and of every character of `s` holds of
/// every character of its whitespace-normalised form.
pub proof fn lemma_normalize_spaces_preserves(s: Seq<char>, p: spec_fn(char) -> bool)
    requires
        p(' '),
        forall|i: int| 0 <= i < s.len() ==> p(#[trigger] s[i]),
    ensures
        forall|k: int| 0 <= k < spec_normalize_spaces(s).len() ==> p(#[trigger] spec_normalize_spaces(s)[k]),
{
    lemma_collapse_preserves(s, p);
    let c = collapse_spaces(s);
    lemma_skip_spaces(c, 0);
    let lo = skip_spaces(c, 0);
    lemma_skip_spaces_back(c, lo, c.len() as int);
    assert forall|k: int| 0 <= k < spec_normalize_spaces(s).len() implies p(
        #[trigger] spec_normalize_spaces(s)[k],
    ) by {
        assert(spec_normalize_spaces(s)[k] == c[lo + k]);
    }
}

proof fn lemma_collapse_preserves(s: Seq<char>, p: spec_fn(char) -> bool)
    requires
        p(' '),
        forall|i: int| 0 <= i < s.len() ==> p(#[trigger] s[i]),
    ensures
        forall|k: int| 0 <= k < collapse_spaces(s).len() ==> p(#[trigger] collapse_spaces(s)[k]),
    decreases s.len(),
{
    if s.len() > 0 {
        lemma_collapse_preserves(s.drop_last(), p);
        let prev = collapse_spaces(s.drop_last());
        let out = collapse_spaces(s);
        assert(p(s[s.len() - 1]));
        if !spec_is_collapsible_space(s.last()) {
            assert(out == prev.push(s.last()));
        } else if s.len() >= 2 && spec_is_collapsible_space(s[s.len() - 2]) {
            assert(out == prev);
        } else {
            assert(out == prev.push(' '));
        }
        assert forall|k: int| 0 <= k < out.len() implies p(#[trigger] out[k]) by {
            if k < prev.len() {
                assert(out[k] == prev[k]);
            }
        }
    }
}

/// Every character but the newlines (whose runs carry layout) is reduced.
pub open spec fn spec_is_reducible(c: char) -> bool {
    c != '\n' && c != '\r'
}

pub fn is_reducible(c: char) -> (b: bool)
    ensures
        b == spec_is_reducible(c),
{
    c != '\n' && c != '\r'
}

/// Character `i` is dropped when it is the third (or later) copy of a
/// reducible character in a run.
pub open spec fn is_excess_repeat(s: Seq<char>, i: int) -> bool {
    &&& i >= 2
    &&& spec_is_reducible(s[i])
    &&& s[i - 1] == s[i]
    &&& s[i - 2] == s[i]
}

/// The indices of `s` that [`reduce_repetitions`] keeps.
pub open spec fn not_excess(s: Seq<char>) -> spec_fn(int) -> bool {
    |i: int| !is_excess_repeat(s, i)
}

/// `s` with every run of one reducible character shortened to two.
pub open spec fn spec_reduce_repetitions(s: Seq<char>) -> Seq<char> {
    keep_indices(s, not_excess(s), s.len() as int)
}

/// Shorten runs of the same character to at most 2 repetitions, except runs
/// of newlines.
pub fn reduce_repetitions(text: &str) -> (r: String)
    ensures
        r@ == spec_reduce_repetitions(text@),
{
    let chars = chars_of(text);
    let ghost s = chars@;
    let mut out = String::new();
    let mut i: usize = 0;
    while i < chars.len()
        invariant
            s == chars@,
            0 <= i <= chars.len(),
            out@ == keep_indices(s, not_excess(s), i as int),
        decreases chars.len() - i,
    {
        let c = chars[i];
        let excess = i >= 2 && chars[i - 1] == c && chars[i - 2] == c && is_reducible(c);
        if !excess {
            push_char(&mut out, c);
        }
        i += 1;
    }
    out
}

/// In the output of [`reduce_repetitions`] no reducible character occurs
/// three times in a row.
pub proof fn law_reduce_repetitions_bounded_runs(s: Seq<char>)
    ensures
        forall|j: int|
            2 <= j < spec_reduce_repetitions(s).len() ==> !is_excess_repeat(
                spec_reduce_repetitions(s),
                j,
            ),
{
    lemma_reduce_prefix(s, s.len() as int);
}

proof fn lemma_keep_all(r: Seq<char>, n: int)
    requires
        0 <= n <= r.len(),
        forall|j: int| 2 <= j < r.len() ==> !is_excess_repeat(r, j),
    ensures
        keep_indices(r, not_excess(r), n) == r.take(n),
    decreases n,
{
    if n > 0 {
        lemma_keep_all(r, n - 1);
        assert(r.take(n) =~= r.take(n - 1).push(r[n - 1]));
    } else {
        assert(r.take(0) =~= Seq::<char>::empty());
    }
}

/// Reducing twice is reducing once.
pub proof fn law_reduce_repetitions_idempotent(s: Seq<char>)
    ensures
        spec_reduce_repetitions(spec_reduce_repetitions(s)) == spec_reduce_repetitions(s),
{
    law_reduce_repetitions_bounded_runs(s);
    let r = spec_reduce_repetitions(s);
    lemma_keep_all(r, r.len() as int);
    assert(r.take(r.len() as int) =~= r);
}

/// Invariant of the prefix built so far: no excess repeat inside it, its
/// last character is `s[n - 1]`, and two equal last characters come from two
/// equal last characters of `s.take(n)`.
proof fn lemma_reduce_prefix(s: Seq<char>, n: int)
    requires
        0 <= n <= s.len(),
    ensures
        ({
            let out = keep_indices(s, not_excess(s), n);
            &&& forall|j: int| 2 <= j < out.len() ==> !is_excess_repeat(out, j)
            &&& out.len() <= n
            &&& n >= 1 ==> out.len() >= 1 && out.last() == s[n - 1]
            &&& (n >= 2 && out.len() >= 2 && out[out.len() - 2] == out.last()) ==> s[n - 2]
                == s[n - 1]
        }),
    decreases n,
{
    let keep = not_excess(s);
    if n > 0 {
        lemma_reduce_prefix(s, n - 1);
        let prev = keep_indices(s, keep, n - 1);
        let out = keep_indices(s, keep, n);
        if keep(n - 1) {
            assert(out == prev.push(s[n - 1]));
            assert forall|j: int| 2 <= j < out.len() implies !is_excess_repeat(out, j) by {
                if j == out.len() - 1 {
                    if is_excess_repeat(out, j) {
                        assert(out[j] == s[n - 1]);
                        assert(out[j - 1] == prev.last());
                        assert(out[j - 2] == prev[prev.len() - 2]);
                        assert(prev.len() >= 2);
                        assert(n - 1 >= 2);
                        assert(s[n - 2] == prev.last());
                        assert(s[n - 3] == s[n - 2]);
                        assert(is_excess_repeat(s, n - 1));
                        assert(false);
                    }
                } else {
                    assert(out[j] == prev[j] && out[j - 1] == prev[j - 1] && out[j - 2] == prev[j
                        - 2]);
                    assert(!is_excess_repeat(prev, j));
                }
            }
        } else {
            assert(out == prev);
        }
    }
}


/// `n` copies of `c`.
pub open spec fn run_of(c: char, n: nat) -> Seq<char> {
    Seq::new(n, |k: int| c)
}

proof fn lemma_reduce_run(c: char, n: nat, m: int)
    requires
        0 <= m <= n,
    ensures
        keep_indices(run_of(c, n), not_excess(run_of(c, n)), m) == run_of(
            c,
            (if spec_is_reducible(c) && m > 2 {
                2
            } else {
                m
            }) as nat,
        ),
    decreases m,
{
    if m > 0 {
        lemma_reduce_run(c, n, m - 1);
        let r = run_of(c, n);
        let prev = keep_indices(r, not_excess(r), m - 1);
        if !is_excess_repeat(r, m - 1) {
            assert(prev.push(r[m - 1]) =~= run_of(
                c,
                (if spec_is_reducible(c) && m > 2 {
                    2
                } else {
                    m
                }) as nat,
            ));
        }
    } else {
        assert(run_of(c, 0) =~= Seq::<char>::empty());
    }
}

/// A run of one character is cut to two copies, unless it is a newline run
/// or already at most two long.
pub proof fn law_reduce_repetitions_run(c: char, n: nat)
    ensures
        spec_reduce_repetitions(run_of(c, n)) == run_of(
            c,
            (if spec_is_reducible(c) && n > 2 {
                2
            } else {
                n
            }) as nat,
        ),
{
    lemma_reduce_run(c, n, n as int);
}

proof fn lemma_reduce_prefix_of(x: Seq<char>, y: Seq<char>, n: int)
    requires
        0 <= n <= x.len(),
    ensures
        keep_indices(x + y, not_excess(x + y), n) == keep_indices(x, not_excess(x), n),
    decreases n,
{
    if n > 0 {
        lemma_reduce_prefix_of(x, y, n - 1);
        let i = n - 1;
        assert((x + y)[i] == x[i]);
        if i >= 2 {
            assert((x + y)[i - 1] == x[i - 1]);
            assert((x + y)[i - 2] == x[i - 2]);
        }
        assert(is_excess_repeat(x + y, i) == is_excess_repeat(x, i));
    }
}

proof fn lemma_reduce_concat(x: Seq<char>, y: Seq<char>, m: int)
    requires
        x.len() > 0,
        y.len() > 0,
        x.last() != y[0],
        0 <= m <= y.len(),
    ensures
        keep_indices(x + y, not_excess(x + y), x.len() + m) == spec_reduce_repetitions(x)
            + keep_indices(y, not_excess(y), m),
    decreases m,
{
    if m == 0 {
        lemma_reduce_prefix_of(x, y, x.len() as int);
        assert(spec_reduce_repetitions(x) + keep_indices(y, not_excess(y), 0)
            =~= spec_reduce_repetitions(x));
    } else {
        lemma_reduce_concat(x, y, m - 1);
        let i = x.len() + m - 1;
        let j = m - 1;
        assert((x + y)[i] == y[j]);
        if j >= 2 {
            assert((x + y)[i - 1] == y[j - 1]);
            assert((x + y)[i - 2] == y[j - 2]);
        } else if j == 1 {
            assert((x + y)[i - 1] == y[0]);
            assert((x + y)[i - 2] == x.last());
        } else {
            assert((x + y)[i - 1] == x.last());
        }
        assert(is_excess_repeat(x + y, i) == is_excess_repeat(y, j));
        let a = spec_reduce_repetitions(x);
        let b = keep_indices(y, not_excess(y), m - 1);
        if !is_excess_repeat(y, j) {
            assert(a + b.push(y[j]) =~= (a + b).push(y[j]));
        }
    }
}

/// Runs are reduced one by one: splitting a text between two different
/// characters, the result is the results of the two parts put together.
pub proof fn law_reduce_repetitions_split(x: Seq<char>, y: Seq<char>)
    requires
        x.len() > 0,
        y.len() > 0,
        x.last() != y[0],
    ensures
        spec_reduce_repetitions(x + y) == spec_reduce_repetitions(x) + spec_reduce_repetitions(y),
{
    lemma_reduce_concat(x, y, y.len() as int);
}
} // verus!
