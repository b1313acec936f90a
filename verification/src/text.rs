//! Character- and string-level building blocks shared by every module.
//!
//! Text is modelled as the `Seq<char>` view of a `&str` / `String`.  Byte
//! offsets (used by spans and by the outside matchers) are the lengths of
//! UTF-8 encodings of prefixes: `byte_len(s.take(k))`.

use vstd::prelude::*;
use vstd::utf8::*;

verus! {

// ── std wrappers ─────────────────────────────────────────────────────────────

/// `String::push`: appends one character to the end of the string.
#[verifier::external_body]
pub(crate) fn push_char(s: &mut String, c: char)
    ensures
        final(s)@ == old(s)@.push(c),
{
    s.push(c);
}

/// `char::is_alphabetic` — the Unicode `Alphabetic` property.
pub uninterp spec fn unicode_alphabetic(c: char) -> bool;

/// `char::is_numeric` — Unicode general categories Nd, Nl or No.
pub uninterp spec fn unicode_numeric(c: char) -> bool;

/// `char::is_alphabetic`: whether `c` has the Unicode `Alphabetic` property.
/// The table lives in std; the result is named `unicode_alphabetic(c)`.
/// Of it only the ASCII part is claimed: the Latin letters have the
/// property, the ASCII digits do not.
#[verifier::external_body]
pub(crate) fn is_alphabetic(c: char) -> (b: bool)
    ensures
        b == unicode_alphabetic(c),
        ('a' <= c <= 'z' || 'A' <= c <= 'Z') ==> b,
        '0' <= c <= '9' ==> !b,
{
    c.is_alphabetic()
}

/// `char::is_numeric`: whether `c` is in a Unicode number category.  The
/// result is named `unicode_numeric(c)`.  Of it only the ASCII part is
/// claimed: the digits `0`–`9` are numbers (category Nd), the Latin letters
/// are not.
#[verifier::external_body]
pub(crate) fn is_numeric(c: char) -> (b: bool)
    ensures
        b == unicode_numeric(c),
        '0' <= c <= '9' ==> b,
        ('a' <= c <= 'z' || 'A' <= c <= 'Z') ==> !b,
{
    c.is_numeric()
}

// ── conversions between &str, Vec<char> and String ──────────────────────────

/// The characters of `s`, in order.
pub fn chars_of(s: &str) -> (v: Vec<char>)
    ensures
        v@ == s@,
{
    let mut v: Vec<char> = Vec::new();
    for c in it: s.chars()
        invariant
            v@ == it.seq().take(it.index() as int),
    {
        v.push(c);
    }
    v
}

/// A `String` holding exactly the characters `v[lo..hi]`.
pub fn string_from_range(v: &Vec<char>, lo: usize, hi: usize) -> (s: String)
    requires
        lo <= hi <= v.len(),
    ensures
        s@ == v@.subrange(lo as int, hi as int),
{
    let mut s = String::new();
    let mut i = lo;
    while i < hi
        invariant
            lo <= i <= hi <= v.len(),
            s@ == v@.subrange(lo as int, i as int),
        decreases hi - i,
    {
        push_char(&mut s, v[i]);
        assert(v@.subrange(lo as int, i + 1) =~= v@.subrange(lo as int, i as int).push(v@[i as int]));
        i += 1;
    }
    s
}

/// A `String` holding exactly the characters of `v`.
pub fn string_from_chars(v: &Vec<char>) -> (s: String)
    ensures
        s@ == v@,
{
    let s = string_from_range(v, 0, v.len());
    assert(v@.subrange(0, v.len() as int) =~= v@);
    s
}

/// Appends the characters `v[lo..hi]` to `out`.
pub fn push_range(out: &mut String, v: &Vec<char>, lo: usize, hi: usize)
    requires
        lo <= hi <= v.len(),
    ensures
        final(out)@ == old(out)@ + v@.subrange(lo as int, hi as int),
{
    let mut i = lo;
    while i < hi
        invariant
            lo <= i <= hi <= v.len(),
            out@ == old(out)@ + v@.subrange(lo as int, i as int),
        decreases hi - i,
    {
        push_char(out, v[i]);
        assert(old(out)@ + v@.subrange(lo as int, i + 1) =~= (old(out)@ + v@.subrange(
            lo as int,
            i as int,
        )).push(v@[i as int]));
        i += 1;
    }
}

/// Character-sequence equality.
pub fn chars_eq(a: &Vec<char>, b: &Vec<char>) -> (r: bool)
    ensures
        r == (a@ == b@),
{
    if a.len() != b.len() {
        return false;
    }
    let mut i: usize = 0;
    while i < a.len()
        invariant
            a.len() == b.len(),
            0 <= i <= a.len(),
            forall|j: int| 0 <= j < i ==> a@[j] == b@[j],
        decreases a.len() - i,
    {
        if a[i] != b[i] {
            return false;
        }
        i += 1;
    }
    assert(a@ =~= b@);
    true
}

/// Whether `v[at..at + p.len()]` equals `p`.
pub fn matches_at(v: &Vec<char>, at: usize, p: &Vec<char>) -> (r: bool)
    requires
        at <= v.len(),
    ensures
        r == (at + p.len() <= v.len() && v@.subrange(at as int, at + p.len()) == p@),
{
    if p.len() > v.len() - at {
        return false;
    }
    let mut j: usize = 0;
    while j < p.len()
        invariant
            at + p.len() <= v.len(),
            0 <= j <= p.len(),
            forall|k: int| 0 <= k < j ==> v@[at + k] == p@[k],
        decreases p.len() - j,
    {
        if v[at + j] != p[j] {
            assert(v@.subrange(at as int, at + p.len())[j as int] != p@[j as int]);
            return false;
        }
        j += 1;
    }
    assert(v@.subrange(at as int, at + p.len()) =~= p@);
    true
}

/// Whether `v` ends with `p`.
pub fn ends_with(v: &Vec<char>, p: &Vec<char>) -> (r: bool)
    ensures
        r == (p.len() <= v.len() && v@.subrange(v.len() - p.len(), v.len() as int) == p@),
{
    if p.len() > v.len() {
        return false;
    }
    matches_at(v, v.len() - p.len(), p)
}

/// Whether `c` occurs in `v`.
pub fn contains_char(v: &Vec<char>, c: char) -> (r: bool)
    ensures
        r == v@.contains(c),
{
    let mut i: usize = 0;
    while i < v.len()
        invariant
            0 <= i <= v.len(),
            forall|j: int| 0 <= j < i ==> v@[j] != c,
        decreases v.len() - i,
    {
        if v[i] == c {
            return true;
        }
        i += 1;
    }
    false
}

// ── whitespace ───────────────────────────────────────────────────────────────

/// The Unicode `White_Space` property, which is what `char::is_whitespace`,
/// `str::trim` and `str::split_whitespace` test.
pub open spec fn spec_is_whitespace(c: char) -> bool {
    let u = c as u32;
    ||| 0x09 <= u <= 0x0D
    ||| u == 0x20
    ||| u == 0x85
    ||| u == 0xA0
    ||| u == 0x1680
    ||| 0x2000 <= u <= 0x200A
    ||| u == 0x2028
    ||| u == 0x2029
    ||| u == 0x202F
    ||| u == 0x205F
    ||| u == 0x3000
}

/// Unicode `White_Space` test.
pub fn is_whitespace(c: char) -> (b: bool)
    ensures
        b == spec_is_whitespace(c),
{
    let u = c as u32;
    (0x09 <= u && u <= 0x0D) || u == 0x20 || u == 0x85 || u == 0xA0 || u == 0x1680 || (0x2000
        <= u && u <= 0x200A) || u == 0x2028 || u == 0x2029 || u == 0x202F || u == 0x205F || u
        == 0x3000
}

/// Index of the first non-whitespace character at or after `from`.
pub open spec fn skip_ws(s: Seq<char>, from: int) -> int
    decreases s.len() - from,
{
    if from >= s.len() || !spec_is_whitespace(s[from]) {
        from
    } else {
        skip_ws(s, from + 1)
    }
}

/// One past the last non-whitespace character before `to`.
pub open spec fn skip_ws_back(s: Seq<char>, lo: int, to: int) -> int
    decreases to - lo,
{
    if to <= lo || !spec_is_whitespace(s[to - 1]) {
        to
    } else {
        skip_ws_back(s, lo, to - 1)
    }
}

/// `str::trim`: strip leading and trailing `White_Space`.
pub open spec fn spec_trim(s: Seq<char>) -> Seq<char> {
    let lo = skip_ws(s, 0);
    s.subrange(lo, skip_ws_back(s, lo, s.len() as int))
}

pub proof fn lemma_skip_ws_bounds(s: Seq<char>, from: int)
    requires
        0 <= from <= s.len(),
    ensures
        from <= skip_ws(s, from) <= s.len(),
        forall|k: int| from <= k < skip_ws(s, from) ==> spec_is_whitespace(s[k]),
        skip_ws(s, from) < s.len() ==> !spec_is_whitespace(s[skip_ws(s, from)]),
    decreases s.len() - from,
{
    if from < s.len() && spec_is_whitespace(s[from]) {
        lemma_skip_ws_bounds(s, from + 1);
    }
}

pub proof fn lemma_skip_ws_back_bounds(s: Seq<char>, lo: int, to: int)
    requires
        0 <= lo <= to <= s.len(),
    ensures
        lo <= skip_ws_back(s, lo, to) <= to,
        forall|k: int| skip_ws_back(s, lo, to) <= k < to ==> spec_is_whitespace(s[k]),
        skip_ws_back(s, lo, to) > lo ==> !spec_is_whitespace(s[skip_ws_back(s, lo, to) - 1]),
    decreases to - lo,
{
    if to > lo && spec_is_whitespace(s[to - 1]) {
        lemma_skip_ws_back_bounds(s, lo, to - 1);
    }
}

/// Bounds `(lo, hi)` of `v` with surrounding whitespace removed.
pub fn trim_bounds(v: &Vec<char>) -> (r: (usize, usize))
    ensures
        r.0 == skip_ws(v@, 0),
        r.1 == skip_ws_back(v@, r.0 as int, v.len() as int),
        r.0 <= r.1 <= v.len(),
        v@.subrange(r.0 as int, r.1 as int) == spec_trim(v@),
{
    let mut lo: usize = 0;
    while lo < v.len() && is_whitespace(v[lo])
        invariant
            0 <= lo <= v.len(),
            skip_ws(v@, lo as int) == skip_ws(v@, 0),
        decreases v.len() - lo,
    {
        lo += 1;
    }
    let mut hi = v.len();
    while hi > lo && is_whitespace(v[hi - 1])
        invariant
            lo <= hi <= v.len(),
            skip_ws_back(v@, lo as int, hi as int) == skip_ws_back(v@, lo as int, v.len() as int),
        decreases hi - lo,
    {
        hi -= 1;
    }
    (lo, hi)
}

/// `str::trim` on a character vector.
pub fn trim_chars(v: &Vec<char>) -> (r: Vec<char>)
    ensures
        r@ == spec_trim(v@),
{
    let (lo, hi) = trim_bounds(v);
    let mut r: Vec<char> = Vec::new();
    let mut i = lo;
    while i < hi
        invariant
            lo <= i <= hi <= v.len(),
            r@ == v@.subrange(lo as int, i as int),
        decreases hi - i,
    {
        r.push(v[i]);
        assert(v@.subrange(lo as int, i + 1) =~= v@.subrange(lo as int, i as int).push(v@[i as int]));
        i += 1;
    }
    r
}

/// `str::trim_start`: strip leading `White_Space`.
pub open spec fn spec_trim_start(s: Seq<char>) -> Seq<char> {
    s.skip(skip_ws(s, 0))
}

/// A new vector holding `v[lo..hi]`.
pub fn subvec(v: &Vec<char>, lo: usize, hi: usize) -> (r: Vec<char>)
    requires
        lo <= hi <= v.len(),
    ensures
        r@ == v@.subrange(lo as int, hi as int),
{
    let mut r: Vec<char> = Vec::new();
    let mut i = lo;
    while i < hi
        invariant
            lo <= i <= hi <= v.len(),
            r@ == v@.subrange(lo as int, i as int),
        decreases hi - i,
    {
        r.push(v[i]);
        assert(v@.subrange(lo as int, i + 1) =~= v@.subrange(lo as int, i as int).push(v@[i as int]));
        i += 1;
    }
    r
}

/// `str::trim_start` on a character vector.
pub fn trim_start_chars(v: &Vec<char>) -> (r: Vec<char>)
    ensures
        r@ == spec_trim_start(v@),
{
    let mut lo: usize = 0;
    while lo < v.len() && is_whitespace(v[lo])
        invariant
            0 <= lo <= v.len(),
            skip_ws(v@, lo as int) == skip_ws(v@, 0),
        decreases v.len() - lo,
    {
        lo += 1;
    }
    let r = subvec(v, lo, v.len());
    assert(r@ =~= v@.skip(lo as int));
    r
}

// ── char-by-char transformations ─────────────────────────────────────────────

/// Concatenation of `f(c)` for every character `c` of `s`.
pub open spec fn concat_map(s: Seq<char>, f: spec_fn(char) -> Seq<char>) -> Seq<char>
    decreases s.len(),
{
    if s.len() == 0 {
        seq![]
    } else {
        concat_map(s.drop_last(), f) + f(s.last())
    }
}

pub proof fn lemma_concat_map_step(s: Seq<char>, f: spec_fn(char) -> Seq<char>, i: int)
    requires
        0 <= i < s.len(),
    ensures
        concat_map(s.take(i + 1), f) == concat_map(s.take(i), f) + f(s[i]),
{
    assert(s.take(i + 1).drop_last() =~= s.take(i));
}

pub proof fn lemma_concat_map_add(a: Seq<char>, b: Seq<char>, f: spec_fn(char) -> Seq<char>)
    ensures
        concat_map(a + b, f) == concat_map(a, f) + concat_map(b, f),
    decreases b.len(),
{
    if b.len() == 0 {
        assert(a + b =~= a);
    } else {
        assert((a + b).drop_last() =~= a + b.drop_last());
        lemma_concat_map_add(a, b.drop_last(), f);
    }
}

/// Characters of `s` that satisfy `keep`, in order.
pub open spec fn keep_chars(s: Seq<char>, keep: spec_fn(char) -> bool) -> Seq<char>
    decreases s.len(),
{
    if s.len() == 0 {
        seq![]
    } else if keep(s.last()) {
        keep_chars(s.drop_last(), keep).push(s.last())
    } else {
        keep_chars(s.drop_last(), keep)
    }
}

pub proof fn lemma_keep_chars_step(s: Seq<char>, keep: spec_fn(char) -> bool, i: int)
    requires
        0 <= i < s.len(),
    ensures
        keep_chars(s.take(i + 1), keep) == if keep(s[i]) {
            keep_chars(s.take(i), keep).push(s[i])
        } else {
            keep_chars(s.take(i), keep)
        },
{
    assert(s.take(i + 1).drop_last() =~= s.take(i));
}

/// What `keep_chars` keeps satisfies the test, and filtering again keeps
/// everything.
pub proof fn lemma_keep_chars_kept(s: Seq<char>, keep: spec_fn(char) -> bool)
    ensures
        forall|k: int| 0 <= k < keep_chars(s, keep).len() ==> keep(#[trigger] keep_chars(s, keep)[k]),
        keep_chars(keep_chars(s, keep), keep) == keep_chars(s, keep),
    decreases s.len(),
{
    if s.len() > 0 {
        lemma_keep_chars_kept(s.drop_last(), keep);
        let p = keep_chars(s.drop_last(), keep);
        if keep(s.last()) {
            let q = p.push(s.last());
            assert(q.drop_last() =~= p);
            assert(keep_chars(q, keep) == keep_chars(p, keep).push(s.last()));
        }
    }
}

/// Filtering a concatenation filters each part.
pub proof fn lemma_keep_chars_add(a: Seq<char>, b: Seq<char>, keep: spec_fn(char) -> bool)
    ensures
        keep_chars(a + b, keep) == keep_chars(a, keep) + keep_chars(b, keep),
    decreases b.len(),
{
    if b.len() == 0 {
        assert(a + b =~= a);
        assert(keep_chars(a, keep) + keep_chars(b, keep) =~= keep_chars(a, keep));
    } else {
        lemma_keep_chars_add(a, b.drop_last(), keep);
        assert((a + b).drop_last() =~= a + b.drop_last());
        assert((a + b).last() == b.last());
        if keep(b.last()) {
            assert(keep_chars(a, keep) + keep_chars(b, keep) =~= (keep_chars(a, keep) + keep_chars(
                b.drop_last(),
                keep,
            )).push(b.last()));
        }
    }
}

/// Number of characters of `s` that satisfy `p`.
pub open spec fn count_chars(s: Seq<char>, p: spec_fn(char) -> bool) -> nat
    decreases s.len(),
{
    if s.len() == 0 {
        0
    } else {
        count_chars(s.drop_last(), p) + if p(s.last()) {
            1nat
        } else {
            0nat
        }
    }
}

pub proof fn lemma_count_chars_step(s: Seq<char>, p: spec_fn(char) -> bool, i: int)
    requires
        0 <= i < s.len(),
    ensures
        count_chars(s.take(i + 1), p) == count_chars(s.take(i), p) + if p(s[i]) {
            1nat
        } else {
            0nat
        },
{
    assert(s.take(i + 1).drop_last() =~= s.take(i));
}

pub proof fn lemma_count_chars_le(s: Seq<char>, p: spec_fn(char) -> bool)
    ensures
        count_chars(s, p) <= s.len(),
    decreases s.len(),
{
    if s.len() > 0 {
        lemma_count_chars_le(s.drop_last(), p);
    }
}

pub proof fn lemma_take_full<A>(s: Seq<A>)
    ensures
        s.take(s.len() as int) == s,
{
    assert(s.take(s.len() as int) =~= s);
}

// ── UTF-8 byte lengths and offsets ───────────────────────────────────────────

/// Number of bytes in the UTF-8 encoding of `s`.
pub open spec fn byte_len(s: Seq<char>) -> nat {
    encode_utf8(s).len()
}

/// Byte offset of character index `k` in `s`.
pub open spec fn byte_offset(s: Seq<char>, k: int) -> nat {
    byte_len(s.take(k))
}

pub proof fn lemma_encode_utf8_add(a: Seq<char>, b: Seq<char>)
    ensures
        encode_utf8(a + b) == encode_utf8(a) + encode_utf8(b),
    decreases a.len(),
{
    if a.len() == 0 {
        assert(a + b =~= b);
        assert(encode_utf8(a) + encode_utf8(b) =~= encode_utf8(b));
    } else {
        assert((a + b).drop_first() =~= a.drop_first() + b);
        assert((a + b)[0] == a[0]);
        lemma_encode_utf8_add(a.drop_first(), b);
        assert(encode_utf8(a + b) =~= encode_scalar(a[0] as u32) + (encode_utf8(a.drop_first())
            + encode_utf8(b)));
    }
}

pub proof fn lemma_encode_utf8_single(c: char)
    ensures
        encode_utf8(seq![c]) == encode_scalar(c as u32),
{
    assert(seq![c].drop_first() =~= Seq::<char>::empty());
    assert(encode_utf8(seq![c]) =~= encode_scalar(c as u32) + encode_utf8(Seq::<char>::empty()));
}

pub proof fn lemma_byte_len_push(s: Seq<char>, c: char)
    ensures
        byte_len(s.push(c)) == byte_len(s) + encode_scalar(c as u32).len(),
{
    assert(s.push(c) =~= s + seq![c]);
    lemma_encode_utf8_add(s, seq![c]);
    lemma_encode_utf8_single(c);
}

pub proof fn lemma_byte_len_add(a: Seq<char>, b: Seq<char>)
    ensures
        byte_len(a + b) == byte_len(a) + byte_len(b),
{
    lemma_encode_utf8_add(a, b);
}

/// Number of UTF-8 bytes of `c`.
pub fn utf8_width(c: char) -> (w: usize)
    ensures
        w == encode_scalar(c as u32).len(),
        1 <= w <= 4,
{
    let u = c as u32;
    proof {
        char_is_scalar(c);
    }
    if u <= 0x7F {
        1
    } else if u <= 0x7FF {
        2
    } else if u <= 0xFFFF {
        3
    } else {
        4
    }
}

/// Byte offsets of every character boundary of `v`: `off[k]` is where
/// character `k` starts, and `off[v.len()]` is the total byte length.
pub fn byte_offsets(v: &Vec<char>) -> (off: Vec<usize>)
    requires
        byte_len(v@) <= usize::MAX,
    ensures
        off.len() == v.len() + 1,
        forall|k: int| 0 <= k <= v.len() ==> off@[k] == byte_offset(v@, k),
{
    let mut off: Vec<usize> = Vec::new();
    off.push(0);
    let mut total: usize = 0;
    let mut i: usize = 0;
    assert(v@.take(0) =~= Seq::<char>::empty());
    while i < v.len()
        invariant
            0 <= i <= v.len(),
            byte_len(v@) <= usize::MAX,
            off.len() == i + 1,
            total == byte_offset(v@, i as int),
            forall|k: int| 0 <= k <= i ==> off@[k] == byte_offset(v@, k),
        decreases v.len() - i,
    {
        let w = utf8_width(v[i]);
        proof {
            assert(v@.take(i + 1) =~= v@.take(i as int).push(v@[i as int]));
            lemma_byte_len_push(v@.take(i as int), v@[i as int]);
            assert(v@ =~= v@.take(i + 1) + v@.skip(i + 1));
            lemma_byte_len_add(v@.take(i + 1), v@.skip(i + 1));
        }
        total = total + w;
        off.push(total);
        i += 1;
    }
    off
}

/// Offsets are strictly increasing.
/// The bytes of a range of characters are the difference of their offsets.
pub proof fn lemma_byte_len_range(t: Seq<char>, a: int, b: int)
    requires
        0 <= a <= b <= t.len(),
    ensures
        byte_len(t.subrange(a, b)) == byte_offset(t, b) - byte_offset(t, a),
{
    assert(t.take(b) =~= t.take(a) + t.subrange(a, b));
    lemma_encode_utf8_add(t.take(a), t.subrange(a, b));
}

pub proof fn lemma_byte_offset_strict(s: Seq<char>, j: int, k: int)
    requires
        0 <= j < k <= s.len(),
    ensures
        byte_offset(s, j) < byte_offset(s, k),
    decreases k - j,
{
    assert(s.take(k) =~= s.take(k - 1).push(s[k - 1]));
    lemma_byte_len_push(s.take(k - 1), s[k - 1]);
    char_is_scalar(s[k - 1]);
    if j < k - 1 {
        lemma_byte_offset_strict(s, j, k - 1);
    }
}

/// Index `k` with `off[k] == b`, searching from `from`; `None` when `b` is
/// not a character boundary at or after `from`.
pub fn find_offset(off: &Vec<usize>, from: usize, b: usize) -> (r: Option<usize>)
    requires
        from <= off.len(),
        forall|j: int, k: int| 0 <= j < k < off.len() ==> off@[j] < off@[k],
    ensures
        r matches Some(k) ==> from <= k < off.len() && off@[k as int] == b,
        r is None ==> forall|k: int| from <= k < off.len() ==> off@[k] != b,
{
    let mut k = from;
    while k < off.len()
        invariant
            from <= k <= off.len(),
            forall|j: int, l: int| 0 <= j < l < off.len() ==> off@[j] < off@[l],
            forall|j: int| from <= j < k ==> off@[j] != b,
        decreases off.len() - k,
    {
        if off[k] == b {
            return Some(k);
        }
        if off[k] > b {
            assert forall|j: int| k <= j < off.len() implies off@[j] != b by {
                if j > k {
                    assert(off@[k as int] < off@[j]);
                }
            }
            return None;
        }
        k += 1;
    }
    None
}

} // verus!

verus! {

/// Characters `s[j]`, `j < n`, whose index satisfies `keep`, in order.
pub open spec fn keep_indices(s: Seq<char>, keep: spec_fn(int) -> bool, n: int) -> Seq<char>
    decreases n,
{
    if n <= 0 {
        seq![]
    } else if keep(n - 1) {
        keep_indices(s, keep, n - 1).push(s[n - 1])
    } else {
        keep_indices(s, keep, n - 1)
    }
}

/// A property of every character of `s` holds of every character kept.
pub proof fn lemma_keep_indices_preserves(
    s: Seq<char>,
    keep: spec_fn(int) -> bool,
    n: int,
    p: spec_fn(char) -> bool,
)
    requires
        0 <= n <= s.len(),
        forall|i: int| 0 <= i < n ==> p(#[trigger] s[i]),
    ensures
        forall|k: int| 0 <= k < keep_indices(s, keep, n).len() ==> p(#[trigger] keep_indices(s, keep, n)[k]),
    decreases n,
{
    if n > 0 {
        lemma_keep_indices_preserves(s, keep, n - 1, p);
        let prev = keep_indices(s, keep, n - 1);
        let out = keep_indices(s, keep, n);
        assert(p(s[n - 1]));
        assert forall|k: int| 0 <= k < out.len() implies p(#[trigger] out[k]) by {
            if k < prev.len() {
                assert(out[k] == prev[k]);
            }
        }
    }
}

/// A property of every character of `s` holds of every character kept.
pub proof fn lemma_keep_chars_preserves(s: Seq<char>, keep: spec_fn(char) -> bool, p: spec_fn(char) -> bool)
    requires
        forall|i: int| 0 <= i < s.len() ==> p(#[trigger] s[i]),
    ensures
        forall|k: int| 0 <= k < keep_chars(s, keep).len() ==> p(#[trigger] keep_chars(s, keep)[k]),
    decreases s.len(),
{
    if s.len() > 0 {
        lemma_keep_chars_preserves(s.drop_last(), keep, p);
        let prev = keep_chars(s.drop_last(), keep);
        let out = keep_chars(s, keep);
        assert(p(s[s.len() - 1]));
        assert forall|k: int| 0 <= k < out.len() implies p(#[trigger] out[k]) by {
            if k < prev.len() {
                assert(out[k] == prev[k]);
            }
        }
    }
}

/// Code point of `c` as an integer.
pub open spec fn cp(c: char) -> int {
    (c as u32) as int
}

/// ASCII decimal digit.
pub open spec fn spec_is_ascii_digit(c: char) -> bool {
    '0' <= c <= '9'
}

/// ASCII letter.
pub open spec fn spec_is_ascii_alphabetic(c: char) -> bool {
    ('a' <= c <= 'z') || ('A' <= c <= 'Z')
}

pub fn is_ascii_digit(c: char) -> (b: bool)
    ensures
        b == spec_is_ascii_digit(c),
{
    '0' <= c && c <= '9'
}

pub fn is_ascii_alphabetic(c: char) -> (b: bool)
    ensures
        b == spec_is_ascii_alphabetic(c),
{
    ('a' <= c && c <= 'z') || ('A' <= c && c <= 'Z')
}

/// ZERO WIDTH NON-JOINER.
pub const ZWNJ: char = '\u{200C}';

} // verus!

verus! {

/// The character views of a sequence of strings.
pub open spec fn views(v: Seq<String>) -> Seq<Seq<char>> {
    v.map_values(|t: String| t@)
}

pub proof fn lemma_views_push(v: Seq<String>, x: String)
    ensures
        views(v.push(x)) == views(v).push(x@),
{
    assert(views(v.push(x)) =~= views(v).push(x@));
}

/// `toks` with `cur` appended when `cur` is non-empty.
pub open spec fn flush_token(toks: Seq<Seq<char>>, cur: Seq<char>) -> Seq<Seq<char>> {
    if cur.len() > 0 {
        toks.push(cur)
    } else {
        toks
    }
}


/// `ws` joined with `sep` between consecutive elements.
pub open spec fn join_sep(ws: Seq<Seq<char>>, sep: Seq<char>) -> Seq<char>
    decreases ws.len(),
{
    if ws.len() == 0 {
        seq![]
    } else if ws.len() == 1 {
        ws[0]
    } else {
        join_sep(ws.drop_last(), sep) + sep + ws.last()
    }
}

/// Joins strings with a separator, as `[String]::join` does.
pub fn join_strings(ws: &Vec<String>, sep: &str) -> (r: String)
    ensures
        r@ == join_sep(views(ws@), sep@),
{
    let mut out = String::new();
    let mut i: usize = 0;
    while i < ws.len()
        invariant
            0 <= i <= ws.len(),
            out@ == join_sep(views(ws@).take(i as int), sep@),
        decreases ws.len() - i,
    {
        assert(views(ws@).take(i + 1).drop_last() =~= views(ws@).take(i as int));
        if i > 0 {
            out.append(sep);
        }
        out.append(ws[i].as_str());
        i += 1;
    }
    assert(views(ws@).take(ws.len() as int) =~= views(ws@));
    out
}

/// Words closed so far, and the word being read, when splitting on
/// whitespace.
pub open spec fn ws_scan(s: Seq<char>) -> (Seq<Seq<char>>, Seq<char>)
    decreases s.len(),
{
    if s.len() == 0 {
        (seq![], seq![])
    } else {
        let (done, cur) = ws_scan(s.drop_last());
        if spec_is_whitespace(s.last()) {
            (flush_token(done, cur), seq![])
        } else {
            (done, cur.push(s.last()))
        }
    }
}

/// `str::split_whitespace`: the maximal runs of non-whitespace characters.
pub open spec fn split_ws(s: Seq<char>) -> Seq<Seq<char>> {
    flush_token(ws_scan(s).0, ws_scan(s).1)
}

/// `str::split_whitespace` on a character vector.
pub fn split_whitespace(v: &Vec<char>) -> (r: Vec<String>)
    ensures
        views(r@) == split_ws(v@),
{
    let mut out: Vec<String> = Vec::new();
    let mut cur = String::new();
    let mut i: usize = 0;
    while i < v.len()
        invariant
            0 <= i <= v.len(),
            views(out@) == ws_scan(v@.take(i as int)).0,
            cur@ == ws_scan(v@.take(i as int)).1,
        decreases v.len() - i,
    {
        assert(v@.take(i + 1).drop_last() =~= v@.take(i as int));
        let c = v[i];
        if is_whitespace(c) {
            if cur.as_str().is_empty() == false {
                let ghost before = out@;
                out.push(cur);
                proof {
                    lemma_views_push(before, cur);
                }
            }
            cur = String::new();
        } else {
            push_char(&mut cur, c);
        }
        i += 1;
    }
    assert(v@.take(v.len() as int) =~= v@);
    if cur.as_str().is_empty() == false {
        let ghost before = out@;
        out.push(cur);
        proof {
            lemma_views_push(before, cur);
        }
    }
    out
}

/// ASCII lower-casing of one character.
pub open spec fn ascii_lower(c: char) -> char {
    if 'A' <= c <= 'Z' {
        ((c as u32) + 32) as char
    } else {
        c
    }
}

/// `char::to_ascii_lowercase`.
pub fn to_ascii_lower(c: char) -> (r: char)
    ensures
        r == ascii_lower(c),
{
    if 'A' <= c && c <= 'Z' {
        ((c as u32) + 32) as u8 as char
    } else {
        c
    }
}

/// ASCII case folding of a character sequence.
pub open spec fn fold_ascii(s: Seq<char>) -> Seq<char> {
    s.map_values(|c: char| ascii_lower(c))
}

/// `str::eq_ignore_ascii_case` on character vectors.
pub fn eq_ignore_ascii_case(a: &Vec<char>, b: &Vec<char>) -> (r: bool)
    ensures
        r == (fold_ascii(a@) == fold_ascii(b@)),
{
    if a.len() != b.len() {
        assert(fold_ascii(a@).len() != fold_ascii(b@).len());
        return false;
    }
    let mut i: usize = 0;
    while i < a.len()
        invariant
            0 <= i <= a.len(),
            a.len() == b.len(),
            forall|j: int| 0 <= j < i ==> ascii_lower(a@[j]) == ascii_lower(b@[j]),
        decreases a.len() - i,
    {
        if to_ascii_lower(a[i]) != to_ascii_lower(b[i]) {
            assert(fold_ascii(a@)[i as int] != fold_ascii(b@)[i as int]);
            return false;
        }
        i += 1;
    }
    assert(fold_ascii(a@) =~= fold_ascii(b@));
    true
}

/// `str::to_ascii_lowercase` on a character vector.
pub fn fold_chars(a: &Vec<char>) -> (r: Vec<char>)
    ensures
        r@ == fold_ascii(a@),
{
    let mut r: Vec<char> = Vec::new();
    let mut i: usize = 0;
    while i < a.len()
        invariant
            0 <= i <= a.len(),
            r@ == fold_ascii(a@.take(i as int)),
        decreases a.len() - i,
    {
        r.push(to_ascii_lower(a[i]));
        assert(fold_ascii(a@.take(i + 1)) =~= fold_ascii(a@.take(i as int)).push(ascii_lower(a@[i as int])));
        i += 1;
    }
    assert(a@.take(a.len() as int) =~= a@);
    r
}
} // verus!
