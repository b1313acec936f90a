//! Heuristic ZWNJ insertion — the inverse of the normaliser's ZWNJ removal.
//!
//! Inserts U+200C after the verb prefixes `نمی` / `می`, before the plural
//! suffixes `های` / `ها`, and before the possessive endings
//! `مان/تان/شان/ام/ات/اش`.  A token that already holds a ZWNJ is left alone.

use vstd::prelude::*;
use crate::text::{chars_of, contains_char, is_whitespace, push_range, spec_is_whitespace, subvec, ZWNJ};

verus! {

/// `char::is_ascii_punctuation`.
pub open spec fn is_ascii_punct(c: char) -> bool {
    let u = c as u32;
    (0x21 <= u <= 0x2F) || (0x3A <= u <= 0x40) || (0x5B <= u <= 0x60) || (0x7B <= u <= 0x7E)
}

/// Characters that end a token.
pub open spec fn is_word_break(c: char) -> bool {
    spec_is_whitespace(c) || is_ascii_punct(c) || c == '،' || c == '؛' || c == '؟' || c == '«'
        || c == '»'
}

/// A letter of the Arabic block from U+0621 on.
pub open spec fn is_persian_letter(c: char) -> bool {
    0x0621 <= c as u32 <= 0x06FF
}

/// Rule 1: ZWNJ after a verb prefix followed by a Persian letter.
pub open spec fn after_prefix(w: Seq<char>, p: Seq<char>) -> Seq<char> {
    if w.len() < p.len() + 3 || w.take(p.len() as int) != p || !is_persian_letter(
        w[p.len() as int],
    ) {
        w
    } else {
        w.take(p.len() as int) + seq![ZWNJ] + w.skip(p.len() as int)
    }
}

/// Rules 2 and 3: ZWNJ before a suffix that follows a Persian letter.
pub open spec fn before_suffix(w: Seq<char>, p: Seq<char>) -> Seq<char> {
    let cut = w.len() - p.len();
    if w.len() < p.len() + 3 || w.skip(cut) != p || !is_persian_letter(w[cut - 1]) {
        w
    } else {
        w.take(cut) + seq![ZWNJ] + w.skip(cut)
    }
}

pub const PREFIXES: [&'static str; 2] = ["نمی", "می"];

pub const SUFFIXES: [&'static str; 8] = ["های", "ها", "مان", "تان", "شان", "ام", "ات", "اش"];

/// The rules in order, from rule `k` on.
pub open spec fn rules_from(w: Seq<char>, k: int) -> Seq<char>
    decreases 10 - k,
{
    if k < 0 || k >= 10 {
        w
    } else if k < 2 {
        rules_from(after_prefix(w, PREFIXES[k]@), k + 1)
    } else {
        rules_from(before_suffix(w, SUFFIXES[k - 2]@), k + 1)
    }
}

/// The rewritten token.
pub open spec fn spec_apply(w: Seq<char>) -> Seq<char> {
    if w.contains(ZWNJ) {
        w
    } else {
        rules_from(w, 0)
    }
}

/// Output written so far and the token being read.
pub open spec fn ins_scan(s: Seq<char>) -> (Seq<char>, Seq<char>)
    decreases s.len(),
{
    if s.len() == 0 {
        (seq![], seq![])
    } else {
        let (out, cur) = ins_scan(s.drop_last());
        let c = s.last();
        if is_word_break(c) {
            let flushed = if cur.len() > 0 {
                out + spec_apply(cur)
            } else {
                out
            };
            (flushed.push(c), seq![])
        } else {
            (out, cur.push(c))
        }
    }
}

/// The text with ZWNJ inserted.
pub open spec fn spec_insert(s: Seq<char>) -> Seq<char> {
    let (out, cur) = ins_scan(s);
    if cur.len() > 0 {
        out + spec_apply(cur)
    } else {
        out
    }
}

fn is_break(c: char) -> (b: bool)
    ensures
        b == is_word_break(c),
{
    let u = c as u32;
    is_whitespace(c) || (0x21 <= u && u <= 0x2F) || (0x3A <= u && u <= 0x40) || (0x5B <= u && u
        <= 0x60) || (0x7B <= u && u <= 0x7E) || c == '،' || c == '؛' || c == '؟' || c == '«' || c
        == '»'
}

fn persian_letter(c: char) -> (b: bool)
    ensures
        b == is_persian_letter(c),
{
    let u = c as u32;
    0x0621 <= u && u <= 0x06FF
}

fn insert_after_verb_prefix(w: &Vec<char>, p: &Vec<char>) -> (r: Vec<char>)
    ensures
        r@ == after_prefix(w@, p@),
{
    if w.len() < 3 || w.len() - 3 < p.len() {
        return w.clone();
    }
    let mut k: usize = 0;
    while k < p.len()
        invariant
            0 <= k <= p.len(),
            p.len() + 3 <= w.len(),
            forall|j: int| 0 <= j < k ==> w@[j] == p@[j],
        decreases p.len() - k,
    {
        if w[k] != p[k] {
            assert(w@.take(p.len() as int)[k as int] != p@[k as int]);
            return w.clone();
        }
        k += 1;
    }
    assert(w@.take(p.len() as int) =~= p@);
    if !persian_letter(w[p.len()]) {
        return w.clone();
    }
    let mut r = subvec(w, 0, p.len());
    r.push(ZWNJ);
    let mut tail = subvec(w, p.len(), w.len());
    r.append(&mut tail);
    assert(w@.subrange(0, p.len() as int) =~= w@.take(p.len() as int));
    assert(w@.subrange(p.len() as int, w.len() as int) =~= w@.skip(p.len() as int));
    r
}

fn insert_before_suffix(w: &Vec<char>, p: &Vec<char>) -> (r: Vec<char>)
    ensures
        r@ == before_suffix(w@, p@),
{
    if w.len() < 3 || w.len() - 3 < p.len() {
        return w.clone();
    }
    let cut = w.len() - p.len();
    let mut k: usize = 0;
    while k < p.len()
        invariant
            0 <= k <= p.len(),
            p.len() + 3 <= w.len(),
            cut == w.len() - p.len(),
            forall|j: int| 0 <= j < k ==> w@[cut + j] == p@[j],
        decreases p.len() - k,
    {
        if w[cut + k] != p[k] {
            assert(w@.skip(cut as int)[k as int] != p@[k as int]);
            return w.clone();
        }
        k += 1;
    }
    assert(w@.skip(cut as int) =~= p@);
    if !persian_letter(w[cut - 1]) {
        return w.clone();
    }
    let mut r = subvec(w, 0, cut);
    r.push(ZWNJ);
    let mut tail = subvec(w, cut, w.len());
    r.append(&mut tail);
    assert(w@.subrange(0, cut as int) =~= w@.take(cut as int));
    assert(w@.subrange(cut as int, w.len() as int) =~= w@.skip(cut as int));
    r
}

fn apply(w: &Vec<char>) -> (r: Vec<char>)
    ensures
        r@ == spec_apply(w@),
{
    if contains_char(w, ZWNJ) {
        return w.clone();
    }
    let mut s = w.clone();
    let mut k: usize = 0;
    while k < 10
        invariant
            0 <= k <= 10,
            !w@.contains(ZWNJ),
            rules_from(w@, 0) == rules_from(s@, k as int),
        decreases 10 - k,
    {
        if k < 2 {
            let p = chars_of(PREFIXES[k]);
            s = insert_after_verb_prefix(&s, &p);
        } else {
            let p = chars_of(SUFFIXES[k - 2]);
            s = insert_before_suffix(&s, &p);
        }
        k += 1;
    }
    s
}

/// Insert ZWNJ at common Persian morphological boundaries, token by token;
/// whitespace and punctuation between tokens are kept as they are.
pub fn insert(text: &str) -> (s: String)
    ensures
        s@ == spec_insert(text@),
{
    let v = chars_of(text);
    let mut out = String::new();
    let mut cur: Vec<char> = Vec::new();
    let mut i: usize = 0;
    while i < v.len()
        invariant
            0 <= i <= v.len(),
            (out@, cur@) == ins_scan(v@.take(i as int)),
        decreases v.len() - i,
    {
        assert(v@.take(i + 1).drop_last() =~= v@.take(i as int));
        let c = v[i];
        if is_break(c) {
            if cur.len() > 0 {
                let a = apply(&cur);
                push_range(&mut out, &a, 0, a.len());
                assert(a@.subrange(0, a@.len() as int) =~= a@);
            }
            crate::text::push_char(&mut out, c);
            cur = Vec::new();
        } else {
            cur.push(c);
        }
        i += 1;
    }
    assert(v@.take(v.len() as int) =~= v@);
    if cur.len() > 0 {
        let a = apply(&cur);
        push_range(&mut out, &a, 0, a.len());
        assert(a@.subrange(0, a@.len() as int) =~= a@);
    }
    out
}


/// No character of `w` ends a token.
pub open spec fn no_break(w: Seq<char>) -> bool {
    forall|i: int| 0 <= i < w.len() ==> !is_word_break(#[trigger] w[i])
}

/// What a rule does: nothing, or insert one ZWNJ, keeping every character.
proof fn lemma_insertion_shape(w: Seq<char>, cut: int)
    requires
        0 <= cut <= w.len(),
    ensures
        (w.take(cut) + seq![ZWNJ] + w.skip(cut)).contains(ZWNJ),
        (w.take(cut) + seq![ZWNJ] + w.skip(cut)).len() == w.len() + 1,
        w.contains(ZWNJ) ==> (w.take(cut) + seq![ZWNJ] + w.skip(cut)).contains(ZWNJ),
        no_break(w) ==> no_break(w.take(cut) + seq![ZWNJ] + w.skip(cut)),
{
    let r = w.take(cut) + seq![ZWNJ] + w.skip(cut);
    assert(r[cut] == ZWNJ);
    if no_break(w) {
        assert forall|i: int| 0 <= i < r.len() implies !is_word_break(#[trigger] r[i]) by {
            if i < cut {
                assert(r[i] == w[i]);
            } else if i > cut {
                assert(r[i] == w[i - 1]);
            }
        }
    }
}

proof fn lemma_rules_from(w: Seq<char>, k: int)
    requires
        0 <= k,
    ensures
        rules_from(w, k) == w || rules_from(w, k).contains(ZWNJ),
        w.contains(ZWNJ) ==> rules_from(w, k).contains(ZWNJ),
        no_break(w) ==> no_break(rules_from(w, k)),
        rules_from(w, k).len() >= w.len(),
    decreases 10 - k,
{
    if k < 10 {
        let x = if k < 2 {
            after_prefix(w, PREFIXES[k]@)
        } else {
            before_suffix(w, SUFFIXES[k - 2]@)
        };
        if k < 2 {
            let p = PREFIXES[k]@;
            if x != w {
                lemma_insertion_shape(w, p.len() as int);
            }
        } else {
            let p = SUFFIXES[k - 2]@;
            if x != w {
                lemma_insertion_shape(w, w.len() - p.len());
            }
        }
        lemma_rules_from(x, k + 1);
    }
}

/// Rewriting a rewritten token changes nothing.
proof fn lemma_apply_idem(w: Seq<char>)
    ensures
        spec_apply(spec_apply(w)) == spec_apply(w),
        no_break(w) ==> no_break(spec_apply(w)),
        spec_apply(w).len() >= w.len(),
{
    lemma_rules_from(w, 0);
}

proof fn lemma_ins_scan_concat(a: Seq<char>, b: Seq<char>)
    requires
        ins_scan(a).1.len() == 0,
    ensures
        ins_scan(a + b) == (ins_scan(a).0 + ins_scan(b).0, ins_scan(b).1),
    decreases b.len(),
{
    if b.len() == 0 {
        assert(a + b =~= a);
        assert(ins_scan(a).0 + ins_scan(b).0 =~= ins_scan(a).0);
        assert(ins_scan(a).1 =~= ins_scan(b).1);
    } else {
        lemma_ins_scan_concat(a, b.drop_last());
        assert((a + b).drop_last() =~= a + b.drop_last());
        let (o, c) = ins_scan(b.drop_last());
        let oa = ins_scan(a).0;
        if c.len() > 0 {
            assert((oa + o + spec_apply(c)).push(b.last()) =~= oa + (o + spec_apply(c)).push(
                b.last(),
            ));
        } else {
            assert((oa + o).push(b.last()) =~= oa + o.push(b.last()));
        }
    }
}

proof fn lemma_ins_scan_token(t: Seq<char>)
    requires
        no_break(t),
    ensures
        ins_scan(t) == (Seq::<char>::empty(), t),
    decreases t.len(),
{
    if t.len() > 0 {
        assert(no_break(t.drop_last())) by {
            assert forall|i: int| 0 <= i < t.drop_last().len() implies !is_word_break(
                #[trigger] t.drop_last()[i],
            ) by {
                assert(t.drop_last()[i] == t[i]);
            }
        }
        lemma_ins_scan_token(t.drop_last());
        assert(!is_word_break(t[t.len() - 1]));
        assert(t.drop_last().push(t.last()) =~= t);
    }
}

proof fn lemma_insert_idem(s: Seq<char>)
    ensures
        spec_insert(spec_insert(s)) == spec_insert(s),
        spec_insert(ins_scan(s).0) == ins_scan(s).0,
        ins_scan(ins_scan(s).0).1.len() == 0,
        no_break(ins_scan(s).1),
    decreases s.len(),
{
    if s.len() == 0 {
        assert(ins_scan(s).0 =~= Seq::<char>::empty());
    } else {
        let s0 = s.drop_last();
        let c = s.last();
        lemma_insert_idem(s0);
        let (out0, cur0) = ins_scan(s0);
        let i0 = spec_insert(s0);
        if is_word_break(c) {
            assert(ins_scan(s).0 == i0.push(c));
            assert(i0.push(c).drop_last() =~= i0);
            assert(i0.push(c).last() == c);
        } else {
            let cur = cur0.push(c);
            assert(no_break(cur)) by {
                assert forall|i: int| 0 <= i < cur.len() implies !is_word_break(#[trigger] cur[i]) by {
                    if i < cur0.len() {
                        assert(cur[i] == cur0[i]);
                    }
                }
            }
            let a = spec_apply(cur);
            lemma_apply_idem(cur);
            lemma_ins_scan_concat(out0, a);
            lemma_ins_scan_token(a);
            assert(ins_scan(out0).0 + Seq::<char>::empty() =~= ins_scan(out0).0);
        }
    }
}

/// Inserting twice is inserting once: tokens that got a ZWNJ are left
/// alone, and tokens no rule touched stay untouched.
pub proof fn law_insert_idempotent(s: Seq<char>)
    ensures
        spec_insert(spec_insert(s)) == spec_insert(s),
{
    lemma_insert_idem(s);
}

/// `s` without its ZWNJs.
pub open spec fn without_zwnj(s: Seq<char>) -> Seq<char> {
    crate::text::keep_chars(s, |c: char| c != ZWNJ)
}

proof fn lemma_without_zwnj_split(a: Seq<char>, b: Seq<char>)
    ensures
        without_zwnj(a + b) == without_zwnj(a) + without_zwnj(b),
{
    crate::text::lemma_keep_chars_add(a, b, |c: char| c != ZWNJ);
}

proof fn lemma_insert_at(w: Seq<char>, k: int)
    requires
        0 <= k <= w.len(),
    ensures
        without_zwnj(w.take(k) + seq![ZWNJ] + w.skip(k)) == without_zwnj(w),
{
    lemma_without_zwnj_split(w.take(k) + seq![ZWNJ], w.skip(k));
    lemma_without_zwnj_split(w.take(k), seq![ZWNJ]);
    lemma_without_zwnj_split(w.take(k), w.skip(k));
    let z = seq![ZWNJ];
    assert(z.drop_last() =~= Seq::<char>::empty());
    assert(z.len() == 1 && z.last() == ZWNJ);
    assert(without_zwnj(Seq::<char>::empty()) == Seq::<char>::empty());
    assert(without_zwnj(z) == without_zwnj(z.drop_last()));
    assert(without_zwnj(z) =~= Seq::<char>::empty());
    assert(w.take(k) + w.skip(k) =~= w);
    assert(without_zwnj(w.take(k)) + Seq::<char>::empty() =~= without_zwnj(w.take(k)));
}

proof fn lemma_rules_keep(w: Seq<char>, k: int)
    ensures
        without_zwnj(rules_from(w, k)) == without_zwnj(w),
    decreases 10 - k,
{
    if 0 <= k < 10 {
        if k < 2 {
            let p = PREFIXES[k]@;
            let v = after_prefix(w, p);
            if v != w {
                lemma_insert_at(w, p.len() as int);
            }
            lemma_rules_keep(v, k + 1);
        } else {
            let p = SUFFIXES[k - 2]@;
            let v = before_suffix(w, p);
            if v != w {
                lemma_insert_at(w, w.len() - p.len());
            }
            lemma_rules_keep(v, k + 1);
        }
    }
}

proof fn lemma_apply_keep(w: Seq<char>)
    ensures
        without_zwnj(spec_apply(w)) == without_zwnj(w),
{
    if !w.contains(ZWNJ) {
        lemma_rules_keep(w, 0);
    }
}

proof fn lemma_ins_scan_keep(s: Seq<char>)
    ensures
        without_zwnj(ins_scan(s).0) + without_zwnj(ins_scan(s).1) == without_zwnj(s),
    decreases s.len(),
{
    if s.len() == 0 {
        assert(without_zwnj(Seq::<char>::empty()) =~= Seq::<char>::empty());
        assert(Seq::<char>::empty() + Seq::<char>::empty() =~= Seq::<char>::empty());
    } else {
        let p = s.drop_last();
        lemma_ins_scan_keep(p);
        let (out, cur) = ins_scan(p);
        let c = s.last();
        assert(p.push(c) =~= s);
        lemma_without_zwnj_split(p, seq![c]);
        assert(p + seq![c] =~= s);
        if is_word_break(c) {
            let flushed = if cur.len() > 0 {
                out + spec_apply(cur)
            } else {
                out
            };
            if cur.len() > 0 {
                lemma_without_zwnj_split(out, spec_apply(cur));
                lemma_apply_keep(cur);
            } else {
                assert(without_zwnj(cur) =~= Seq::<char>::empty());
                assert(without_zwnj(out) + without_zwnj(cur) =~= without_zwnj(out));
            }
            lemma_without_zwnj_split(flushed, seq![c]);
            assert(flushed.push(c) =~= flushed + seq![c]);
            assert(without_zwnj(Seq::<char>::empty()) =~= Seq::<char>::empty());
            assert(without_zwnj(flushed.push(c)) + without_zwnj(Seq::<char>::empty()) =~= without_zwnj(
                flushed.push(c),
            ));
        } else {
            lemma_without_zwnj_split(cur, seq![c]);
            assert(cur.push(c) =~= cur + seq![c]);
        }
    }
}

/// Insertion only ever adds ZWNJs: with every ZWNJ removed, the output is
/// the input with every ZWNJ removed.
pub proof fn law_insert_only_adds_zwnj(s: Seq<char>)
    ensures
        without_zwnj(spec_insert(s)) == without_zwnj(s),
{
    lemma_ins_scan_keep(s);
    let (out, cur) = ins_scan(s);
    if cur.len() > 0 {
        lemma_without_zwnj_split(out, spec_apply(cur));
        lemma_apply_keep(cur);
    } else {
        assert(without_zwnj(cur) =~= Seq::<char>::empty());
        assert(without_zwnj(out) + without_zwnj(cur) =~= without_zwnj(out));
    }
}
} // verus!
