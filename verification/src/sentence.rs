//! Sentence boundary detection for Persian text.
//!
//! Boundaries are `.` `!` `؟` (U+061F) and `؛` (U+061B); the delimiter stays
//! attached to its sentence.  ZWNJ is not a boundary.

use vstd::prelude::*;
use crate::text::{
    chars_of, lemma_take_full, lemma_views_push, spec_trim,
    string_from_chars, trim_chars, views,
};

verus! {

pub open spec fn spec_is_sentence_boundary(c: char) -> bool {
    c == '.' || c == '!' || c == '؟' || c == '؛'
}

pub fn is_sentence_boundary(c: char) -> (b: bool)
    ensures
        b == spec_is_sentence_boundary(c),
{
    c == '.' || c == '!' || c == '؟' || c == '؛'
}

/// A fragment holds something besides delimiters.
pub open spec fn has_content(t: Seq<char>) -> bool {
    exists|k: int| 0 <= k < t.len() && !spec_is_sentence_boundary(#[trigger] t[k])
}

/// `sents` with the trimmed fragment `t` added when it holds something
/// besides delimiters (so consecutive delimiters add no sentence).
pub open spec fn flush_sentence(sents: Seq<Seq<char>>, t: Seq<char>) -> Seq<Seq<char>> {
    if has_content(t) {
        sents.push(t)
    } else {
        sents
    }
}

fn content_check(v: &Vec<char>) -> (b: bool)
    ensures
        b == has_content(v@),
{
    let mut k: usize = 0;
    while k < v.len()
        invariant
            0 <= k <= v.len(),
            forall|j: int| 0 <= j < k ==> spec_is_sentence_boundary(#[trigger] v@[j]),
        decreases v.len() - k,
    {
        if !is_sentence_boundary(v[k]) {
            return true;
        }
        k += 1;
    }
    false
}

/// Sentences closed so far and the open fragment after reading `s`.
pub open spec fn sentence_state(s: Seq<char>) -> (Seq<Seq<char>>, Seq<char>)
    decreases s.len(),
{
    if s.len() == 0 {
        (seq![], seq![])
    } else {
        let (sents, cur) = sentence_state(s.drop_last());
        let cur2 = cur.push(s.last());
        if spec_is_sentence_boundary(s.last()) {
            (flush_sentence(sents, spec_trim(cur2)), seq![])
        } else {
            (sents, cur2)
        }
    }
}

/// The trimmed sentences of `s`, delimiters attached; fragments of nothing
/// but delimiters are dropped.
pub open spec fn spec_split_sentences(s: Seq<char>) -> Seq<Seq<char>> {
    let (sents, cur) = sentence_state(s);
    flush_sentence(sents, spec_trim(cur))
}

/// Split `text` into sentences on `.` `!` `؟` `؛`; the delimiter stays with
/// its sentence, and consecutive delimiters add no sentence.
pub fn split_sentences(text: &str) -> (r: Vec<String>)
    ensures
        views(r@) == spec_split_sentences(text@),
{
    let chars = chars_of(text);
    let mut sentences: Vec<String> = Vec::new();
    let mut current: Vec<char> = Vec::new();
    let mut i: usize = 0;
    while i < chars.len()
        invariant
            0 <= i <= chars.len(),
            (views(sentences@), current@) == sentence_state(chars@.take(i as int)),
        decreases chars.len() - i,
    {
        let c = chars[i];
        proof {
            assert(chars@.take(i + 1).drop_last() =~= chars@.take(i as int));
        }
        current.push(c);
        if is_sentence_boundary(c) {
            let trimmed = trim_chars(&current);
            if content_check(&trimmed) {
                let t = string_from_chars(&trimmed);
                proof {
                    lemma_views_push(sentences@, t);
                }
                sentences.push(t);
            }
            current = Vec::new();
        }
        i += 1;
    }
    proof {
        lemma_take_full(chars@);
    }
    let tail = trim_chars(&current);
    if content_check(&tail) {
        let t = string_from_chars(&tail);
        proof {
            lemma_views_push(sentences@, t);
        }
        sentences.push(t);
    }
    sentences
}

/// A sentence as the splitter produces it: non-empty, no whitespace at
/// either end, starting with something other than a delimiter, and no
/// delimiter before its last character.
pub open spec fn is_sentence(t: Seq<char>) -> bool {
    &&& t.len() > 0
    &&& !spec_is_sentence_boundary(t[0])
    &&& !crate::text::spec_is_whitespace(t[0])
    &&& !crate::text::spec_is_whitespace(t.last())
    &&& forall|k: int| 0 <= k < t.len() - 1 ==> !spec_is_sentence_boundary(#[trigger] t[k])
}

proof fn lemma_trim_parts(u: Seq<char>)
    ensures
        ({
            let lo = skip_ws_from_start(u);
            let hi = crate::text::skip_ws_back(u, lo, u.len() as int);
            &&& 0 <= lo <= hi <= u.len()
            &&& spec_trim(u) == u.subrange(lo, hi)
            &&& (hi > lo ==> !crate::text::spec_is_whitespace(u[lo])
                && !crate::text::spec_is_whitespace(u[hi - 1]))
            &&& (u.len() > 0 && !crate::text::spec_is_whitespace(u.last()) ==> hi == u.len() && lo
                < u.len())
        }),
{
    crate::text::lemma_skip_ws_bounds(u, 0);
    let lo = skip_ws_from_start(u);
    crate::text::lemma_skip_ws_back_bounds(u, lo, u.len() as int);
}

spec fn skip_ws_from_start(u: Seq<char>) -> int {
    crate::text::skip_ws(u, 0)
}

proof fn lemma_sentence_state(s: Seq<char>)
    ensures
        forall|j: int|
            0 <= j < sentence_state(s).0.len() ==> is_sentence(#[trigger] sentence_state(s).0[j])
                && spec_is_sentence_boundary(sentence_state(s).0[j].last()),
        forall|k: int|
            0 <= k < sentence_state(s).1.len() ==> !spec_is_sentence_boundary(
                #[trigger] sentence_state(s).1[k],
            ),
    decreases s.len(),
{
    if s.len() > 0 {
        let p = s.drop_last();
        lemma_sentence_state(p);
        let (sents, cur) = sentence_state(p);
        let c = s.last();
        let cur2 = cur.push(c);
        if spec_is_sentence_boundary(c) {
            lemma_trim_parts(cur2);
            let t = spec_trim(cur2);
            let lo = skip_ws_from_start(cur2);
            assert(t.len() > 0 && t.last() == c);
            assert forall|k: int| 0 <= k < t.len() - 1 implies !spec_is_sentence_boundary(
                #[trigger] t[k],
            ) by {
                assert(t[k] == cur2[lo + k]);
                assert(cur2[lo + k] == cur[lo + k]);
            }
            if has_content(t) {
                if t.len() == 1 {
                    let k = choose|k: int| 0 <= k < t.len() && !spec_is_sentence_boundary(#[trigger] t[k]);
                    assert(k == 0);
                }
                assert(is_sentence(t));
            }
        }
    }
}

/// Sentences are non-empty and trimmed, start with something other than a
/// delimiter (`.` `!` `؟` `؛`), hold a delimiter only as their last
/// character, and every sentence but the last ends with one.
pub proof fn law_sentences_shape(s: Seq<char>)
    ensures
        forall|j: int|
            0 <= j < spec_split_sentences(s).len() ==> is_sentence(
                #[trigger] spec_split_sentences(s)[j],
            ),
        forall|j: int|
            0 <= j < spec_split_sentences(s).len() - 1 ==> spec_is_sentence_boundary(
                (#[trigger] spec_split_sentences(s)[j]).last(),
            ),
{
    lemma_sentence_state(s);
    let (sents, cur) = sentence_state(s);
    lemma_trim_parts(cur);
    let t = spec_trim(cur);
    let lo = skip_ws_from_start(cur);
    if t.len() > 0 {
        assert forall|k: int| 0 <= k < t.len() - 1 implies !spec_is_sentence_boundary(
            #[trigger] t[k],
        ) by {
            assert(t[k] == cur[lo + k]);
        }
        assert(t[0] == cur[lo]);
        assert(has_content(t));
        assert(is_sentence(t));
    }
}


/// A character that carries content: neither whitespace nor a delimiter.
pub open spec fn is_content(c: char) -> bool {
    !crate::text::spec_is_whitespace(c) && !spec_is_sentence_boundary(c)
}

pub open spec fn content() -> spec_fn(char) -> bool {
    |c: char| is_content(c)
}

proof fn lemma_filter_push(p: Seq<char>, c: char)
    ensures
        p.push(c).filter(content()) == (if is_content(c) {
            p.filter(content()).push(c)
        } else {
            p.filter(content())
        }),
{
    reveal(Seq::filter);
    assert(p.push(c).drop_last() =~= p);
}

proof fn lemma_filter_none(x: Seq<char>)
    requires
        forall|k: int| 0 <= k < x.len() ==> !is_content(#[trigger] x[k]),
    ensures
        x.filter(content()) == Seq::<char>::empty(),
    decreases x.len(),
{
    reveal(Seq::filter);
    if x.len() > 0 {
        let p = x.drop_last();
        assert forall|k: int| 0 <= k < p.len() implies !is_content(#[trigger] p[k]) by {
            assert(p[k] == x[k]);
        }
        lemma_filter_none(p);
        assert(!is_content(x[x.len() - 1]));
    }
}

proof fn lemma_trim_content(u: Seq<char>)
    ensures
        spec_trim(u).filter(content()) == u.filter(content()),
{
    lemma_trim_parts(u);
    let lo = skip_ws_from_start(u);
    let hi = crate::text::skip_ws_back(u, lo, u.len() as int);
    crate::text::lemma_skip_ws_bounds(u, 0);
    crate::text::lemma_skip_ws_back_bounds(u, lo, u.len() as int);
    let a = u.subrange(0, lo);
    let m = u.subrange(lo, hi);
    let b = u.subrange(hi, u.len() as int);
    assert(u =~= a + m + b);
    assert forall|k: int| 0 <= k < a.len() implies !is_content(#[trigger] a[k]) by {
        assert(a[k] == u[k]);
    }
    assert forall|k: int| 0 <= k < b.len() implies !is_content(#[trigger] b[k]) by {
        assert(b[k] == u[hi + k]);
    }
    lemma_filter_none(a);
    lemma_filter_none(b);
    Seq::filter_distributes_over_add(a + m, b, content());
    Seq::filter_distributes_over_add(a, m, content());
    assert(Seq::<char>::empty() + m.filter(content()) + Seq::<char>::empty() =~= m.filter(
        content(),
    ));
}

/// Flushing `t` adds exactly `t`'s content, which is none when the
/// fragment is dropped.
proof fn lemma_flush_content(sents: Seq<Seq<char>>, t: Seq<char>)
    ensures
        flush_sentence(sents, t).flatten_alt().filter(content()) == sents.flatten_alt().filter(
            content(),
        ) + t.filter(content()),
{
    if has_content(t) {
        let q = sents.push(t);
        assert(q.drop_last() =~= sents);
        Seq::filter_distributes_over_add(sents.flatten_alt(), t, content());
    } else {
        assert forall|k: int| 0 <= k < t.len() implies !is_content(#[trigger] t[k]) by {
            if !spec_is_sentence_boundary(t[k]) {
                assert(has_content(t));
            }
        }
        lemma_filter_none(t);
        assert(sents.flatten_alt().filter(content()) + t.filter(content()) =~= sents.flatten_alt(
        ).filter(content()));
    }
}

proof fn lemma_state_content(s: Seq<char>)
    ensures
        sentence_state(s).0.flatten_alt().filter(content()) + sentence_state(s).1.filter(content())
            == s.filter(content()),
    decreases s.len(),
{
    reveal(Seq::filter);
    if s.len() == 0 {
        let e = Seq::<Seq<char>>::empty();
        assert(e.flatten_alt() =~= Seq::<char>::empty());
        assert(Seq::<char>::empty().filter(content()) + Seq::<char>::empty().filter(content())
            =~= Seq::<char>::empty());
    } else {
        let p = s.drop_last();
        lemma_state_content(p);
        let (sents, cur) = sentence_state(p);
        let c = s.last();
        let cur2 = cur.push(c);
        lemma_filter_push(cur, c);
        assert(p.push(c) =~= s);
        lemma_filter_push(p, c);
        if spec_is_sentence_boundary(c) {
            lemma_trim_content(cur2);
            lemma_flush_content(sents, spec_trim(cur2));
            assert(Seq::<char>::empty().filter(content()) =~= Seq::<char>::empty());
            assert(flush_sentence(sents, spec_trim(cur2)).flatten_alt().filter(content())
                + Seq::<char>::empty() =~= flush_sentence(sents, spec_trim(cur2)).flatten_alt(
            ).filter(content()));
        } else if is_content(c) {
            assert(sents.flatten_alt().filter(content()) + cur.filter(content()).push(c)
                =~= (sents.flatten_alt().filter(content()) + cur.filter(content())).push(c));
        }
    }
}

/// Splitting loses no content: the sentences, put back together, hold the
/// text's characters other than whitespace and delimiters, in order.
pub proof fn law_sentences_keep_content(s: Seq<char>)
    ensures
        spec_split_sentences(s).flatten().filter(content()) == s.filter(content()),
{
    lemma_state_content(s);
    let (sents, cur) = sentence_state(s);
    lemma_trim_content(cur);
    lemma_flush_content(sents, spec_trim(cur));
    spec_split_sentences(s).lemma_flatten_and_flatten_alt_are_equivalent();
}
} // verus!
