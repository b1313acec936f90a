//! Simple Persian-aware word tokenizer.
//!
//! Splits on Unicode whitespace, keeps ZWNJ inside tokens (it glues compound
//! words), and detaches punctuation as single-character tokens.

use vstd::prelude::*;
use crate::text::{
    chars_of, flush_token, is_whitespace, lemma_take_full, lemma_views_push, push_char,
    spec_is_whitespace, views,
};

verus! {

/// Punctuation characters that always become their own token.
pub open spec fn spec_is_detachable_punct(c: char) -> bool {
    c == '.' || c == '،' || c == ',' || c == '!' || c == '?' || c == '؟' || c == '؛' || c == ';'
        || c == ':' || c == '(' || c == ')' || c == '[' || c == ']' || c == '{' || c == '}' || c
        == '«' || c == '»' || c == '"' || c == '\'' || c == '—' || c == '–'
}

pub fn is_detachable_punct(c: char) -> (b: bool)
    ensures
        b == spec_is_detachable_punct(c),
{
    c == '.' || c == '،' || c == ',' || c == '!' || c == '?' || c == '؟' || c == '؛' || c == ';'
        || c == ':' || c == '(' || c == ')' || c == '[' || c == ']' || c == '{' || c == '}' || c
        == '«' || c == '»' || c == '"' || c == '\'' || c == '—' || c == '–'
}

/// Tokens finished so far and the token being built after reading `s`.
pub open spec fn token_state(s: Seq<char>) -> (Seq<Seq<char>>, Seq<char>)
    decreases s.len(),
{
    if s.len() == 0 {
        (seq![], seq![])
    } else {
        let (toks, cur) = token_state(s.drop_last());
        let c = s.last();
        if spec_is_whitespace(c) {
            (flush_token(toks, cur), seq![])
        } else if spec_is_detachable_punct(c) {
            (flush_token(toks, cur).push(seq![c]), seq![])
        } else {
            (toks, cur.push(c))
        }
    }
}

/// The tokens of `s`.
pub open spec fn spec_tokenize(s: Seq<char>) -> Seq<Seq<char>> {
    let (toks, cur) = token_state(s);
    flush_token(toks, cur)
}

/// Tokenise `text` into a list of tokens.
pub fn tokenize(text: &str) -> (r: Vec<String>)
    ensures
        views(r@) == spec_tokenize(text@),
{
    let chars = chars_of(text);
    let mut tokens: Vec<String> = Vec::new();
    let mut current = String::new();
    let mut i: usize = 0;
    while i < chars.len()
        invariant
            0 <= i <= chars.len(),
            (views(tokens@), current@) == token_state(chars@.take(i as int)),
        decreases chars.len() - i,
    {
        let c = chars[i];
        proof {
            assert(chars@.take(i + 1).drop_last() =~= chars@.take(i as int));
        }
        if is_whitespace(c) {
            flush(&mut current, &mut tokens);
        } else if is_detachable_punct(c) {
            flush(&mut current, &mut tokens);
            let mut p = String::new();
            push_char(&mut p, c);
            assert(p@ =~= seq![c]);
            proof {
                lemma_views_push(tokens@, p);
            }
            tokens.push(p);
        } else {
            push_char(&mut current, c);
        }
        i += 1;
    }
    proof {
        lemma_take_full(chars@);
    }
    flush(&mut current, &mut tokens);
    tokens
}

/// Moves a non-empty `current` token into `tokens`.
fn flush(current: &mut String, tokens: &mut Vec<String>)
    ensures
        views(final(tokens)@) == flush_token(views(old(tokens)@), old(current)@),
        final(current)@ == Seq::<char>::empty(),
{
    if !current.as_str().is_empty() {
        let t = current.clone();
        proof {
            lemma_views_push(tokens@, t);
        }
        tokens.push(t);
    }
    *current = String::new();
}

/// The tokens written one after the other.
pub open spec fn concat_tokens(ts: Seq<Seq<char>>) -> Seq<char>
    decreases ts.len(),
{
    if ts.len() == 0 {
        seq![]
    } else {
        concat_tokens(ts.drop_last()) + ts.last()
    }
}

proof fn lemma_concat_push(ts: Seq<Seq<char>>, t: Seq<char>)
    ensures
        concat_tokens(ts.push(t)) == concat_tokens(ts) + t,
{
    assert(ts.push(t).drop_last() =~= ts);
}

proof fn lemma_flush(toks: Seq<Seq<char>>, cur: Seq<char>)
    ensures
        concat_tokens(crate::text::flush_token(toks, cur)) == concat_tokens(toks) + cur,
{
    if cur.len() > 0 {
        lemma_concat_push(toks, cur);
    } else {
        assert(concat_tokens(toks) + cur =~= concat_tokens(toks));
    }
}

proof fn lemma_token_state(s: Seq<char>)
    ensures
        concat_tokens(token_state(s).0) + token_state(s).1 == crate::text::keep_chars(
            s,
            |c: char| !spec_is_whitespace(c),
        ),
        forall|j: int|
            0 <= j < token_state(s).0.len() ==> (#[trigger] token_state(s).0[j]).len() > 0
                && forall|k: int|
                0 <= k < token_state(s).0[j].len() ==> !spec_is_whitespace(
                    #[trigger] token_state(s).0[j][k],
                ),
        forall|k: int|
            0 <= k < token_state(s).1.len() ==> !spec_is_whitespace(#[trigger] token_state(s).1[k]),
    decreases s.len(),
{
    if s.len() > 0 {
        let p = s.drop_last();
        lemma_token_state(p);
        let (toks, cur) = token_state(p);
        let c = s.last();
        lemma_flush(toks, cur);
        if spec_is_whitespace(c) {
            assert(concat_tokens(crate::text::flush_token(toks, cur)) + seq![] =~= concat_tokens(
                crate::text::flush_token(toks, cur),
            ));
        } else if spec_is_detachable_punct(c) {
            let f = crate::text::flush_token(toks, cur);
            lemma_concat_push(f, seq![c]);
            assert(concat_tokens(f.push(seq![c])) + seq![] =~= concat_tokens(toks) + cur + seq![c]);
            assert((concat_tokens(toks) + cur).push(c) =~= concat_tokens(toks) + cur + seq![c]);
        } else {
            assert(concat_tokens(toks) + cur.push(c) =~= (concat_tokens(toks) + cur).push(c));
        }
    }
}

/// Tokenising loses only whitespace: the tokens, written one after the
/// other, are the text without its whitespace, and every token is
/// non-empty and holds no whitespace.
pub proof fn law_tokens_cover_text(s: Seq<char>)
    ensures
        concat_tokens(spec_tokenize(s)) == crate::text::keep_chars(s, |c: char| !spec_is_whitespace(c)),
        forall|j: int|
            0 <= j < spec_tokenize(s).len() ==> (#[trigger] spec_tokenize(s)[j]).len() > 0
                && forall|k: int|
                0 <= k < spec_tokenize(s)[j].len() ==> !spec_is_whitespace(
                    #[trigger] spec_tokenize(s)[j][k],
                ),
{
    lemma_token_state(s);
    let (toks, cur) = token_state(s);
    lemma_flush(toks, cur);
}

} // verus!
