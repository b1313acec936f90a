//! URL helpers for Persian text: percent-encoding ([`encode`]), decoding
//! ([`decode`]) and making the path and query of a URL legible ([`fix`]).

use vstd::prelude::*;
use vstd::utf8::{decode_utf8, encode_utf8, valid_utf8};
use crate::text::{chars_of, matches_at, push_char, string_from_range, subvec};

verus! {

/// What `String::from_utf8_lossy` makes of a byte sequence.
pub uninterp spec fn utf8_lossy(bytes: Seq<u8>) -> Seq<char>;

/// `String::from_utf8_lossy(..).into_owned()`: the decoded text, with each
/// invalid sequence replaced by U+FFFD.  The result is named `utf8_lossy`;
/// of it this states what std documents: valid UTF-8 decodes exactly.
#[verifier::external_body]
fn from_utf8_lossy(bytes: &Vec<u8>) -> (s: String)
    ensures
        s@ == utf8_lossy(bytes@),
        valid_utf8(bytes@) ==> s@ == decode_utf8(bytes@),
{
    String::from_utf8_lossy(bytes).into_owned()
}

/// RFC 3986 unreserved bytes: `A-Z a-z 0-9 - _ . ~`.
pub open spec fn is_unreserved(b: u8) -> bool {
    (0x30 <= b <= 0x39) || (0x41 <= b <= 0x5A) || (0x61 <= b <= 0x7A) || b == 0x2D || b == 0x5F
        || b == 0x2E || b == 0x7E
}

/// Upper-case hexadecimal digit for a nibble.
pub open spec fn hex_digit(n: int) -> char {
    if n < 10 {
        (48 + n) as char
    } else {
        (55 + n) as char
    }
}

/// The encoding of one byte.
pub open spec fn enc_byte(b: u8) -> Seq<char> {
    if is_unreserved(b) {
        seq![b as char]
    } else {
        seq!['%', hex_digit((b / 16) as int), hex_digit((b % 16) as int)]
    }
}

/// The encoding of a byte sequence.
pub open spec fn enc_bytes(b: Seq<u8>) -> Seq<char>
    decreases b.len(),
{
    if b.len() == 0 {
        seq![]
    } else {
        enc_byte(b[0]) + enc_bytes(b.skip(1))
    }
}

/// Percent-encoding of `text`'s UTF-8 bytes.
pub open spec fn spec_encode(text: Seq<char>) -> Seq<char> {
    enc_bytes(encode_utf8(text))
}

/// Value of a hexadecimal digit byte.
pub open spec fn hex_value(c: u8) -> Option<u8> {
    if 0x30 <= c <= 0x39 {
        Some((c - 0x30) as u8)
    } else if 0x61 <= c <= 0x66 {
        Some((c - 0x61 + 10) as u8)
    } else if 0x41 <= c <= 0x46 {
        Some((c - 0x41 + 10) as u8)
    } else {
        None
    }
}

/// Percent-decoding of the bytes of `b` from index `i` on; malformed `%`
/// sequences pass through.
pub open spec fn pct_from(b: Seq<u8>, i: int) -> Seq<u8>
    decreases b.len() - i,
{
    if i < 0 || i >= b.len() {
        seq![]
    } else if b[i] == 0x25 && i + 2 < b.len() && hex_value(b[i + 1]) is Some && hex_value(
        b[i + 2],
    ) is Some {
        seq![(hex_value(b[i + 1])->0 * 16 + hex_value(b[i + 2])->0) as u8] + pct_from(b, i + 3)
    } else {
        seq![b[i]] + pct_from(b, i + 1)
    }
}

/// The decoded text.
pub open spec fn spec_decode(text: Seq<char>) -> Seq<char> {
    utf8_lossy(pct_from(encode_utf8(text), 0))
}

proof fn lemma_enc_bytes_append(x: Seq<u8>, y: Seq<u8>)
    ensures
        enc_bytes(x + y) == enc_bytes(x) + enc_bytes(y),
    decreases x.len(),
{
    if x.len() == 0 {
        assert(x + y =~= y);
    } else {
        lemma_enc_bytes_append(x.skip(1), y);
        assert((x + y).skip(1) =~= x.skip(1) + y);
        assert((x + y)[0] == x[0]);
    }
}

fn hex_nibble(n: u8) -> (c: char)
    requires
        n < 16,
    ensures
        c == hex_digit(n as int),
{
    if n < 10 {
        (48 + n) as char
    } else {
        (55 + n) as char
    }
}

/// Percent-encode `text` per RFC 3986: keep `A-Z a-z 0-9 - _ . ~`,
/// percent-encode every other UTF-8 byte as `%XX`.
pub fn encode(text: &str) -> (s: String)
    ensures
        s@ == spec_encode(text@),
{
    let bytes = text.as_bytes();
    let mut out = String::new();
    let mut i: usize = 0;
    while i < bytes.len()
        invariant
            0 <= i <= bytes@.len(),
            bytes@ == encode_utf8(text@),
            out@ == enc_bytes(bytes@.take(i as int)),
        decreases bytes@.len() - i,
    {
        let b = bytes[i];
        proof {
            lemma_enc_bytes_append(bytes@.take(i as int), seq![b]);
            assert(bytes@.take(i + 1) =~= bytes@.take(i as int) + seq![b]);
            assert(seq![b].skip(1) =~= Seq::<u8>::empty());
            assert(enc_bytes(Seq::<u8>::empty()) =~= Seq::<char>::empty());
            assert(enc_bytes(seq![b]) =~= enc_byte(b));
        }
        if (0x30 <= b && b <= 0x39) || (0x41 <= b && b <= 0x5A) || (0x61 <= b && b <= 0x7A) || b
            == 0x2D || b == 0x5F || b == 0x2E || b == 0x7E {
            push_char(&mut out, b as char);
        } else {
            push_char(&mut out, '%');
            push_char(&mut out, hex_nibble(b / 16));
            push_char(&mut out, hex_nibble(b % 16));
        }
        i += 1;
    }
    assert(bytes@.take(bytes@.len() as int) =~= bytes@);
    out
}

fn hex_val(c: u8) -> (r: Option<u8>)
    ensures
        r == hex_value(c),
{
    if 0x30 <= c && c <= 0x39 {
        Some(c - 0x30)
    } else if 0x61 <= c && c <= 0x66 {
        Some(c - 0x61 + 10)
    } else if 0x41 <= c && c <= 0x46 {
        Some(c - 0x41 + 10)
    } else {
        None
    }
}

/// Percent-decode `text`.  Invalid `%XX` sequences are passed through, and
/// bytes that do not form UTF-8 become U+FFFD, so this never fails.
pub fn decode(text: &str) -> (s: String)
    ensures
        s@ == spec_decode(text@),
        valid_utf8(pct_from(encode_utf8(text@), 0)) ==> s@ == decode_utf8(
            pct_from(encode_utf8(text@), 0),
        ),
{
    let bytes = text.as_bytes();
    let mut buf: Vec<u8> = Vec::new();
    let mut i: usize = 0;
    while i < bytes.len()
        invariant
            0 <= i <= bytes@.len(),
            bytes@ == encode_utf8(text@),
            buf@ + pct_from(bytes@, i as int) == pct_from(bytes@, 0),
        decreases bytes@.len() - i,
    {
        if bytes[i] == 0x25 && bytes.len() - i > 2 {
            match (hex_val(bytes[i + 1]), hex_val(bytes[i + 2])) {
                (Some(h), Some(l)) => {
                    let v: u8 = h * 16 + l;
                    assert(buf@.push(v) + pct_from(bytes@, i + 3) =~= buf@ + pct_from(
                        bytes@,
                        i as int,
                    ));
                    buf.push(v);
                    i += 3;
                    continue ;
                },
                _ => {},
            }
        }
        assert(buf@.push(bytes@[i as int]) + pct_from(bytes@, i + 1) =~= buf@ + pct_from(
            bytes@,
            i as int,
        ));
        buf.push(bytes[i]);
        i += 1;
    }
    assert(buf@ + pct_from(bytes@, i as int) =~= buf@);
    from_utf8_lossy(&buf)
}

/// Index of the first `/`, `?` or `#` at or after `i`, or the length.
pub open spec fn authority_end(s: Seq<char>, i: int) -> int
    decreases s.len() - i,
{
    if i < 0 || i >= s.len() {
        s.len() as int
    } else if s[i] == '/' || s[i] == '?' || s[i] == '#' {
        i
    } else {
        authority_end(s, i + 1)
    }
}

/// Start of the first `"://"` in `s` at or after `i`.
pub open spec fn find_scheme_sep(s: Seq<char>, i: int) -> Option<int>
    decreases s.len() - i,
{
    if i < 0 || i + 3 > s.len() {
        None
    } else if s[i] == ':' && s[i + 1] == '/' && s[i + 2] == '/' {
        Some(i)
    } else {
        find_scheme_sep(s, i + 1)
    }
}

/// `url` with its path and query decoded and the scheme and authority kept.
pub open spec fn spec_fix(url: Seq<char>) -> Seq<char> {
    match find_scheme_sep(url, 0) {
        Some(k) => {
            let cut = authority_end(url, k + 3);
            url.take(cut) + spec_decode(url.skip(cut))
        },
        None => spec_decode(url),
    }
}

fn find_scheme(v: &Vec<char>) -> (r: Option<usize>)
    ensures
        r matches Some(k) ==> find_scheme_sep(v@, 0) == Some(k as int) && k + 3 <= v.len(),
        r is None ==> find_scheme_sep(v@, 0) is None,
{
    if v.len() < 3 {
        return None;
    }
    let mut k: usize = 0;
    while k <= v.len() - 3
        invariant
            v.len() >= 3,
            0 <= k <= v.len() - 2,
            find_scheme_sep(v@, 0) == find_scheme_sep(v@, k as int),
        decreases v.len() - k,
    {
        if v[k] == ':' && v[k + 1] == '/' && v[k + 2] == '/' {
            return Some(k);
        }
        k += 1;
    }
    None
}

fn find_authority_end(v: &Vec<char>, from: usize) -> (e: usize)
    requires
        from <= v.len(),
    ensures
        e == authority_end(v@, from as int),
        from <= e <= v.len(),
{
    let mut e = from;
    while e < v.len()
        invariant
            from <= e <= v.len(),
            authority_end(v@, from as int) == authority_end(v@, e as int),
        decreases v.len() - e,
    {
        if v[e] == '/' || v[e] == '?' || v[e] == '#' {
            return e;
        }
        e += 1;
    }
    e
}

/// Decode the path and query of a URL while leaving the scheme and
/// authority untouched; without `://` the whole string is decoded.
pub fn fix(url: &str) -> (s: String)
    ensures
        s@ == spec_fix(url@),
{
    let v = chars_of(url);
    let k = match find_scheme(&v) {
        Some(k) => k,
        None => return decode(url),
    };
    let e = find_authority_end(&v, k + 3);
    let mut out = string_from_range(&v, 0, e);
    let rest = string_from_range(&v, e, v.len());
    let d = decode(rest.as_str());
    out.append(d.as_str());
    assert(v@.subrange(0, e as int) =~= v@.take(e as int));
    assert(v@.subrange(e as int, v.len() as int) =~= v@.skip(e as int));
    out
}


/// The byte values of ASCII characters.
pub open spec fn ascii_bytes(e: Seq<char>) -> Seq<u8> {
    Seq::new(e.len(), |i: int| e[i] as u8)
}

proof fn lemma_enc_ascii(b: Seq<u8>)
    ensures
        vstd::utf8::is_ascii_chars(enc_bytes(b)),
    decreases b.len(),
{
    if b.len() > 0 {
        lemma_enc_ascii(b.skip(1));
        let x = enc_byte(b[0]);
        let y = enc_bytes(b.skip(1));
        assert forall|i: int| 0 <= i < (x + y).len() implies '\0' <= #[trigger] (x + y)[i]
            <= '\u{7f}' by {
            if i >= x.len() {
                assert((x + y)[i] == y[i - x.len()]);
            }
        }
    }
}

proof fn lemma_pct_shift(z: Seq<u8>, k: int)
    requires
        0 <= k <= z.len(),
    ensures
        pct_from(z, k) == pct_from(z.skip(k), 0),
    decreases z.len() - k,
{
    let w = z.skip(k);
    if k < z.len() {
        assert(w[0] == z[k]);
        if z.len() - k > 1 {
            assert(w[1] == z[k + 1]);
        }
        if z.len() - k > 2 {
            assert(w[2] == z[k + 2]);
        }
        if k + 3 <= z.len() {
            lemma_pct_shift(z, k + 3);
            lemma_pct_shift(w, 3);
            assert(w.skip(3) =~= z.skip(k + 3));
        }
        lemma_pct_shift(z, k + 1);
        lemma_pct_shift(w, 1);
        assert(w.skip(1) =~= z.skip(k + 1));
    } else {
        assert(w.len() == 0);
    }
}

proof fn lemma_hex_round_trip(n: int)
    requires
        0 <= n < 16,
    ensures
        hex_value(hex_digit(n) as u8) == Some(n as u8),
        hex_digit(n) as u8 != 0x25,
{
    if n < 10 {
        assert(hex_digit(n) as u8 == 48 + n);
    } else {
        assert(hex_digit(n) as u8 == 55 + n);
    }
}

proof fn lemma_pct_enc(b: Seq<u8>)
    ensures
        pct_from(ascii_bytes(enc_bytes(b)), 0) == b,
    decreases b.len(),
{
    if b.len() == 0 {
        assert(ascii_bytes(enc_bytes(b)).len() == 0);
        assert(pct_from(ascii_bytes(enc_bytes(b)), 0) =~= b);
    } else {
        lemma_pct_enc(b.skip(1));
        let b0 = b[0];
        let x = ascii_bytes(enc_byte(b0));
        let y = ascii_bytes(enc_bytes(b.skip(1)));
        let z = ascii_bytes(enc_bytes(b));
        assert(z =~= x + y);
        if is_unreserved(b0) {
            assert(x =~= seq![b0]);
            lemma_pct_shift(z, 1);
            assert(z.skip(1) =~= y);
            assert(pct_from(z, 0) == seq![b0] + pct_from(z, 1));
        } else {
            let h = (b0 / 16) as int;
            let l = (b0 % 16) as int;
            lemma_hex_round_trip(h);
            lemma_hex_round_trip(l);
            assert(x =~= seq![0x25u8, hex_digit(h) as u8, hex_digit(l) as u8]);
            assert(z[0] == 0x25 && z[1] == hex_digit(h) as u8 && z[2] == hex_digit(l) as u8);
            lemma_pct_shift(z, 3);
            assert(z.skip(3) =~= y);
            assert((h * 16 + l) as u8 == b0);
            assert(pct_from(z, 0) == seq![b0] + pct_from(z, 3));
        }
        assert(seq![b0] + b.skip(1) =~= b);
    }
}

/// Decoding undoes encoding: percent-decoding the bytes of `encode(s)`
/// gives back exactly the UTF-8 bytes of `s`, which are valid UTF-8 and
/// decode to `s` (so `decode(&encode(s)) == s`).
pub proof fn law_decode_undoes_encode(s: Seq<char>)
    ensures
        pct_from(encode_utf8(spec_encode(s)), 0) == encode_utf8(s),
        valid_utf8(encode_utf8(s)),
        decode_utf8(encode_utf8(s)) == s,
{
    let b = encode_utf8(s);
    let e = enc_bytes(b);
    lemma_enc_ascii(b);
    vstd::utf8::is_ascii_chars_encode_utf8(e);
    assert(encode_utf8(e) =~= ascii_bytes(e));
    lemma_pct_enc(b);
    vstd::utf8::encode_utf8_valid_utf8(s);
    vstd::utf8::encode_utf8_decode_utf8(s);
}

/// `"://"` starts at `i` in `s`.
pub open spec fn scheme_sep_at(s: Seq<char>, i: int) -> bool {
    0 <= i && i + 3 <= s.len() && s[i] == ':' && s[i + 1] == '/' && s[i + 2] == '/'
}

/// A character that ends the authority: `/`, `?` or `#`.
pub open spec fn ends_authority(c: char) -> bool {
    c == '/' || c == '?' || c == '#'
}

proof fn lemma_find_scheme_sep(s: Seq<char>, m: int, i: int)
    requires
        0 <= m <= i,
        scheme_sep_at(s, i),
        forall|n: int| m <= n < i ==> !scheme_sep_at(s, n),
    ensures
        find_scheme_sep(s, m) == Some(i),
    decreases i - m,
{
    if m < i {
        assert(!scheme_sep_at(s, m));
        lemma_find_scheme_sep(s, m + 1, i);
    }
}

proof fn lemma_no_scheme_sep(s: Seq<char>, m: int)
    requires
        0 <= m,
        forall|n: int| m <= n ==> !scheme_sep_at(s, n),
    ensures
        find_scheme_sep(s, m) is None,
    decreases s.len() - m,
{
    if m + 3 <= s.len() {
        assert(!scheme_sep_at(s, m));
        lemma_no_scheme_sep(s, m + 1);
    }
}

proof fn lemma_authority_end(s: Seq<char>, m: int, j: int)
    requires
        0 <= m <= j <= s.len(),
        forall|k: int| m <= k < j ==> !ends_authority(#[trigger] s[k]),
        j == s.len() || ends_authority(s[j]),
    ensures
        authority_end(s, m) == j,
    decreases j - m,
{
    if m < j {
        assert(!ends_authority(s[m]));
        lemma_authority_end(s, m + 1, j);
    }
}

/// Without `"://"` the whole text is decoded.
pub proof fn law_fix_without_scheme(url: Seq<char>)
    requires
        forall|n: int| 0 <= n ==> !scheme_sep_at(url, n),
    ensures
        spec_fix(url) == spec_decode(url),
{
    lemma_no_scheme_sep(url, 0);
}

/// With the first `"://"` at `i` and the first `/`, `?` or `#` after it at
/// `j` (or `j` the length when there is none), the text up to `j` (scheme
/// and authority) is kept as it is and the rest is decoded.
pub proof fn law_fix_with_scheme(url: Seq<char>, i: int, j: int)
    requires
        scheme_sep_at(url, i),
        forall|n: int| 0 <= n < i ==> !scheme_sep_at(url, n),
        i + 3 <= j <= url.len(),
        forall|k: int| i + 3 <= k < j ==> !ends_authority(#[trigger] url[k]),
        j == url.len() || ends_authority(url[j]),
    ensures
        spec_fix(url) == url.take(j) + spec_decode(url.skip(j)),
{
    lemma_find_scheme_sep(url, 0, i);
    lemma_authority_end(url, i + 3, j);
}
} // verus!
