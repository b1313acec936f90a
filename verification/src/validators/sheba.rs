//! Iranian Sheba (شبا) / IBAN validation, bank lookup and generation.
//!
//! Iranian IBANs are `IR` + 24 digits.  The checksum follows ISO 13616: move
//! the first four characters to the end, read `I` as 18 and `R` as 27, and
//! the remainder modulo 97 must be 1.  Digits 5–7 name the bank.

use vstd::prelude::*;
use crate::normalizer::digits::{digit_value, LATIN_DIGITS};
use crate::decimal::zeros;
use crate::text::{chars_of, cp, is_whitespace, push_char, spec_is_whitespace};
use crate::validators::banks::{find_code, first_index, SHEBA_CODES, SHEBA_EN, SHEBA_FA};
use vstd::arithmetic::div_mod::{lemma_fundamental_div_mod, lemma_mod_multiples_vanish};

verus! {

/// Canonical characters of an IBAN: separators (whitespace, `-`) dropped,
/// `i`/`r` upper-cased, digits in Latin; `None` on any other character.
pub open spec fn sheba_chars(s: Seq<char>) -> Option<Seq<char>>
    decreases s.len(),
{
    if s.len() == 0 {
        Some(seq![])
    } else {
        match sheba_chars(s.drop_last()) {
            None => None,
            Some(p) => {
                let c = s.last();
                if spec_is_whitespace(c) || c == '-' {
                    Some(p)
                } else if c == 'I' || c == 'i' {
                    Some(p.push('I'))
                } else if c == 'R' || c == 'r' {
                    Some(p.push('R'))
                } else {
                    match digit_value(c) {
                        Some(d) => Some(p.push(LATIN_DIGITS[d])),
                        None => None,
                    }
                }
            },
        }
    }
}

/// `IR` followed by 24 Latin digits.
pub open spec fn is_canonical_iban(out: Seq<char>) -> bool {
    &&& out.len() == 26
    &&& out[0] == 'I'
    &&& out[1] == 'R'
    &&& forall|i: int| 2 <= i < 26 ==> '0' <= #[trigger] out[i] <= '9'
}

/// The canonical form of a structurally well-formed IBAN.
pub open spec fn spec_canonical(s: Seq<char>) -> Option<Seq<char>> {
    match sheba_chars(s) {
        Some(out) => if is_canonical_iban(out) {
            Some(out)
        } else {
            None
        },
        None => None,
    }
}

/// Numeric value of one IBAN character: `I` = 18, `R` = 27, digits as
/// themselves, anything else 0.
pub open spec fn iban_value(c: char) -> int {
    if c == 'I' {
        18
    } else if c == 'R' {
        27
    } else if '0' <= c <= '9' {
        cp(c) - 48
    } else {
        0
    }
}

/// One step of the running remainder: two-digit values shift by 100.
pub open spec fn mod97_step(r: int, c: char) -> int {
    let v = iban_value(c);
    if v >= 10 {
        (r * 100 + v) % 97
    } else {
        (r * 10 + v) % 97
    }
}

/// The remainder modulo 97 of the number spelled by `s`.
pub open spec fn mod97_fold(s: Seq<char>) -> int
    decreases s.len(),
{
    if s.len() == 0 {
        0
    } else {
        mod97_step(mod97_fold(s.drop_last()), s.last())
    }
}

/// The check characters moved to the end.
pub open spec fn rearranged(canon: Seq<char>) -> Seq<char> {
    canon.subrange(4, 26) + seq!['I', 'R'] + canon.subrange(2, 4)
}

/// A valid Iranian IBAN.
pub open spec fn spec_validate(s: Seq<char>) -> bool {
    match spec_canonical(s) {
        Some(c) => mod97_fold(rearranged(c)) == 1,
        None => false,
    }
}

fn iban_value_exec(c: char) -> (v: u32)
    ensures
        v == iban_value(c),
        v <= 27,
{
    if c == 'I' {
        18
    } else if c == 'R' {
        27
    } else if '0' <= c && c <= '9' {
        c as u32 - 48
    } else {
        0
    }
}

fn mod97_exec(s: &Vec<char>) -> (r: u32)
    ensures
        r == mod97_fold(s@),
        r < 97,
{
    let mut r: u32 = 0;
    let mut i: usize = 0;
    while i < s.len()
        invariant
            0 <= i <= s.len(),
            r == mod97_fold(s@.take(i as int)),
            r < 97,
        decreases s.len() - i,
    {
        assert(s@.take(i + 1).drop_last() =~= s@.take(i as int));
        let v = iban_value_exec(s[i]);
        if v >= 10 {
            r = (r * 100 + v) % 97;
        } else {
            r = (r * 10 + v) % 97;
        }
        i += 1;
    }
    assert(s@.take(s.len() as int) =~= s@);
    r
}

fn canonical_chars(sheba: &str) -> (r: Option<Vec<char>>)
    ensures
        r matches Some(v) ==> spec_canonical(sheba@) == Some(v@),
        r is None ==> spec_canonical(sheba@) is None,
{
    let chars = chars_of(sheba);
    let mut out: Vec<char> = Vec::new();
    let mut i: usize = 0;
    while i < chars.len()
        invariant
            0 <= i <= chars.len(),
            chars@ == sheba@,
            sheba_chars(chars@.take(i as int)) == Some(out@),
        decreases chars.len() - i,
    {
        assert(chars@.take(i + 1).drop_last() =~= chars@.take(i as int));
        let c = chars[i];
        if is_whitespace(c) || c == '-' {
        } else if c == 'I' || c == 'i' {
            out.push('I');
        } else if c == 'R' || c == 'r' {
            out.push('R');
        } else {
            let u = c as u32;
            let d: u32 = if 0x30 <= u && u <= 0x39 {
                u - 0x30
            } else if 0x0660 <= u && u <= 0x0669 {
                u - 0x0660
            } else if 0x06F0 <= u && u <= 0x06F9 {
                u - 0x06F0
            } else {
                proof {
                    lemma_sheba_chars_none(chars@, i as int);
                }
                return None;
            };
            out.push(LATIN_DIGITS[d as usize]);
        }
        i += 1;
    }
    assert(chars@.take(chars.len() as int) =~= chars@);
    if out.len() != 26 || out[0] != 'I' || out[1] != 'R' {
        return None;
    }
    let mut k: usize = 2;
    while k < 26
        invariant
            2 <= k <= 26,
            out.len() == 26,
            sheba_chars(sheba@) == Some(out@),
            forall|j: int| 2 <= j < k ==> '0' <= #[trigger] out@[j] <= '9',
        decreases 26 - k,
    {
        if !('0' <= out[k] && out[k] <= '9') {
            return None;
        }
        k += 1;
    }
    Some(out)
}

/// A failure in a prefix is a failure of the whole input.
proof fn lemma_sheba_chars_none(s: Seq<char>, i: int)
    requires
        0 <= i < s.len(),
        sheba_chars(s.take(i + 1)) is None,
    ensures
        sheba_chars(s) is None,
    decreases s.len() - i,
{
    if i + 1 < s.len() {
        assert(s.take(i + 2).drop_last() =~= s.take(i + 1));
        lemma_sheba_chars_none(s, i + 1);
    } else {
        assert(s.take(i + 1) =~= s);
    }
}

fn rearranged_exec(c: &Vec<char>) -> (r: Vec<char>)
    requires
        c.len() == 26,
    ensures
        r@ == rearranged(c@),
{
    let mut r: Vec<char> = Vec::new();
    let mut i: usize = 4;
    while i < 26
        invariant
            4 <= i <= 26,
            c.len() == 26,
            r@ == c@.subrange(4, i as int),
        decreases 26 - i,
    {
        r.push(c[i]);
        assert(c@.subrange(4, i + 1) =~= c@.subrange(4, i as int).push(c@[i as int]));
        i += 1;
    }
    r.push('I');
    r.push('R');
    r.push(c[2]);
    r.push(c[3]);
    assert(r@ =~= rearranged(c@));
    r
}

/// Returns `true` if `sheba` is a structurally valid Iranian IBAN.
pub fn validate(sheba: &str) -> (b: bool)
    ensures
        b == spec_validate(sheba@),
{
    match canonical_chars(sheba) {
        Some(c) => {
            let r = rearranged_exec(&c);
            mod97_exec(&r) == 1
        },
        None => false,
    }
}

/// The 3-digit bank code of a valid IBAN.
pub open spec fn spec_bank_code(s: Seq<char>) -> Option<Seq<char>> {
    if spec_validate(s) {
        Some(spec_canonical(s).unwrap().subrange(4, 7))
    } else {
        None
    }
}

/// 3-digit bank-identifier portion of a valid IBAN.
pub fn bank_code(sheba: &str) -> (r: Option<String>)
    ensures
        r is Some <==> spec_bank_code(sheba@) is Some,
        r matches Some(s) ==> s@ == spec_bank_code(sheba@).unwrap(),
{
    match canonical_chars(sheba) {
        Some(c) => {
            let r = rearranged_exec(&c);
            if mod97_exec(&r) != 1 {
                return None;
            }
            let mut s = String::new();
            push_char(&mut s, c[4]);
            push_char(&mut s, c[5]);
            push_char(&mut s, c[6]);
            assert(s@ =~= c@.subrange(4, 7));
            Some(s)
        },
        None => None,
    }
}

/// Value of the three bank-code digits.
pub open spec fn code_value(code: Seq<char>) -> int {
    (cp(code[0]) - 48) * 100 + (cp(code[1]) - 48) * 10 + (cp(code[2]) - 48)
}

/// Index in the Sheba bank table of the bank of a valid IBAN.
pub open spec fn spec_bank_index(s: Seq<char>) -> Option<int> {
    match spec_bank_code(s) {
        Some(code) => first_index(SHEBA_CODES@, code_value(code) as u32, 0),
        None => None,
    }
}

fn bank_index(sheba: &str) -> (r: Option<usize>)
    ensures
        r matches Some(i) ==> spec_bank_index(sheba@) == Some(i as int) && i < 36,
        r is None ==> spec_bank_index(sheba@) is None,
{
    let c = match canonical_chars(sheba) {
        Some(c) => c,
        None => return None,
    };
    let r = rearranged_exec(&c);
    if mod97_exec(&r) != 1 {
        return None;
    }
    assert('0' <= c@[4] <= '9' && '0' <= c@[5] <= '9' && '0' <= c@[6] <= '9');
    let v = (c[4] as u32 - 48) * 100 + (c[5] as u32 - 48) * 10 + (c[6] as u32 - 48);
    assert(c@.subrange(4, 7)[0] == c@[4] && c@.subrange(4, 7)[1] == c@[5] && c@.subrange(4, 7)[2]
        == c@[6]);
    find_code(&SHEBA_CODES, v)
}

/// English name of the issuing bank; `None` for an invalid IBAN or an
/// unknown bank code.
pub fn bank(sheba: &str) -> (r: Option<&'static str>)
    ensures
        r == (match spec_bank_index(sheba@) {
            Some(i) => Some(SHEBA_EN[i]),
            None => None,
        }),
{
    match bank_index(sheba) {
        Some(i) => Some(SHEBA_EN[i]),
        None => None,
    }
}

/// Persian name of the issuing bank.
pub fn bank_persian(sheba: &str) -> (r: Option<&'static str>)
    ensures
        r == (match spec_bank_index(sheba@) {
            Some(i) => Some(SHEBA_FA[i]),
            None => None,
        }),
{
    match bank_index(sheba) {
        Some(i) => Some(SHEBA_FA[i]),
        None => None,
    }
}

/// Every character is an ASCII digit.
pub open spec fn all_ascii_digits(s: Seq<char>) -> bool {
    forall|i: int| 0 <= i < s.len() ==> '0' <= #[trigger] s[i] <= '9'
}

/// The basic account number: bank code, account type, account number
/// left-padded with zeros to 18 digits.
pub open spec fn spec_bban(bank_code: Seq<char>, account_type: char, account: Seq<char>) -> Seq<
    char,
> {
    bank_code.push(account_type) + zeros((18 - account.len()) as nat) + account
}

/// The check number `98 - (bban ++ "IR00" mod 97)`.
pub open spec fn spec_check_number(bban: Seq<char>) -> int {
    98 - mod97_fold(bban + seq!['I', 'R', '0', '0'])
}

/// `IR`, the two check digits, then the BBAN — when the inputs are
/// well-formed.
pub open spec fn spec_generate(bank_code: Seq<char>, account_type: char, account: Seq<char>) -> Option<
    Seq<char>,
> {
    if bank_code.len() == 3 && all_ascii_digits(bank_code) && '0' <= account_type <= '9'
        && account.len() > 0 && account.len() <= 18 && all_ascii_digits(account) {
        let bban = spec_bban(bank_code, account_type, account);
        let check = spec_check_number(bban);
        Some(seq!['I', 'R', LATIN_DIGITS[check / 10], LATIN_DIGITS[check % 10]] + bban)
    } else {
        None
    }
}

fn all_ascii_digits_exec(v: &Vec<char>) -> (r: bool)
    ensures
        r == all_ascii_digits(v@),
{
    let mut i: usize = 0;
    while i < v.len()
        invariant
            0 <= i <= v.len(),
            forall|j: int| 0 <= j < i ==> '0' <= #[trigger] v@[j] <= '9',
        decreases v.len() - i,
    {
        if !('0' <= v[i] && v[i] <= '9') {
            return false;
        }
        i += 1;
    }
    true
}

/// Generate a fully-checksummed Iranian IBAN from a 3-digit Sheba bank code,
/// an account-type digit and an account number (at most 18 digits,
/// left-padded with zeros).  Returns `None` if any input is malformed.
pub fn generate(bank_code: &str, account_type: char, account_number: &str) -> (r: Option<String>)
    ensures
        r is Some <==> spec_generate(bank_code@, account_type, account_number@) is Some,
        r matches Some(s) ==> s@ == spec_generate(bank_code@, account_type, account_number@).unwrap(),
{
    let code = chars_of(bank_code);
    let acc = chars_of(account_number);
    if code.len() != 3 || !all_ascii_digits_exec(&code) {
        return None;
    }
    if !('0' <= account_type && account_type <= '9') {
        return None;
    }
    if acc.len() == 0 || acc.len() > 18 || !all_ascii_digits_exec(&acc) {
        return None;
    }
    let mut bban: Vec<char> = Vec::new();
    bban.push(code[0]);
    bban.push(code[1]);
    bban.push(code[2]);
    bban.push(account_type);
    assert(bban@ =~= code@.push(account_type));
    let pad = 18 - acc.len();
    let mut z: usize = 0;
    while z < pad
        invariant
            0 <= z <= pad,
            pad == 18 - acc.len(),
            bban@ == code@.push(account_type) + zeros(z as nat),
        decreases pad - z,
    {
        bban.push('0');
        assert(code@.push(account_type) + zeros((z + 1) as nat) =~= (code@.push(account_type)
            + zeros(z as nat)).push('0'));
        z += 1;
    }
    let mut k: usize = 0;
    while k < acc.len()
        invariant
            0 <= k <= acc.len(),
            pad == 18 - acc.len(),
            bban@ == code@.push(account_type) + zeros(pad as nat) + acc@.take(k as int),
        decreases acc.len() - k,
    {
        bban.push(acc[k]);
        assert(code@.push(account_type) + zeros(pad as nat) + acc@.take(k + 1) =~= (code@.push(
            account_type,
        ) + zeros(pad as nat) + acc@.take(k as int)).push(acc@[k as int]));
        k += 1;
    }
    assert(acc@.take(acc.len() as int) =~= acc@);
    let ghost g_bban = bban@;
    assert(g_bban == spec_bban(bank_code@, account_type, account_number@));
    let mut tail: Vec<char> = Vec::new();
    let mut i: usize = 0;
    while i < bban.len()
        invariant
            0 <= i <= bban.len(),
            tail@ == bban@.take(i as int),
        decreases bban.len() - i,
    {
        tail.push(bban[i]);
        assert(bban@.take(i + 1) =~= bban@.take(i as int).push(bban@[i as int]));
        i += 1;
    }
    assert(bban@.take(bban.len() as int) =~= bban@);
    tail.push('I');
    tail.push('R');
    tail.push('0');
    tail.push('0');
    assert(tail@ =~= bban@ + seq!['I', 'R', '0', '0']);
    let rem = mod97_exec(&tail);
    let check = 98 - rem;
    let mut out = String::new();
    push_char(&mut out, 'I');
    push_char(&mut out, 'R');
    push_char(&mut out, LATIN_DIGITS[(check / 10) as usize]);
    push_char(&mut out, LATIN_DIGITS[(check % 10) as usize]);
    let mut j: usize = 0;
    while j < bban.len()
        invariant
            0 <= j <= bban.len(),
            out@ == seq!['I', 'R', LATIN_DIGITS[(check / 10) as int], LATIN_DIGITS[(check % 10) as int]] + bban@.take(
                j as int,
            ),
        decreases bban.len() - j,
    {
        push_char(&mut out, bban[j]);
        assert(seq!['I', 'R', LATIN_DIGITS[(check / 10) as int], LATIN_DIGITS[(check % 10) as int]] + bban@.take(j + 1)
            =~= (seq!['I', 'R', LATIN_DIGITS[(check / 10) as int], LATIN_DIGITS[(check % 10) as int]] + bban@.take(
            j as int,
        )).push(bban@[j as int]));
        j += 1;
    }
    assert(bban@.take(bban.len() as int) =~= bban@);
    Some(out)
}


/// Appending one character advances the running remainder by one step.
proof fn lemma_mod97_push(p: Seq<char>, c: char)
    ensures
        mod97_fold(p.push(c)) == mod97_step(mod97_fold(p), c),
        0 <= mod97_fold(p) < 97,
{
    assert(p.push(c).drop_last() =~= p);
}

/// Reducing modulo 97 before a shift-and-add does not change the remainder.
proof fn lemma_reduce_first(a: int, k: int, b: int)
    requires
        a >= 0,
        k >= 0,
    ensures
        ((a % 97) * k + b) % 97 == (a * k + b) % 97,
{
    lemma_fundamental_div_mod(a, 97);
    let q = a / 97;
    assert(a * k + b == 97 * (q * k) + ((a % 97) * k + b)) by (nonlinear_arith)
        requires
            a == 97 * q + a % 97,
    ;
    lemma_mod_multiples_vanish(q * k, (a % 97) * k + b, 97);
}

/// A string made only of `I`, `R` and Latin digits is its own canonical form.
proof fn lemma_sheba_chars_id(s: Seq<char>)
    requires
        forall|i: int|
            0 <= i < s.len() ==> #[trigger] s[i] == 'I' || s[i] == 'R' || ('0' <= s[i] <= '9'),
    ensures
        sheba_chars(s) == Some(s),
    decreases s.len(),
{
    if s.len() > 0 {
        lemma_sheba_chars_id(s.drop_last());
        let c = s.last();
        assert(s[s.len() - 1] == c);
        assert(s.drop_last().push(c) =~= s);
        if '0' <= c <= '9' {
            assert(LATIN_DIGITS[cp(c) - 48] == c);
        }
    }
}

/// Every IBAN that `generate` builds validates, and its bank code is the
/// one it was built from.
pub proof fn law_generate_validates(bank_code: Seq<char>, account_type: char, account: Seq<char>)
    requires
        spec_generate(bank_code, account_type, account) is Some,
    ensures
        spec_validate(spec_generate(bank_code, account_type, account).unwrap()),
        spec_bank_code(spec_generate(bank_code, account_type, account).unwrap()) == Some(
            bank_code,
        ),
{
    let bban = spec_bban(bank_code, account_type, account);
    let cc = spec_check_number(bban);
    let g = spec_generate(bank_code, account_type, account).unwrap();
    let bi = bban + seq!['I', 'R'];
    let f = mod97_fold(bi);
    lemma_mod97_push(bi, '0');
    lemma_mod97_push(bi.push('0'), '0');
    assert(bban + seq!['I', 'R', '0', '0'] =~= bi.push('0').push('0'));
    let r = mod97_fold(bban + seq!['I', 'R', '0', '0']);
    assert(iban_value('0') == 0);
    assert(r == ((f * 10) % 97 * 10) % 97);
    lemma_reduce_first(f * 10, 10, 0);
    assert(0 <= r < 97);
    assert(2 <= cc <= 98);
    let d1 = cc / 10;
    let d2 = cc % 10;
    let c1 = LATIN_DIGITS[d1];
    let c2 = LATIN_DIGITS[d2];
    assert(iban_value(c1) == d1 && iban_value(c2) == d2) by {
        assert(0 <= d1 < 10 && 0 <= d2 < 10);
        assert(forall|d: int| 0 <= d < 10 ==> #[trigger] LATIN_DIGITS[d] as u32 == 48 + d);
    }
    lemma_mod97_push(bi, c1);
    lemma_mod97_push(bi.push(c1), c2);
    lemma_reduce_first(f * 10 + d1, 10, d2);
    assert(f * 100 + cc == (f * 10 + d1) * 10 + d2);
    lemma_fundamental_div_mod(f * 100, 97);
    let q = (f * 100) / 97;
    assert(f * 100 + cc == 97 * (q + 1) + 1);
    lemma_mod_multiples_vanish(q + 1, 1, 97);
    assert(mod97_fold(bi.push(c1).push(c2)) == 1);
    // The generated string is its own canonical form.
    assert(bban.len() == 22);
    assert(g =~= seq!['I', 'R', c1, c2] + bban);
    assert forall|i: int| 0 <= i < g.len() implies #[trigger] g[i] == 'I' || g[i] == 'R' || (
    '0' <= g[i] <= '9') by {
        if i >= 4 {
            assert(g[i] == bban[i - 4]);
            if i - 4 >= 4 + (18 - account.len()) {
                assert(bban[i - 4] == account[i - 8 - (18 - account.len())]);
            }
        }
        assert(forall|d: int| 0 <= d < 10 ==> #[trigger] LATIN_DIGITS[d] as u32 == 48 + d);
    }
    lemma_sheba_chars_id(g);
    assert(spec_canonical(g) == Some(g));
    assert(rearranged(g) =~= bi.push(c1).push(c2));
    assert(g.subrange(4, 7) =~= bank_code);
}
} // verus!
