//! Structured-entity recognition for Iranian Persian text.
//!
//! Sixteen regular expressions find candidates (phone numbers, dates,
//! money, IDs, URLs, …); checksummed kinds are validated; overlaps are
//! resolved by keeping the earliest start, then the longest span.

use vstd::prelude::*;
use crate::decimal::{push_decimal, spec_decimal};
use crate::money::{parse as parse_money, spec_parse as spec_parse_money};
use crate::text::{
    byte_len, byte_offset, byte_offsets, chars_of, find_offset, lemma_byte_offset_strict,
    push_char, string_from_range,
};
use crate::validators::{opt_ascii, opt_view};
use crate::validators::banks::{CARD_EN, SHEBA_EN};

verus! {

// ── span ─────────────────────────────────────────────────────────────────────

/// A `[start, end)` byte range within the text.
#[derive(Debug, Clone, Copy, PartialEq, Eq, Structural)]
pub struct Span {
    /// Inclusive start byte offset.
    pub start: usize,
    /// Exclusive end byte offset.
    pub end: usize,
}

impl Span {
    /// Length of the span in bytes (zero when `end <= start`).
    pub fn len(&self) -> (n: usize)
        ensures
            n == (if self.end >= self.start {
                self.end - self.start
            } else {
                0
            }),
    {
        if self.end >= self.start {
            self.end - self.start
        } else {
            0
        }
    }

    /// Returns `true` if the span covers zero bytes.
    pub fn is_empty(&self) -> (b: bool)
        ensures
            b == (self.start >= self.end),
    {
        self.start >= self.end
    }

    /// `start..end`.
    pub fn to_string(&self) -> (s: String)
        ensures
            s@ == spec_decimal(self.start as nat) + ".."@ + spec_decimal(self.end as nat),
    {
        let mut s = String::new();
        push_decimal(&mut s, self.start as u64);
        s.append("..");
        push_decimal(&mut s, self.end as u64);
        s
    }
}

// ── entity kind ──────────────────────────────────────────────────────────────

/// The semantic kind of a recognised entity.
#[derive(Debug, Clone, Copy, PartialEq, Eq, Structural)]
pub enum EntityKind {
    /// Iranian mobile or landline phone number.
    PhoneNumber,
    /// Jalali date in numeric format, e.g. `۱۴۰۲/۰۳/۱۵`.
    JalaliDateNumeric,
    /// Jalali date with a written month name, e.g. `۱۵ تیر ۱۴۰۲`.
    JalaliDateTextual,
    /// An amount followed by تومان / تومن / ریال.
    MoneyAmount,
    /// Iranian national identification number.
    NationalId,
    /// 16-digit bank card number (Luhn-validated).
    BankCard,
    /// Iranian Sheba / IBAN.
    Iban,
    /// 10-digit postal code.
    PostalCode,
    /// Vehicle plate (`12 ب 345 - 67`).
    CarPlate,
    /// Time expression (`ساعت ۸ صبح`, `۱۲:۳۰`, `نیمه شب`).
    TimeExpression,
    /// 10- or 13-digit ISBN.
    Isbn,
    /// IPv4 address.
    Ipv4,
    /// `@username` mention.
    Mention,
    /// `#hashtag`.
    Hashtag,
    /// HTTP or HTTPS URL.
    Url,
    /// E-mail address.
    Email,
}

impl EntityKind {
    /// The kind's display name (both date kinds read `JalaliDate`).
    pub open spec fn spec_name(self) -> Seq<char> {
        match self {
            EntityKind::PhoneNumber => "PhoneNumber"@,
            EntityKind::JalaliDateNumeric => "JalaliDate"@,
            EntityKind::JalaliDateTextual => "JalaliDate"@,
            EntityKind::MoneyAmount => "MoneyAmount"@,
            EntityKind::NationalId => "NationalId"@,
            EntityKind::BankCard => "BankCard"@,
            EntityKind::Iban => "IBAN"@,
            EntityKind::PostalCode => "PostalCode"@,
            EntityKind::CarPlate => "CarPlate"@,
            EntityKind::TimeExpression => "TimeExpression"@,
            EntityKind::Isbn => "ISBN"@,
            EntityKind::Ipv4 => "IPv4"@,
            EntityKind::Mention => "Mention"@,
            EntityKind::Hashtag => "Hashtag"@,
            EntityKind::Url => "URL"@,
            EntityKind::Email => "Email"@,
        }
    }

    fn name(&self) -> (s: &'static str)
        ensures
            s@ == self.spec_name(),
    {
        match self {
            EntityKind::PhoneNumber => "PhoneNumber",
            EntityKind::JalaliDateNumeric => "JalaliDate",
            EntityKind::JalaliDateTextual => "JalaliDate",
            EntityKind::MoneyAmount => "MoneyAmount",
            EntityKind::NationalId => "NationalId",
            EntityKind::BankCard => "BankCard",
            EntityKind::Iban => "IBAN",
            EntityKind::PostalCode => "PostalCode",
            EntityKind::CarPlate => "CarPlate",
            EntityKind::TimeExpression => "TimeExpression",
            EntityKind::Isbn => "ISBN",
            EntityKind::Ipv4 => "IPv4",
            EntityKind::Mention => "Mention",
            EntityKind::Hashtag => "Hashtag",
            EntityKind::Url => "URL",
            EntityKind::Email => "Email",
        }
    }

    /// The kind's display name.
    pub fn to_string(&self) -> (s: String)
        ensures
            s@ == self.spec_name(),
    {
        self.name().to_owned()
    }
}

// ── entity ───────────────────────────────────────────────────────────────────

/// A single recognised entity.
#[derive(Debug, Clone)]
pub struct Entity {
    /// Semantic kind.
    pub kind: EntityKind,
    /// The exact substring as it appears in the text.
    pub text: String,
    /// A structured rendering where one is known: the canonical `09…` form
    /// of a phone number, `"<value> <unit>"` of an amount, the bank of a
    /// card or IBAN.
    pub normalized: Option<String>,
    /// Position in the text (byte offsets).
    pub span: Span,
}

/// What an entity holds, as plain values.
pub struct EntityModel {
    pub kind: EntityKind,
    pub text: Seq<char>,
    pub normalized: Option<Seq<char>>,
    pub start: int,
    pub end: int,
}

impl View for Entity {
    type V = EntityModel;

    open spec fn view(&self) -> EntityModel {
        EntityModel {
            kind: self.kind,
            text: self.text@,
            normalized: opt_view(self.normalized),
            start: self.span.start as int,
            end: self.span.end as int,
        }
    }
}

impl Entity {
    /// `[Kind: "text"]`.
    pub fn to_string(&self) -> (s: String)
        ensures
            s@ == seq!['['] + self.kind.spec_name() + seq![':', ' ', '"'] + self.text@ + seq![
                '"',
                ']',
            ],
    {
        let mut s = String::new();
        push_char(&mut s, '[');
        s.append(self.kind.name());
        push_char(&mut s, ':');
        push_char(&mut s, ' ');
        push_char(&mut s, '"');
        s.append(self.text.as_str());
        push_char(&mut s, '"');
        push_char(&mut s, ']');
        s
    }
}

// ── regular expressions ──────────────────────────────────────────────────────

#[verifier::external_type_specification]
#[verifier::external_body]
pub struct ExRegex(regex::Regex);

/// Whether `regex` accepts the pattern.
pub uninterp spec fn regex_compiles(pattern: Seq<char>) -> bool;

/// The byte spans of the successive non-overlapping matches that `regex`
/// reports for `pattern` in `text`.
pub uninterp spec fn regex_find_all(pattern: Seq<char>, text: Seq<char>) -> Seq<(int, int)>;

/// `b` is the byte offset of a character boundary of `t`.
pub open spec fn is_char_boundary(t: Seq<char>, b: int) -> bool {
    exists|k: int| 0 <= k <= t.len() && byte_offset(t, k) == b
}

/// The character index at byte offset `b`.
pub open spec fn char_index(t: Seq<char>, b: int) -> int {
    choose|k: int| 0 <= k <= t.len() && byte_offset(t, k) == b
}

/// `regex::Regex::new(pattern).ok()`.  Whether it compiles is named
/// `regex_compiles(pattern)`; nothing more is claimed.
#[verifier::external_body]
fn regex_new(pattern: &str) -> (r: Option<regex::Regex>)
    ensures
        r is Some <==> regex_compiles(pattern@),
{
    regex::Regex::new(pattern).ok()
}

/// A compiled regular expression and its source.
pub struct CompiledRegex {
    source: String,
    re: regex::Regex,
}

impl CompiledRegex {
    pub closed spec fn source(&self) -> Seq<char> {
        self.source@
    }

    /// Compile `pattern`; `None` when `regex` rejects it.
    pub fn new(pattern: &str) -> (r: Option<Self>)
        ensures
            r is Some <==> regex_compiles(pattern@),
            r matches Some(c) ==> c.source() == pattern@,
    {
        match regex_new(pattern) {
            Some(re) => Some(CompiledRegex { source: pattern.to_owned(), re }),
            None => None,
        }
    }
}

/// `Regex::find_iter` on `text`, as byte spans.  The regex of a
/// `CompiledRegex` is compiled from its source, so the spans are
/// `regex_find_all(source, text)`; as `regex` documents, they come in order,
/// do not overlap, and start and end on character boundaries.
#[verifier::external_body]
fn regex_spans(r: &CompiledRegex, text: &str) -> (v: Vec<(usize, usize)>)
    ensures
        v@.len() == regex_find_all(r.source(), text@).len(),
        forall|j: int|
            0 <= j < v@.len() ==> (#[trigger] v@[j]).0 as int == regex_find_all(
                r.source(),
                text@,
            )[j].0 && v@[j].1 as int == regex_find_all(r.source(), text@)[j].1,
        forall|j: int|
            0 <= j < v@.len() ==> (#[trigger] v@[j]).0 <= v@[j].1 <= byte_len(text@)
                && is_char_boundary(text@, v@[j].0 as int) && is_char_boundary(
                text@,
                v@[j].1 as int,
            ),
        forall|j: int, k: int| #![trigger v@[j], v@[k]] 0 <= j < k < v@.len() ==> v@[j].1 <= v@[k].0,
{
    r.re.find_iter(text).map(|m| (m.start(), m.end())).collect()
}

/// The patterns, in collection order (which decides priority).
pub const SOURCES: [&'static str; 16] = [
    r#"https?://[^\s<>"]*[^\s<>".,;!?؟،]"#,
    r"[\w.+\-]+@[\w\-]+(?:\.[\w\-]+)+",
    r"IR[\s\-]?\d{2}[\s\-]?\d{4}[\s\-]?\d{4}[\s\-]?\d{4}[\s\-]?\d{4}[\s\-]?\d{4}[\s\-]?\d{2}",
    r"\b\d{4}[\s\-]?\d{4}[\s\-]?\d{4}[\s\-]?\d{4}\b",
    r"(?:\+[9۹][8۸]|[0۰][0۰][9۹][8۸]|[0۰])[9۹]\d{9}",
    r"\d{1,2}\s*(?:فروردین|اردیبهشت|خرداد|تیر|مرداد|شهریور|مهر|آبان|آذر|دی|بهمن|اسفند)\s*\d{2,4}",
    r"\d{4}[/\-]\d{1,2}[/\-]\d{1,2}",
    r"\d[\d,،.]*(?:\s*(?:هزار|میلیون|میلیارد))?\s*(?:تومان|تومن|ریال)",
    r"\b\d{10}\b",
    r"\b\d{5}-\d{5}\b",
    r"\d{2}\s*[ابپتثجچحدذرزژسشصضطظعغفقکگلمنوهی]\s*\d{3}\s*[-]?\s*\d{2}",
    r"(?:ساعت\s*)?\d{1,2}[:٫.]\d{2}(?:[:٫.]\d{2})?\s*(?:صبح|ظهر|بعد\s*از\s*ظهر|عصر|شب|بامداد)?|(?:ساعت\s*)?\d{1,2}\s*(?:صبح|ظهر|بعد\s*از\s*ظهر|عصر|شب|بامداد)|نیمه\s*شب|نیمروز|نصف\s*روز|ظهر|بامداد",
    r"\b(?:(?:25[0-5]|2[0-4]\d|1?\d?\d)\.){3}(?:25[0-5]|2[0-4]\d|1?\d?\d)\b",
    r"\b(?:97[89][\s\-]?\d{1,5}[\s\-]?\d{1,7}[\s\-]?\d{1,7}[\s\-]?\d|\d{1,5}[\s\-]?\d{1,7}[\s\-]?\d{1,7}[\s\-]?[\dXx])\b",
    r"@[\p{L}\p{N}_]{1,50}",
    r"#[\p{L}\p{N}_]{1,100}",
];

/// The kind each pattern of [`SOURCES`] recognises.
pub open spec fn kind_at(i: int) -> EntityKind {
    if i == 0 {
        EntityKind::Url
    } else if i == 1 {
        EntityKind::Email
    } else if i == 2 {
        EntityKind::Iban
    } else if i == 3 {
        EntityKind::BankCard
    } else if i == 4 {
        EntityKind::PhoneNumber
    } else if i == 5 {
        EntityKind::JalaliDateTextual
    } else if i == 6 {
        EntityKind::JalaliDateNumeric
    } else if i == 7 {
        EntityKind::MoneyAmount
    } else if i == 8 {
        EntityKind::NationalId
    } else if i == 9 {
        EntityKind::PostalCode
    } else if i == 10 {
        EntityKind::CarPlate
    } else if i == 11 {
        EntityKind::TimeExpression
    } else if i == 12 {
        EntityKind::Ipv4
    } else if i == 13 {
        EntityKind::Isbn
    } else if i == 14 {
        EntityKind::Mention
    } else {
        EntityKind::Hashtag
    }
}

fn kind_of(i: usize) -> (k: EntityKind)
    ensures
        k == kind_at(i as int),
{
    if i == 0 {
        EntityKind::Url
    } else if i == 1 {
        EntityKind::Email
    } else if i == 2 {
        EntityKind::Iban
    } else if i == 3 {
        EntityKind::BankCard
    } else if i == 4 {
        EntityKind::PhoneNumber
    } else if i == 5 {
        EntityKind::JalaliDateTextual
    } else if i == 6 {
        EntityKind::JalaliDateNumeric
    } else if i == 7 {
        EntityKind::MoneyAmount
    } else if i == 8 {
        EntityKind::NationalId
    } else if i == 9 {
        EntityKind::PostalCode
    } else if i == 10 {
        EntityKind::CarPlate
    } else if i == 11 {
        EntityKind::TimeExpression
    } else if i == 12 {
        EntityKind::Ipv4
    } else if i == 13 {
        EntityKind::Isbn
    } else if i == 14 {
        EntityKind::Mention
    } else {
        EntityKind::Hashtag
    }
}

/// Every pattern compiles.
pub open spec fn all_sources_compile() -> bool {
    forall|i: int| 0 <= i < 16 ==> regex_compiles(#[trigger] SOURCES[i]@)
}


// ── validation and normalisation ─────────────────────────────────────────────

/// ISBN characters: ASCII digits and `X`/`x`.
pub open spec fn is_isbn_char(c: char) -> bool {
    ('0' <= c <= '9') || c == 'X' || c == 'x'
}

pub open spec fn isbn_chars(s: Seq<char>) -> Seq<char>
    decreases s.len(),
{
    if s.len() == 0 {
        seq![]
    } else if is_isbn_char(s.last()) {
        isbn_chars(s.drop_last()).push(s.last())
    } else {
        isbn_chars(s.drop_last())
    }
}

pub open spec fn digit_of(c: char) -> int {
    (c as u32) as int - 48
}

/// `Σ d[i] * (10 - i)` over `i < n`, `X` in last place counting 10.
pub open spec fn isbn10_sum(c: Seq<char>, n: int) -> int
    decreases n,
{
    if n <= 0 {
        0
    } else {
        let i = n - 1;
        let d = if c[i] == 'X' || c[i] == 'x' {
            10
        } else {
            digit_of(c[i])
        };
        isbn10_sum(c, n - 1) + d * (10 - i)
    }
}

/// `Σ d[i] * (1 or 3)` over `i < n`.
pub open spec fn isbn13_sum(c: Seq<char>, n: int) -> int
    decreases n,
{
    if n <= 0 {
        0
    } else {
        let i = n - 1;
        isbn13_sum(c, n - 1) + digit_of(c[i]) * (if i % 2 == 0 {
            1int
        } else {
            3int
        })
    }
}

/// ISBN-10 or ISBN-13 checksum validation.
pub open spec fn spec_validate_isbn(raw: Seq<char>) -> bool {
    let c = isbn_chars(raw);
    if c.len() == 10 {
        (forall|i: int| 0 <= i < 9 ==> '0' <= #[trigger] c[i] <= '9') && isbn10_sum(c, 10) % 11
            == 0
    } else if c.len() == 13 {
        (forall|i: int| 0 <= i < 13 ==> '0' <= #[trigger] c[i] <= '9') && isbn13_sum(c, 13) % 10
            == 0
    } else {
        false
    }
}

/// ISBN-10 and ISBN-13 checksum validation.
pub fn validate_isbn(raw: &str) -> (b: bool)
    ensures
        b == spec_validate_isbn(raw@),
{
    let all = chars_of(raw);
    let mut c: Vec<char> = Vec::new();
    let mut i: usize = 0;
    while i < all.len()
        invariant
            0 <= i <= all.len(),
            c@ == isbn_chars(all@.take(i as int)),
        decreases all.len() - i,
    {
        assert(all@.take(i + 1).drop_last() =~= all@.take(i as int));
        let x = all[i];
        if ('0' <= x && x <= '9') || x == 'X' || x == 'x' {
            c.push(x);
        }
        i += 1;
    }
    assert(all@.take(all.len() as int) =~= all@);
    proof {
        lemma_isbn_chars_all(all@);
    }
    if c.len() == 10 {
        let mut sum: i32 = 0;
        let mut k: usize = 0;
        while k < 10
            invariant
                0 <= k <= 10,
                c.len() == 10,
                c@ == isbn_chars(raw@),
                sum == isbn10_sum(c@, k as int),
                0 <= sum <= 100 * k,
                forall|j: int| 0 <= j < k && j < 9 ==> '0' <= #[trigger] c@[j] <= '9',
                forall|j: int| 0 <= j < 10 ==> is_isbn_char(#[trigger] c@[j]),
            decreases 10 - k,
        {
            let x = c[k];
            let d: i32 = if (x == 'X' || x == 'x') && k == 9 {
                10
            } else if '0' <= x && x <= '9' {
                (x as u32 - 48) as i32
            } else {
                return false;
            };
            assert(0 <= d * (10 - k as i32) <= 100) by (nonlinear_arith)
                requires
                    0 <= d <= 10,
                    0 <= k <= 9,
            ;
            sum = sum + d * (10 - k as i32);
            k += 1;
        }
        sum % 11 == 0
    } else if c.len() == 13 {
        let mut sum: i32 = 0;
        let mut k: usize = 0;
        while k < 13
            invariant
                0 <= k <= 13,
                c.len() == 13,
                c@ == isbn_chars(raw@),
                sum == isbn13_sum(c@, k as int),
                0 <= sum <= 27 * k,
                forall|j: int| 0 <= j < k ==> '0' <= #[trigger] c@[j] <= '9',
            decreases 13 - k,
        {
            let x = c[k];
            if !('0' <= x && x <= '9') {
                return false;
            }
            let w: i32 = if k % 2 == 0 {
                1
            } else {
                3
            };
            sum = sum + (x as u32 - 48) as i32 * w;
            k += 1;
        }
        sum % 10 == 0
    } else {
        false
    }
}

proof fn lemma_isbn_chars_all(s: Seq<char>)
    ensures
        forall|j: int| 0 <= j < isbn_chars(s).len() ==> is_isbn_char(#[trigger] isbn_chars(s)[j]),
    decreases s.len(),
{
    if s.len() > 0 {
        lemma_isbn_chars_all(s.drop_last());
        let p = isbn_chars(s.drop_last());
        if is_isbn_char(s.last()) {
            assert forall|j: int| 0 <= j < isbn_chars(s).len() implies is_isbn_char(
                #[trigger] isbn_chars(s)[j],
            ) by {
                if j < p.len() {
                    assert(isbn_chars(s)[j] == p[j]);
                }
            }
        }
    }
}

/// Whether a candidate of kind `kind` passes its kind's validator.
pub open spec fn spec_validate_entity(kind: EntityKind, raw: Seq<char>) -> bool {
    match kind {
        EntityKind::NationalId => crate::validators::national_id::spec_validate(raw),
        EntityKind::BankCard => crate::validators::bank_card::spec_validate(raw),
        EntityKind::Iban => crate::validators::sheba::spec_validate(raw),
        EntityKind::PostalCode => crate::validators::postal_code::spec_validate(raw),
        EntityKind::CarPlate => crate::validators::car_plate::spec_parse(raw) is Some,
        EntityKind::Isbn => spec_validate_isbn(raw),
        _ => true,
    }
}

fn validate_entity(kind: EntityKind, raw: &str) -> (b: bool)
    ensures
        b == spec_validate_entity(kind, raw@),
{
    match kind {
        EntityKind::NationalId => crate::validators::national_id::validate(raw),
        EntityKind::BankCard => crate::validators::bank_card::validate(raw),
        EntityKind::Iban => crate::validators::sheba::validate(raw),
        EntityKind::PostalCode => crate::validators::postal_code::validate(raw),
        EntityKind::CarPlate => crate::validators::car_plate::validate(raw),
        EntityKind::Isbn => validate_isbn(raw),
        _ => true,
    }
}

/// An `i64` as `Display` writes it.
pub open spec fn i64_text(v: i64) -> Seq<char> {
    if v < 0 {
        seq!['-'] + spec_decimal(crate::numbers::to_words::abs_i64(v))
    } else {
        spec_decimal(crate::numbers::to_words::abs_i64(v))
    }
}

/// The structured rendering of a candidate, where its kind has one.
pub open spec fn spec_normalize_entity(kind: EntityKind, raw: Seq<char>) -> Option<Seq<char>> {
    match kind {
        EntityKind::PhoneNumber => opt_ascii(crate::validators::phone::spec_canonicalize(raw)),
        EntityKind::MoneyAmount => match spec_parse_money(raw) {
            Some((v, u)) => Some(i64_text(v) + seq![' '] + u.spec_name()),
            None => None,
        },
        EntityKind::BankCard => match crate::validators::bank_card::spec_bank_index(raw) {
            Some(i) => Some(CARD_EN[i]@),
            None => None,
        },
        EntityKind::Iban => match crate::validators::sheba::spec_bank_index(raw) {
            Some(i) => Some(SHEBA_EN[i]@),
            None => None,
        },
        _ => None,
    }
}

fn normalize_entity(kind: EntityKind, raw: &str) -> (r: Option<String>)
    ensures
        opt_view(r) == spec_normalize_entity(kind, raw@),
{
    match kind {
        EntityKind::PhoneNumber => crate::validators::phone::canonicalize(raw),
        EntityKind::MoneyAmount => match parse_money(raw) {
            Some(m) => {
                let mut s = String::new();
                if m.value < 0 {
                    push_char(&mut s, '-');
                }
                push_decimal(&mut s, crate::numbers::to_words::unsigned_abs(m.value));
                push_char(&mut s, ' ');
                let u = m.unit.to_string();
                s.append(u.as_str());
                Some(s)
            },
            None => None,
        },
        EntityKind::BankCard => match crate::validators::bank_card::bank(raw) {
            Some(n) => Some(n.to_owned()),
            None => None,
        },
        EntityKind::Iban => match crate::validators::sheba::bank(raw) {
            Some(n) => Some(n.to_owned()),
            None => None,
        },
        _ => None,
    }
}


// ── detection ────────────────────────────────────────────────────────────────

/// The candidate for a match at byte span `sp` of `t`.
pub open spec fn model_of(kind: EntityKind, t: Seq<char>, sp: (int, int)) -> EntityModel {
    let raw = t.subrange(char_index(t, sp.0), char_index(t, sp.1));
    EntityModel {
        kind,
        text: raw,
        normalized: spec_normalize_entity(kind, raw),
        start: sp.0,
        end: sp.1,
    }
}

/// The candidates of one pattern.
pub open spec fn models_of(kind: EntityKind, t: Seq<char>, spans: Seq<(int, int)>) -> Seq<EntityModel> {
    spans.map_values(|sp: (int, int)| model_of(kind, t, sp))
}

/// The candidates of the first `k` patterns, in collection order.
pub open spec fn raw_models(t: Seq<char>, k: int) -> Seq<EntityModel>
    decreases k,
{
    if k <= 0 {
        seq![]
    } else {
        raw_models(t, k - 1) + models_of(kind_at(k - 1), t, regex_find_all(SOURCES[k - 1]@, t))
    }
}

/// The candidates that pass their validators, in order.
pub open spec fn keep_valid(ms: Seq<EntityModel>) -> Seq<EntityModel>
    decreases ms.len(),
{
    if ms.len() == 0 {
        seq![]
    } else if spec_validate_entity(ms.last().kind, ms.last().text) {
        keep_valid(ms.drop_last()).push(ms.last())
    } else {
        keep_valid(ms.drop_last())
    }
}

/// `a` sorts strictly after `b`: later start, or same start and shorter.
pub open spec fn sorts_after(a: EntityModel, b: EntityModel) -> bool {
    a.start > b.start || (a.start == b.start && a.end < b.end)
}

/// `e` inserted into the sorted `s` after every element not after it.
pub open spec fn insert_sorted(s: Seq<EntityModel>, e: EntityModel) -> Seq<EntityModel>
    decreases s.len(),
{
    if s.len() == 0 {
        seq![e]
    } else if sorts_after(s.last(), e) {
        insert_sorted(s.drop_last(), e).push(s.last())
    } else {
        s.push(e)
    }
}

/// The stable sort by start, then longest first.
pub open spec fn sort_models(ms: Seq<EntityModel>) -> Seq<EntityModel>
    decreases ms.len(),
{
    if ms.len() == 0 {
        seq![]
    } else {
        insert_sorted(sort_models(ms.drop_last()), ms.last())
    }
}

/// Entities kept so far and the end of the last one, over the first `k`.
pub open spec fn greedy_state(ms: Seq<EntityModel>, k: int) -> (Seq<EntityModel>, int)
    decreases k,
{
    if k <= 0 {
        (seq![], 0)
    } else {
        let (r, last) = greedy_state(ms, k - 1);
        let e = ms[k - 1];
        if e.start >= last {
            (r.push(e), e.end)
        } else {
            (r, last)
        }
    }
}

/// Every entity that starts at or after the end of the last one kept.
pub open spec fn remove_overlaps_spec(ms: Seq<EntityModel>) -> Seq<EntityModel> {
    greedy_state(ms, ms.len() as int).0
}

/// The entities of `t`.
pub open spec fn spec_detect(t: Seq<char>) -> Seq<EntityModel> {
    remove_overlaps_spec(sort_models(keep_valid(raw_models(t, 16))))
}

pub open spec fn models(v: Seq<Entity>) -> Seq<EntityModel> {
    v.map_values(|e: Entity| e@)
}

/// Compiled entity-recognition patterns.
pub struct EntityRecognizer {
    regexes: Vec<CompiledRegex>,
}

impl EntityRecognizer {
    /// Every pattern is compiled from its source.
    pub closed spec fn wf(&self) -> bool {
        &&& self.regexes@.len() == 16
        &&& forall|i: int| 0 <= i < 16 ==> (#[trigger] self.regexes@[i]).source() == SOURCES[i]@
    }

    fn build() -> (r: Option<Self>)
        ensures
            r is Some <==> all_sources_compile(),
            r matches Some(e) ==> e.wf(),
    {
        let mut regexes: Vec<CompiledRegex> = Vec::new();
        let mut i: usize = 0;
        while i < 16
            invariant
                0 <= i <= 16,
                regexes@.len() == i,
                forall|j: int| 0 <= j < i ==> regex_compiles(#[trigger] SOURCES[j]@),
                forall|j: int| 0 <= j < i ==> (#[trigger] regexes@[j]).source() == SOURCES[j]@,
            decreases 16 - i,
        {
            match CompiledRegex::new(SOURCES[i]) {
                Some(c) => regexes.push(c),
                None => {
                    return None;
                },
            }
            i += 1;
        }
        Some(EntityRecognizer { regexes })
    }

    /// Compile all sixteen patterns; all of them must compile.
    pub fn new() -> (r: Self)
        requires
            all_sources_compile(),
        ensures
            r.wf(),
    {
        match Self::build() {
            Some(e) => e,
            None => {
                assert(false);
                EntityRecognizer { regexes: Vec::new() }
            },
        }
    }

    /// Compile all sixteen patterns; `None` when one does not compile.
    pub fn try_new() -> (r: Option<Self>)
        ensures
            r is Some <==> all_sources_compile(),
            r matches Some(e) ==> e.wf(),
    {
        match Self::build() {
            Some(_) => Some(Self::new()),
            None => None,
        }
    }

    /// Detect all entities in `text`, sorted by start with overlaps
    /// resolved (earliest start wins; ties prefer the longest).  Checksummed
    /// kinds that fail validation are dropped.
    pub fn detect(&self, text: &str) -> (r: Vec<Entity>)
        requires
            self.wf(),
        ensures
            models(r@) == spec_detect(text@),
            forall|j: int|
                0 <= j < r@.len() ==> (#[trigger] r@[j]).span.start <= r@[j].span.end
                    && byte_len(r@[j].text@) == r@[j].span.end - r@[j].span.start,
            forall|j: int| 0 <= j < r@.len() ==> tied((#[trigger] r@[j])@, text@),
            forall|j: int, k: int|
                #![trigger r@[j], r@[k]]
                0 <= j < k < r@.len() ==> r@[j].span.end <= r@[k].span.start,
    {
        let v = chars_of(text);
        let bytes = text.as_bytes();
        let nb = bytes.len();
        assert(byte_len(v@) == nb);
        let off = byte_offsets(&v);
        proof {
            assert forall|j: int, k: int| 0 <= j < k < off.len() implies off@[j] < off@[k] by {
                lemma_byte_offset_strict(v@, j, k);
            }
        }
        let mut all: Vec<Entity> = Vec::new();
        let mut i: usize = 0;
        while i < 16
            invariant
                0 <= i <= 16,
                self.wf(),
                v@ == text@,
                off.len() == v.len() + 1,
                forall|k: int| 0 <= k <= v.len() ==> off@[k] == byte_offset(v@, k),
                forall|a: int, b: int| 0 <= a < b < off.len() ==> off@[a] < off@[b],
                models(all@) == raw_models(text@, i as int),
                forall|j: int|
                    0 <= j < all@.len() ==> (#[trigger] all@[j]).span.start <= all@[j].span.end
                        && byte_len(all@[j].text@) == all@[j].span.end - all@[j].span.start,
                forall|j: int| 0 <= j < all@.len() ==> tied((#[trigger] all@[j])@, text@),
            decreases 16 - i,
        {
            self.collect(text, &v, &off, i, &mut all);
            i += 1;
        }
        let mut valid: Vec<Entity> = Vec::new();
        let ghost ms = models(all@);
        let mut k: usize = 0;
        while k < all.len()
            invariant
                0 <= k <= all@.len(),
                ms == models(all@),
                models(valid@) == keep_valid(ms.take(k as int)),
                forall|j: int|
                    0 <= j < all@.len() ==> (#[trigger] all@[j]).span.start <= all@[j].span.end
                        && byte_len(all@[j].text@) == all@[j].span.end - all@[j].span.start,
                forall|j: int|
                    0 <= j < valid@.len() ==> (#[trigger] valid@[j]).span.start
                        <= valid@[j].span.end && byte_len(valid@[j].text@) == valid@[j].span.end
                        - valid@[j].span.start,
                forall|j: int| 0 <= j < all@.len() ==> tied((#[trigger] all@[j])@, text@),
                forall|j: int| 0 <= j < valid@.len() ==> tied((#[trigger] valid@[j])@, text@),
            decreases all@.len() - k,
        {
            assert(ms.take(k + 1).drop_last() =~= ms.take(k as int));
            assert(ms.take(k + 1).last() == all@[k as int]@);
            let e = copy_entity(&all[k]);
            if validate_entity(all[k].kind, all[k].text.as_str()) {
                let ghost before = valid@;
                valid.push(e);
                assert(models(valid@) =~= models(before).push(all@[k as int]@));
            }
            k += 1;
        }
        assert(ms.take(all@.len() as int) =~= ms);
        let sorted = sort_entities(valid, Ghost(text@));
        remove_overlaps(sorted, Ghost(text@))
    }

    /// Appends the candidates of pattern `i` to `out`.
    fn collect(
        &self,
        text: &str,
        v: &Vec<char>,
        off: &Vec<usize>,
        i: usize,
        out: &mut Vec<Entity>,
    )
        requires
            self.wf(),
            i < 16,
            v@ == text@,
            off.len() == v.len() + 1,
            forall|k: int| 0 <= k <= v.len() ==> off@[k] == byte_offset(v@, k),
            forall|a: int, b: int| 0 <= a < b < off.len() ==> off@[a] < off@[b],
            forall|j: int|
                0 <= j < old(out)@.len() ==> (#[trigger] old(out)@[j]).span.start
                    <= old(out)@[j].span.end && byte_len(old(out)@[j].text@)
                    == old(out)@[j].span.end - old(out)@[j].span.start,
            forall|j: int| 0 <= j < old(out)@.len() ==> tied((#[trigger] old(out)@[j])@, text@),
        ensures
            models(final(out)@) == models(old(out)@) + models_of(
                kind_at(i as int),
                text@,
                regex_find_all(SOURCES[i as int]@, text@),
            ),
            forall|j: int|
                0 <= j < final(out)@.len() ==> (#[trigger] final(out)@[j]).span.start
                    <= final(out)@[j].span.end && byte_len(final(out)@[j].text@)
                    == final(out)@[j].span.end - final(out)@[j].span.start,
            forall|j: int| 0 <= j < final(out)@.len() ==> tied((#[trigger] final(out)@[j])@, text@),
    {
        let kind = kind_of(i);
        let spans = regex_spans(&self.regexes[i], text);
        let ghost found = regex_find_all(SOURCES[i as int]@, text@);
        assert(self.regexes@[i as int].source() == SOURCES[i as int]@);
        let ghost base = models(out@);
        let mut j: usize = 0;
        while j < spans.len()
            invariant
                0 <= j <= spans@.len(),
                v@ == text@,
                off.len() == v.len() + 1,
                forall|k: int| 0 <= k <= v.len() ==> off@[k] == byte_offset(v@, k),
                forall|a: int, b: int| 0 <= a < b < off.len() ==> off@[a] < off@[b],
                found == regex_find_all(SOURCES[i as int]@, text@),
                spans@.len() == found.len(),
                forall|q: int|
                    0 <= q < spans@.len() ==> (#[trigger] spans@[q]).0 as int == found[q].0
                        && spans@[q].1 as int == found[q].1,
                forall|q: int|
                    0 <= q < spans@.len() ==> (#[trigger] spans@[q]).0 <= spans@[q].1 <= byte_len(
                        text@,
                    ) && is_char_boundary(text@, spans@[q].0 as int) && is_char_boundary(
                        text@,
                        spans@[q].1 as int,
                    ),
                kind == kind_at(i as int),
                models(out@) == base + models_of(kind, text@, found.take(j as int)),
                forall|q: int|
                    0 <= q < out@.len() ==> (#[trigger] out@[q]).span.start <= out@[q].span.end
                        && byte_len(out@[q].text@) == out@[q].span.end - out@[q].span.start,
                forall|q: int| 0 <= q < out@.len() ==> tied((#[trigger] out@[q])@, text@),
            decreases spans@.len() - j,
        {
            let (bs, be) = spans[j];
            let ghost ks = char_index(text@, bs as int);
            let ghost ke = char_index(text@, be as int);
            assert(0 <= ks <= v.len() && off@[ks] == bs);
            assert(0 <= ke <= v.len() && off@[ke] == be);
            let cs = match find_offset(off, 0, bs) {
                Some(k) => k,
                None => {
                    assert(off@[ks] != bs);
                    return ;
                },
            };
            let ce = match find_offset(off, 0, be) {
                Some(k) => k,
                None => {
                    assert(off@[ke] != be);
                    return ;
                },
            };
            assert(cs == ks) by {
                if (cs as int) < ks {
                    assert(off@[cs as int] < off@[ks]);
                } else if (cs as int) > ks {
                    assert(off@[ks] < off@[cs as int]);
                }
            }
            assert(ce == ke) by {
                if (ce as int) < ke {
                    assert(off@[ce as int] < off@[ke]);
                } else if (ce as int) > ke {
                    assert(off@[ke] < off@[ce as int]);
                }
            }
            assert(cs <= ce) by {
                if cs > ce {
                    assert(off@[ce as int] < off@[cs as int]);
                }
            }
            let raw = string_from_range(v, cs, ce);
            proof {
                crate::text::lemma_byte_len_range(v@, cs as int, ce as int);
            }
            let normalized = normalize_entity(kind, raw.as_str());
            let ghost before = out@;
            out.push(Entity { kind, text: raw, normalized, span: Span { start: bs, end: be } });
            assert(tied(out@[out@.len() - 1]@, text@));
            assert(found.take(j + 1) =~= found.take(j as int).push(found[j as int]));
            assert(models(out@) =~= models(before).push(model_of(kind, text@, found[j as int])));
            assert(models_of(kind, text@, found.take(j + 1)) =~= models_of(kind, text@, found.take(j as int)).push(model_of(kind, text@, found[j as int])));
            j += 1;
        }
        assert(found.take(spans@.len() as int) =~= found);
    }
}

/// The entity's text is exactly the text between the character boundaries
/// at its two byte offsets.
pub open spec fn tied(m: EntityModel, t: Seq<char>) -> bool {
    &&& is_char_boundary(t, m.start)
    &&& is_char_boundary(t, m.end)
    &&& m.text == t.subrange(char_index(t, m.start), char_index(t, m.end))
}

/// Where the stable insertion of `e` lands.
proof fn lemma_insert_sorted(s: Seq<EntityModel>, e: EntityModel, p: int)
    requires
        0 <= p <= s.len(),
        forall|q: int| p <= q < s.len() ==> sorts_after(#[trigger] s[q], e),
        p == 0 || !sorts_after(s[p - 1], e),
    ensures
        insert_sorted(s, e) == s.take(p) + seq![e] + s.skip(p),
    decreases s.len(),
{
    if s.len() == p {
        if p == 0 {
            assert(s.take(p) + seq![e] + s.skip(p) =~= seq![e]);
        } else {
            assert(s.last() == s[p - 1]);
            assert(s.take(p) + seq![e] + s.skip(p) =~= s.push(e));
        }
    } else {
        assert(s.last() == s[s.len() - 1]);
        let d = s.drop_last();
        assert forall|q: int| p <= q < d.len() implies sorts_after(#[trigger] d[q], e) by {
            assert(d[q] == s[q]);
        }
        if p > 0 {
            assert(d[p - 1] == s[p - 1]);
        }
        lemma_insert_sorted(d, e, p);
        assert(d.take(p) + seq![e] + d.skip(p) + seq![s.last()] =~= s.take(p) + seq![e] + s.skip(p));
    }
}

/// A copy of an entity.
fn copy_entity(e: &Entity) -> (r: Entity)
    ensures
        r@ == e@,
{
    let normalized = match &e.normalized {
        Some(n) => Some(n.as_str().to_owned()),
        None => None,
    };
    Entity { kind: e.kind, text: e.text.as_str().to_owned(), normalized, span: e.span }
}

fn sorts_after_exec(a: &Entity, b: &Entity) -> (r: bool)
    ensures
        r == sorts_after(a@, b@),
{
    a.span.start > b.span.start || (a.span.start == b.span.start && a.span.end < b.span.end)
}

/// Stable sort by start, then longest first.
fn sort_entities(v: Vec<Entity>, Ghost(t): Ghost<Seq<char>>) -> (r: Vec<Entity>)
    requires
        forall|j: int|
            0 <= j < v@.len() ==> (#[trigger] v@[j]).span.start <= v@[j].span.end && byte_len(
                v@[j].text@,
            ) == v@[j].span.end - v@[j].span.start,
        forall|j: int| 0 <= j < v@.len() ==> tied((#[trigger] v@[j])@, t),
    ensures
        forall|j: int| 0 <= j < r@.len() ==> tied((#[trigger] r@[j])@, t),
        models(r@) == sort_models(models(v@)),
        forall|j: int|
            0 <= j < r@.len() ==> (#[trigger] r@[j]).span.start <= r@[j].span.end && byte_len(
                r@[j].text@,
            ) == r@[j].span.end - r@[j].span.start,
{
    let ghost mv = models(v@);
    let mut out: Vec<Entity> = Vec::new();
    let mut k: usize = 0;
    while k < v.len()
        invariant
            0 <= k <= v@.len(),
            mv == models(v@),
            models(out@) == sort_models(mv.take(k as int)),
            forall|j: int|
                0 <= j < v@.len() ==> (#[trigger] v@[j]).span.start <= v@[j].span.end && byte_len(
                    v@[j].text@,
                ) == v@[j].span.end - v@[j].span.start,
            forall|j: int|
                0 <= j < out@.len() ==> (#[trigger] out@[j]).span.start <= out@[j].span.end
                    && byte_len(out@[j].text@) == out@[j].span.end - out@[j].span.start,
            forall|j: int| 0 <= j < v@.len() ==> tied((#[trigger] v@[j])@, t),
            forall|j: int| 0 <= j < out@.len() ==> tied((#[trigger] out@[j])@, t),
        decreases v@.len() - k,
    {
        let e = copy_entity(&v[k]);
        assert(mv.take(k + 1).drop_last() =~= mv.take(k as int));
        assert(mv.take(k + 1).last() == v@[k as int]@);
        let ghost em = v@[k as int]@;
        let mut p = out.len();
        while p > 0 && sorts_after_exec(&out[p - 1], &v[k])
            invariant
                0 <= p <= out@.len(),
                forall|q: int| p <= q < out@.len() ==> sorts_after(#[trigger] models(out@)[q], em),
                em == v@[k as int]@,
                k < v@.len(),
            decreases p,
        {
            assert(models(out@)[p - 1] == out@[p - 1]@);
            p -= 1;
        }
        proof {
            if p > 0 {
                assert(models(out@)[p - 1] == out@[p - 1]@);
            }
            lemma_insert_sorted(models(out@), em, p as int);
        }
        let ghost before = out@;
        out.insert(p, e);
        assert(models(out@) =~= models(before).take(p as int) + seq![em] + models(before).skip(
            p as int,
        ));
        assert forall|j: int| 0 <= j < out@.len() implies (#[trigger] out@[j]).span.start
            <= out@[j].span.end && byte_len(out@[j].text@) == out@[j].span.end
            - out@[j].span.start && tied(out@[j]@, t) by {
            if j < p {
                assert(out@[j] == before[j]);
            } else if j > p {
                assert(out@[j] == before[j - 1]);
            } else {
                assert(out@[j]@ == em);
            }
        }
        k += 1;
    }
    assert(mv.take(v@.len() as int) =~= mv);
    out
}

/// Keep each entity that starts at or after the end of the last one kept.
fn remove_overlaps(v: Vec<Entity>, Ghost(t): Ghost<Seq<char>>) -> (r: Vec<Entity>)
    requires
        forall|j: int|
            0 <= j < v@.len() ==> (#[trigger] v@[j]).span.start <= v@[j].span.end && byte_len(
                v@[j].text@,
            ) == v@[j].span.end - v@[j].span.start,
        forall|j: int| 0 <= j < v@.len() ==> tied((#[trigger] v@[j])@, t),
    ensures
        forall|j: int| 0 <= j < r@.len() ==> tied((#[trigger] r@[j])@, t),
        models(r@) == remove_overlaps_spec(models(v@)),
        forall|j: int|
            0 <= j < r@.len() ==> (#[trigger] r@[j]).span.start <= r@[j].span.end && byte_len(
                r@[j].text@,
            ) == r@[j].span.end - r@[j].span.start,
        forall|j: int, k: int|
            #![trigger r@[j], r@[k]]
            0 <= j < k < r@.len() ==> r@[j].span.end <= r@[k].span.start,
{
    let ghost mv = models(v@);
    let mut out: Vec<Entity> = Vec::new();
    let mut last: usize = 0;
    let mut k: usize = 0;
    while k < v.len()
        invariant
            0 <= k <= v@.len(),
            mv == models(v@),
            (models(out@), last as int) == greedy_state(mv, k as int),
            forall|j: int|
                0 <= j < v@.len() ==> (#[trigger] v@[j]).span.start <= v@[j].span.end && byte_len(
                    v@[j].text@,
                ) == v@[j].span.end - v@[j].span.start,
            forall|j: int|
                0 <= j < out@.len() ==> (#[trigger] out@[j]).span.start <= out@[j].span.end
                    && byte_len(out@[j].text@) == out@[j].span.end - out@[j].span.start
                    && out@[j].span.end <= last,
            forall|j: int| 0 <= j < v@.len() ==> tied((#[trigger] v@[j])@, t),
            forall|j: int| 0 <= j < out@.len() ==> tied((#[trigger] out@[j])@, t),
            forall|j: int, q: int|
                #![trigger out@[j], out@[q]]
                0 <= j < q < out@.len() ==> out@[j].span.end <= out@[q].span.start,
        decreases v@.len() - k,
    {
        assert(mv[k as int] == v@[k as int]@);
        if v[k].span.start >= last {
            let e = copy_entity(&v[k]);
            last = e.span.end;
            let ghost before = out@;
            out.push(e);
            assert(models(out@) =~= models(before).push(mv[k as int]));
            assert forall|j: int, q: int| #![trigger out@[j], out@[q]] 0 <= j < q < out@.len() implies out@[j].span.end <= out@[q].span.start by {
                if q < out@.len() - 1 {
                    assert(out@[j] == before[j] && out@[q] == before[q]);
                } else {
                    assert(out@[j] == before[j]);
                }
            }
        }
        k += 1;
    }
    out
}


/// `s` is ordered by start, and among equal starts by end, longest first.
pub open spec fn by_start_longest_first(s: Seq<EntityModel>) -> bool {
    forall|i: int, j: int|
        #![trigger s[i], s[j]]
        0 <= i < j < s.len() ==> s[i].start < s[j].start || (s[i].start == s[j].start && s[i].end
            >= s[j].end)
}

proof fn lemma_insert_sorted_props(s: Seq<EntityModel>, e: EntityModel)
    requires
        by_start_longest_first(s),
    ensures
        by_start_longest_first(insert_sorted(s, e)),
        forall|x: EntityModel|
            #![trigger insert_sorted(s, e).contains(x)]
            #![trigger s.contains(x)]
            insert_sorted(s, e).contains(x) <==> (s.contains(x) || x == e),
    decreases s.len(),
{
    if s.len() == 0 {
        assert(seq![e][0] == e);
    } else if sorts_after(s.last(), e) {
        let d = s.drop_last();
        assert forall|i: int, j: int| #![trigger d[i], d[j]] 0 <= i < j < d.len() implies d[i].start
            < d[j].start || (d[i].start == d[j].start && d[i].end >= d[j].end) by {
            assert(d[i] == s[i] && d[j] == s[j]);
        }
        lemma_insert_sorted_props(d, e);
        let r = insert_sorted(d, e);
        let l = s.last();
        let out = r.push(l);
        assert forall|i: int| 0 <= i < r.len() implies #[trigger] r[i].start < l.start || (r[i].start
            == l.start && r[i].end >= l.end) by {
            assert(r.contains(r[i]));
            if r[i] != e {
                assert(d.contains(r[i]));
                let k = choose|k: int| 0 <= k < d.len() && d[k] == r[i];
                assert(s[k] == d[k]);
                assert(s[s.len() - 1] == l);
            }
        }
        assert forall|i: int, j: int| #![trigger out[i], out[j]] 0 <= i < j < out.len() implies out[i].start
            < out[j].start || (out[i].start == out[j].start && out[i].end >= out[j].end) by {
            if j < r.len() {
                assert(out[i] == r[i] && out[j] == r[j]);
            } else {
                assert(out[i] == r[i] && out[j] == l);
                assert(r[i].start < l.start || (r[i].start == l.start && r[i].end >= l.end));
            }
        }
        assert forall|x: EntityModel| out.contains(x) <==> (s.contains(x) || x == e) by {
            if out.contains(x) {
                let k = choose|k: int| 0 <= k < out.len() && out[k] == x;
                if k < r.len() {
                    assert(r[k] == x);
                    assert(r.contains(x));
                    if x != e {
                        assert(d.contains(x));
                        let m = choose|m: int| 0 <= m < d.len() && d[m] == x;
                        assert(s[m] == x);
                    }
                } else {
                    assert(s[s.len() - 1] == x);
                }
            }
            if s.contains(x) {
                let k = choose|k: int| 0 <= k < s.len() && s[k] == x;
                if k < d.len() {
                    assert(d[k] == x);
                    assert(d.contains(x));
                    assert(r.contains(x));
                    let m = choose|m: int| 0 <= m < r.len() && r[m] == x;
                    assert(out[m] == x);
                } else {
                    assert(out[out.len() - 1] == x);
                }
            }
            if x == e {
                assert(r.contains(e));
                let m = choose|m: int| 0 <= m < r.len() && r[m] == e;
                assert(out[m] == e);
            }
        }
    } else {
        let out = s.push(e);
        let l = s.last();
        assert forall|i: int, j: int| #![trigger out[i], out[j]] 0 <= i < j < out.len() implies out[i].start
            < out[j].start || (out[i].start == out[j].start && out[i].end >= out[j].end) by {
            if j < s.len() {
                assert(out[i] == s[i] && out[j] == s[j]);
            } else {
                assert(out[i] == s[i] && out[j] == e);
                if i < s.len() - 1 {
                    assert(s[s.len() - 1] == l);
                }
            }
        }
        assert forall|x: EntityModel| out.contains(x) <==> (s.contains(x) || x == e) by {
            if out.contains(x) {
                let k = choose|k: int| 0 <= k < out.len() && out[k] == x;
                if k < s.len() {
                    assert(s[k] == x);
                }
            }
            if s.contains(x) {
                let k = choose|k: int| 0 <= k < s.len() && s[k] == x;
                assert(out[k] == x);
            }
            if x == e {
                assert(out[s.len() as int] == e);
            }
        }
    }
}

proof fn lemma_sort_models_props(ms: Seq<EntityModel>)
    ensures
        by_start_longest_first(sort_models(ms)),
        forall|x: EntityModel|
            #![trigger sort_models(ms).contains(x)]
            #![trigger ms.contains(x)]
            sort_models(ms).contains(x) <==> ms.contains(x),
    decreases ms.len(),
{
    if ms.len() > 0 {
        let d = ms.drop_last();
        lemma_sort_models_props(d);
        lemma_insert_sorted_props(sort_models(d), ms.last());
        assert forall|x: EntityModel| (d.contains(x) || x == ms.last()) <==> ms.contains(x) by {
            if d.contains(x) {
                let k = choose|k: int| 0 <= k < d.len() && d[k] == x;
                assert(ms[k] == x);
            }
            if x == ms.last() {
                assert(ms[ms.len() - 1] == x);
            }
            if ms.contains(x) {
                let k = choose|k: int| 0 <= k < ms.len() && ms[k] == x;
                if k < d.len() {
                    assert(d[k] == x);
                }
            }
        }
    }
}

/// Position `p` of `ms` is kept by the greedy pass.
pub open spec fn greedy_kept(ms: Seq<EntityModel>, p: int) -> bool {
    ms[p].start >= greedy_state(ms, p).1
}

proof fn lemma_greedy_mono(ms: Seq<EntityModel>, p: int, k: int)
    requires
        0 <= p <= k <= ms.len(),
        forall|i: int| 0 <= i < ms.len() ==> (#[trigger] ms[i]).start <= ms[i].end,
    ensures
        greedy_state(ms, p).1 <= greedy_state(ms, k).1,
    decreases k - p,
{
    if p < k {
        lemma_greedy_mono(ms, p, k - 1);
        assert(ms[k - 1].start <= ms[k - 1].end);
    }
}

/// The position in `ms` of the `j`-th entity kept among the first `k`.
proof fn lemma_greedy_source(ms: Seq<EntityModel>, k: int, j: int) -> (p: int)
    requires
        0 <= k <= ms.len(),
        0 <= j < greedy_state(ms, k).0.len(),
    ensures
        0 <= p < k,
        greedy_kept(ms, p),
        greedy_state(ms, k).0[j] == ms[p],
    decreases k,
{
    let r = greedy_state(ms, k - 1).0;
    if j < r.len() {
        assert(greedy_state(ms, k).0[j] == r[j]);
        lemma_greedy_source(ms, k - 1, j)
    } else {
        k - 1
    }
}

/// The overlap rule's tie-break, over every validated candidate: a
/// detected entity that starts where a candidate starts ends no earlier
/// than that candidate, so among matches at one position the longest is
/// kept.  (The match spans of each pattern start no later than they end, as
/// the regex search gives them.)
pub proof fn law_detect_prefers_longest(t: Seq<char>, c: EntityModel)
    requires
        forall|i: int|
            0 <= i < keep_valid(raw_models(t, 16)).len() ==> (#[trigger] keep_valid(
                raw_models(t, 16),
            )[i]).start <= keep_valid(raw_models(t, 16))[i].end,
        keep_valid(raw_models(t, 16)).contains(c),
    ensures
        forall|j: int|
            0 <= j < spec_detect(t).len() && (#[trigger] spec_detect(t)[j]).start == c.start
                ==> c.end <= spec_detect(t)[j].end,
{
    let cands = keep_valid(raw_models(t, 16));
    let ms = sort_models(cands);
    lemma_sort_models_props(cands);
    assert forall|i: int| 0 <= i < ms.len() implies (#[trigger] ms[i]).start <= ms[i].end by {
        assert(ms.contains(ms[i]));
        assert(cands.contains(ms[i]));
        let k = choose|k: int| 0 <= k < cands.len() && cands[k] == ms[i];
    }
    assert(ms.contains(c));
    let q = choose|q: int| 0 <= q < ms.len() && ms[q] == c;
    let res = spec_detect(t);
    assert forall|j: int| 0 <= j < res.len() && (#[trigger] res[j]).start == c.start implies c.end
        <= res[j].end by {
        let p = lemma_greedy_source(ms, ms.len() as int, j);
        if q < p {
            lemma_greedy_mono(ms, q + 1, p);
            assert(ms[q].start <= ms[q].end);
        } else if q > p {
            assert(ms[p].start < ms[q].start || (ms[p].start == ms[q].start && ms[p].end
                >= ms[q].end));
        }
    }
}

proof fn lemma_greedy_target(ms: Seq<EntityModel>, k: int, p: int)
    requires
        0 <= p < k <= ms.len(),
        greedy_kept(ms, p),
    ensures
        greedy_state(ms, k).0.contains(ms[p]),
    decreases k,
{
    let r = greedy_state(ms, k - 1).0;
    if p == k - 1 {
        assert(greedy_state(ms, k).0 == r.push(ms[p]));
        assert(r.push(ms[p])[r.len() as int] == ms[p]);
    } else {
        lemma_greedy_target(ms, k - 1, p);
        let i = choose|i: int| 0 <= i < r.len() && r[i] == ms[p];
        assert(greedy_state(ms, k).0[i] == ms[p]);
    }
}

/// The position of the entity whose end is the greedy pass's current end.
proof fn lemma_greedy_last(ms: Seq<EntityModel>, k: int) -> (p: int)
    requires
        0 <= k <= ms.len(),
    ensures
        greedy_state(ms, k).1 != 0 ==> 0 <= p < k && greedy_kept(ms, p) && ms[p].end
            == greedy_state(ms, k).1,
    decreases k,
{
    if k == 0 {
        0
    } else if greedy_kept(ms, k - 1) {
        k - 1
    } else {
        lemma_greedy_last(ms, k - 1)
    }
}

/// Nothing valid is lost without cause: every validated candidate is
/// detected, or it starts inside a detected entity that starts no later
/// (earliest start wins).  (Match spans are byte ranges `start <= end`.)
pub proof fn law_detect_covers_candidates(t: Seq<char>, c: EntityModel)
    requires
        forall|i: int|
            0 <= i < keep_valid(raw_models(t, 16)).len() ==> 0 <= (#[trigger] keep_valid(
                raw_models(t, 16),
            )[i]).start <= keep_valid(raw_models(t, 16))[i].end,
        keep_valid(raw_models(t, 16)).contains(c),
    ensures
        exists|j: int|
            0 <= j < spec_detect(t).len() && (#[trigger] spec_detect(t)[j] == c || (
            spec_detect(t)[j].start <= c.start < spec_detect(t)[j].end)),
{
    let cands = keep_valid(raw_models(t, 16));
    let ms = sort_models(cands);
    lemma_sort_models_props(cands);
    assert forall|i: int| 0 <= i < ms.len() implies 0 <= (#[trigger] ms[i]).start <= ms[i].end by {
        assert(ms.contains(ms[i]));
        assert(cands.contains(ms[i]));
        let k = choose|k: int| 0 <= k < cands.len() && cands[k] == ms[i];
    }
    assert(ms.contains(c));
    let q = choose|q: int| 0 <= q < ms.len() && ms[q] == c;
    let res = spec_detect(t);
    let n = ms.len() as int;
    if greedy_kept(ms, q) {
        lemma_greedy_target(ms, n, q);
        let j = choose|j: int| 0 <= j < res.len() && res[j] == ms[q];
        assert(res[j] == c);
    } else {
        assert(ms[q].start >= 0);
        let p = lemma_greedy_last(ms, q);
        assert(ms[p].start < ms[q].start || (ms[p].start == ms[q].start && ms[p].end
            >= ms[q].end));
        lemma_greedy_target(ms, n, p);
        let j = choose|j: int| 0 <= j < res.len() && res[j] == ms[p];
        assert(res[j].start <= c.start < res[j].end);
    }
}
} // verus!
