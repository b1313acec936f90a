//! Iranian mobile phone number validation, canonicalisation and operator
//! detection.
//!
//! Mobile numbers are 11 digits beginning with `09` (or `+989` / `00989`);
//! the first four digits identify the operator.

use vstd::prelude::*;
use crate::validators::{
    all_digits, ascii_digits, dec_value, digit_seq, digit_values, digits_to_string, opt_ascii,
    opt_view, value_of,
};
use crate::text::push_char;
use crate::normalizer::digits::LATIN_DIGITS;

verus! {

/// Mobile network operators in Iran.
#[derive(Debug, Clone, PartialEq, Eq, Structural)]
pub enum Operator {
    /// MCI / Hamrah-e Aval — همراه اول.
    MCI,
    /// MTN Irancell — ایرانسل.
    Irancell,
    /// RighTel — رایتل.
    RighTel,
    /// Shatel Mobile — شاتل موبایل.
    ShatelMobile,
    /// Anarestan / Aptel — آپتل.
    Aptel,
    /// Other licensed MVNO or unknown sub-prefix.
    Other,
}

impl Operator {
    /// English display name.
    pub fn to_string(&self) -> (r: String)
        ensures
            r@ == spec_operator_name(*self)@,
    {
        let s = match self {
            Operator::MCI => "MCI",
            Operator::Irancell => "Irancell",
            Operator::RighTel => "RighTel",
            Operator::ShatelMobile => "Shatel Mobile",
            Operator::Aptel => "Aptel",
            Operator::Other => "Other",
        };
        s.to_owned()
    }

    /// Persian name of the operator.
    pub fn persian_name(&self) -> (r: &'static str)
        ensures
            r == spec_operator_persian_name(*self),
    {
        match self {
            Operator::MCI => "همراه اول",
            Operator::Irancell => "ایرانسل",
            Operator::RighTel => "رایتل",
            Operator::ShatelMobile => "شاتل موبایل",
            Operator::Aptel => "آپتل",
            Operator::Other => "نامشخص",
        }
    }
}

pub open spec fn spec_operator_name(o: Operator) -> &'static str {
    match o {
        Operator::MCI => "MCI",
        Operator::Irancell => "Irancell",
        Operator::RighTel => "RighTel",
        Operator::ShatelMobile => "Shatel Mobile",
        Operator::Aptel => "Aptel",
        Operator::Other => "Other",
    }
}

pub open spec fn spec_operator_persian_name(o: Operator) -> &'static str {
    match o {
        Operator::MCI => "همراه اول",
        Operator::Irancell => "ایرانسل",
        Operator::RighTel => "رایتل",
        Operator::ShatelMobile => "شاتل موبایل",
        Operator::Aptel => "آپتل",
        Operator::Other => "نامشخص",
    }
}

/// The canonical `09XXXXXXXXX` digits of a mobile number given as
/// `09…` (11 digits), `98 9…` (12 digits) or `0098 9…` (14 digits).
pub open spec fn spec_canonical_digits(d: Seq<u8>) -> Option<Seq<u8>> {
    if d.len() == 14 && d[0] == 0 && d[1] == 0 && d[2] == 9 && d[3] == 8 {
        if d[4] == 9 {
            Some(seq![0u8] + d.skip(4))
        } else {
            None
        }
    } else if d.len() == 12 && d[0] == 9 && d[1] == 8 {
        if d[2] == 9 {
            Some(seq![0u8] + d.skip(2))
        } else {
            None
        }
    } else if d.len() == 11 && d[0] == 0 && d[1] == 9 {
        Some(d)
    } else {
        None
    }
}

/// Canonical digits of `phone`.
pub open spec fn spec_canonicalize(s: Seq<char>) -> Option<Seq<u8>> {
    spec_canonical_digits(digit_seq(s))
}

fn canonical_digits(phone: &str) -> (r: Option<Vec<u8>>)
    ensures
        r matches Some(v) ==> spec_canonicalize(phone@) == Some(v@) && all_digits(v@),
        r is None ==> spec_canonicalize(phone@) is None,
{
    let d = digit_values(phone);
    let start: usize = if d.len() == 14 && d[0] == 0 && d[1] == 0 && d[2] == 9 && d[3] == 8 {
        4
    } else if d.len() == 12 && d[0] == 9 && d[1] == 8 {
        2
    } else if d.len() == 11 && d[0] == 0 && d[1] == 9 {
        return Some(d);
    } else {
        return None;
    };
    if d[start] != 9 {
        return None;
    }
    let mut out: Vec<u8> = Vec::new();
    out.push(0);
    let mut i = start;
    while i < d.len()
        invariant
            start <= i <= d.len(),
            all_digits(d@),
            out@ == seq![0u8] + d@.subrange(start as int, i as int),
        decreases d.len() - i,
    {
        out.push(d[i]);
        assert(seq![0u8] + d@.subrange(start as int, i + 1) =~= (seq![0u8] + d@.subrange(
            start as int,
            i as int,
        )).push(d@[i as int]));
        i += 1;
    }
    assert(d@.subrange(start as int, d.len() as int) =~= d@.skip(start as int));
    Some(out)
}

/// Canonicalise to `09XXXXXXXXX` (11 Latin digits) or return `None` if the
/// input is not a valid Iranian mobile number.
pub fn canonicalize(phone: &str) -> (r: Option<String>)
    ensures
        opt_view(r) == opt_ascii(spec_canonicalize(phone@)),
{
    match canonical_digits(phone) {
        Some(v) => {
            let s = digits_to_string(&v, 0, v.len());
            assert(v@.subrange(0, v.len() as int) =~= v@);
            Some(s)
        },
        None => None,
    }
}

/// Returns `true` if `phone` is a structurally valid Iranian mobile number.
pub fn validate(phone: &str) -> (b: bool)
    ensures
        b == spec_canonicalize(phone@) is Some,
{
    canonical_digits(phone).is_some()
}

/// Operator owning the four-digit prefix whose value is `p` (e.g. `912` for `0912`).
pub open spec fn spec_operator_of_prefix(p: int) -> Operator {
    if 910 <= p <= 919 || p == 991 || p == 992 || p == 994 || p == 995 || p == 996 || p == 999 {
        Operator::MCI
    } else if 920 <= p <= 922 {
        Operator::RighTel
    } else if p == 930 || (933 <= p <= 939 && p != 934) || (901 <= p <= 905) || p == 941 {
        Operator::Irancell
    } else if p == 998 {
        Operator::ShatelMobile
    } else if p == 993 {
        Operator::Aptel
    } else {
        Operator::Other
    }
}

/// The operator of a valid mobile number.
pub open spec fn spec_operator(s: Seq<char>) -> Option<Operator> {
    match spec_canonicalize(s) {
        Some(c) => Some(spec_operator_of_prefix(dec_value(c.take(4)))),
        None => None,
    }
}

/// Detect the mobile operator from a phone number; `None` if the input is
/// not a valid Iranian mobile number.
pub fn operator(phone: &str) -> (r: Option<Operator>)
    ensures
        r == spec_operator(phone@),
{
    let c = match canonical_digits(phone) {
        Some(v) => v,
        None => return None,
    };
    let p = value_of(&c, 0, 4);
    assert(c@.subrange(0, 4) =~= c@.take(4));
    let op = if (910 <= p && p <= 919) || p == 991 || p == 992 || p == 994 || p == 995 || p == 996
        || p == 999 {
        Operator::MCI
    } else if 920 <= p && p <= 922 {
        Operator::RighTel
    } else if p == 930 || (933 <= p && p <= 939 && p != 934) || (901 <= p && p <= 905) || p == 941 {
        Operator::Irancell
    } else if p == 998 {
        Operator::ShatelMobile
    } else if p == 993 {
        Operator::Aptel
    } else {
        Operator::Other
    };
    Some(op)
}

/// The canonical form is eleven ASCII digits starting `09`, a valid number,
/// and its own canonical form.
pub proof fn law_canonical_form_stable(phone: Seq<char>)
    requires
        spec_canonicalize(phone) is Some,
    ensures
        spec_canonicalize(ascii_digits(spec_canonicalize(phone)->0)) == spec_canonicalize(phone),
        ascii_digits(spec_canonicalize(phone)->0).len() == 11,
        ascii_digits(spec_canonicalize(phone)->0)[0] == '0',
        ascii_digits(spec_canonicalize(phone)->0)[1] == '9',
        forall|k: int|
            0 <= k < 11 ==> '0' <= #[trigger] ascii_digits(spec_canonicalize(phone)->0)[k] <= '9',
{
    let d = digit_seq(phone);
    crate::validators::lemma_digit_seq_digits(phone);
    let c = spec_canonicalize(phone)->0;
    assert(all_digits(c)) by {
        if d.len() == 14 {
            assert forall|i: int| 0 <= i < c.len() implies c[i] <= 9 by {
                if i > 0 {
                    assert(c[i] == d[i + 3]);
                }
            }
        } else if d.len() == 12 {
            assert forall|i: int| 0 <= i < c.len() implies c[i] <= 9 by {
                if i > 0 {
                    assert(c[i] == d[i + 1]);
                }
            }
        }
    }
    crate::validators::lemma_digit_seq_ascii(c);
    assert(c.len() == 11 && c[0] == 0 && c[1] == 9);
    let a = ascii_digits(c);
    assert forall|k: int| 0 <= k < 11 implies '0' <= #[trigger] a[k] <= '9' by {
        assert(a[k] == LATIN_DIGITS[c[k] as int]);
        assert(c[k] <= 9);
    }
}

} // verus!
