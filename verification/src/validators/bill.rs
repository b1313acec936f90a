//! Iranian utility-bill (قبض) parsing and validation.
//!
//! A payment slip carries a `bill_id` and a `pay_id`.  Both use the weighted
//! modulo-11 check `Σ d[i] * ((i mod 6) + 2)` (walking from the right),
//! `r = sum mod 11`, check `= r` when `r < 2`, else `11 - r`:
//! the last digit of `bill_id` checks the rest of it; the second-to-last
//! digit of `pay_id` checks `pay_id[..-2]`; the last digit of `pay_id`
//! checks `bill_id ++ pay_id[..-1]`.  The digit before the `bill_id` check
//! digit names the bill type.

use vstd::prelude::*;
use crate::validators::{all_digits, digit_seq, digit_values};
use crate::validators::national_id::mod11_check;

verus! {

/// Iranian bill types as encoded in the second-to-last digit of `bill_id`.
#[derive(Debug, Clone, Copy, PartialEq, Eq, Structural)]
#[non_exhaustive]
pub enum BillType {
    /// آب — water utility.
    Water,
    /// برق — electricity utility.
    Electricity,
    /// گاز — gas utility.
    Gas,
    /// تلفن ثابت — fixed-line telephone.
    Phone,
    /// تلفن همراه — mobile telephone.
    Mobile,
    /// شهرداری — municipality.
    Municipality,
    /// مالیات — tax authority.
    Tax,
    /// جریمه راهنمایی و رانندگی — traffic fine.
    DrivingFine,
    /// سایر — unrecognised type code.
    Other,
}

pub open spec fn spec_bill_type_from_code(code: int) -> BillType {
    if code == 1 {
        BillType::Water
    } else if code == 2 {
        BillType::Electricity
    } else if code == 3 {
        BillType::Gas
    } else if code == 4 || code == 9 {
        BillType::Phone
    } else if code == 5 {
        BillType::Mobile
    } else if code == 6 {
        BillType::Municipality
    } else if code == 7 {
        BillType::Tax
    } else if code == 8 {
        BillType::DrivingFine
    } else {
        BillType::Other
    }
}

pub open spec fn spec_bill_type_persian(t: BillType) -> &'static str {
    match t {
        BillType::Water => "آب",
        BillType::Electricity => "برق",
        BillType::Gas => "گاز",
        BillType::Phone => "تلفن ثابت",
        BillType::Mobile => "تلفن همراه",
        BillType::Municipality => "شهرداری",
        BillType::Tax => "مالیات",
        BillType::DrivingFine => "جریمه",
        BillType::Other => "سایر",
    }
}

pub open spec fn spec_bill_type_name(t: BillType) -> &'static str {
    match t {
        BillType::Water => "Water",
        BillType::Electricity => "Electricity",
        BillType::Gas => "Gas",
        BillType::Phone => "Phone",
        BillType::Mobile => "Mobile",
        BillType::Municipality => "Municipality",
        BillType::Tax => "Tax",
        BillType::DrivingFine => "DrivingFine",
        BillType::Other => "Other",
    }
}

impl BillType {
    /// Persian display name.
    pub fn persian_name(self) -> (r: &'static str)
        ensures
            r == spec_bill_type_persian(self),
    {
        match self {
            BillType::Water => "آب",
            BillType::Electricity => "برق",
            BillType::Gas => "گاز",
            BillType::Phone => "تلفن ثابت",
            BillType::Mobile => "تلفن همراه",
            BillType::Municipality => "شهرداری",
            BillType::Tax => "مالیات",
            BillType::DrivingFine => "جریمه",
            BillType::Other => "سایر",
        }
    }

    /// English display name.
    pub fn to_string(&self) -> (r: String)
        ensures
            r@ == spec_bill_type_name(*self)@,
    {
        let s = match self {
            BillType::Water => "Water",
            BillType::Electricity => "Electricity",
            BillType::Gas => "Gas",
            BillType::Phone => "Phone",
            BillType::Mobile => "Mobile",
            BillType::Municipality => "Municipality",
            BillType::Tax => "Tax",
            BillType::DrivingFine => "DrivingFine",
            BillType::Other => "Other",
        };
        s.to_owned()
    }

    fn from_code(code: u8) -> (r: BillType)
        ensures
            r == spec_bill_type_from_code(code as int),
    {
        if code == 1 {
            BillType::Water
        } else if code == 2 {
            BillType::Electricity
        } else if code == 3 {
            BillType::Gas
        } else if code == 4 || code == 9 {
            BillType::Phone
        } else if code == 5 {
            BillType::Mobile
        } else if code == 6 {
            BillType::Municipality
        } else if code == 7 {
            BillType::Tax
        } else if code == 8 {
            BillType::DrivingFine
        } else {
            BillType::Other
        }
    }
}

/// `Σ b[k] * (((b.len() - 1 - k) mod 6) + 2)` over `k < n`.
pub open spec fn bill_sum(b: Seq<u8>, n: int) -> int
    decreases n,
{
    if n <= 0 {
        0
    } else {
        bill_sum(b, n - 1) + b[n - 1] * (((b.len() - 1 - (n - 1)) % 6) + 2)
    }
}

/// The weighted modulo-11 check digit of `b`.
pub open spec fn spec_check_digit(b: Seq<u8>) -> int {
    mod11_check(bill_sum(b, b.len() as int))
}

fn weighted_check_exec(b: &Vec<u8>) -> (r: u32)
    requires
        all_digits(b@),
    ensures
        r == spec_check_digit(b@),
{
    let mut acc: u32 = 0;
    let mut k: usize = 0;
    let n = b.len();
    while k < n
        invariant
            0 <= k <= n,
            n == b.len(),
            all_digits(b@),
            acc == bill_sum(b@, k as int) % 11,
        decreases n - k,
    {
        let i = n - 1 - k;
        let w = (i % 6) as u32 + 2;
        let x = b[k] as u32;
        assert(x * w <= 63) by (nonlinear_arith)
            requires
                x <= 9,
                w <= 7,
        ;
        let old_acc = acc;
        acc = (acc + x * w) % 11;
        proof {
            let s = bill_sum(b@, k as int);
            assert(bill_sum(b@, k + 1) == s + x * w);
            let y = x * w;
            assert((s % 11 + y) % 11 == (s + y) % 11) by (nonlinear_arith);
        }
        k += 1;
    }
    let r = acc;
    if r < 2 {
        r
    } else {
        11 - r
    }
}

/// A valid bill id: at least six digits, the last one the check digit of
/// the others.
pub open spec fn spec_validate_bill_id(s: Seq<char>) -> bool {
    let d = digit_seq(s);
    d.len() >= 6 && d.last() == spec_check_digit(d.drop_last())
}

/// The weighted modulo-11 check digit of a body of ASCII digits.
pub fn weighted_check(body: &[u8]) -> (r: u32)
    requires
        forall|k: int| 0 <= k < body@.len() ==> 48 <= #[trigger] body@[k] <= 57,
    ensures
        r == spec_check_digit(body@.map_values(|b: u8| (b - 48) as u8)),
{
    let mut d: Vec<u8> = Vec::new();
    let mut i: usize = 0;
    while i < body.len()
        invariant
            0 <= i <= body@.len(),
            forall|k: int| 0 <= k < body@.len() ==> 48 <= #[trigger] body@[k] <= 57,
            d@ == body@.take(i as int).map_values(|b: u8| (b - 48) as u8),
        decreases body@.len() - i,
    {
        d.push(body[i] - 48);
        assert(body@.take(i + 1).map_values(|b: u8| (b - 48) as u8) =~= body@.take(
            i as int,
        ).map_values(|b: u8| (b - 48) as u8).push((body@[i as int] - 48) as u8));
        i += 1;
    }
    assert(body@.take(body@.len() as int) =~= body@);
    weighted_check_exec(&d)
}

fn prefix(d: &Vec<u8>, n: usize) -> (r: Vec<u8>)
    requires
        n <= d.len(),
        all_digits(d@),
    ensures
        r@ == d@.take(n as int),
        all_digits(r@),
{
    let mut r: Vec<u8> = Vec::new();
    let mut i: usize = 0;
    while i < n
        invariant
            0 <= i <= n <= d.len(),
            all_digits(d@),
            r@ == d@.take(i as int),
        decreases n - i,
    {
        r.push(d[i]);
        assert(d@.take(i + 1) =~= d@.take(i as int).push(d@[i as int]));
        i += 1;
    }
    r
}

/// Returns `true` if `bill_id` has a valid bill checksum.
pub fn validate_bill_id(bill_id: &str) -> (b: bool)
    ensures
        b == spec_validate_bill_id(bill_id@),
{
    let d = digit_values(bill_id);
    if d.len() < 6 {
        return false;
    }
    let body = prefix(&d, d.len() - 1);
    assert(d@.take(d.len() - 1) =~= d@.drop_last());
    let check = d[d.len() - 1] as u32;
    weighted_check_exec(&body) == check
}

/// The pay id's two check digits agree: the second-to-last checks
/// `pay[..-2]`, the last checks `bill ++ pay[..-1]`.
pub open spec fn spec_validate_pay_id(bill_s: Seq<char>, pay_s: Seq<char>) -> bool {
    let bill = digit_seq(bill_s);
    let pay = digit_seq(pay_s);
    &&& bill.len() >= 6
    &&& pay.len() >= 6
    &&& pay[pay.len() - 2] == spec_check_digit(pay.take(pay.len() - 2))
    &&& pay.last() == spec_check_digit(bill + pay.take(pay.len() - 1))
}

/// Returns `true` if the pay id's check digits agree with `bill_id`.
pub fn validate_pay_id(bill_id: &str, pay_id: &str) -> (b: bool)
    ensures
        b == spec_validate_pay_id(bill_id@, pay_id@),
{
    let bill = digit_values(bill_id);
    let pay = digit_values(pay_id);
    if bill.len() < 6 || pay.len() < 6 {
        return false;
    }
    let body1 = prefix(&pay, pay.len() - 2);
    let c1 = pay[pay.len() - 2] as u32;
    if weighted_check_exec(&body1) != c1 {
        return false;
    }
    let mut combined = prefix(&bill, bill.len());
    assert(bill@.take(bill.len() as int) =~= bill@);
    let mut i: usize = 0;
    while i < pay.len() - 1
        invariant
            0 <= i <= pay.len() - 1,
            pay.len() >= 6,
            all_digits(pay@),
            all_digits(combined@),
            combined@ == bill@ + pay@.take(i as int),
        decreases pay.len() - 1 - i,
    {
        combined.push(pay[i]);
        assert(bill@ + pay@.take(i + 1) =~= (bill@ + pay@.take(i as int)).push(pay@[i as int]));
        i += 1;
    }
    let c2 = pay[pay.len() - 1] as u32;
    weighted_check_exec(&combined) == c2
}

/// Returns `true` iff [`validate_bill_id`] and [`validate_pay_id`] both hold.
pub fn validate(bill_id: &str, pay_id: &str) -> (b: bool)
    ensures
        b == (spec_validate_bill_id(bill_id@) && spec_validate_pay_id(bill_id@, pay_id@)),
{
    validate_bill_id(bill_id) && validate_pay_id(bill_id, pay_id)
}

/// The bill type named by the digit before the check digit.
pub open spec fn spec_bill_type(s: Seq<char>) -> Option<BillType> {
    let d = digit_seq(s);
    if d.len() < 2 {
        None
    } else {
        Some(spec_bill_type_from_code(d[d.len() - 2] as int))
    }
}

/// Detect the bill type; `None` if `bill_id` has fewer than two digits.
pub fn bill_type(bill_id: &str) -> (r: Option<BillType>)
    ensures
        r == spec_bill_type(bill_id@),
{
    let d = digit_values(bill_id);
    if d.len() < 2 {
        return None;
    }
    Some(BillType::from_code(d[d.len() - 2]))
}

} // verus!
