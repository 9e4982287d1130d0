//! Fixed-point decimal numbers as plain values, with the arithmetic and
//! comparisons delegated to `rust_decimal`.
//!
//! A `Decimal` is a mantissa and a scale: its value is `mantissa / 10^scale`.
//! In specifications a decimal is measured by `val()`, its value in units of
//! `10^-28` (always an integer, since the scale is at most 28).

use std::str::FromStr;
use vstd::prelude::*;

use crate::text::nat_text;

verus! {

/// Largest mantissa magnitude a decimal can hold (2^96 - 1).
pub const MAX_MANTISSA: i128 = 79228162514264337593543950335i128;

/// Largest scale (number of fractional digits) a decimal can hold.
pub const MAX_SCALE: u32 = 28u32;

/// `10^n`.
pub open spec fn pow10(n: nat) -> int
    decreases n,
{
    if n == 0 {
        1
    } else {
        10 * pow10((n - 1) as nat)
    }
}

/// `10^n` is positive.
pub proof fn lemma_pow10_positive(n: nat)
    ensures
        pow10(n) > 0,
    decreases n,
{
    if n > 0 {
        lemma_pow10_positive((n - 1) as nat);
    }
}

/// `|v|`.
pub open spec fn abs(v: int) -> int {
    if v < 0 {
        -v
    } else {
        v
    }
}

/// The larger of two naturals.
pub open spec fn max_nat(a: nat, b: nat) -> nat {
    if a < b {
        b
    } else {
        a
    }
}

/// A decimal number `mantissa / 10^scale`, with a sign flag that also
/// marks a negative zero (`-0`, `-0.00`), as `rust_decimal` keeps one.
#[derive(Debug, Clone, Copy)]
pub struct Decimal {
    mantissa: i128,
    scale: u32,
    negative: bool,
}

impl Decimal {
    #[verifier::type_invariant]
    closed spec fn well_formed(self) -> bool {
        &&& self.scale <= MAX_SCALE
        &&& -MAX_MANTISSA <= self.mantissa <= MAX_MANTISSA
        &&& self.mantissa < 0 ==> self.negative
        &&& self.mantissa > 0 ==> !self.negative
    }

    /// The sign flag: set for a negative mantissa and for a negative zero.
    pub closed spec fn spec_negative(self) -> bool {
        self.negative
    }

    /// The mantissa.
    pub closed spec fn spec_mantissa(self) -> int {
        self.mantissa as int
    }

    /// The scale (number of fractional digits).
    pub closed spec fn spec_scale(self) -> nat {
        self.scale as nat
    }

    /// The value in units of `10^-28`.
    pub open spec fn val(self) -> int {
        self.spec_mantissa() * pow10((MAX_SCALE - self.spec_scale()) as nat)
    }

    /// `v` (in units of `10^-28`) fits a mantissa at scale `scale`.
    pub open spec fn representable(v: int, scale: nat) -> bool {
        abs(v) <= MAX_MANTISSA * pow10((MAX_SCALE - scale) as nat)
    }

    /// Builds `mantissa / 10^scale`.
    pub fn new(mantissa: i64, scale: u32) -> (r: Decimal)
        requires
            scale <= MAX_SCALE,
        ensures
            r.spec_mantissa() == mantissa,
            r.spec_scale() == scale,
            r.spec_negative() == (mantissa < 0),
    {
        Decimal { mantissa: mantissa as i128, scale, negative: mantissa < 0 }
    }

    /// Builds `mantissa / 10^scale` from a 128-bit mantissa; `None` where it
    /// does not fit.
    pub fn from_i128_with_scale(mantissa: i128, scale: u32) -> (r: Option<Decimal>)
        ensures
            r is Some <==> (scale <= MAX_SCALE && -MAX_MANTISSA <= mantissa <= MAX_MANTISSA),
            r matches Some(d) ==> d.spec_mantissa() == mantissa && d.spec_scale() == scale
                && d.spec_negative() == (mantissa < 0),
    {
        if scale <= MAX_SCALE && -MAX_MANTISSA <= mantissa && mantissa <= MAX_MANTISSA {
            Some(Decimal { mantissa, scale, negative: mantissa < 0 })
        } else {
            None
        }
    }

    /// Builds `mantissa / 10^scale` with the sign flag `negative`, which
    /// matters only for a zero mantissa (a negative zero); `None` where the
    /// mantissa does not fit or the flag disagrees with its sign.
    pub fn from_parts(mantissa: i128, scale: u32, negative: bool) -> (r: Option<Decimal>)
        ensures
            r is Some <==> (scale <= MAX_SCALE && -MAX_MANTISSA <= mantissa <= MAX_MANTISSA && (
            mantissa == 0 || negative == (mantissa < 0))),
            r matches Some(d) ==> d.spec_mantissa() == mantissa && d.spec_scale() == scale
                && d.spec_negative() == negative,
    {
        if scale <= MAX_SCALE && -MAX_MANTISSA <= mantissa && mantissa <= MAX_MANTISSA && (
        mantissa == 0 || negative == (mantissa < 0)) {
            Some(Decimal { mantissa, scale, negative })
        } else {
            None
        }
    }

    /// The sign flag: set for a negative number and for a negative zero.
    pub fn is_sign_negative(&self) -> (r: bool)
        ensures
            r == self.spec_negative(),
    {
        self.negative
    }

    /// Zero.
    pub fn zero() -> (r: Decimal)
        ensures
            r.spec_mantissa() == 0,
            r.spec_scale() == 0,
            r.val() == 0,
            r == Decimal::spec_zero(),
    {
        Decimal { mantissa: 0, scale: 0, negative: false }
    }

    /// Zero, as a value.
    pub closed spec fn spec_zero() -> Decimal {
        Decimal { mantissa: 0, scale: 0, negative: false }
    }

    /// The sign of the value is the sign of the mantissa.
    pub proof fn lemma_val_sign(self)
        ensures
            self.val() > 0 <==> self.spec_mantissa() > 0,
            self.val() == 0 <==> self.spec_mantissa() == 0,
            self.val() < 0 <==> self.spec_mantissa() < 0,
    {
        let p = pow10((MAX_SCALE - self.spec_scale()) as nat);
        let m = self.spec_mantissa();
        lemma_pow10_positive((MAX_SCALE - self.spec_scale()) as nat);
        assert(p > 0 ==> ((m * p > 0 <==> m > 0) && (m * p == 0 <==> m == 0) && (m * p < 0 <==> m < 0))) by (nonlinear_arith);
    }

    /// The whole number `n`, as a value.
    pub closed spec fn spec_from_u32(n: u32) -> Decimal {
        Decimal { mantissa: n as i128, scale: 0, negative: false }
    }

    /// The whole number `n`.
    pub fn from_u32(n: u32) -> (r: Decimal)
        ensures
            r.spec_mantissa() == n,
            r.spec_scale() == 0,
            r == Decimal::spec_from_u32(n),
    {
        Decimal { mantissa: n as i128, scale: 0, negative: false }
    }

    /// The mantissa.
    pub fn mantissa(&self) -> (r: i128)
        ensures
            r == self.spec_mantissa(),
    {
        self.mantissa
    }

    /// The scale.
    pub fn scale(&self) -> (r: u32)
        ensures
            r == self.spec_scale(),
    {
        self.scale
    }

    /// The value is zero.
    pub fn is_zero(&self) -> (r: bool)
        ensures
            r == (self.val() == 0),
    {
        proof {
            self.lemma_val_sign();
        }
        self.mantissa == 0
    }

    /// The value is above zero.
    pub fn is_positive(&self) -> (r: bool)
        ensures
            r == (self.val() > 0),
    {
        proof {
            self.lemma_val_sign();
        }
        self.mantissa > 0
    }
}

/// What `rust_decimal::Decimal::checked_add` returns for two decimals.
pub uninterp spec fn decimal_checked_add(a: Decimal, b: Decimal) -> Option<Decimal>;

/// What `rust_decimal::Decimal::checked_sub` returns for two decimals.
pub uninterp spec fn decimal_checked_sub(a: Decimal, b: Decimal) -> Option<Decimal>;

/// What `rust_decimal::Decimal::checked_mul` returns for two decimals.
pub uninterp spec fn decimal_checked_mul(a: Decimal, b: Decimal) -> Option<Decimal>;

/// What `rust_decimal::Decimal::checked_div` returns for two decimals.
pub uninterp spec fn decimal_checked_div(a: Decimal, b: Decimal) -> Option<Decimal>;

/// What `rust_decimal::Decimal::from_str` returns for a text (`None` for an error).
pub uninterp spec fn decimal_parse(text: Seq<char>) -> Option<Decimal>;

/// `n` zero digits.
pub open spec fn zeros(n: nat) -> Seq<char> {
    Seq::new(n, |i: int| '0')
}

/// The digits of `|m|` (none for zero), left-padded with zeros to at least
/// `scale` digits.
pub open spec fn padded_digits(m: int, scale: nat) -> Seq<char> {
    let ds = if m == 0 {
        Seq::<char>::empty()
    } else {
        nat_text(abs(m) as nat)
    };
    if ds.len() < scale {
        zeros((scale - ds.len()) as nat) + ds
    } else {
        ds
    }
}

/// The text `rust_decimal`'s `Display` writes for a decimal: `-` where the
/// sign flag is set (a negative number, or a negative zero); then, at scale zero, the digits (`0` for zero);
/// otherwise the whole digits (`0` where there are none), a point and the
/// last `scale` digits. So `12345` at scale 2 is `123.45`, `5` at scale 3 is
/// `0.005`, and zero at scale 2 is `0.00`.
pub open spec fn decimal_display(d: Decimal) -> Seq<char> {
    let m = d.spec_mantissa();
    let sc = d.spec_scale();
    let p = padded_digits(m, sc);
    let body = if sc == 0 {
        if p.len() == 0 {
            seq!['0']
        } else {
            p
        }
    } else {
        let whole = p.take(p.len() - sc);
        (if whole.len() == 0 {
            seq!['0']
        } else {
            whole
        }) + seq!['.'] + p.skip(p.len() - sc)
    };
    if d.spec_negative() {
        seq!['-'] + body
    } else {
        body
    }
}

impl Decimal {
    /// Parses decimal text as `rust_decimal` does; `None` for text it rejects.
    pub fn parse(text: &str) -> (r: Option<Decimal>)
        ensures
            r == decimal_parse(text@),
    {
        dec_parse(text)
    }

    /// The text `rust_decimal` writes for the number.
    pub fn to_text(&self) -> (r: String)
        ensures
            r@ == decimal_display(*self),
    {
        dec_to_string(*self)
    }

    /// The two numbers have the same value (so `1.0` equals `1.00`).
    pub fn value_eq(&self, other: &Decimal) -> (r: bool)
        ensures
            r == (self.val() == other.val()),
    {
        dec_eq(*self, *other)
    }

    /// The number's value is below the other's.
    pub fn value_lt(&self, other: &Decimal) -> (r: bool)
        ensures
            r == (self.val() < other.val()),
    {
        dec_lt(*self, *other)
    }
}

/// Calls `rust_decimal::Decimal::checked_add` (the operation behind `+`,
/// which panics exactly where this returns `None`). Claimed: the result is the
/// named one, and where the exact sum fits a mantissa at the larger of the two
/// scales, the sum is exact. Where the sum needs rounding, only the name says
/// what comes back.
#[verifier::external_body]
pub(crate) fn dec_checked_add(a: Decimal, b: Decimal) -> (r: Option<Decimal>)
    ensures
        r == decimal_checked_add(a, b),
        r is None ==> !Decimal::representable(a.val() + b.val(), max_nat(a.spec_scale(), b.spec_scale())),
        r matches Some(s) ==> (Decimal::representable(a.val() + b.val(), max_nat(a.spec_scale(), b.spec_scale()))
            ==> s.val() == a.val() + b.val()),
{
    let mut x = rust_decimal::Decimal::from_i128_with_scale(a.mantissa, a.scale);
    x.set_sign_negative(a.negative);
    let mut y = rust_decimal::Decimal::from_i128_with_scale(b.mantissa, b.scale);
    y.set_sign_negative(b.negative);
    match x.checked_add(y) {
        Some(s) => Some(Decimal { mantissa: s.mantissa(), scale: s.scale(), negative: s.is_sign_negative() }),
        None => None,
    }
}

/// Calls `rust_decimal::Decimal::checked_sub` (the operation behind `-`).
/// Claimed: the result is the named one, and where the exact difference fits a
/// mantissa at the larger of the two scales, the difference is exact.
#[verifier::external_body]
pub(crate) fn dec_checked_sub(a: Decimal, b: Decimal) -> (r: Option<Decimal>)
    ensures
        r == decimal_checked_sub(a, b),
        r is None ==> !Decimal::representable(a.val() - b.val(), max_nat(a.spec_scale(), b.spec_scale())),
        r matches Some(s) ==> (Decimal::representable(a.val() - b.val(), max_nat(a.spec_scale(), b.spec_scale()))
            ==> s.val() == a.val() - b.val()),
{
    let mut x = rust_decimal::Decimal::from_i128_with_scale(a.mantissa, a.scale);
    x.set_sign_negative(a.negative);
    let mut y = rust_decimal::Decimal::from_i128_with_scale(b.mantissa, b.scale);
    y.set_sign_negative(b.negative);
    match x.checked_sub(y) {
        Some(s) => Some(Decimal { mantissa: s.mantissa(), scale: s.scale(), negative: s.is_sign_negative() }),
        None => None,
    }
}

/// Calls `rust_decimal::Decimal::checked_mul` (the operation behind `*`).
/// Claimed: the result is the named one; its rounding is not stated.
#[verifier::external_body]
pub(crate) fn dec_checked_mul(a: Decimal, b: Decimal) -> (r: Option<Decimal>)
    ensures
        r == decimal_checked_mul(a, b),
{
    let mut x = rust_decimal::Decimal::from_i128_with_scale(a.mantissa, a.scale);
    x.set_sign_negative(a.negative);
    let mut y = rust_decimal::Decimal::from_i128_with_scale(b.mantissa, b.scale);
    y.set_sign_negative(b.negative);
    match x.checked_mul(y) {
        Some(s) => Some(Decimal { mantissa: s.mantissa(), scale: s.scale(), negative: s.is_sign_negative() }),
        None => None,
    }
}

/// Calls `rust_decimal::Decimal::checked_div` (the operation behind `/`).
/// Claimed: the result is the named one, and division by zero gives `None`;
/// its rounding is not stated.
#[verifier::external_body]
pub(crate) fn dec_checked_div(a: Decimal, b: Decimal) -> (r: Option<Decimal>)
    ensures
        r == decimal_checked_div(a, b),
        b.val() == 0 ==> r is None,
{
    let mut x = rust_decimal::Decimal::from_i128_with_scale(a.mantissa, a.scale);
    x.set_sign_negative(a.negative);
    let mut y = rust_decimal::Decimal::from_i128_with_scale(b.mantissa, b.scale);
    y.set_sign_negative(b.negative);
    match x.checked_div(y) {
        Some(s) => Some(Decimal { mantissa: s.mantissa(), scale: s.scale(), negative: s.is_sign_negative() }),
        None => None,
    }
}

/// Calls `<` on two `rust_decimal::Decimal`s, which compares their exact values.
#[verifier::external_body]
pub(crate) fn dec_lt(a: Decimal, b: Decimal) -> (r: bool)
    ensures
        r == (a.val() < b.val()),
{
    let mut x = rust_decimal::Decimal::from_i128_with_scale(a.mantissa, a.scale);
    x.set_sign_negative(a.negative);
    let mut y = rust_decimal::Decimal::from_i128_with_scale(b.mantissa, b.scale);
    y.set_sign_negative(b.negative);
    x < y
}

/// Calls `==` on two `rust_decimal::Decimal`s, which compares their exact
/// values (so `1.0 == 1.00`).
#[verifier::external_body]
pub(crate) fn dec_eq(a: Decimal, b: Decimal) -> (r: bool)
    ensures
        r == (a.val() == b.val()),
{
    let mut x = rust_decimal::Decimal::from_i128_with_scale(a.mantissa, a.scale);
    x.set_sign_negative(a.negative);
    let mut y = rust_decimal::Decimal::from_i128_with_scale(b.mantissa, b.scale);
    y.set_sign_negative(b.negative);
    x == y
}

/// Calls `rust_decimal::Decimal::from_str`; an error becomes `None`.
/// Claimed: the result is the named one.
#[verifier::external_body]
pub(crate) fn dec_parse(text: &str) -> (r: Option<Decimal>)
    ensures
        r == decimal_parse(text@),
{
    match rust_decimal::Decimal::from_str(text) {
        Ok(d) => Some(Decimal { mantissa: d.mantissa(), scale: d.scale(), negative: d.is_sign_negative() }),
        Err(_) => None,
    }
}

/// Calls `to_string` (the `Display` impl) on a `rust_decimal::Decimal`.
/// Claimed: the text is `decimal_display` of the number (sign, digits, and a
/// point `scale` digits from the right).
#[verifier::external_body]
pub(crate) fn dec_to_string(d: Decimal) -> (r: String)
    ensures
        r@ == decimal_display(d),
{
    let mut x = rust_decimal::Decimal::from_i128_with_scale(d.mantissa, d.scale);
    x.set_sign_negative(d.negative);
    x.to_string()
}

} // verus!
