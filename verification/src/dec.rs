//! Exact decimal numbers.
//!
//! The calculator works on fixed-point decimals rather than binary floats, so
//! that user-facing arithmetic shows no rounding artifacts. A value is held as
//! a plain mantissa/scale pair meaning `mantissa / 10^scale`; the arithmetic
//! itself is done by the `rust_decimal` crate behind trusted wrappers whose
//! results are named by uninterpreted spec functions.

use vstd::prelude::*;

use rust_decimal::Decimal;
use rust_decimal::MathematicalOps;

verus! {

/// Largest mantissa magnitude a decimal can carry (96 bits, all ones).
pub const MAX_MANTISSA: i128 = 0x0000_0000_FFFF_FFFF_FFFF_FFFF_FFFF_FFFF;

/// Largest number of fractional digits a decimal can carry.
pub const MAX_SCALE: u32 = 28;

/// An exact decimal number, valued `mantissa / 10^scale`.
#[derive(Clone, Copy, PartialEq, Eq, Structural, Debug)]
pub struct Dec {
    pub mantissa: i128,
    pub scale: u32,
}

impl Dec {
    /// The representable range: at most 28 fractional digits and a mantissa
    /// that fits in 96 bits.
    pub open spec fn wf(self) -> bool {
        self.scale <= MAX_SCALE && -MAX_MANTISSA <= self.mantissa <= MAX_MANTISSA
    }

    /// The additive identity.
    pub fn zero() -> (r: Dec)
        ensures
            r == (Dec { mantissa: 0, scale: 0 }),
    {
        Dec { mantissa: 0, scale: 0 }
    }

    /// The multiplicative identity.
    pub fn one() -> (r: Dec)
        ensures
            r == (Dec { mantissa: 1, scale: 0 }),
    {
        Dec { mantissa: 1, scale: 0 }
    }

    /// Whether the value is zero, at any scale.
    pub fn is_zero(&self) -> (r: bool)
        ensures
            r == (self.mantissa == 0),
    {
        self.mantissa == 0
    }

    /// The additive inverse: the same digits with the opposite sign.
    pub fn neg(self) -> (r: Dec)
        requires
            self.wf(),
        ensures
            r.wf(),
            r.mantissa == -self.mantissa,
            r.scale == self.scale,
    {
        Dec { mantissa: -self.mantissa, scale: self.scale }
    }
}

/// What `rust_decimal`'s `checked_add` returns on the two operands.
pub uninterp spec fn add_of(am: int, ascale: int, bm: int, bscale: int) -> Option<Dec>;

/// What `rust_decimal`'s `checked_mul` returns on the two operands.
pub uninterp spec fn mul_of(am: int, ascale: int, bm: int, bscale: int) -> Option<Dec>;

/// What `rust_decimal`'s `checked_div` returns on the two operands.
pub uninterp spec fn div_of(am: int, ascale: int, bm: int, bscale: int) -> Option<Dec>;

/// What `rust_decimal`'s `checked_powd` returns on base and exponent.
pub uninterp spec fn pow_of(am: int, ascale: int, bm: int, bscale: int) -> Option<Dec>;

/// What `rust_decimal`'s string parser makes of a numeral.
pub uninterp spec fn parse_of(s: Seq<char>) -> Option<Dec>;

/// The canonical text `rust_decimal` renders a value as.
pub uninterp spec fn str_of(m: int, s: int) -> Seq<char>;

/// Relies on `rust_decimal`'s `Decimal::checked_add`: the (possibly rounded)
/// sum of the two values, `None` on overflow; the result depends on the two
/// operands alone.
#[verifier::external_body]
pub(crate) fn dec_add(a: Dec, b: Dec) -> (r: Option<Dec>)
    requires
        a.wf(),
        b.wf(),
    ensures
        r == add_of(a.mantissa as int, a.scale as int, b.mantissa as int, b.scale as int),
        r matches Some(d) ==> d.wf(),
{
    let x = Decimal::from_i128_with_scale(a.mantissa, a.scale);
    let y = Decimal::from_i128_with_scale(b.mantissa, b.scale);
    x.checked_add(y).map(|d: Decimal| Dec { mantissa: d.mantissa(), scale: d.scale() })
}

/// Relies on `rust_decimal`'s `Decimal::checked_mul`: the (possibly rounded)
/// product of the two values, `None` on overflow; the result depends on the
/// two operands alone.
#[verifier::external_body]
pub(crate) fn dec_mul(a: Dec, b: Dec) -> (r: Option<Dec>)
    requires
        a.wf(),
        b.wf(),
    ensures
        r == mul_of(a.mantissa as int, a.scale as int, b.mantissa as int, b.scale as int),
        r matches Some(d) ==> d.wf(),
{
    let x = Decimal::from_i128_with_scale(a.mantissa, a.scale);
    let y = Decimal::from_i128_with_scale(b.mantissa, b.scale);
    x.checked_mul(y).map(|d: Decimal| Dec { mantissa: d.mantissa(), scale: d.scale() })
}

/// Relies on `rust_decimal`'s `Decimal::checked_div`: the (possibly rounded)
/// quotient, `None` on overflow or a zero divisor; the result depends on the
/// two operands alone.
#[verifier::external_body]
pub(crate) fn dec_div(a: Dec, b: Dec) -> (r: Option<Dec>)
    requires
        a.wf(),
        b.wf(),
    ensures
        r == div_of(a.mantissa as int, a.scale as int, b.mantissa as int, b.scale as int),
        r matches Some(d) ==> d.wf(),
{
    let x = Decimal::from_i128_with_scale(a.mantissa, a.scale);
    let y = Decimal::from_i128_with_scale(b.mantissa, b.scale);
    x.checked_div(y).map(|d: Decimal| Dec { mantissa: d.mantissa(), scale: d.scale() })
}

/// Relies on `rust_decimal`'s `MathematicalOps::checked_powd`: the base raised
/// to the exponent (fractional and negative exponents included), `None` on
/// overflow; the result depends on the two operands alone.
#[verifier::external_body]
pub(crate) fn dec_pow(a: Dec, b: Dec) -> (r: Option<Dec>)
    requires
        a.wf(),
        b.wf(),
    ensures
        r == pow_of(a.mantissa as int, a.scale as int, b.mantissa as int, b.scale as int),
        r matches Some(d) ==> d.wf(),
{
    let x = Decimal::from_i128_with_scale(a.mantissa, a.scale);
    let y = Decimal::from_i128_with_scale(b.mantissa, b.scale);
    x.checked_powd(y).map(|d: Decimal| Dec { mantissa: d.mantissa(), scale: d.scale() })
}

/// Relies on `rust_decimal`'s `FromStr`: the decimal a numeral denotes, `None`
/// where the crate rejects the text; the result depends on the text alone.
#[verifier::external_body]
pub(crate) fn dec_parse(s: &[char]) -> (r: Option<Dec>)
    ensures
        r == parse_of(s@),
        r matches Some(d) ==> d.wf(),
{
    let text: String = s.iter().collect();
    text.parse::<Decimal>().ok().map(|d: Decimal| Dec { mantissa: d.mantissa(), scale: d.scale() })
}

/// Relies on `rust_decimal`'s `Display`: the canonical text of the value; the
/// result depends on the value alone.
#[verifier::external_body]
pub(crate) fn dec_render(d: Dec) -> (r: Vec<char>)
    requires
        d.wf(),
    ensures
        r@ == str_of(d.mantissa as int, d.scale as int),
{
    Decimal::from_i128_with_scale(d.mantissa, d.scale).to_string().chars().collect()
}

} // verus!
