//! Amounts of money as fixed-point decimals. The arithmetic, the parsing and
//! the printing are those of `rust_decimal`; this module holds what a decimal
//! is made of and states what is known of each operation.

use std::str::FromStr;
use crate::text::{fixed_digits, nat_text};
use vstd::arithmetic::power::{lemma_pow_positive, pow};
use vstd::prelude::*;

verus! {

/// The largest scale of an amount: the number of digits after the point.
pub const MAX_SCALE: u32 = 28;

/// The largest mantissa of an amount, `2^96 - 1`.
pub const MAX_MANTISSA: i128 = 79_228_162_514_264_337_593_543_950_335i128;

/// What an [`Amount`] stands for: the number `mantissa / 10^scale`, written
/// with `scale` digits after the point.
pub struct AmountView {
    pub mantissa: int,
    pub scale: nat,
}

impl AmountView {
    /// Whether a decimal of 96 bits and at most 28 decimal places can hold
    /// this mantissa and scale.
    pub open spec fn representable(self) -> bool {
        self.scale <= MAX_SCALE && -MAX_MANTISSA <= self.mantissa <= MAX_MANTISSA
    }

    /// The number this stands for, counted in units of `10^-28`, in which
    /// every representable amount is whole.
    pub open spec fn units(self) -> int {
        self.mantissa * pow(10, (MAX_SCALE - self.scale) as nat)
    }
}

/// Zero, written without decimal places.
pub open spec fn spec_zero() -> AmountView {
    AmountView { mantissa: 0, scale: 0 }
}

/// Mantissa and scale of the sum that `rust_decimal` gives for two decimals,
/// or `None` where it reports an overflow.
pub uninterp spec fn decimal_sum(
    a_mantissa: int,
    a_scale: nat,
    b_mantissa: int,
    b_scale: nat,
) -> Option<(int, nat)>;

/// Mantissa and scale of the difference that `rust_decimal` gives for two
/// decimals, first minus second, or `None` where it reports an overflow.
pub uninterp spec fn decimal_difference(
    a_mantissa: int,
    a_scale: nat,
    b_mantissa: int,
    b_scale: nat,
) -> Option<(int, nat)>;

/// Mantissa and scale of the decimal that `rust_decimal` reads from a text,
/// or `None` where it rejects the text.
pub uninterp spec fn decimal_parsed(text: Seq<char>) -> Option<(int, nat)>;

/// A decimal written out: a `-` if it is negative, the whole part in
/// digits (`0` where there is none), and, where the scale is not zero, a
/// point and exactly `scale` digits after it.
pub open spec fn decimal_text(mantissa: int, scale: nat) -> Seq<char> {
    let magnitude = (if mantissa < 0 {
        -mantissa
    } else {
        mantissa
    }) as nat;
    let unit = pow(10, scale) as nat;
    let sign = if mantissa < 0 {
        seq!['-']
    } else {
        Seq::<char>::empty()
    };
    let whole = nat_text(magnitude / unit);
    if scale == 0 {
        sign + whole
    } else {
        sign + whole + seq!['.'] + fixed_digits(magnitude % unit, scale)
    }
}

/// The pair that an operation of `rust_decimal` yields, as an amount.
pub open spec fn as_view(pair: Option<(int, nat)>) -> Option<AmountView> {
    match pair {
        Some((mantissa, scale)) => Some(AmountView { mantissa, scale }),
        None => None,
    }
}

/// An amount with its sign turned round, written at the same scale.
pub open spec fn spec_negated(a: AmountView) -> AmountView {
    AmountView { mantissa: -a.mantissa, scale: a.scale }
}

/// The sum of two amounts, where it can be represented. Zero added to an
/// amount, or an amount added to zero, gives the amount as it is written;
/// the sum of two amounts that are not zero is the one that `rust_decimal`
/// computes.
pub open spec fn spec_sum(a: AmountView, b: AmountView) -> Option<AmountView> {
    if a.mantissa == 0 {
        Some(b)
    } else if b.mantissa == 0 {
        Some(a)
    } else {
        as_view(decimal_sum(a.mantissa, a.scale, b.mantissa, b.scale))
    }
}

/// The difference of two amounts, first less second, where it can be
/// represented. Zero less an amount is the amount with its sign turned
/// round, an amount that is not zero less zero is the amount as it is
/// written, and the difference of two amounts that are not zero is the one
/// that `rust_decimal` computes.
pub open spec fn spec_difference(a: AmountView, b: AmountView) -> Option<AmountView> {
    if a.mantissa == 0 {
        Some(spec_negated(b))
    } else if b.mantissa == 0 {
        Some(a)
    } else {
        as_view(decimal_difference(a.mantissa, a.scale, b.mantissa, b.scale))
    }
}

/// The amount written in a text, where the text is a decimal.
pub open spec fn spec_parsed(text: Seq<char>) -> Option<AmountView> {
    as_view(decimal_parsed(text))
}

/// The views of an optional amount.
pub open spec fn view_of(amount: Option<Amount>) -> Option<AmountView> {
    match amount {
        Some(a) => Some(a@),
        None => None,
    }
}

/// An amount of money: a signed mantissa of at most 96 bits and a scale of
/// at most 28, standing for `mantissa / 10^scale`.
///
/// Two amounts are `==` when they are written alike, with the same mantissa
/// and the same scale; [`Amount::at_least`] compares the numbers.
#[derive(Clone, Copy, Debug, PartialEq, Eq, Structural)]
pub struct Amount {
    mantissa: i128,
    scale: u32,
}

impl View for Amount {
    type V = AmountView;

    closed spec fn view(&self) -> AmountView {
        AmountView { mantissa: self.mantissa as int, scale: self.scale as nat }
    }
}

impl Amount {
    #[verifier::type_invariant]
    spec fn fits(self) -> bool {
        self@.representable()
    }

    /// The amount `num / 10^scale`.
    pub fn new(num: i64, scale: u32) -> (r: Amount)
        requires
            scale <= MAX_SCALE,
        ensures
            r@ == (AmountView { mantissa: num as int, scale: scale as nat }),
    {
        Amount { mantissa: num as i128, scale }
    }

    /// The amount `mantissa / 10^scale`, if 96 bits hold the mantissa and the
    /// scale is at most 28.
    pub fn try_new(mantissa: i128, scale: u32) -> (r: Option<Amount>)
        ensures
            r is Some <==> (AmountView {
                mantissa: mantissa as int,
                scale: scale as nat,
            }).representable(),
            r matches Some(a) ==> a@ == (AmountView {
                mantissa: mantissa as int,
                scale: scale as nat,
            }),
    {
        if scale > MAX_SCALE || mantissa > MAX_MANTISSA || mantissa < -MAX_MANTISSA {
            None
        } else {
            Some(Amount { mantissa, scale })
        }
    }

    /// Zero, written without decimal places.
    pub fn zero() -> (r: Amount)
        ensures
            r@ == spec_zero(),
    {
        Amount { mantissa: 0, scale: 0 }
    }

    /// The mantissa: the amount with its point removed.
    pub fn mantissa(&self) -> (r: i128)
        ensures
            r == self@.mantissa,
            -MAX_MANTISSA <= r <= MAX_MANTISSA,
    {
        proof {
            use_type_invariant(self);
        }
        self.mantissa
    }

    /// The scale: the number of digits after the point.
    pub fn scale(&self) -> (r: u32)
        ensures
            r == self@.scale,
            r <= MAX_SCALE,
    {
        proof {
            use_type_invariant(self);
        }
        self.scale
    }

    /// Whether this amount is, as a number, at least `other`.
    pub fn at_least(&self, other: &Amount) -> (r: bool)
        ensures
            r == (self@.units() >= other@.units()),
    {
        decimal_ge(*self, *other)
    }

    /// Whether this amount is zero or more.
    pub fn is_non_negative(&self) -> (r: bool)
        ensures
            r == (self@.mantissa >= 0),
    {
        let zero = Amount::new(0, 2);
        proof {
            use_type_invariant(self);
            lemma_units_sign(self@);
            lemma_units_sign(zero@);
        }
        self.at_least(&zero)
    }
}

/// An amount is settled by its mantissa and its scale: two amounts that
/// stand for the same pair are the same amount.
pub proof fn lemma_amount_settled_by_view(a: Amount, b: Amount)
    requires
        a@ == b@,
    ensures
        a == b,
{
}

/// Adding zero, or taking zero off, leaves the number what it is: the
/// result stands for as many units as the amount did.
pub proof fn lemma_zero_changes_no_number(a: AmountView, zero: AmountView)
    requires
        zero.mantissa == 0,
    ensures
        spec_sum(a, zero) matches Some(r) && r.units() == a.units(),
        spec_sum(zero, a) matches Some(r) && r.units() == a.units(),
        spec_difference(a, zero) matches Some(r) && r.units() == a.units(),
        a.mantissa != 0 ==> spec_sum(a, zero) == Some(a) && spec_sum(zero, a) == Some(a)
            && spec_difference(a, zero) == Some(a),
{
    assert(0 * pow(10, (MAX_SCALE - zero.scale) as nat) == 0);
    assert(0 * pow(10, (MAX_SCALE - a.scale) as nat) == 0);
}

/// The units of an amount have the sign of its mantissa.
pub proof fn lemma_units_sign(a: AmountView)
    requires
        a.scale <= MAX_SCALE,
    ensures
        a.units() >= 0 <==> a.mantissa >= 0,
        a.units() == 0 <==> a.mantissa == 0,
{
    let p = pow(10, (MAX_SCALE - a.scale) as nat);
    lemma_pow_positive(10, (MAX_SCALE - a.scale) as nat);
    let m = a.mantissa;
    assert(m * p >= 0 <==> m >= 0) by (nonlinear_arith)
        requires
            p > 0,
    ;
    assert(m * p == 0 <==> m == 0) by (nonlinear_arith)
        requires
            p > 0,
    ;
}

/// `Decimal::checked_add` of `rust_decimal`, on the two amounts as decimals.
/// The result is the decimal that the crate computes, named by
/// [`decimal_sum`]; `None` is its report of an overflow. What comes back
/// is a decimal, so its mantissa and scale are within their bounds. Where
/// the first decimal is zero the crate returns the second as it stands, and
/// where only the second is zero it returns the first as it stands, each
/// with its own scale.
#[verifier::external_body]
pub(crate) fn decimal_checked_add(a: Amount, b: Amount) -> (r: Option<Amount>)
    ensures
        decimal_sum(a@.mantissa, a@.scale, b@.mantissa, b@.scale) == match r {
            Some(x) => Some((x@.mantissa, x@.scale)),
            None => None,
        },
        r matches Some(x) ==> x@.representable(),
        a@.mantissa == 0 ==> r == Some(b),
        a@.mantissa != 0 && b@.mantissa == 0 ==> r == Some(a),
{
    let x = rust_decimal::Decimal::from_i128_with_scale(a.mantissa, a.scale);
    let y = rust_decimal::Decimal::from_i128_with_scale(b.mantissa, b.scale);
    match x.checked_add(y) {
        Some(d) => Some(Amount { mantissa: d.mantissa(), scale: d.scale() }),
        None => None,
    }
}

/// `Decimal::checked_sub` of `rust_decimal`, on the two amounts as decimals.
/// The result is the decimal that the crate computes for `a - b`, named by
/// [`decimal_difference`]; `None` is its report of an overflow. Where `a`
/// is zero the crate returns `b` with its sign turned round, at the scale
/// of `b`; where only `b` is zero it returns `a` as it stands.
#[verifier::external_body]
pub(crate) fn decimal_checked_sub(a: Amount, b: Amount) -> (r: Option<Amount>)
    ensures
        decimal_difference(a@.mantissa, a@.scale, b@.mantissa, b@.scale) == match r {
            Some(x) => Some((x@.mantissa, x@.scale)),
            None => None,
        },
        r matches Some(x) ==> x@.representable(),
        a@.mantissa == 0 ==> view_of(r) == Some(spec_negated(b@)),
        a@.mantissa != 0 && b@.mantissa == 0 ==> r == Some(a),
{
    let x = rust_decimal::Decimal::from_i128_with_scale(a.mantissa, a.scale);
    let y = rust_decimal::Decimal::from_i128_with_scale(b.mantissa, b.scale);
    match x.checked_sub(y) {
        Some(d) => Some(Amount { mantissa: d.mantissa(), scale: d.scale() }),
        None => None,
    }
}

/// The `>=` of `rust_decimal::Decimal`, which orders decimals as numbers
/// whatever their scales: `1.0` and `1.00` are equal, and zero of any scale
/// lies between the negative and the positive decimals.
#[verifier::external_body]
pub(crate) fn decimal_ge(a: Amount, b: Amount) -> (r: bool)
    ensures
        r == (a@.units() >= b@.units()),
{
    let x = rust_decimal::Decimal::from_i128_with_scale(a.mantissa, a.scale);
    let y = rust_decimal::Decimal::from_i128_with_scale(b.mantissa, b.scale);
    x >= y
}

/// `Decimal::from_str` of `rust_decimal`: the decimal that the crate reads
/// from `text`, named by [`decimal_parsed`], or `None` where it returns an
/// error.
#[verifier::external_body]
pub(crate) fn decimal_from_str(text: &str) -> (r: Option<Amount>)
    ensures
        decimal_parsed(text@) == match r {
            Some(x) => Some((x@.mantissa, x@.scale)),
            None => None,
        },
        r matches Some(x) ==> x@.representable(),
{
    match rust_decimal::Decimal::from_str(text) {
        Ok(d) => Some(Amount { mantissa: d.mantissa(), scale: d.scale() }),
        Err(_) => None,
    }
}

/// The `Display` of `rust_decimal::Decimal`, through `to_string`: the crate
/// writes a `-` for a negative decimal, then the digits of the mantissa with
/// a point before the last `scale` of them, filling up with zeros where the
/// mantissa has no more than `scale` digits, so that one digit at least
/// stands before the point. A scale of zero gives no point.
#[verifier::external_body]
pub(crate) fn decimal_to_string(a: Amount) -> (r: String)
    ensures
        r@ == decimal_text(a@.mantissa, a@.scale),
{
    rust_decimal::Decimal::from_i128_with_scale(a.mantissa, a.scale).to_string()
}

} // verus!
