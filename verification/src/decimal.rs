//! Exact base-10 numbers.
//!
//! A [`Decimal`] holds a signed 96-bit mantissa and a scale of at most 28 fraction
//! digits. Values are compared in verified code against a simple integer model
//! ([`Decimal::units`]); arithmetic is carried out by the `rust_decimal` crate, whose
//! results are named here rather than described.

use vstd::prelude::*;

verus! {

/// The largest magnitude that a mantissa may have: 2^96 - 1.
pub const MAX_MANTISSA: i128 = 0xFFFF_FFFF_FFFF_FFFF_FFFF_FFFF;

/// The largest number of fraction digits.
pub const MAX_SCALE: u32 = 28;

/// A base-10 fixed-point number with the value `mantissa / 10^scale`.
///
/// `100.0` is held as mantissa 1000 with scale 1 and `100` as mantissa 100 with
/// scale 0: the two are equal in value and differ in how they are written.
#[derive(Clone, Copy, Debug)]
pub struct Decimal {
    pub mantissa: i128,
    pub scale: u32,
}

/// How one value stands to another.
#[derive(Clone, Copy, Debug, PartialEq, Eq, Structural)]
pub enum Comparison {
    Less,
    Equal,
    Greater,
}

/// 10 to the power `n`.
pub open spec fn pow10(n: nat) -> nat
    decreases n,
{
    if n == 0 {
        1
    } else {
        10 * pow10((n - 1) as nat)
    }
}

/// The sign of a difference, as a comparison of its two operands.
pub open spec fn comparison_of(difference: int) -> Comparison {
    if difference < 0 {
        Comparison::Less
    } else if difference == 0 {
        Comparison::Equal
    } else {
        Comparison::Greater
    }
}

/// A power of 10 is positive.
pub proof fn lemma_pow10_positive(n: nat)
    ensures
        pow10(n) > 0,
    decreases n,
{
    if n > 0 {
        lemma_pow10_positive((n - 1) as nat);
    }
}

impl Decimal {
    /// The mantissa fits in 96 bits and the scale is at most 28.
    pub open spec fn wf(self) -> bool {
        &&& -MAX_MANTISSA <= self.mantissa <= MAX_MANTISSA
        &&& self.scale <= MAX_SCALE
    }

    /// The value in units of 10^-28, the finest step that any decimal can hold.
    /// Two decimals have the same value exactly when their units agree.
    pub open spec fn units(self) -> int {
        self.mantissa * pow10((MAX_SCALE - self.scale) as nat)
    }

    /// The value is below that of `other`.
    pub open spec fn value_lt(self, other: Decimal) -> bool {
        self.units() < other.units()
    }

    /// The value is at most that of `other`.
    pub open spec fn value_le(self, other: Decimal) -> bool {
        self.units() <= other.units()
    }

    /// The value is that of `other`, whatever the two scales.
    pub open spec fn value_eq(self, other: Decimal) -> bool {
        self.units() == other.units()
    }

    /// Zero, written `0`.
    pub open spec fn spec_zero() -> Decimal {
        Decimal { mantissa: 0, scale: 0 }
    }

    /// The sign of the value is the sign of the mantissa.
    pub proof fn lemma_units_sign(self)
        requires
            self.scale <= MAX_SCALE,
        ensures
            self.units() > 0 <==> self.mantissa > 0,
            self.units() == 0 <==> self.mantissa == 0,
            self.units() < 0 <==> self.mantissa < 0,
    {
        let p = pow10((MAX_SCALE - self.scale) as nat);
        lemma_pow10_positive((MAX_SCALE - self.scale) as nat);
        let m = self.mantissa as int;
        assert(m > 0 ==> m * p > 0) by (nonlinear_arith)
            requires
                p > 0,
        ;
        assert(m < 0 ==> m * p < 0) by (nonlinear_arith)
            requires
                p > 0,
        ;
        assert(m == 0 ==> m * p == 0) by (nonlinear_arith);
    }

    /// The decimal with the given parts, if they are in range.
    pub fn try_new(mantissa: i128, scale: u32) -> (r: Option<Decimal>)
        ensures
            r is Some <==> (Decimal { mantissa, scale }).wf(),
            r is Some ==> r == Some(Decimal { mantissa, scale }),
    {
        if scale <= MAX_SCALE && mantissa <= MAX_MANTISSA && mantissa >= -MAX_MANTISSA {
            Some(Decimal { mantissa, scale })
        } else {
            None
        }
    }

    /// The whole number `n`.
    pub fn from_i64(n: i64) -> (r: Decimal)
        ensures
            r == (Decimal { mantissa: n as i128, scale: 0 }),
            r.wf(),
    {
        Decimal { mantissa: n as i128, scale: 0 }
    }

    /// Zero, written `0`.
    pub fn zero() -> (r: Decimal)
        ensures
            r == Decimal::spec_zero(),
            r.wf(),
    {
        Decimal { mantissa: 0, scale: 0 }
    }

    /// Whether the value is zero.
    pub fn is_zero(self) -> (r: bool)
        requires
            self.wf(),
        ensures
            r == (self.units() == 0),
    {
        proof {
            self.lemma_units_sign();
        }
        self.mantissa == 0
    }

    /// Whether the value is above zero.
    pub fn is_positive(self) -> (r: bool)
        requires
            self.wf(),
        ensures
            r == (self.units() > 0),
    {
        proof {
            self.lemma_units_sign();
        }
        self.mantissa > 0
    }

    /// Compares two decimals by value.
    pub fn compare(self, other: Decimal) -> (r: Comparison)
        requires
            self.wf(),
            other.wf(),
        ensures
            r == comparison_of(self.units() - other.units()),
    {
        compare_values(self, other)
    }

    /// Whether the value is below that of `other`.
    pub fn lt(self, other: Decimal) -> (r: bool)
        requires
            self.wf(),
            other.wf(),
        ensures
            r == self.value_lt(other),
    {
        matches!(compare_values(self, other), Comparison::Less)
    }

    /// Whether the value is at most that of `other`.
    pub fn le(self, other: Decimal) -> (r: bool)
        requires
            self.wf(),
            other.wf(),
        ensures
            r == self.value_le(other),
    {
        !matches!(compare_values(self, other), Comparison::Greater)
    }

    /// Equality of value: `100.0` and `100` are equal.
    pub fn eq_value(self, other: Decimal) -> (r: bool)
        requires
            self.wf(),
            other.wf(),
        ensures
            r == self.value_eq(other),
    {
        matches!(compare_values(self, other), Comparison::Equal)
    }

    /// The decimal as text, with exactly `scale` fraction digits.
    pub fn to_string(&self) -> (r: String)
        requires
            self.wf(),
        ensures
            r@ == decimal_text(self.mantissa, self.scale),
    {
        format_decimal(*self)
    }
}

/// `Ord::cmp` of `rust_decimal::Decimal`: orders two decimals by their numeric value,
/// whatever their scales.
#[verifier::external_body]
fn compare_values(a: Decimal, b: Decimal) -> (r: Comparison)
    requires
        a.wf(),
        b.wf(),
    ensures
        r == comparison_of(a.units() - b.units()),
{
    let x = rust_decimal::Decimal::from_i128_with_scale(a.mantissa, a.scale);
    let y = rust_decimal::Decimal::from_i128_with_scale(b.mantissa, b.scale);
    match x.cmp(&y) {
        std::cmp::Ordering::Less => Comparison::Less,
        std::cmp::Ordering::Equal => Comparison::Equal,
        std::cmp::Ordering::Greater => Comparison::Greater,
    }
}

/// What `rust_decimal` writes for the decimal with these parts.
pub uninterp spec fn decimal_text(mantissa: i128, scale: u32) -> Seq<char>;

/// `ToString::to_string` of `rust_decimal::Decimal`: the text depends on the mantissa
/// and the scale alone.
#[verifier::external_body]
fn format_decimal(d: Decimal) -> (r: String)
    requires
        d.wf(),
    ensures
        r@ == decimal_text(d.mantissa, d.scale),
{
    rust_decimal::Decimal::from_i128_with_scale(d.mantissa, d.scale).to_string()
}

/// What `rust_decimal` computes for the sum of two decimals given by their parts,
/// or `None` where it reports an overflow.
pub uninterp spec fn decimal_sum(
    a_mantissa: i128,
    a_scale: u32,
    b_mantissa: i128,
    b_scale: u32,
) -> Option<(i128, u32)>;

/// What `rust_decimal` computes for the first decimal less the second, or `None`
/// where it reports an overflow.
pub uninterp spec fn decimal_difference(
    a_mantissa: i128,
    a_scale: u32,
    b_mantissa: i128,
    b_scale: u32,
) -> Option<(i128, u32)>;

/// What `rust_decimal` computes for the product of two decimals, or `None` where it
/// reports an overflow.
pub uninterp spec fn decimal_product(
    a_mantissa: i128,
    a_scale: u32,
    b_mantissa: i128,
    b_scale: u32,
) -> Option<(i128, u32)>;

/// What `rust_decimal` computes for the first decimal divided by the second, or
/// `None` where it reports a division by zero or an overflow.
pub uninterp spec fn decimal_quotient(
    a_mantissa: i128,
    a_scale: u32,
    b_mantissa: i128,
    b_scale: u32,
) -> Option<(i128, u32)>;

/// What `rust_decimal` computes for the remainder of the first decimal divided by
/// the second, or `None` where it reports a division by zero or an overflow.
pub uninterp spec fn decimal_remainder(
    a_mantissa: i128,
    a_scale: u32,
    b_mantissa: i128,
    b_scale: u32,
) -> Option<(i128, u32)>;

/// The decimal with the given parts, where there are any.
pub open spec fn of_parts(parts: Option<(i128, u32)>) -> Option<Decimal> {
    match parts {
        Some((mantissa, scale)) => Some(Decimal { mantissa, scale }),
        None => None,
    }
}

impl Decimal {
    /// The sum that `rust_decimal` computes, where there is one.
    pub open spec fn spec_add(self, other: Decimal) -> Option<Decimal> {
        of_parts(decimal_sum(self.mantissa, self.scale, other.mantissa, other.scale))
    }

    /// The difference that `rust_decimal` computes, where there is one.
    pub open spec fn spec_sub(self, other: Decimal) -> Option<Decimal> {
        of_parts(decimal_difference(self.mantissa, self.scale, other.mantissa, other.scale))
    }

    /// The product that `rust_decimal` computes, where there is one.
    pub open spec fn spec_mul(self, other: Decimal) -> Option<Decimal> {
        of_parts(decimal_product(self.mantissa, self.scale, other.mantissa, other.scale))
    }

    /// The quotient that `rust_decimal` computes, where there is one.
    pub open spec fn spec_div(self, other: Decimal) -> Option<Decimal> {
        of_parts(decimal_quotient(self.mantissa, self.scale, other.mantissa, other.scale))
    }

    /// The remainder that `rust_decimal` computes, where there is one.
    pub open spec fn spec_rem(self, other: Decimal) -> Option<Decimal> {
        of_parts(decimal_remainder(self.mantissa, self.scale, other.mantissa, other.scale))
    }
}

/// `rust_decimal::Decimal::checked_add`: the result depends on the parts of the two
/// operands alone, and is a decimal in range whenever there is one.
#[verifier::external_body]
pub(crate) fn checked_add(a: Decimal, b: Decimal) -> (r: Option<Decimal>)
    requires
        a.wf(),
        b.wf(),
    ensures
        r == of_parts(decimal_sum(a.mantissa, a.scale, b.mantissa, b.scale)),
        r matches Some(d) ==> d.wf(),
{
    let x = rust_decimal::Decimal::from_i128_with_scale(a.mantissa, a.scale);
    let y = rust_decimal::Decimal::from_i128_with_scale(b.mantissa, b.scale);
    match x.checked_add(y) {
        Some(d) => Some(Decimal { mantissa: d.mantissa(), scale: d.scale() }),
        None => None,
    }
}

/// `rust_decimal::Decimal::checked_sub`: the result depends on the parts of the two
/// operands alone, and is a decimal in range whenever there is one.
#[verifier::external_body]
pub(crate) fn checked_sub(a: Decimal, b: Decimal) -> (r: Option<Decimal>)
    requires
        a.wf(),
        b.wf(),
    ensures
        r == of_parts(decimal_difference(a.mantissa, a.scale, b.mantissa, b.scale)),
        r matches Some(d) ==> d.wf(),
{
    let x = rust_decimal::Decimal::from_i128_with_scale(a.mantissa, a.scale);
    let y = rust_decimal::Decimal::from_i128_with_scale(b.mantissa, b.scale);
    match x.checked_sub(y) {
        Some(d) => Some(Decimal { mantissa: d.mantissa(), scale: d.scale() }),
        None => None,
    }
}

/// `rust_decimal::Decimal::checked_mul`: the result depends on the parts of the two
/// operands alone, and is a decimal in range whenever there is one.
#[verifier::external_body]
pub(crate) fn checked_mul(a: Decimal, b: Decimal) -> (r: Option<Decimal>)
    requires
        a.wf(),
        b.wf(),
    ensures
        r == of_parts(decimal_product(a.mantissa, a.scale, b.mantissa, b.scale)),
        r matches Some(d) ==> d.wf(),
{
    let x = rust_decimal::Decimal::from_i128_with_scale(a.mantissa, a.scale);
    let y = rust_decimal::Decimal::from_i128_with_scale(b.mantissa, b.scale);
    match x.checked_mul(y) {
        Some(d) => Some(Decimal { mantissa: d.mantissa(), scale: d.scale() }),
        None => None,
    }
}

/// `rust_decimal::Decimal::checked_div`: the result depends on the parts of the two
/// operands alone, and is a decimal in range whenever there is one.
#[verifier::external_body]
pub(crate) fn checked_div(a: Decimal, b: Decimal) -> (r: Option<Decimal>)
    requires
        a.wf(),
        b.wf(),
    ensures
        r == of_parts(decimal_quotient(a.mantissa, a.scale, b.mantissa, b.scale)),
        r matches Some(d) ==> d.wf(),
{
    let x = rust_decimal::Decimal::from_i128_with_scale(a.mantissa, a.scale);
    let y = rust_decimal::Decimal::from_i128_with_scale(b.mantissa, b.scale);
    match x.checked_div(y) {
        Some(d) => Some(Decimal { mantissa: d.mantissa(), scale: d.scale() }),
        None => None,
    }
}

/// `rust_decimal::Decimal::checked_rem`: the result depends on the parts of the two
/// operands alone, and is a decimal in range whenever there is one.
#[verifier::external_body]
pub(crate) fn checked_rem(a: Decimal, b: Decimal) -> (r: Option<Decimal>)
    requires
        a.wf(),
        b.wf(),
    ensures
        r == of_parts(decimal_remainder(a.mantissa, a.scale, b.mantissa, b.scale)),
        r matches Some(d) ==> d.wf(),
{
    let x = rust_decimal::Decimal::from_i128_with_scale(a.mantissa, a.scale);
    let y = rust_decimal::Decimal::from_i128_with_scale(b.mantissa, b.scale);
    match x.checked_rem(y) {
        Some(d) => Some(Decimal { mantissa: d.mantissa(), scale: d.scale() }),
        None => None,
    }
}

/// The byte of the decimal point.
pub const DOT: u8 = 0x2E;

/// The byte is one of `0` to `9`.
pub open spec fn is_digit(b: u8) -> bool {
    0x30 <= b <= 0x39
}

/// `t` is one digit or more, or two such runs with a `.` between them: no sign, no
/// exponent, no separators.
pub open spec fn is_decimal_text(t: Seq<u8>) -> bool {
    &&& t.len() > 0
    &&& is_digit(t.first())
    &&& is_digit(t.last())
    &&& forall|k: int| 0 <= k < t.len() ==> is_digit(#[trigger] t[k]) || t[k] == DOT
    &&& forall|j: int, k: int|
        #![trigger t[j], t[k]]
        0 <= j < k < t.len() && t[j] == DOT ==> t[k] != DOT
}

/// The number that the digits of `t` write in base 10, whatever stands between them.
pub open spec fn digits_value(t: Seq<u8>) -> nat
    decreases t.len(),
{
    if t.len() == 0 {
        0
    } else if is_digit(t.last()) {
        (digits_value(t.drop_last()) * 10 + (t.last() - 0x30)) as nat
    } else {
        digits_value(t.drop_last())
    }
}

/// How many bytes follow the first `.` of `t`; 0 where it has none.
pub open spec fn fraction_len(t: Seq<u8>) -> nat
    decreases t.len(),
{
    if t.len() == 0 {
        0
    } else if t.first() == DOT {
        (t.len() - 1) as nat
    } else {
        fraction_len(t.drop_first())
    }
}

/// The decimal that the text `t` writes: its digits as the mantissa, its fraction
/// digits as the scale. There is none where the mantissa needs more than 96 bits or
/// the fraction more than 28 digits.
pub open spec fn decimal_of_text(t: Seq<u8>) -> Option<Decimal> {
    if digits_value(t) <= MAX_MANTISSA && fraction_len(t) <= MAX_SCALE {
        Some(Decimal { mantissa: digits_value(t) as i128, scale: fraction_len(t) as u32 })
    } else {
        None
    }
}

/// The answer `r` of the conversion is the decimal `d`, or an error where there is
/// none.
pub open spec fn same_decimal(r: Result<Decimal, rust_decimal::Error>, d: Option<Decimal>) -> bool {
    match r {
        Ok(value) => d == Some(value),
        Err(_) => d is None,
    }
}

/// `rust_decimal::Error`: why a text is no decimal. It is handed on as it comes.
#[verifier::external_type_specification]
#[verifier::external_body]
pub struct ExDecimalError(rust_decimal::Error);

/// `rust_decimal::Decimal::from_str_exact` on a text of digits with at most one `.`
/// between them: the mantissa is the text's digits read as one number and the scale
/// the count of digits behind the `.`; the call fails exactly where the mantissa
/// does not fit in 96 bits or there are more than 28 fraction digits.
#[verifier::external_body]
pub(crate) fn parse_exact(text: &[u8]) -> (r: Result<Decimal, rust_decimal::Error>)
    requires
        is_decimal_text(text@),
    ensures
        same_decimal(r, decimal_of_text(text@)),
{
    let written = String::from_utf8_lossy(text);
    match rust_decimal::Decimal::from_str_exact(&written) {
        Ok(d) => Ok(Decimal { mantissa: d.mantissa(), scale: d.scale() }),
        Err(e) => Err(e),
    }
}

/// The decimal that a text writes is in range and not negative.
pub proof fn lemma_decimal_of_text_wf(t: Seq<u8>)
    ensures
        decimal_of_text(t) matches Some(d) ==> d.wf() && d.mantissa >= 0,
{
}

/// A byte added behind a text with a `.` in it adds one to the length of the
/// fraction.
pub proof fn lemma_fraction_grows(t: Seq<u8>, b: u8)
    requires
        t.contains(DOT),
    ensures
        fraction_len(t.push(b)) == fraction_len(t) + 1,
    decreases t.len(),
{
    let longer = t.push(b);
    assert(longer.first() == t.first());
    if t.first() != DOT {
        let rest = t.drop_first();
        let k = choose|k: int| 0 <= k < t.len() && t[k] == DOT;
        assert(rest[k - 1] == DOT);
        lemma_fraction_grows(rest, b);
        assert(longer.drop_first() =~= rest.push(b));
    }
}

/// A text without a `.` has no fraction.
pub proof fn lemma_no_point_no_fraction(t: Seq<u8>)
    requires
        !t.contains(DOT),
    ensures
        fraction_len(t) == 0,
    decreases t.len(),
{
    if t.len() > 0 {
        assert(t[0] != DOT);
        let rest = t.drop_first();
        assert forall|k: int| 0 <= k < rest.len() implies rest[k] != DOT by {
            assert(rest[k] == t[k + 1]);
        }
        lemma_no_point_no_fraction(rest);
    }
}

/// A zero written behind the last fraction digit changes how a decimal is written
/// and not its value: `100.0` and `100.00` are equal in value.
pub proof fn lemma_trailing_zero_keeps_value(t: Seq<u8>)
    requires
        t.contains(DOT),
        decimal_of_text(t.push(0x30)) is Some,
    ensures
        decimal_of_text(t) is Some,
        decimal_of_text(t).unwrap().value_eq(decimal_of_text(t.push(0x30)).unwrap()),
        decimal_of_text(t).unwrap().scale + 1 == decimal_of_text(t.push(0x30)).unwrap().scale,
{
    let longer = t.push(0x30);
    lemma_fraction_grows(t, 0x30);
    assert(longer.drop_last() =~= t);
    let m = digits_value(t) as int;
    let scale = fraction_len(t);
    assert(digits_value(longer) == m * 10);
    let p = pow10((MAX_SCALE - scale - 1) as nat) as int;
    assert(pow10((MAX_SCALE - scale) as nat) == 10 * p);
    assert(m * (10 * p) == (m * 10) * p) by (nonlinear_arith);
}

/// A whole number written with `.0` behind it keeps its value: `100` and `100.0`
/// are equal in value and differ in scale.
pub proof fn lemma_point_zero_keeps_value(t: Seq<u8>)
    requires
        !t.contains(DOT),
        decimal_of_text(t.push(DOT).push(0x30)) is Some,
    ensures
        decimal_of_text(t) is Some,
        decimal_of_text(t).unwrap().value_eq(decimal_of_text(t.push(DOT).push(0x30)).unwrap()),
        decimal_of_text(t).unwrap().scale == 0,
        decimal_of_text(t.push(DOT).push(0x30)).unwrap().scale == 1,
{
    let pointed = t.push(DOT);
    let longer = pointed.push(0x30);
    lemma_no_point_no_fraction(t);
    assert(pointed.drop_last() =~= t);
    assert(longer.drop_last() =~= pointed);
    lemma_point_ends_fraction(t);
    assert(pointed.contains(DOT)) by {
        assert(pointed[t.len() as int] == DOT);
    }
    lemma_fraction_grows(pointed, 0x30);
    let m = digits_value(t) as int;
    assert(digits_value(pointed) == m);
    assert(digits_value(longer) == m * 10);
    let p = pow10((MAX_SCALE - 1) as nat) as int;
    assert(pow10(MAX_SCALE as nat) == 10 * p);
    assert(m * (10 * p) == (m * 10) * p) by (nonlinear_arith);
}

/// A `.` written behind a text without one begins an empty fraction.
proof fn lemma_point_ends_fraction(t: Seq<u8>)
    requires
        !t.contains(DOT),
    ensures
        fraction_len(t.push(DOT)) == 0,
    decreases t.len(),
{
    let pointed = t.push(DOT);
    if t.len() > 0 {
        assert(t[0] != DOT);
        assert(pointed.first() == t[0]);
        let rest = t.drop_first();
        assert forall|k: int| 0 <= k < rest.len() implies rest[k] != DOT by {
            assert(rest[k] == t[k + 1]);
        }
        lemma_point_ends_fraction(rest);
        assert(pointed.drop_first() =~= rest.push(DOT));
    }
}

} // verus!
