//! Fixed-width 256-bit unsigned integers and 18-decimal fixed-point numbers.
//!
//! `Uint256` holds its value as 32 big-endian bytes, the layout that
//! `cosmwasm_std::Uint256` uses for `from_be_bytes` / `to_be_bytes`, so that
//! every arithmetic operation is carried out by `cosmwasm_std` itself.
//! `Decimal256` is a `Uint256` of atomics with 18 fractional digits.
use vstd::prelude::*;
use vstd::arithmetic::power::pow;

verus! {

/// 2^256, one more than the largest `Uint256`.
pub open spec fn u256_limit() -> nat {
    115792089237316195423570985008687907853269984665640564039457584007913129639936nat
}

/// 10^18, the scale of an 18-decimal fixed-point number.
pub open spec fn decimal_unit() -> nat {
    1_000_000_000_000_000_000nat
}

/// The number that a sequence of big-endian bytes denotes.
pub open spec fn be_value(bytes: Seq<u8>) -> nat
    decreases bytes.len(),
{
    if bytes.len() == 0 {
        0
    } else {
        be_value(bytes.drop_last()) * 256 + bytes.last() as nat
    }
}

/// 256^n.
pub open spec fn pow256(n: nat) -> nat
    decreases n,
{
    if n == 0 {
        1
    } else {
        pow256((n - 1) as nat) * 256
    }
}

proof fn lemma_be_value_bound(bytes: Seq<u8>)
    ensures
        be_value(bytes) < pow256(bytes.len()),
    decreases bytes.len(),
{
    if bytes.len() > 0 {
        lemma_be_value_bound(bytes.drop_last());
    }
}

proof fn lemma_pow256_32()
    ensures
        pow256(32) == u256_limit(),
{
    reveal_with_fuel(pow256, 33);
}

/// An unsigned 256-bit integer.
#[derive(Clone, Copy, Debug)]
pub struct Uint256 {
    bytes: [u8; 32],
}

impl View for Uint256 {
    type V = nat;

    closed spec fn view(&self) -> nat {
        be_value(self.bytes@)
    }
}

impl Uint256 {
    /// Every `Uint256` is below 2^256.
    pub proof fn lemma_bound(self)
        ensures
            self@ < u256_limit(),
    {
        lemma_be_value_bound(self.bytes@);
        lemma_pow256_32();
    }

    /// The number whose big-endian bytes are `bytes`.
    pub fn from_be_bytes(bytes: [u8; 32]) -> (r: Self)
        ensures
            r@ == be_value(bytes@),
    {
        Uint256 { bytes }
    }

    /// The big-endian bytes of the number.
    pub fn to_be_bytes(&self) -> (r: [u8; 32])
        ensures
            be_value(r@) == self@,
    {
        self.bytes
    }

    pub fn from_u128(x: u128) -> (r: Self)
        ensures
            r@ == x,
    {
        cw_from_u128(x)
    }

    pub fn zero() -> (r: Self)
        ensures
            r@ == 0,
    {
        cw_from_u128(0)
    }

    pub fn one() -> (r: Self)
        ensures
            r@ == 1,
    {
        cw_from_u128(1)
    }

    /// The value as a `u128`, where it fits in one.
    pub fn to_u128(&self) -> (r: Option<u128>)
        ensures
            r is Some <==> self@ <= u128::MAX,
            r matches Some(v) ==> v == self@,
    {
        cw_to_u128(self)
    }

    pub fn is_zero(&self) -> (r: bool)
        ensures
            r == (self@ == 0),
    {
        cw_is_zero(self)
    }

    pub fn lt(&self, other: &Self) -> (r: bool)
        ensures
            r == (self@ < other@),
    {
        cw_lt(self, other)
    }

    pub fn le(&self, other: &Self) -> (r: bool)
        ensures
            r == (self@ <= other@),
    {
        !cw_lt(other, self)
    }

    pub fn gt(&self, other: &Self) -> (r: bool)
        ensures
            r == (self@ > other@),
    {
        cw_lt(other, self)
    }

    pub fn eq(&self, other: &Self) -> (r: bool)
        ensures
            r == (self@ == other@),
    {
        cw_eq(self, other)
    }

    pub fn checked_add(&self, other: &Self) -> (r: Option<Self>)
        ensures
            r is Some <==> self@ + other@ < u256_limit(),
            r matches Some(v) ==> v@ == self@ + other@,
    {
        cw_checked_add(self, other)
    }

    pub fn checked_sub(&self, other: &Self) -> (r: Option<Self>)
        ensures
            r is Some <==> other@ <= self@,
            r matches Some(v) ==> v@ == self@ - other@,
    {
        cw_checked_sub(self, other)
    }

    pub fn checked_mul(&self, other: &Self) -> (r: Option<Self>)
        ensures
            r is Some <==> self@ * other@ < u256_limit(),
            r matches Some(v) ==> v@ == self@ * other@,
    {
        cw_checked_mul(self, other)
    }

    pub fn checked_div(&self, other: &Self) -> (r: Option<Self>)
        ensures
            r is Some <==> other@ != 0,
            r matches Some(v) ==> v@ == self@ / other@,
    {
        cw_checked_div(self, other)
    }

    /// `self * numerator / denominator`, rounded down, computed without
    /// intermediate overflow.
    pub fn checked_multiply_ratio(&self, numerator: &Self, denominator: &Self) -> (r: Option<
        Self,
    >)
        ensures
            r is Some <==> denominator@ != 0 && self@ * numerator@ / denominator@
                < u256_limit(),
            r matches Some(v) ==> v@ == self@ * numerator@ / denominator@,
    {
        cw_checked_multiply_ratio(self, numerator, denominator)
    }

    /// Sum that the caller knows does not overflow.
    pub fn add(&self, other: &Self) -> (r: Self)
        requires
            self@ + other@ < u256_limit(),
        ensures
            r@ == self@ + other@,
    {
        cw_checked_add(self, other).unwrap()
    }

    /// Difference that the caller knows does not underflow.
    pub fn sub(&self, other: &Self) -> (r: Self)
        requires
            other@ <= self@,
        ensures
            r@ == self@ - other@,
    {
        cw_checked_sub(self, other).unwrap()
    }

    /// The integer square root, the largest `r` with `r * r <= self`.
    pub fn isqrt(&self) -> (r: Self)
        ensures
            is_isqrt(r@, self@),
            r@ == isqrt_spec(self@),
    {
        let r = cw_isqrt(self);
        proof {
            lemma_isqrt_spec(r@, self@);
        }
        r
    }

    /// `|self - other|`.
    pub fn abs_diff(&self, other: &Self) -> (r: Self)
        ensures
            r@ == abs_diff_spec(self@, other@),
    {
        if cw_lt(self, other) {
            cw_checked_sub(other, self).unwrap()
        } else {
            cw_checked_sub(self, other).unwrap()
        }
    }

    /// The smaller of the two.
    pub fn min(&self, other: &Self) -> (r: Self)
        ensures
            r@ == if self@ <= other@ { self@ } else { other@ },
    {
        if cw_lt(other, self) {
            *other
        } else {
            *self
        }
    }
}

/// `s` is the integer square root of `v`: the largest number whose square is
/// at most `v`.
pub open spec fn is_isqrt(s: nat, v: nat) -> bool {
    s * s <= v < (s + 1) * (s + 1)
}

/// The integer square root of `v`.
pub open spec fn isqrt_spec(v: nat) -> nat {
    choose|s: nat| is_isqrt(s, v)
}

/// A number has at most one integer square root, so any root found is
/// `isqrt_spec`.
pub proof fn lemma_isqrt_spec(s: nat, v: nat)
    requires
        is_isqrt(s, v),
    ensures
        isqrt_spec(v) == s,
{
    let t = isqrt_spec(v);
    assert(is_isqrt(t, v));
    if t < s {
        assert((t + 1) * (t + 1) <= s * s) by (nonlinear_arith)
            requires t + 1 <= s;
    } else if s < t {
        assert((s + 1) * (s + 1) <= t * t) by (nonlinear_arith)
            requires s + 1 <= t;
    }
}

pub open spec fn abs_diff_spec(a: nat, b: nat) -> nat {
    if a < b {
        (b - a) as nat
    } else {
        (a - b) as nat
    }
}

/// 10^n as a `Uint256`; 10^77 is the largest power of ten below 2^256.
pub fn exp10(n: u32) -> (r: Uint256)
    requires
        n <= 77,
    ensures
        r@ == pow(10, n as nat),
{
    let ten = Uint256::from_u128(10);
    let mut r = Uint256::one();
    let mut i: u32 = 0;
    proof {
        vstd::arithmetic::power::lemma_pow0(10);
        reveal_with_fuel(pow, 78);
        assert(pow(10, 77) < u256_limit());
    }
    while i < n
        invariant
            i <= n <= 77,
            ten@ == 10,
            r@ == pow(10, i as nat),
            pow(10, 77) < u256_limit(),
        decreases n - i,
    {
        proof {
            vstd::arithmetic::power::lemma_pow_adds(10, i as nat, 1);
            vstd::arithmetic::power::lemma_pow1(10);
            vstd::arithmetic::power::lemma_pow_increases(10, (i + 1) as nat, 77);
        }
        r = r.checked_mul(&ten).unwrap();
        i = i + 1;
    }
    r
}

/// An 18-decimal fixed-point number, `atomics / 10^18`.
#[derive(Clone, Copy, Debug)]
pub struct Decimal256 {
    atomics: Uint256,
}

impl View for Decimal256 {
    type V = nat;

    /// The atomics: the value times 10^18.
    closed spec fn view(&self) -> nat {
        self.atomics@
    }
}

impl Decimal256 {
    pub proof fn lemma_bound(self)
        ensures
            self@ < u256_limit(),
    {
        self.atomics.lemma_bound();
    }

    pub fn new(atomics: Uint256) -> (r: Self)
        ensures
            r@ == atomics@,
    {
        Decimal256 { atomics }
    }

    pub fn atomics(&self) -> (r: Uint256)
        ensures
            r@ == self@,
    {
        self.atomics
    }

    pub fn zero() -> (r: Self)
        ensures
            r@ == 0,
    {
        Decimal256 { atomics: Uint256::zero() }
    }

    pub fn one() -> (r: Self)
        ensures
            r@ == decimal_unit(),
    {
        Decimal256 { atomics: Uint256::from_u128(1_000_000_000_000_000_000) }
    }

    /// `x` percent.
    pub fn percent(x: u64) -> (r: Self)
        ensures
            r@ == x * 10_000_000_000_000_000,
    {
        let a: u128 = (x as u128) * 10_000_000_000_000_000u128;
        Decimal256 { atomics: Uint256::from_u128(a) }
    }

    pub fn is_zero(&self) -> (r: bool)
        ensures
            r == (self@ == 0),
    {
        self.atomics.is_zero()
    }

    /// `numerator / denominator` as a decimal, rounded down.
    /// The caller guarantees a nonzero denominator and a result that fits.
    pub fn from_ratio(numerator: &Uint256, denominator: &Uint256) -> (r: Self)
        requires
            denominator@ != 0,
            numerator@ * decimal_unit() / denominator@ < u256_limit(),
        ensures
            r@ == numerator@ * decimal_unit() / denominator@,
    {
        Decimal256 { atomics: cw_decimal_from_ratio(numerator, denominator).unwrap() }
    }

    /// `numerator / denominator` as a decimal, rounded down, or `None`
    /// for a zero denominator or a result that does not fit.
    pub fn checked_from_ratio(numerator: &Uint256, denominator: &Uint256) -> (r: Option<Self>)
        ensures
            r is Some <==> denominator@ != 0 && numerator@ * decimal_unit() / denominator@
                < u256_limit(),
            r matches Some(v) ==> v@ == numerator@ * decimal_unit() / denominator@,
    {
        match cw_decimal_from_ratio(numerator, denominator) {
            Some(a) => Some(Decimal256 { atomics: a }),
            None => None,
        }
    }

    pub fn lt(&self, other: &Self) -> (r: bool)
        ensures
            r == (self@ < other@),
    {
        self.atomics.lt(&other.atomics)
    }

    pub fn gt(&self, other: &Self) -> (r: bool)
        ensures
            r == (self@ > other@),
    {
        self.atomics.gt(&other.atomics)
    }

    pub fn eq(&self, other: &Self) -> (r: bool)
        ensures
            r == (self@ == other@),
    {
        self.atomics.eq(&other.atomics)
    }

    pub fn checked_add(&self, other: &Self) -> (r: Option<Self>)
        ensures
            r is Some <==> self@ + other@ < u256_limit(),
            r matches Some(v) ==> v@ == self@ + other@,
    {
        match self.atomics.checked_add(&other.atomics) {
            Some(a) => Some(Decimal256 { atomics: a }),
            None => None,
        }
    }

    /// `self * amount`, rounded down: `amount * atomics / 10^18`.
    /// The caller guarantees that the product fits.
    pub fn mul_uint(&self, amount: &Uint256) -> (r: Uint256)
        requires
            amount@ * self@ / decimal_unit() < u256_limit(),
        ensures
            r@ == amount@ * self@ / decimal_unit(),
    {
        cw_uint_mul_decimal(amount, self)
    }

    /// The decimal that a string such as `"1.0196"` denotes, if it parses.
    pub fn from_str(s: &str) -> (r: Option<Self>)
        ensures
            r is Some <==> decimal_str_atomics(s@) is Some,
            r matches Some(d) ==> Some(d@) == decimal_str_atomics(s@),
    {
        cw_decimal_from_str(s)
    }
}

/// The atomics of the decimal that `cosmwasm_std::Decimal256::from_str`
/// reads from a string, where it accepts the string.
pub uninterp spec fn decimal_str_atomics(s: Seq<char>) -> Option<nat>;

// ---------------------------------------------------------------------
// Trusted calls into `cosmwasm_std`. Each one converts the 32 big-endian
// bytes of its arguments to `cosmwasm_std::Uint256`, makes one call, and
// converts the result back.
// ---------------------------------------------------------------------

/// `cosmwasm_std::Uint256::from_u128`: the same number, widened.
#[verifier::external_body]
fn cw_from_u128(x: u128) -> (r: Uint256)
    ensures
        r@ == x,
{
    Uint256 { bytes: cosmwasm_std::Uint256::from_u128(x).to_be_bytes() }
}

/// `TryFrom<Uint256> for cosmwasm_std::Uint128`: succeeds exactly when the
/// number fits in 128 bits, and then keeps it.
#[verifier::external_body]
fn cw_to_u128(a: &Uint256) -> (r: Option<u128>)
    ensures
        r is Some <==> a@ <= u128::MAX,
        r matches Some(v) ==> v == a@,
{
    match cosmwasm_std::Uint128::try_from(cosmwasm_std::Uint256::from_be_bytes(a.bytes)) {
        Ok(v) => Some(v.u128()),
        Err(_) => None,
    }
}

/// `cosmwasm_std::Uint256::is_zero`.
#[verifier::external_body]
fn cw_is_zero(a: &Uint256) -> (r: bool)
    ensures
        r == (a@ == 0),
{
    cosmwasm_std::Uint256::from_be_bytes(a.bytes).is_zero()
}

/// `PartialOrd::lt` of `cosmwasm_std::Uint256`: numeric order.
#[verifier::external_body]
fn cw_lt(a: &Uint256, b: &Uint256) -> (r: bool)
    ensures
        r == (a@ < b@),
{
    cosmwasm_std::Uint256::from_be_bytes(a.bytes) < cosmwasm_std::Uint256::from_be_bytes(b.bytes)
}

/// `PartialEq::eq` of `cosmwasm_std::Uint256`: numeric equality.
#[verifier::external_body]
fn cw_eq(a: &Uint256, b: &Uint256) -> (r: bool)
    ensures
        r == (a@ == b@),
{
    cosmwasm_std::Uint256::from_be_bytes(a.bytes) == cosmwasm_std::Uint256::from_be_bytes(b.bytes)
}

/// `cosmwasm_std::Uint256::checked_add`: the sum, or an error on overflow.
#[verifier::external_body]
fn cw_checked_add(a: &Uint256, b: &Uint256) -> (r: Option<Uint256>)
    ensures
        r is Some <==> a@ + b@ < u256_limit(),
        r matches Some(v) ==> v@ == a@ + b@,
{
    let x = cosmwasm_std::Uint256::from_be_bytes(a.bytes);
    match x.checked_add(cosmwasm_std::Uint256::from_be_bytes(b.bytes)) {
        Ok(v) => Some(Uint256 { bytes: v.to_be_bytes() }),
        Err(_) => None,
    }
}

/// `cosmwasm_std::Uint256::checked_sub`: the difference, or an error when
/// it would be negative.
#[verifier::external_body]
fn cw_checked_sub(a: &Uint256, b: &Uint256) -> (r: Option<Uint256>)
    ensures
        r is Some <==> b@ <= a@,
        r matches Some(v) ==> v@ == a@ - b@,
{
    let x = cosmwasm_std::Uint256::from_be_bytes(a.bytes);
    match x.checked_sub(cosmwasm_std::Uint256::from_be_bytes(b.bytes)) {
        Ok(v) => Some(Uint256 { bytes: v.to_be_bytes() }),
        Err(_) => None,
    }
}

/// `cosmwasm_std::Uint256::checked_mul`: the product, or an error on overflow.
#[verifier::external_body]
fn cw_checked_mul(a: &Uint256, b: &Uint256) -> (r: Option<Uint256>)
    ensures
        r is Some <==> a@ * b@ < u256_limit(),
        r matches Some(v) ==> v@ == a@ * b@,
{
    let x = cosmwasm_std::Uint256::from_be_bytes(a.bytes);
    match x.checked_mul(cosmwasm_std::Uint256::from_be_bytes(b.bytes)) {
        Ok(v) => Some(Uint256 { bytes: v.to_be_bytes() }),
        Err(_) => None,
    }
}

/// `cosmwasm_std::Uint256::checked_div`: the quotient rounded down, or an
/// error for a zero divisor.
#[verifier::external_body]
fn cw_checked_div(a: &Uint256, b: &Uint256) -> (r: Option<Uint256>)
    ensures
        r is Some <==> b@ != 0,
        r matches Some(v) ==> v@ == a@ / b@,
{
    let x = cosmwasm_std::Uint256::from_be_bytes(a.bytes);
    match x.checked_div(cosmwasm_std::Uint256::from_be_bytes(b.bytes)) {
        Ok(v) => Some(Uint256 { bytes: v.to_be_bytes() }),
        Err(_) => None,
    }
}

/// `cosmwasm_std::Uint256::checked_multiply_ratio`: `a * n / d` rounded
/// down with a 512-bit product; an error for `d == 0` or a quotient that
/// does not fit in 256 bits.
#[verifier::external_body]
fn cw_checked_multiply_ratio(a: &Uint256, n: &Uint256, d: &Uint256) -> (r: Option<Uint256>)
    ensures
        r is Some <==> (d@ != 0 && a@ * n@ / d@ < u256_limit()),
        r matches Some(v) ==> v@ == a@ * n@ / d@,
{
    let x = cosmwasm_std::Uint256::from_be_bytes(a.bytes);
    let n = cosmwasm_std::Uint256::from_be_bytes(n.bytes);
    match x.checked_multiply_ratio(n, cosmwasm_std::Uint256::from_be_bytes(d.bytes)) {
        Ok(v) => Some(Uint256 { bytes: v.to_be_bytes() }),
        Err(_) => None,
    }
}

/// `cosmwasm_std::Isqrt::isqrt` on `Uint256`: the integer square root.
#[verifier::external_body]
fn cw_isqrt(a: &Uint256) -> (r: Uint256)
    ensures
        r@ * r@ <= a@ < (r@ + 1) * (r@ + 1),
{
    let x = cosmwasm_std::Isqrt::isqrt(cosmwasm_std::Uint256::from_be_bytes(a.bytes));
    Uint256 { bytes: x.to_be_bytes() }
}

/// `cosmwasm_std::Decimal256::checked_from_ratio`: the atomics
/// `n * 10^18 / d` rounded down, or an error for `d == 0` or a result that
/// does not fit.
#[verifier::external_body]
fn cw_decimal_from_ratio(n: &Uint256, d: &Uint256) -> (r: Option<Uint256>)
    ensures
        r is Some <==> (d@ != 0 && n@ * decimal_unit() / d@ < u256_limit()),
        r matches Some(v) ==> v@ == n@ * decimal_unit() / d@,
{
    let x = cosmwasm_std::Uint256::from_be_bytes(n.bytes);
    match cosmwasm_std::Decimal256::checked_from_ratio(x, cosmwasm_std::Uint256::from_be_bytes(d.bytes)) {
        Ok(v) => Some(Uint256 { bytes: v.atomics().to_be_bytes() }),
        Err(_) => None,
    }
}

/// `Mul<cosmwasm_std::Decimal256> for cosmwasm_std::Uint256`:
/// `u * atomics / 10^18` rounded down; it panics when that overflows, which
/// `requires` rules out.
#[verifier::external_body]
fn cw_uint_mul_decimal(u: &Uint256, d: &Decimal256) -> (r: Uint256)
    requires
        u@ * d@ / decimal_unit() < u256_limit(),
    ensures
        r@ == u@ * d@ / decimal_unit(),
{
    let x = cosmwasm_std::Uint256::from_be_bytes(u.bytes);
    let y = x * cosmwasm_std::Decimal256::new(cosmwasm_std::Uint256::from_be_bytes(d.atomics.bytes));
    Uint256 { bytes: y.to_be_bytes() }
}

/// `cosmwasm_std::Decimal256::from_str`: the parsed decimal, named
/// `decimal_str_atomics`, or `None` where it refuses the string. How it
/// parses is not restated here.
#[verifier::external_body]
fn cw_decimal_from_str(s: &str) -> (r: Option<Decimal256>)
    ensures
        r is Some <==> decimal_str_atomics(s@) is Some,
        r matches Some(d) ==> Some(d@) == decimal_str_atomics(s@),
{
    match <cosmwasm_std::Decimal256 as core::str::FromStr>::from_str(s) {
        Ok(v) => Some(Decimal256 { atomics: Uint256 { bytes: v.atomics().to_be_bytes() } }),
        Err(_) => None,
    }
}

} // verus!
