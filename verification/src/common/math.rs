//! Static classes that help with common math functions.
use vstd::prelude::*;
use vstd::arithmetic::power::pow;
use vstd::arithmetic::div_mod::*;
use vstd::arithmetic::mul::*;
use crate::num::{Uint256, Decimal256, exp10, u256_limit, decimal_unit, abs_diff_spec, isqrt_spec};
use crate::common::{StdError, StdResult, uint_result, scale_to_18, normalize_price};
use crate::common::asset::Asset;

verus! {

/// `a * b / c` rounded down: the value of a successful `muldiv`.
pub open spec fn muldiv_spec(a: nat, b: nat, c: nat) -> nat {
    a * b / c
}

/// Whether `muldiv(a, b, c)` succeeds: `c` is nonzero and the quotient fits.
pub open spec fn muldiv_ok(a: nat, b: nat, c: nat) -> bool {
    c != 0 && a * b / c < u256_limit()
}

/// The error of a failed `muldiv(a, b, c)`.
pub open spec fn muldiv_err(c: nat) -> StdError {
    if c == 0 {
        StdError::DivideByZero
    } else {
        StdError::Overflow
    }
}

/// `a * b / c`, rounded down and computed with a 512-bit product.
pub fn muldiv(a: &Uint256, b: &Uint256, c: &Uint256) -> (r: StdResult<Uint256>)
    ensures
        r is Ok <==> muldiv_ok(a@, b@, c@),
        r matches Ok(v) ==> v@ == muldiv_spec(a@, b@, c@),
        r matches Err(e) ==> e == muldiv_err(c@),
{
    match a.checked_multiply_ratio(b, c) {
        Some(v) => Ok(v),
        None => {
            if c.is_zero() {
                Err(StdError::DivideByZero)
            } else {
                Err(StdError::Overflow)
            }
        },
    }
}

/// `a * b / 10^18`, rounded down.
pub fn muldiv18(a: &Uint256, b: &Uint256) -> (r: StdResult<Uint256>)
    ensures
        r is Ok <==> muldiv_ok(a@, b@, decimal_unit()),
        r matches Ok(v) ==> v@ == muldiv_spec(a@, b@, decimal_unit()),
        r matches Err(e) ==> e == StdError::Overflow,
{
    let unit = Uint256::from_u128(1_000_000_000_000_000_000);
    muldiv(a, b, &unit)
}

/// `x` rounded to a multiple of 10^p, halves going to the even multiple.
pub open spec fn bankers_round_spec(x: nat, p: nat) -> nat {
    let unit = pow(10, p) as nat;
    let q = x / unit;
    let rem = x % unit;
    let up = rem * 2 > unit || (rem * 2 == unit && q % 2 == 1);
    (if up { q + 1 } else { q }) * unit
}

/// Rounds `num` to a multiple of 10^precision, rounding halves to the even
/// multiple.
pub fn bankers_round(num: &Uint256, precision: u8) -> (r: Uint256)
    requires
        precision <= 77,
        bankers_round_spec(num@, precision as nat) < u256_limit(),
    ensures
        r@ == bankers_round_spec(num@, precision as nat),
{
    let unit = exp10(precision as u32);
    let ghost u = pow(10, precision as nat) as nat;
    proof {
        vstd::arithmetic::power::lemma_pow_positive(10, precision as nat);
        lemma_fundamental_div_mod(num@ as int, u as int);
        lemma_mod_bound(num@ as int, u as int);
        num.lemma_bound();
    }
    let q = num.checked_div(&unit).unwrap();
    let ghost qv = q@;
    proof {
        assert(unit@ == u);
        assert(qv == num@ / u);
        lemma_mul_is_commutative(u as int, qv as int);
        assert(num@ == u * qv + num@ % u);
        assert(qv * u <= num@) by (nonlinear_arith)
            requires qv * u + num@ % u == num@, num@ % u >= 0;
    }
    let base = q.checked_mul(&unit).unwrap();
    let rem = num.sub(&base);
    proof {
        assert(base@ == qv * u);
        assert(rem@ == num@ % u);
    }
    let other = unit.sub(&rem);
    let two = Uint256::from_u128(2);
    let q_half = q.checked_div(&two).unwrap();
    let q_even = q_half.checked_mul(&two).unwrap();
    let q_odd = !q_even.eq(&q);
    proof {
        lemma_fundamental_div_mod(qv as int, 2);
        lemma_mod_bound(qv as int, 2);
        assert(q_odd == (qv % 2 == 1));
    }
    let up = rem.gt(&other) || (rem.eq(&other) && q_odd);
    if up {
        proof {
            assert((qv + 1) * u == qv * u + u) by (nonlinear_arith);
        }
        base.add(&unit)
    } else {
        base
    }
}

/// `a * b / 10^18` on 18-decimal fixed-point numbers, rounded down.
pub fn ud60x18_mul(a: &Uint256, b: &Uint256) -> (r: StdResult<Uint256>)
    ensures
        r is Ok <==> muldiv_ok(a@, b@, decimal_unit()),
        r matches Ok(v) ==> v@ == a@ * b@ / decimal_unit(),
        r matches Err(e) ==> e == StdError::Overflow,
{
    muldiv18(a, b)
}

/// The square root of an 18-decimal fixed-point number: the integer square
/// root of `x * 10^18`, which must fit in 256 bits.
pub fn ud60x18_sqrt(x: &Uint256) -> (r: StdResult<Uint256>)
    ensures
        r is Ok <==> x@ * decimal_unit() < u256_limit(),
        r matches Ok(v) ==> v@ == isqrt_spec(x@ * decimal_unit()),
        r matches Err(e) ==> e == StdError::Overflow,
{
    let unit = Uint256::from_u128(1_000_000_000_000_000_000);
    match x.checked_mul(&unit) {
        Some(scaled) => Ok(scaled.isqrt()),
        None => Err(StdError::Overflow),
    }
}

pub struct GeneralMath;

impl GeneralMath {
    /// Whether `a` lies within the relative `tolerance` (atomics of an
    /// 18-decimal fraction) of `b`.
    pub open spec fn within_precision(a: nat, b: nat, tolerance: nat) -> bool {
        (a == 0 && b == 0) || abs_diff_spec(a, b) * decimal_unit() / b <= tolerance
    }

    /// Require that `a` is within some % of `b`.
    pub fn require_within_precision(a: &Uint256, b: &Uint256, tolerance: &Uint256) -> (r: StdResult<()>)
        requires
            b@ == 0 ==> a@ == 0,
            b@ != 0 ==> abs_diff_spec(a@, b@) * decimal_unit() / b@ < u256_limit(),
        ensures
            r is Ok <==> Self::within_precision(a@, b@, tolerance@),
            r matches Err(e) ==> (e matches StdError::NotWithinPrecision { value, tolerance: t, expected, deviation }
                && value@ == a@ && t@ == tolerance@ && expected@ == b@
                && deviation@ == abs_diff_spec(a@, b@) * decimal_unit() / b@),
    {
        let diff = a.abs_diff(b);
        if b.is_zero() && a.is_zero() {
            Ok(())
        } else {
            let actual_deviation = Decimal256::from_ratio(&diff, b);
            let max_deviation = Decimal256::new(*tolerance);
            if actual_deviation.gt(&max_deviation) {
                Err(StdError::NotWithinPrecision {
                    value: *a,
                    tolerance: *tolerance,
                    expected: *b,
                    deviation: actual_deviation,
                })
            } else {
                Ok(())
            }
        }
    }
}

/// `value` rescaled from `decimals` decimal places to 18.
pub open spec fn normalize_spec(value: nat, decimals: nat) -> nat {
    if decimals == 18 {
        value
    } else {
        value * (pow(10, 18) as nat) / (pow(10, decimals) as nat)
    }
}

/// Whether rescaling `value` from `decimals` decimal places succeeds.
pub open spec fn normalize_ok(value: nat, decimals: nat) -> bool {
    decimals == 18 || value * (pow(10, 18) as nat) / (pow(10, decimals) as nat) < u256_limit()
}

/// Provides methods that deal with token prices, values, and amounts.
pub struct TokenMath;

impl TokenMath {
    /// Accepts the value and the decimal precision of that value.
    ///
    /// Can handle values that have more than 18 decimal places.
    /// Normalizes to 18 decimal places.
    pub fn normalize_value(value: &Uint256, decimals: u8) -> (r: StdResult<Uint256>)
        requires
            decimals <= 77,
        ensures
            r is Ok <==> normalize_ok(value@, decimals as nat),
            r matches Ok(v) ==> v@ == normalize_spec(value@, decimals as nat),
            r matches Err(e) ==> e == StdError::Overflow,
    {
        if decimals == 18 {
            Ok(*value)
        } else {
            let e18 = exp10(18);
            let ed = exp10(decimals as u32);
            proof {
                vstd::arithmetic::power::lemma_pow_positive(10, decimals as nat);
            }
            muldiv(value, &e18, &ed)
        }
    }

    /// Normalizes the asset amount from being based off asset decimals -> 18 decimals.
    pub fn normalize_asset_amount(asset: &Asset, amount: &Uint256) -> (r: StdResult<Uint256>)
        requires
            asset.decimals <= 77,
        ensures
            r is Ok <==> normalize_ok(amount@, asset.decimals as nat),
            r matches Ok(v) ==> v@ == normalize_spec(amount@, asset.decimals as nat),
            r matches Err(e) ==> e == StdError::Overflow,
    {
        Self::normalize_value(amount, asset.decimals)
    }

    /// Gets the amount of asset the amount normalized to 18 decimals represents.
    /// Applies bankers rounding to reduce token amount loss.
    pub fn get_asset_amount(asset: &Asset, normalized_amount: &Uint256) -> (r: StdResult<Uint256>)
        requires
            asset.decimals <= 18,
            bankers_round_spec(normalized_amount@, (18 - asset.decimals) as nat) < u256_limit(),
        ensures
            r matches Ok(v) && v@ == denormalize_spec(normalized_amount@, asset.decimals as nat),
    {
        Ok(denormalize(normalized_amount, asset.decimals))
    }
}

/// An 18-decimal amount expressed with `decimals` decimal places, rounded
/// half to even.
pub open spec fn denormalize_spec(amount: nat, decimals: nat) -> nat {
    if decimals == 18 {
        amount
    } else {
        bankers_round_spec(amount, (18 - decimals) as nat) / (pow(10, (18 - decimals) as nat) as nat)
    }
}

/// An 18-decimal amount expressed with `decimals` decimal places, rounded
/// half to even.
pub fn denormalize(amount: &Uint256, decimals: u8) -> (r: Uint256)
    requires
        decimals <= 18,
        bankers_round_spec(amount@, (18 - decimals) as nat) < u256_limit(),
    ensures
        r@ == denormalize_spec(amount@, decimals as nat),
{
    if decimals == 18 {
        *amount
    } else {
        let precision_diff: u8 = 18 - decimals;
        let rounded = bankers_round(amount, precision_diff);
        let unit = exp10(precision_diff as u32);
        proof {
            vstd::arithmetic::power::lemma_pow_positive(10, precision_diff as nat);
        }
        rounded.checked_div(&unit).unwrap()
    }
}

/// The reserve of one pooled token, its price (18 decimals) and its decimals.
pub struct FairLpPriceInfo {
    pub reserve: Uint256,
    pub price: Uint256,
    pub decimals: u8,
}

/// The spot price of one LP token: the value of both reserves over the
/// supply, all scaled to 18 decimals, or the error that stops it.
pub open spec fn lp_spot_price_spec(a: FairLpPriceInfo, b: FairLpPriceInfo, total_supply: u128, lp_token_decimals: u8) -> Result<nat, StdError> {
    lp_spot_value(
        a.reserve@,
        a.price@,
        a.decimals as nat,
        b.reserve@,
        b.price@,
        b.decimals as nat,
        total_supply as nat,
        lp_token_decimals as nat,
    )
}

/// The spot price of one LP token from the reserve, price and decimals of
/// each side, the supply and its decimals.
pub open spec fn lp_spot_value(
    a_reserve: nat,
    a_price: nat,
    a_decimals: nat,
    b_reserve: nat,
    b_price: nat,
    b_decimals: nat,
    total_supply: nat,
    lp_token_decimals: nat,
) -> Result<nat, StdError> {
    let total = normalize_spec(a_reserve, a_decimals) * a_price + normalize_spec(b_reserve, b_decimals) * b_price;
    let supply = scale_to_18(total_supply, lp_token_decimals);
    if !normalize_ok(a_reserve, a_decimals) || !normalize_ok(b_reserve, b_decimals) || total >= u256_limit() {
        Err(StdError::Overflow)
    } else if supply == 0 {
        Err(StdError::DivideByZero)
    } else {
        Ok(total / supply)
    }
}

/// The 18-decimal square root of the 18-decimal product of `x` and `y`, or
/// `None` where a step overflows.
pub open spec fn sqrt_of_product(x: nat, y: nat) -> Option<nat> {
    let m = x * y / decimal_unit();
    if m >= u256_limit() || m * decimal_unit() >= u256_limit() {
        None
    } else {
        Some(isqrt_spec(m * decimal_unit()))
    }
}

/// Half the fair price of one LP token: the square root of the product of
/// the reserves times that of the product of the prices, over the supply,
/// or the error that stops it.
pub open spec fn fair_lp_half_price_spec(a: FairLpPriceInfo, b: FairLpPriceInfo, total_supply: u128, lp_token_decimals: u8) -> Result<nat, StdError> {
    fair_lp_half_value(
        a.reserve@,
        a.price@,
        a.decimals as nat,
        b.reserve@,
        b.price@,
        b.decimals as nat,
        total_supply as nat,
        lp_token_decimals as nat,
    )
}

/// Half the fair price of one LP token, from the reserve, price and
/// decimals of each side, the supply and its decimals: the square root of
/// the product of the normalized reserves times that of the prices, over
/// the normalized supply.
pub open spec fn fair_lp_half_value(
    a_reserve: nat,
    a_price: nat,
    a_decimals: nat,
    b_reserve: nat,
    b_price: nat,
    b_decimals: nat,
    total_supply: nat,
    lp_token_decimals: nat,
) -> Result<nat, StdError> {
    let n1 = normalize_spec(a_reserve, a_decimals);
    let n2 = normalize_spec(b_reserve, b_decimals);
    let ns = normalize_spec(total_supply, lp_token_decimals);
    if !normalize_ok(a_reserve, a_decimals) || !normalize_ok(b_reserve, b_decimals)
        || !normalize_ok(total_supply, lp_token_decimals) {
        Err(StdError::Overflow)
    } else if sqrt_of_product(n1, n2) is None || sqrt_of_product(a_price, b_price) is None {
        Err(StdError::Overflow)
    } else {
        let r = sqrt_of_product(n1, n2)->0;
        let p = sqrt_of_product(a_price, b_price)->0;
        if ns == 0 {
            Err(StdError::DivideByZero)
        } else if r * p / ns >= u256_limit() {
            Err(StdError::Overflow)
        } else {
            Ok(r * p / ns)
        }
    }
}

/// The 18-decimal square root of the 18-decimal product of `x` and `y`.
fn sqrt_product(x: &Uint256, y: &Uint256) -> (r: StdResult<Uint256>)
    ensures
        r is Ok <==> sqrt_of_product(x@, y@) is Some,
        r matches Ok(v) ==> v@ == sqrt_of_product(x@, y@)->0,
        r matches Err(e) ==> e == StdError::Overflow,
{
    let m = ud60x18_mul(x, y)?;
    ud60x18_sqrt(&m)
}

pub struct LiquidityPoolMath;

impl LiquidityPoolMath {
    /// Calculates the spot price of an LP token
    pub fn get_lp_token_spot_price(a: FairLpPriceInfo, b: FairLpPriceInfo, total_supply: u128, lp_token_decimals: u8) -> (r: StdResult<Uint256>)
        requires
            a.decimals <= 77,
            b.decimals <= 77,
            lp_token_decimals <= 18,
            scale_to_18(total_supply as nat, lp_token_decimals as nat) <= u128::MAX,
        ensures
            uint_result(r) == lp_spot_price_spec(a, b, total_supply, lp_token_decimals),
    {
        let normalized_reserve1 = TokenMath::normalize_value(&a.reserve, a.decimals)?;
        let normalized_reserve2 = TokenMath::normalize_value(&b.reserve, b.decimals)?;
        let normalized_supply = Uint256::from_u128(normalize_price(total_supply, lp_token_decimals));
        let total_value_a = match normalized_reserve1.checked_mul(&a.price) {
            Some(v) => v,
            None => return Err(StdError::Overflow),
        };
        let total_value_b = match normalized_reserve2.checked_mul(&b.price) {
            Some(v) => v,
            None => return Err(StdError::Overflow),
        };
        let lp_total_value = match total_value_a.checked_add(&total_value_b) {
            Some(v) => v,
            None => return Err(StdError::Overflow),
        };
        match lp_total_value.checked_div(&normalized_supply) {
            Some(v) => Ok(v),
            None => Err(StdError::DivideByZero),
        }
    }

    /// Calculates the price of an LP token based on https://blog.alphafinance.io/fair-lp-token-pricing/.
    ///
    /// Assumes token prices are normalized to 10^18.
    pub fn get_fair_lp_token_price(a: FairLpPriceInfo, b: FairLpPriceInfo, total_supply: u128, lp_token_decimals: u8) -> (r: StdResult<Uint256>)
        requires
            a.decimals <= 77,
            b.decimals <= 77,
            lp_token_decimals <= 77,
            fair_lp_half_price_spec(a, b, total_supply, lp_token_decimals) matches Ok(h) ==> h * 2
                < u256_limit(),
        ensures
            uint_result(r) == match fair_lp_half_price_spec(a, b, total_supply, lp_token_decimals) {
                Ok(h) => Ok::<nat, StdError>(h * 2),
                Err(e) => Err(e),
            },
    {
        let normalized_reserve1 = TokenMath::normalize_value(&a.reserve, a.decimals)?;
        let normalized_reserve2 = TokenMath::normalize_value(&b.reserve, b.decimals)?;
        let supply = Uint256::from_u128(total_supply);
        let normalized_supply = TokenMath::normalize_value(&supply, lp_token_decimals)?;
        let r = sqrt_product(&normalized_reserve1, &normalized_reserve2)?;
        let p = sqrt_product(&a.price, &b.price)?;
        let half = muldiv(&r, &p, &normalized_supply)?;
        let two = Uint256::from_u128(2);
        Ok(half.checked_mul(&two).unwrap())
    }
}

/// An amount scaled from `decimals` decimal places to 18 and back is
/// unchanged.
pub proof fn lemma_normalize_round_trip(amount: nat, decimals: nat)
    requires
        decimals <= 18,
    ensures
        normalize_spec(amount, decimals) == amount * (pow(10, (18 - decimals) as nat) as nat),
        denormalize_spec(normalize_spec(amount, decimals), decimals) == amount,
{
    if decimals < 18 {
        let d = (18 - decimals) as nat;
        vstd::arithmetic::power::lemma_pow_adds(10, decimals, d);
        vstd::arithmetic::power::lemma_pow_positive(10, decimals);
        vstd::arithmetic::power::lemma_pow_positive(10, d);
        let pd = pow(10, decimals) as nat;
        let u = pow(10, d) as nat;
        assert(pow(10, 18) == pd * u);
        let x = amount * u;
        assert(amount * (pd * u) == pd * x) by (nonlinear_arith)
            requires x == amount * u;
        lemma_div_multiples_vanish(x as int, pd as int);
        assert(normalize_spec(amount, decimals) == x);
        lemma_div_multiples_vanish(amount as int, u as int);
        lemma_mod_multiples_basic(amount as int, u as int);
        assert(x / u == amount) by {
            lemma_mul_is_commutative(amount as int, u as int);
        }
        assert(x % u == 0) by {
            lemma_mul_is_commutative(amount as int, u as int);
        }
        assert(bankers_round_spec(x, d) == x) by {
            lemma_mul_is_commutative(amount as int, u as int);
        }
    } else {
        vstd::arithmetic::power::lemma_pow0(10);
        assert((pow(10, (18 - decimals) as nat) as nat) == 1);
        assert(amount * 1 == amount);
    }
}

/// Rounding half to even gives a multiple of 10^p at most half of 10^p
/// away from the number.
pub proof fn lemma_bankers_round_bounds(x: nat, p: nat)
    ensures
        bankers_round_spec(x, p) % (pow(10, p) as nat) == 0,
        2 * abs_diff_spec(bankers_round_spec(x, p), x) <= pow(10, p),
{
    vstd::arithmetic::power::lemma_pow_positive(10, p);
    let unit = pow(10, p) as nat;
    let q = x / unit;
    let rem = x % unit;
    lemma_fundamental_div_mod(x as int, unit as int);
    lemma_mod_bound(x as int, unit as int);
    let up = rem * 2 > unit || (rem * 2 == unit && q % 2 == 1);
    let n: nat = if up { q + 1 } else { q };
    lemma_mod_multiples_basic(n as int, unit as int);
    assert(x == unit * q + rem);
    if up {
        assert((q + 1) * unit == unit * q + unit) by (nonlinear_arith);
    } else {
        assert(q * unit == unit * q) by (nonlinear_arith);
    }
}

/// A value is within any tolerance of itself.
/// A value lies within a relative tolerance of a nonzero reference exactly
/// when the distance between them, in either direction, is less than the
/// reference times one more than the tolerance (an 18-decimal fraction):
/// a rise and a fall of the same size are judged alike.
pub proof fn lemma_within_precision_meaning(a: nat, b: nat, tolerance: nat)
    requires
        b > 0,
    ensures
        GeneralMath::within_precision(a, b, tolerance) <==> (if a <= b {
            (b - a) * decimal_unit() < (tolerance + 1) * b
        } else {
            (a - b) * decimal_unit() < (tolerance + 1) * b
        }),
{
    let d: int = if a <= b { b - a } else { a - b };
    assert(abs_diff_spec(a, b) == d);
    let x: int = d * decimal_unit();
    lemma_fundamental_div_mod(x, b as int);
    lemma_mod_bound(x, b as int);
    let q: int = x / (b as int);
    let r: int = x % (b as int);
    assert(q <= tolerance <==> x < (tolerance + 1) * b) by (nonlinear_arith)
        requires
            x == (b as int) * q + r,
            0 <= r < b,
            b > 0;
}

/// Ten times a number over ten times a positive one is the same quotient.
proof fn lemma_div_both_by_ten(x: nat, y: nat)
    requires
        y > 0,
    ensures
        (10 * x) / (10 * y) == x / y,
{
    lemma_fundamental_div_mod(x as int, y as int);
    lemma_mod_bound(x as int, y as int);
    let q: int = (x as int) / (y as int);
    let r: int = (x as int) % (y as int);
    assert(10 * x == q * (10 * y) + 10 * r) by (nonlinear_arith)
        requires
            x == (y as int) * q + r;
    assert(0 <= 10 * r < 10 * y) by (nonlinear_arith)
        requires
            0 <= r < y;
    lemma_fundamental_div_mod_converse((10 * x) as int, (10 * y) as int, q, 10 * r);
}

/// An amount with one more decimal place, ten times larger, normalizes to
/// the same 18-decimal amount, and normalizes whenever the first does.
pub proof fn lemma_normalize_one_more_decimal(value: nat, decimals: nat)
    requires
        decimals < 77,
        value * 10 < u256_limit(),
    ensures
        normalize_spec(value * 10, decimals + 1) == normalize_spec(value, decimals),
        normalize_ok(value * 10, decimals + 1) == normalize_ok(value, decimals),
{
    let p18 = pow(10, 18) as nat;
    let pd = pow(10, decimals) as nat;
    vstd::arithmetic::power::lemma_pow_positive(10, decimals);
    vstd::arithmetic::power::lemma_pow_positive(10, 18);
    vstd::arithmetic::power::lemma_pow_adds(10, decimals, 1);
    vstd::arithmetic::power::lemma_pow1(10);
    assert(pow(10, decimals + 1) == pd * 10);
    if decimals == 18 {
        assert(value * 10 * p18 == value * (10 * p18)) by (nonlinear_arith);
        lemma_fundamental_div_mod_converse((value * 10 * p18) as int, (10 * p18) as int, value as int, 0);
        assert((pd * 10) as nat == 10 * p18);
    } else if decimals == 17 {
        vstd::arithmetic::power::lemma_pow_adds(10, 17, 1);
        assert(p18 == pd * 10);
        assert(value * p18 == (value * 10) * pd) by (nonlinear_arith)
            requires
                p18 == pd * 10;
        lemma_fundamental_div_mod_converse((value * p18) as int, pd as int, (value * 10) as int, 0);
    } else {
        assert(value * 10 * p18 == 10 * (value * p18)) by (nonlinear_arith);
        lemma_div_both_by_ten(value * p18, pd);
        assert((pd * 10) as nat == 10 * pd);
    }
}

/// The fair price of an LP token reads the supply in the LP token's own
/// decimals: ten times the supply counted with one more decimal place is
/// the same supply, and gives the same price.
pub proof fn lemma_fair_lp_price_reads_supply_decimals(
    a_reserve: nat,
    a_price: nat,
    a_decimals: nat,
    b_reserve: nat,
    b_price: nat,
    b_decimals: nat,
    total_supply: nat,
    lp_token_decimals: nat,
)
    requires
        lp_token_decimals < 77,
        total_supply * 10 < u256_limit(),
    ensures
        fair_lp_half_value(a_reserve, a_price, a_decimals, b_reserve, b_price, b_decimals, total_supply * 10, lp_token_decimals + 1)
            == fair_lp_half_value(a_reserve, a_price, a_decimals, b_reserve, b_price, b_decimals, total_supply, lp_token_decimals),
{
    lemma_normalize_one_more_decimal(total_supply, lp_token_decimals);
}

/// An amount with one more decimal place, ten times larger, scales to the
/// same 18-decimal amount.
pub proof fn lemma_scale_one_more_decimal(amount: nat, decimals: nat)
    requires
        decimals < 18,
    ensures
        scale_to_18(amount * 10, decimals + 1) == scale_to_18(amount, decimals),
{
    let e = (17 - decimals) as nat;
    vstd::arithmetic::power::lemma_pow_adds(10, 1, e);
    vstd::arithmetic::power::lemma_pow1(10);
    assert((18 - decimals) as nat == 1 + e);
    assert(((18 - (decimals + 1)) as nat) == e);
    let pe = pow(10, e) as nat;
    vstd::arithmetic::power::lemma_pow_positive(10, e);
    assert(pow(10, 1 + e) == pow(10, 1) * pow(10, e));
    let k: nat = (18 - decimals) as nat;
    assert(k == 1 + e);
    assert(pow(10, k) == pow(10, 1 + e));
    assert(pow(10, (18 - decimals) as nat) == 10 * pe);
    assert(amount * 10 * pe == amount * (10 * pe)) by (nonlinear_arith);
}

/// The spot price of an LP token reads the supply in the LP token's own
/// decimals: ten times the supply counted with one more decimal place gives
/// the same price.
pub proof fn lemma_lp_spot_value_reads_supply_decimals(
    a_reserve: nat,
    a_price: nat,
    a_decimals: nat,
    b_reserve: nat,
    b_price: nat,
    b_decimals: nat,
    total_supply: nat,
    lp_token_decimals: nat,
)
    requires
        lp_token_decimals < 18,
    ensures
        lp_spot_value(a_reserve, a_price, a_decimals, b_reserve, b_price, b_decimals, total_supply * 10, lp_token_decimals + 1)
            == lp_spot_value(a_reserve, a_price, a_decimals, b_reserve, b_price, b_decimals, total_supply, lp_token_decimals),
{
    lemma_scale_one_more_decimal(total_supply, lp_token_decimals);
}

/// The spot price of an LP token is the dollar value of the pool per token:
/// the price times the supply (scaled from the LP token's decimals to 18)
/// is at most the value of both reserves, and one more unit of price would
/// exceed it.
pub proof fn lemma_lp_spot_value_prices_the_pool(
    a_reserve: nat,
    a_price: nat,
    a_decimals: nat,
    b_reserve: nat,
    b_price: nat,
    b_decimals: nat,
    total_supply: nat,
    lp_token_decimals: nat,
    price: nat,
)
    requires
        lp_spot_value(a_reserve, a_price, a_decimals, b_reserve, b_price, b_decimals, total_supply, lp_token_decimals)
            == Ok::<nat, StdError>(price),
    ensures
        ({
            let value = normalize_spec(a_reserve, a_decimals) * a_price + normalize_spec(b_reserve, b_decimals) * b_price;
            let supply = scale_to_18(total_supply, lp_token_decimals);
            &&& supply > 0
            &&& price * supply <= value
            &&& value < (price + 1) * supply
        }),
{
    let value = normalize_spec(a_reserve, a_decimals) * a_price + normalize_spec(b_reserve, b_decimals) * b_price;
    let supply = scale_to_18(total_supply, lp_token_decimals);
    lemma_fundamental_div_mod(value as int, supply as int);
    lemma_mod_bound(value as int, supply as int);
    let r: int = (value as int) % (supply as int);
    assert(price * supply <= value && value < (price + 1) * supply) by (nonlinear_arith)
        requires
            value == (supply as int) * price + r,
            0 <= r < supply;
}

pub proof fn lemma_within_precision_reflexive(a: nat, tolerance: nat)
    ensures
        GeneralMath::within_precision(a, a, tolerance),
{
    if a != 0 {
        assert(abs_diff_spec(a, a) == 0);
        assert(0 * decimal_unit() / a == 0) by (nonlinear_arith)
            requires a > 0;
    }
}

/// The fair price of an LP token does not depend on which token of the pair
/// comes first.
pub proof fn lemma_fair_lp_price_symmetric(a: FairLpPriceInfo, b: FairLpPriceInfo, total_supply: u128, lp_token_decimals: u8)
    ensures
        fair_lp_half_price_spec(a, b, total_supply, lp_token_decimals) == fair_lp_half_price_spec(
            b,
            a,
            total_supply,
            lp_token_decimals,
        ),
{
    let n1 = normalize_spec(a.reserve@, a.decimals as nat);
    let n2 = normalize_spec(b.reserve@, b.decimals as nat);
    lemma_mul_is_commutative(n1 as int, n2 as int);
    lemma_mul_is_commutative(a.price@ as int, b.price@ as int);
    assert(sqrt_of_product(n1, n2) == sqrt_of_product(n2, n1));
    assert(sqrt_of_product(a.price@, b.price@) == sqrt_of_product(b.price@, a.price@));
}

/// The weight fixed for an asset at a price, valued again at that price,
/// gives back its initial share of the peg value, rounded down at most by
/// one unit and by the price.
pub proof fn lemma_fixed_weight_reproduces_share(initial: nat, value: nat, rate: nat)
    requires
        rate > 0,
    ensures
        muldiv_spec(muldiv_spec(initial, value, rate), rate, decimal_unit()) * decimal_unit() <= initial * value,
        initial * value < muldiv_spec(muldiv_spec(initial, value, rate), rate, decimal_unit()) * decimal_unit()
            + decimal_unit() + rate,
{
    let f = initial * value / rate;
    let t = f * rate / decimal_unit();
    lemma_fundamental_div_mod((initial * value) as int, rate as int);
    lemma_mod_bound((initial * value) as int, rate as int);
    lemma_fundamental_div_mod((f * rate) as int, decimal_unit() as int);
    lemma_mod_bound((f * rate) as int, decimal_unit() as int);
    assert(f * rate == rate * f) by (nonlinear_arith);
    assert(t * decimal_unit() == decimal_unit() * t) by (nonlinear_arith);
}

} // verus!
