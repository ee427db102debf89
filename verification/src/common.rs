//! Items shared by every oracle: the error type, contract references and
//! small price helpers.
pub mod asset;
pub mod error;
pub mod math;
pub mod querier;
pub mod status;

use vstd::prelude::*;
use vstd::string::*;
use crate::num::{Uint256, u256_limit, is_isqrt, isqrt_spec, lemma_isqrt_spec};
use vstd::arithmetic::div_mod::{lemma_fundamental_div_mod, lemma_mod_bound};

verus! {

pub const BLOCK_SIZE: usize = 256;

/// The errors that the shared helpers report.
#[derive(Clone, Debug)]
pub enum StdError {
    /// An error with a message.
    GenericErr { msg: String },
    /// Something that was looked up is missing.
    NotFound { kind: String },
    /// An arithmetic result does not fit.
    Overflow,
    /// A division by zero.
    DivideByZero,
    /// A number does not fit in the narrower type it is converted to.
    ConversionOverflow,
    /// "Derivative rate is stale. Last updated `last_updated`. Current time
    /// `now`."
    StaleRate { last_updated: u64, now: u64 },
    /// "Derivative rate is changing too much. Maximum change is `max_change`.
    /// Attempted change is `change`."
    RateChangeTooLarge {
        max_change: crate::num::Decimal256,
        change: crate::num::Decimal256,
    },
    /// "Reported price `actual` is not within expected deviation `deviation`
    /// of the expected price `expected`. Actual deviation
    /// `actual_deviation`."
    ProtectedPriceDeviation {
        actual: Uint256,
        expected: Uint256,
        deviation: crate::num::Decimal256,
        actual_deviation: crate::num::Decimal256,
    },
    /// "Expected `value` to be within `tolerance` of `expected`. (Actual
    /// deviation: `deviation`)"
    NotWithinPrecision {
        value: Uint256,
        tolerance: Uint256,
        expected: Uint256,
        deviation: crate::num::Decimal256,
    },
}

pub type StdResult<T> = Result<T, StdError>;

impl StdError {
    pub fn generic_err(msg: String) -> (r: Self)
        ensures
            r matches StdError::GenericErr { msg: m } && m@ == msg@,
    {
        StdError::GenericErr { msg }
    }

    pub open spec fn is_generic(&self, msg: Seq<char>) -> bool {
        self matches StdError::GenericErr { msg: m } && m@ == msg
    }
}

/// A reference to a contract: its address and code hash.
#[derive(Clone, Debug)]
pub struct Contract {
    pub address: String,
    pub code_hash: String,
}

impl Contract {
    pub fn new(address: String, code_hash: String) -> (r: Self)
        ensures
            r.address == address,
            r.code_hash == code_hash,
    {
        Contract { address, code_hash }
    }

    /// Both the address and the code hash agree.
    pub open spec fn same(&self, other: &Contract) -> bool {
        self.address@ == other.address@ && self.code_hash@ == other.code_hash@
    }

    pub fn equals(&self, other: &Contract) -> (r: bool)
        ensures
            r == self.same(other),
    {
        self.address == other.address && self.code_hash == other.code_hash
    }

    pub fn duplicate(&self) -> (r: Contract)
        ensures
            r == *self,
    {
        Contract { address: self.address.clone(), code_hash: self.code_hash.clone() }
    }
}

/// 10^factor as a 128-bit number.
pub fn get_precision(factor: u8) -> (r: u128)
    requires
        factor <= 38,
    ensures
        r == vstd::arithmetic::power::pow(10, factor as nat),
{
    pow10_u128(factor as u32)
}

/// 10^n for the powers of ten that fit in 128 bits.
pub fn pow10_u128(n: u32) -> (r: u128)
    requires
        n <= 38,
    ensures
        r == vstd::arithmetic::power::pow(10, n as nat),
{
    let mut r: u128 = 1;
    let mut i: u32 = 0;
    proof {
        vstd::arithmetic::power::lemma_pow0(10);
        reveal_with_fuel(vstd::arithmetic::power::pow, 39);
        assert(vstd::arithmetic::power::pow(10, 38) <= u128::MAX);
    }
    while i < n
        invariant
            i <= n <= 38,
            r == vstd::arithmetic::power::pow(10, i as nat),
            vstd::arithmetic::power::pow(10, 38) <= u128::MAX,
        decreases n - i,
    {
        proof {
            vstd::arithmetic::power::lemma_pow_adds(10, i as nat, 1);
            vstd::arithmetic::power::lemma_pow1(10);
            vstd::arithmetic::power::lemma_pow_increases(10, (i + 1) as nat, 38);
        }
        r = r * 10;
        i = i + 1;
    }
    r
}

/// `amount` with `decimals` decimal places scaled to 18 decimal places.
pub open spec fn scale_to_18(amount: nat, decimals: nat) -> nat {
    amount * (vstd::arithmetic::power::pow(10, (18 - decimals) as nat) as nat)
}

/// Scales an amount with `decimals` decimal places to 18 decimal places.
pub fn normalize_price(amount: u128, decimals: u8) -> (r: u128)
    requires
        decimals <= 18,
        scale_to_18(amount as nat, decimals as nat) <= u128::MAX,
    ensures
        r == scale_to_18(amount as nat, decimals as nat),
{
    proof {
        vstd::arithmetic::power::lemma_pow_positive(10, (18 - decimals) as nat);
    }
    let p = pow10_u128(18 - decimals as u32);
    amount * p
}

/// The error that an oracle reports for a key it does not support:
/// "`key` is not supported as a key."
pub fn throw_unsupported_symbol_error(key: String) -> (r: StdError)
    ensures
        r.is_generic(key@ + " is not supported as a key."@),
{
    let msg = key.concat(" is not supported as a key.");
    StdError::GenericErr { msg }
}

/// Fails with "Deprecated oracle." when the oracle is not enabled.
pub fn is_disabled(enabled: bool) -> (r: StdResult<()>)
    ensures
        enabled ==> r is Ok,
        !enabled ==> (r matches Err(e) && e.is_generic("Deprecated oracle."@)),
{
    if !enabled {
        Err(StdError::GenericErr { msg: String::from_str("Deprecated oracle.") })
    } else {
        Ok(())
    }
}

/// The number in a result of a computation on `Uint256`.
pub open spec fn uint_result(r: StdResult<Uint256>) -> Result<nat, StdError> {
    match r {
        Ok(v) => Ok(v@),
        Err(e) => Err(e),
    }
}

/// `t` squared.
pub open spec fn square(t: nat) -> nat {
    t * t
}

/// One Newton step for the square root of `v` from `x`, as the integer
/// operations compute it: `(v / x + x) / 2`.
pub open spec fn newton_step(v: nat, x: nat) -> nat {
    (v / x + x) / 2
}

/// A Newton step never goes below a number whose square is at most `v`.
proof fn lemma_newton_step_above(v: nat, x: nat, t: nat)
    requires
        x >= 1,
        square(t) <= v,
    ensures
        t <= newton_step(v, x),
{
    let q = v / x;
    lemma_fundamental_div_mod(v as int, x as int);
    lemma_mod_bound(v as int, x as int);
    if 2 * t > x {
        let d = 2 * t - x;
        assert(x * d <= t * t) by (nonlinear_arith)
            requires d == 2 * t - x, d > 0;
        if q < d {
            assert(x * q + x <= x * d) by (nonlinear_arith)
                requires q + 1 <= d, x >= 1;
        }
    }
}

/// From above the root, a Newton step goes strictly down.
proof fn lemma_newton_step_descends(v: nat, x: nat)
    requires
        x >= 1,
        square(x) > v,
    ensures
        newton_step(v, x) < x,
{
    let q = v / x;
    lemma_fundamental_div_mod(v as int, x as int);
    lemma_mod_bound(v as int, x as int);
    if q >= x {
        assert(x * q >= x * x) by (nonlinear_arith)
            requires q >= x, x >= 1;
    }
}

/// Integer square root of `value` by Newton's method: the largest number
/// whose square is at most `value`.
pub fn sqrt(value: &Uint256) -> (r: StdResult<Uint256>)
    ensures
        r matches Ok(z) && is_isqrt(z@, value@) && z@ == isqrt_spec(value@),
{
    let ghost v = value@;
    proof {
        value.lemma_bound();
    }
    let three = Uint256::from_u128(3);
    let two = Uint256::from_u128(2);
    let one = Uint256::one();
    let mut z = Uint256::zero();
    if value.gt(&three) {
        z = *value;
        let half = value.checked_div(&two).unwrap();
        let mut x = half.checked_add(&one).unwrap();
        proof {
            let h = v / 2;
            lemma_fundamental_div_mod(v as int, 2);
            assert((h + 1) * (h + 1) > v) by (nonlinear_arith)
                requires h >= 2, v <= 2 * h + 1;
            assert forall|t: nat| #[trigger] square(t) <= v implies t <= x@ && t <= z@ by {
                if t > h {
                    assert(t * t >= (h + 1) * (h + 1)) by (nonlinear_arith)
                        requires t >= h + 1;
                }
                if t > v {
                    assert(t * t > v) by (nonlinear_arith)
                        requires t > v, v >= 1;
                }
            }
            assert(v * v > v) by (nonlinear_arith)
                requires v > 3;
        }
        while x.lt(&z)
            invariant
                v == value@,
                3 < v < u256_limit(),
                two@ == 2,
                2 <= x@ <= v / 2 + 1,
                forall|t: nat| #[trigger] square(t) <= v ==> t <= x@ && t <= z@,
                square(z@) > v ==> x@ < z@,
            decreases z@,
        {
            let ghost xo = x@;
            proof {
                lemma_fundamental_div_mod(v as int, 2);
                lemma_fundamental_div_mod(v as int, xo as int);
                lemma_mod_bound(v as int, xo as int);
                assert(v / xo <= v / 2) by {
                    vstd::arithmetic::div_mod::lemma_div_is_ordered_by_denominator(
                        v as int,
                        2,
                        xo as int,
                    );
                }
                assert(square(2) <= v);
                lemma_newton_step_above(v, xo, 2);
            }
            z = x;
            let q = value.checked_div(&x).unwrap();
            let s = q.checked_add(&x).unwrap();
            x = s.checked_div(&two).unwrap();
            proof {
                assert(x@ == newton_step(v, xo));
                assert forall|t: nat| #[trigger] square(t) <= v implies t <= x@ && t <= z@ by {
                    lemma_newton_step_above(v, xo, t);
                }
                if square(z@) > v {
                    lemma_newton_step_descends(v, xo);
                }
            }
        }
        proof {
            assert(square(z@) <= v);
            if square(z@ + 1) <= v {
                assert(z@ + 1 <= z@);
            }
            lemma_isqrt_spec(z@, v);
        }
    } else if !value.is_zero() {
        z = one;
        proof {
            assert(1 <= v <= 3);
            assert(1 * 1 <= v < 2 * 2);
            lemma_isqrt_spec(1, v);
        }
    } else {
        proof {
            lemma_isqrt_spec(0, v);
        }
    }
    Ok(z)
}

} // verus!
