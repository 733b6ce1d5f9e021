//! An amount of NEAR tokens, counted in yoctoNEAR (10^-24 NEAR), with checked and
//! saturating arithmetic, a strict parser for amounts written with a unit, and
//! renderings back to text.
use vstd::prelude::*;

pub mod decimal;
pub mod display;
mod error;
pub mod parse;
pub mod text;

pub use crate::decimal::parse_decimal_number;
pub use crate::error::{DecimalNumberParsingError, NearTokenError};

verus! {

/// An amount of NEAR, held as a count of yoctoNEAR.
#[derive(Default, Debug, Clone, Copy, PartialEq, Eq, Structural, PartialOrd, Ord, Hash)]
pub struct NearToken {
    inner: u128,
}

impl View for NearToken {
    type V = nat;

    /// The number of yoctoNEAR in the amount.
    closed spec fn view(&self) -> nat {
        self.inner as nat
    }
}

/// Two amounts are equal exactly when they hold the same number of yoctoNEAR, so a
/// contract that gives the view of a result gives the result.
pub proof fn lemma_view_injective(a: NearToken, b: NearToken)
    ensures
        a@ == b@ <==> a == b,
{
}

/// One NEAR, in yoctoNEAR.
pub const ONE_NEAR: u128 = 1_000_000_000_000_000_000_000_000;

/// One milliNEAR, in yoctoNEAR.
pub const ONE_MILLINEAR: u128 = 1_000_000_000_000_000_000_000;

/// One microNEAR, in yoctoNEAR.
pub const ONE_MICRONEAR: u128 = 1_000_000_000_000_000_000;

impl NearToken {
    /// The largest amount that can be held.
    pub fn max_value() -> (r: NearToken)
        ensures
            r@ == u128::MAX,
    {
        NearToken { inner: u128::MAX }
    }

    /// The amount of nothing.
    pub fn zero() -> (r: NearToken)
        ensures
            r@ == 0,
    {
        NearToken { inner: 0 }
    }

    /// The amount of `inner` yoctoNEAR.
    pub fn from_yoctonear(inner: u128) -> (r: NearToken)
        ensures
            r@ == inner,
    {
        NearToken { inner }
    }

    /// The amount of `inner` microNEAR.
    pub fn from_micronear(inner: u128) -> (r: NearToken)
        requires
            inner * ONE_MICRONEAR <= u128::MAX,
        ensures
            r@ == inner * ONE_MICRONEAR,
    {
        NearToken { inner: inner * ONE_MICRONEAR }
    }

    /// The amount of `inner` milliNEAR.
    pub fn from_millinear(inner: u128) -> (r: NearToken)
        requires
            inner * ONE_MILLINEAR <= u128::MAX,
        ensures
            r@ == inner * ONE_MILLINEAR,
    {
        NearToken { inner: inner * ONE_MILLINEAR }
    }

    /// The amount of `inner` NEAR.
    pub fn from_near(inner: u128) -> (r: NearToken)
        requires
            inner * ONE_NEAR <= u128::MAX,
        ensures
            r@ == inner * ONE_NEAR,
    {
        NearToken { inner: inner * ONE_NEAR }
    }

    /// The number of whole NEAR in the amount, rounded down.
    pub fn as_near(&self) -> (r: u128)
        ensures
            r == self@ / ONE_NEAR as nat,
    {
        self.inner / ONE_NEAR
    }

    /// The number of whole milliNEAR in the amount, rounded down.
    pub fn as_millinear(&self) -> (r: u128)
        ensures
            r == self@ / ONE_MILLINEAR as nat,
    {
        self.inner / ONE_MILLINEAR
    }

    /// The number of yoctoNEAR in the amount.
    pub fn as_yoctonear(&self) -> (r: u128)
        ensures
            r == self@,
    {
        self.inner
    }

    /// Whether the amount is nothing.
    pub fn is_zero(&self) -> (r: bool)
        ensures
            r == (self@ == 0),
    {
        self.inner == 0
    }

    /// The sum of two amounts, or `None` where it does not fit in 128 bits.
    pub fn checked_add(self, rhs: NearToken) -> (r: Option<NearToken>)
        ensures
            self@ + rhs@ <= u128::MAX ==> (r matches Some(t) && t@ == self@ + rhs@),
            self@ + rhs@ > u128::MAX ==> r is None,
    {
        match self.inner.checked_add(rhs.inner) {
            Some(v) => Some(NearToken { inner: v }),
            None => None,
        }
    }

    /// The difference of two amounts, or `None` where `rhs` is the larger.
    pub fn checked_sub(self, rhs: NearToken) -> (r: Option<NearToken>)
        ensures
            rhs@ <= self@ ==> (r matches Some(t) && t@ == self@ - rhs@),
            rhs@ > self@ ==> r is None,
    {
        match self.inner.checked_sub(rhs.inner) {
            Some(v) => Some(NearToken { inner: v }),
            None => None,
        }
    }

    /// The amount taken `rhs` times, or `None` where that does not fit in 128 bits.
    pub fn checked_mul(self, rhs: u128) -> (r: Option<NearToken>)
        ensures
            self@ * rhs <= u128::MAX ==> (r matches Some(t) && t@ == self@ * rhs),
            self@ * rhs > u128::MAX ==> r is None,
    {
        match self.inner.checked_mul(rhs) {
            Some(v) => Some(NearToken { inner: v }),
            None => None,
        }
    }

    /// The amount divided by `rhs`, rounded down, or `None` where `rhs` is zero.
    pub fn checked_div(self, rhs: u128) -> (r: Option<NearToken>)
        ensures
            rhs != 0 ==> (r matches Some(t) && t@ == self@ / rhs as nat),
            rhs == 0 ==> r is None,
    {
        if rhs == 0 {
            None
        } else {
            Some(NearToken { inner: self.inner / rhs })
        }
    }

    /// The sum of two amounts, or the largest amount where it does not fit.
    pub fn saturating_add(self, rhs: NearToken) -> (r: NearToken)
        ensures
            self@ + rhs@ <= u128::MAX ==> r@ == self@ + rhs@,
            self@ + rhs@ > u128::MAX ==> r@ == u128::MAX,
    {
        NearToken { inner: self.inner.saturating_add(rhs.inner) }
    }

    /// The difference of two amounts, or nothing where `rhs` is the larger.
    pub fn saturating_sub(self, rhs: NearToken) -> (r: NearToken)
        ensures
            rhs@ <= self@ ==> r@ == self@ - rhs@,
            rhs@ > self@ ==> r@ == 0,
    {
        NearToken { inner: self.inner.saturating_sub(rhs.inner) }
    }

    /// The amount taken `rhs` times, or the largest amount where that does not fit.
    pub fn saturating_mul(self, rhs: u128) -> (r: NearToken)
        ensures
            self@ * rhs <= u128::MAX ==> r@ == self@ * rhs,
            self@ * rhs > u128::MAX ==> r@ == u128::MAX,
    {
        match self.inner.checked_mul(rhs) {
            Some(v) => NearToken { inner: v },
            None => NearToken { inner: u128::MAX },
        }
    }

    /// The amount divided by `rhs`, rounded down; nothing where `rhs` is zero.
    pub fn saturating_div(self, rhs: u128) -> (r: NearToken)
        ensures
            rhs != 0 ==> r@ == self@ / rhs as nat,
            rhs == 0 ==> r@ == 0,
    {
        if rhs == 0 {
            return NearToken { inner: 0 };
        }
        NearToken { inner: self.inner / rhs }
    }
}

} // verus!
