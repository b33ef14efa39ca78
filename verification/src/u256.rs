//! A 256-bit unsigned integer, stored as two 128-bit limbs, with checked
//! addition and subtraction. Balances in the ledger have this width.

use vstd::prelude::*;

verus! {

/// 2^128, the weight of the high limb.
pub open spec fn limb_base() -> int {
    0x1_0000_0000_0000_0000_0000_0000_0000_0000int
}

/// 2^256 - 1, the largest representable value.
pub open spec fn max_u256() -> int {
    limb_base() * limb_base() - 1
}

/// An unsigned 256-bit integer: `hi * 2^128 + lo`.
#[derive(Clone, Copy, PartialEq, Eq, Structural, Debug)]
pub struct U256 {
    pub hi: u128,
    pub lo: u128,
}

impl U256 {
    /// The mathematical value of this integer.
    pub open spec fn value(self) -> int {
        self.hi * limb_base() + self.lo
    }

    pub fn zero() -> (r: U256)
        ensures
            r.value() == 0,
    {
        U256 { hi: 0, lo: 0 }
    }

    pub fn from_u128(n: u128) -> (r: U256)
        ensures
            r.value() == n,
    {
        U256 { hi: 0, lo: n }
    }

    /// Every value of this type lies within the 256-bit range.
    pub proof fn lemma_value_in_range(self)
        ensures
            0 <= self.value() <= max_u256(),
    {
        assert(self.hi * limb_base() <= (u128::MAX as int) * limb_base()) by (nonlinear_arith)
            requires
                self.hi <= u128::MAX,
        ;
        assert(self.hi * limb_base() >= 0) by (nonlinear_arith)
            requires
                self.hi >= 0,
        ;
    }

    /// The sum, or `None` when it would exceed 2^256 - 1.
    pub fn checked_add(self, other: U256) -> (r: Option<U256>)
        ensures
            r matches Some(v) ==> v.value() == self.value() + other.value(),
            r is Some <==> self.value() + other.value() <= max_u256(),
    {
        proof {
            self.lemma_value_in_range();
            other.lemma_value_in_range();
        }
        let (lo, carry): (u128, u128) = if other.lo <= u128::MAX - self.lo {
            (self.lo + other.lo, 0)
        } else {
            (self.lo - (u128::MAX - other.lo) - 1, 1)
        };
        if other.hi > u128::MAX - self.hi {
            return None;
        }
        let partial: u128 = self.hi + other.hi;
        if carry == 1 {
            if partial == u128::MAX {
                None
            } else {
                Some(U256 { hi: partial + 1, lo })
            }
        } else {
            Some(U256 { hi: partial, lo })
        }
    }

    /// The difference, or `None` when `other` exceeds `self`.
    pub fn checked_sub(self, other: U256) -> (r: Option<U256>)
        ensures
            r matches Some(v) ==> v.value() == self.value() - other.value(),
            r is Some <==> other.value() <= self.value(),
    {
        if self.hi > other.hi || (self.hi == other.hi && self.lo >= other.lo) {
            let (lo, borrow): (u128, u128) = if self.lo >= other.lo {
                (self.lo - other.lo, 0)
            } else {
                (self.lo + (u128::MAX - other.lo) + 1, 1)
            };
            Some(U256 { hi: self.hi - other.hi - borrow, lo })
        } else {
            None
        }
    }
}

} // verus!
