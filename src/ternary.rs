use crate::bitvec::BitVector;
use vstd::prelude::*;

verus! {

/// A bit-vector with don't-care bits: a set bit of `mask` leaves that
/// position open, the other positions are fixed to the bits of `value`.
#[derive(Clone, Copy, Debug, PartialEq, Eq, Structural, Hash)]
pub struct TernaryBitVector {
    pub value: u64,
    pub mask: u64,
}

impl TernaryBitVector {
    /// Whether `x` agrees with every fixed bit.
    pub open spec fn contains(self, x: u64) -> bool {
        x & !self.mask == self.value & !self.mask
    }

    pub fn new(value: u64, mask: u64) -> (r: Self)
        ensures
            r.value == value,
            r.mask == mask,
    {
        TernaryBitVector { value, mask }
    }

    /// The value `value` with every bit fixed.
    pub fn constant(value: u64) -> (r: Self)
        ensures
            r.value == value,
            r.mask == 0,
            forall|x: u64| r.contains(x) <==> x == value,
    {
        proof {
            assert forall|x: u64| #![trigger x & !0u64] (x & !0u64 == value & !0u64) <==> x == value by {
                assert(x & !0u64 == x) by (bit_vector);
                assert(value & !0u64 == value) by (bit_vector);
            }
        }
        TernaryBitVector { value, mask: 0 }
    }

    /// Every bit open.
    pub fn unconstrained() -> (r: Self)
        ensures
            r.mask == u64::MAX,
            forall|x: u64| r.contains(x),
    {
        let r = TernaryBitVector { value: 0, mask: u64::MAX };
        proof {
            assert forall|x: u64| #[trigger] r.contains(x) by {
                assert(x & !0xffff_ffff_ffff_ffffu64 == 0u64 & !0xffff_ffff_ffff_ffffu64) by (bit_vector);
            }
        }
        r
    }

    /// Whether the bit-vector `x` agrees with every fixed bit.
    pub fn mcb(&self, x: BitVector) -> (r: bool)
        ensures
            r == self.contains(x.value),
    {
        x.value & !self.mask == self.value & !self.mask
    }

    /// The least value that agrees with the fixed bits: the open bits clear.
    pub fn lowest(&self) -> (r: u64)
        ensures
            self.contains(r),
            forall|x: u64| self.contains(x) ==> r <= x,
    {
        let v = self.value;
        let m = self.mask;
        proof {
            assert((v & !m) & !m == v & !m) by (bit_vector);
            assert forall|x: u64| (x & !m == v & !m) implies v & !m <= x by {
                assert(x & !m <= x) by (bit_vector);
            }
        }
        v & !m
    }

    /// The greatest value that agrees with the fixed bits: the open bits set.
    pub fn highest(&self) -> (r: u64)
        ensures
            self.contains(r),
            forall|x: u64| self.contains(x) ==> x <= r,
    {
        let v = self.value;
        let m = self.mask;
        proof {
            assert((v | m) & !m == v & !m) by (bit_vector);
            assert forall|x: u64| (x & !m == v & !m) implies x <= (v | m) by {
                assert((x & !m == v & !m) ==> x <= (v | m)) by (bit_vector);
            }
        }
        v | m
    }
}

} // verus!
