use vstd::prelude::*;

verus! {

/// A 64-bit bit-vector; arithmetic wraps modulo 2^64.
#[derive(Clone, Copy, Debug, PartialEq, Eq, Structural, Hash)]
pub struct BitVector {
    pub value: u64,
}

impl BitVector {
    pub fn new(value: u64) -> (r: Self)
        ensures
            r.value == value,
    {
        BitVector { value }
    }

    pub fn value(&self) -> (r: u64)
        ensures
            r == self.value,
    {
        self.value
    }
}

impl std::ops::Add<BitVector> for BitVector {
    type Output = BitVector;

    fn add(self, other: BitVector) -> (r: BitVector)
        ensures
            r.value == vstd::wrapping::u64_specs::wrapping_add(self.value, other.value),
    {
        BitVector::new(self.value.wrapping_add(other.value))
    }
}

impl vstd::std_specs::ops::AddSpecImpl<BitVector> for BitVector {
    open spec fn obeys_add_spec() -> bool {
        true
    }

    open spec fn add_req(self, rhs: BitVector) -> bool {
        true
    }

    open spec fn add_spec(self, rhs: BitVector) -> BitVector {
        BitVector { value: vstd::wrapping::u64_specs::wrapping_add(self.value, rhs.value) }
    }
}

impl std::ops::Sub<BitVector> for BitVector {
    type Output = BitVector;

    fn sub(self, other: BitVector) -> (r: BitVector)
        ensures
            r.value == vstd::wrapping::u64_specs::wrapping_sub(self.value, other.value),
    {
        BitVector::new(self.value.wrapping_sub(other.value))
    }
}

impl vstd::std_specs::ops::SubSpecImpl<BitVector> for BitVector {
    open spec fn obeys_sub_spec() -> bool {
        true
    }

    open spec fn sub_req(self, rhs: BitVector) -> bool {
        true
    }

    open spec fn sub_spec(self, rhs: BitVector) -> BitVector {
        BitVector { value: vstd::wrapping::u64_specs::wrapping_sub(self.value, rhs.value) }
    }
}

} // verus!
