//! 128-bit identifiers of users, objects, keys and sessions.

use vstd::prelude::*;

verus! {

#[derive(Copy, Clone, Debug, Hash, PartialEq, Eq, Structural)]
pub struct Uuid(u64, u64);

impl View for Uuid {
    type V = (u64, u64);

    closed spec fn view(&self) -> (u64, u64) {
        (self.0, self.1)
    }
}

impl Uuid {
    pub fn new(lo: u64, hi: u64) -> (r: Self)
        ensures
            r@ == (lo, hi),
    {
        Uuid(lo, hi)
    }

    /// Two identifiers are equal exactly when their halves are.
    pub fn same(&self, other: &Uuid) -> (r: bool)
        ensures
            r == (*self == *other),
    {
        self.0 == other.0 && self.1 == other.1
    }

    /// Equality that takes the same time whatever the two values hold, for
    /// comparing secret tokens.
    pub fn ct_eq(&self, other: &Uuid) -> (r: bool)
        ensures
            r == (*self == *other),
    {
        let a0 = self.0;
        let b0 = other.0;
        let a1 = self.1;
        let b1 = other.1;
        let diff: u64 = (a0 ^ b0) | (a1 ^ b1);
        assert(((a0 ^ b0) | (a1 ^ b1)) == 0u64 <==> (a0 == b0 && a1 == b1)) by (bit_vector);
        diff == 0
    }
}

} // verus!
