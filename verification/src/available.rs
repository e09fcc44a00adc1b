//! What a connection currently offers its application.

use vstd::prelude::*;

verus! {

/// A set of at most two flags, `READ` and `WRITE`, kept in the two low bits.
#[derive(Clone, Copy, Debug, PartialEq, Eq, Structural)]
pub struct Available {
    bits: u8,
}

impl Available {
    /// The bit of the `READ` flag.
    pub const READ: u8 = 1;

    /// The bit of the `WRITE` flag.
    pub const WRITE: u8 = 2;

    /// The flags as a pair `(read, write)`.
    pub closed spec fn view(self) -> (bool, bool) {
        (self.bits == 1 || self.bits == 3, self.bits == 2 || self.bits == 3)
    }

    /// The set with the given members.
    pub fn new(read: bool, write: bool) -> (a: Available)
        ensures
            a@ == (read, write),
    {
        let r: u8 = if read { 1 } else { 0 };
        let w: u8 = if write { 2 } else { 0 };
        Available { bits: r + w }
    }

    /// The set without members.
    pub fn empty() -> (a: Available)
        ensures
            a@ == (false, false),
    {
        Available { bits: 0 }
    }

    /// The raw bits: `READ` is 1, `WRITE` is 2.
    pub fn bits(&self) -> (b: u8)
        ensures
            b == (if self@.0 { 1int } else { 0 }) + (if self@.1 { 2int } else { 0 }),
    {
        proof {
            use_type_invariant(self);
        }
        self.bits
    }

    /// Whether reading can make progress.
    pub fn readable(&self) -> (b: bool)
        ensures
            b == self@.0,
    {
        self.bits == 1 || self.bits == 3
    }

    /// Whether writing can make progress.
    pub fn writable(&self) -> (b: bool)
        ensures
            b == self@.1,
    {
        self.bits == 2 || self.bits == 3
    }

    #[verifier::type_invariant]
    spec fn in_range(self) -> bool {
        self.bits <= 3
    }
}

} // verus!
