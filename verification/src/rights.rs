//! Access rights carried by capability references.
//!
//! A right set is a subset of {READ, WRITE, ADD}.  Rights can only be
//! narrowed, never widened: every operation that produces a new capability
//! from an old one keeps or shrinks the right set.

use vstd::prelude::*;

verus! {

/// The permission bit-set attached to a capability: any subset of
/// {READ, WRITE, ADD}.
#[derive(Clone, Copy, PartialEq, Eq, Structural, Debug)]
pub struct AccessRights {
    pub read: bool,
    pub write: bool,
    pub add: bool,
}

impl AccessRights {
    /// The empty right set.
    pub fn none() -> (r: AccessRights)
        ensures
            !r.read && !r.write && !r.add,
    {
        AccessRights { read: false, write: false, add: false }
    }

    /// READ only.
    pub fn read_only() -> (r: AccessRights)
        ensures
            r.read && !r.write && !r.add,
    {
        AccessRights { read: true, write: false, add: false }
    }

    /// WRITE only.
    pub fn write_only() -> (r: AccessRights)
        ensures
            !r.read && r.write && !r.add,
    {
        AccessRights { read: false, write: true, add: false }
    }

    /// ADD only.
    pub fn add_only() -> (r: AccessRights)
        ensures
            !r.read && !r.write && r.add,
    {
        AccessRights { read: false, write: false, add: true }
    }

    /// READ | WRITE.
    pub fn read_write() -> (r: AccessRights)
        ensures
            r.read && r.write && !r.add,
    {
        AccessRights { read: true, write: true, add: false }
    }

    /// READ | ADD.
    pub fn read_add() -> (r: AccessRights)
        ensures
            r.read && !r.write && r.add,
    {
        AccessRights { read: true, write: false, add: true }
    }

    /// ADD | WRITE.
    pub fn add_write() -> (r: AccessRights)
        ensures
            !r.read && r.write && r.add,
    {
        AccessRights { read: false, write: true, add: true }
    }

    /// READ | ADD | WRITE: the full right set, granted to a freshly minted
    /// capability.
    pub fn read_add_write() -> (r: AccessRights)
        ensures
            r.read && r.write && r.add,
    {
        AccessRights { read: true, write: true, add: true }
    }

    /// True when every right in `self` is also in `other`.
    pub open spec fn spec_subset_of(self, other: AccessRights) -> bool {
        (self.read ==> other.read) && (self.write ==> other.write) && (self.add ==> other.add)
    }

    /// Decides whether `self` grants no more than `other`.
    pub fn is_subset_of(&self, other: &AccessRights) -> (r: bool)
        ensures
            r == self.spec_subset_of(*other),
    {
        (!self.read || other.read) && (!self.write || other.write) && (!self.add || other.add)
    }

    /// True when the set permits reading.
    pub fn is_readable(&self) -> (r: bool)
        ensures
            r == self.read,
    {
        self.read
    }

    /// True when the set permits overwriting.
    pub fn is_writeable(&self) -> (r: bool)
        ensures
            r == self.write,
    {
        self.write
    }

    /// True when the set permits commutative accumulation.
    pub fn is_addable(&self) -> (r: bool)
        ensures
            r == self.add,
    {
        self.add
    }

    /// The canonical one-byte form of the set, used by the value codec.
    pub open spec fn spec_to_byte(self) -> u8 {
        ((if self.read { 1int } else { 0int }) + (if self.write { 2int } else { 0int }) + (
        if self.add {
            4int
        } else {
            0int
        })) as u8
    }

    /// Encodes the set as its canonical byte.
    pub fn to_byte(&self) -> (r: u8)
        ensures
            r == self.spec_to_byte(),
            r < 8,
    {
        (if self.read { 1u8 } else { 0u8 }) + (if self.write { 2u8 } else { 0u8 }) + (
        if self.add {
            4u8
        } else {
            0u8
        })
    }

    /// The right set denoted by a canonical byte below 8.
    pub open spec fn spec_from_byte(b: u8) -> AccessRights {
        AccessRights { read: b % 2 == 1, write: (b / 2) % 2 == 1, add: (b / 4) % 2 == 1 }
    }

    /// Decodes a canonical byte back into a right set.
    pub fn from_byte(b: u8) -> (r: AccessRights)
        requires
            b < 8,
        ensures
            r == AccessRights::spec_from_byte(b),
    {
        AccessRights { read: b % 2 == 1, write: (b / 2) % 2 == 1, add: (b / 4) % 2 == 1 }
    }
}

/// The canonical byte round-trips: decoding the encoding of any right set
/// gives the set back, so the byte form is injective.
pub proof fn lemma_rights_byte_round_trip(r: AccessRights)
    ensures
        AccessRights::spec_from_byte(r.spec_to_byte()) == r,
        r.spec_to_byte() < 8,
{
}

/// Narrowing never widens: if `r2` is a subset of `r1`, every operation that
/// `r2` permits is also permitted by `r1`.  Together with the `requires` on
/// `URef::set_access_rights` this shows that a holder of a capability can
/// never manufacture a right it did not already have.
pub proof fn lemma_narrowing_monotone(r1: AccessRights, r2: AccessRights)
    requires
        r2.spec_subset_of(r1),
    ensures
        r2.read ==> r1.read,
        r2.write ==> r1.write,
        r2.add ==> r1.add,
{
}

} // verus!
