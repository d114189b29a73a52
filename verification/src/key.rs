//! Addresses, keys and capability references.
//!
//! A `Key` names a slot in the global store.  A `URef` is an unforgeable
//! capability over a URef-addressed slot: a 32-byte address together with an
//! `AccessRights` set.  `TURef<T>` adds a zero-cost static tag saying which
//! value type the slot is expected to hold.

use vstd::prelude::*;
use core::marker::PhantomData;
use crate::rights::AccessRights;
use crate::error::Error;

verus! {

/// A 32-byte address, held as four 64-bit limbs (most significant first).
#[derive(Clone, Copy, PartialEq, Eq, Structural, Debug)]
pub struct Address {
    pub w0: u64,
    pub w1: u64,
    pub w2: u64,
    pub w3: u64,
}

impl Address {
    /// Builds an address from its four limbs.
    pub fn new(w0: u64, w1: u64, w2: u64, w3: u64) -> (r: Address)
        ensures
            r == (Address { w0, w1, w2, w3 }),
    {
        Address { w0, w1, w2, w3 }
    }

    /// The address whose limbs are all zero.
    pub fn zero() -> (r: Address)
        ensures
            r == (Address { w0: 0u64, w1: 0u64, w2: 0u64, w3: 0u64 }),
    {
        Address { w0: 0, w1: 0, w2: 0, w3: 0 }
    }

    /// The `n`-th address of the mint sequence: distinct counters give
    /// distinct addresses, which is what makes host-minted addresses unique.
    pub fn from_counter(n: u64) -> (r: Address)
        ensures
            r == Address::spec_from_counter(n),
    {
        Address { w0: 0, w1: 0, w2: 0, w3: n }
    }

    /// Mathematical form of `from_counter`.
    pub open spec fn spec_from_counter(n: u64) -> Address {
        Address { w0: 0u64, w1: 0u64, w2: 0u64, w3: n }
    }
}

/// An unforgeable capability: an address plus the rights the holder has over
/// the slot it names.
#[derive(Clone, Copy, PartialEq, Eq, Structural, Debug)]
pub struct URef {
    pub addr: Address,
    pub rights: AccessRights,
}

impl URef {
    /// Bundles an address with a right set.
    pub fn new(addr: Address, rights: AccessRights) -> (r: URef)
        ensures
            r == (URef { addr, rights }),
    {
        URef { addr, rights }
    }

    /// The address this capability points at.
    pub fn addr(&self) -> (r: Address)
        ensures
            r == self.addr,
    {
        self.addr
    }

    /// The rights this capability carries.
    pub fn access_rights(&self) -> (r: AccessRights)
        ensures
            r == self.rights,
    {
        self.rights
    }

    /// Narrows the right set in place.  Widening is a logic error, ruled out
    /// by the precondition: the new set must be a subset of the current one.
    pub fn set_access_rights(&mut self, rights: AccessRights)
        requires
            rights.spec_subset_of(old(self).rights),
        ensures
            final(self).addr == old(self).addr,
            final(self).rights == rights,
    {
        self.rights = rights;
    }
}

/// Mathematical form of a `Key`: `Local` carries its byte string as a
/// sequence.
pub enum KeyView {
    Account(Address),
    Hash(Address),
    URef(URef),
    Local { seed: Address, key_bytes: Seq<u8> },
}

/// A slot name in the global keyed namespace.
///
/// `Local` entries form the per-context partition: they are keyed by the
/// minting context's seed plus the canonical byte form of the caller's own
/// key, and can never collide with any other variant.
#[derive(Clone, Debug)]
pub enum Key {
    /// An account record's slot.
    Account(Address),
    /// An immutable, content-addressed slot.
    Hash(Address),
    /// A capability-addressed slot.
    URef(URef),
    /// A context-scoped slot of the local partition.
    Local { seed: Address, key_bytes: Vec<u8> },
}

impl View for Key {
    type V = KeyView;

    open spec fn view(&self) -> KeyView {
        match self {
            Key::Account(a) => KeyView::Account(*a),
            Key::Hash(a) => KeyView::Hash(*a),
            Key::URef(u) => KeyView::URef(*u),
            Key::Local { seed, key_bytes } => KeyView::Local { seed: *seed, key_bytes: key_bytes@ },
        }
    }
}

/// Decides equality of two addresses.
pub fn address_eq(a: &Address, b: &Address) -> (r: bool)
    ensures
        r == (a == b),
{
    a.w0 == b.w0 && a.w1 == b.w1 && a.w2 == b.w2 && a.w3 == b.w3
}

/// Decides equality of two byte strings.
pub fn bytes_eq(a: &Vec<u8>, b: &Vec<u8>) -> (r: bool)
    ensures
        r == (a@ == b@),
{
    if a.len() != b.len() {
        assert(a@.len() != b@.len());
        return false;
    }
    let n = a.len();
    let mut i: usize = 0;
    while i < n
        invariant
            n == a@.len(),
            n == b@.len(),
            i <= n,
            forall|j: int| 0 <= j < i ==> a@[j] == b@[j],
        decreases n - i,
    {
        if a[i] != b[i] {
            return false;
        }
        i = i + 1;
    }
    assert(a@ =~= b@);
    true
}

/// Copies a byte string.
pub fn bytes_dup(v: &Vec<u8>) -> (r: Vec<u8>)
    ensures
        r@ == v@,
{
    let mut out: Vec<u8> = Vec::new();
    let n = v.len();
    let mut i: usize = 0;
    while i < n
        invariant
            n == v@.len(),
            i <= n,
            out@ == v@.subrange(0, i as int),
        decreases n - i,
    {
        out.push(v[i]);
        assert(out@ =~= v@.subrange(0, i + 1 as int));
        i = i + 1;
    }
    assert(out@ =~= v@);
    out
}

/// Copies a key.
pub fn key_dup(k: &Key) -> (r: Key)
    ensures
        r@ == k@,
{
    match k {
        Key::Account(a) => Key::Account(*a),
        Key::Hash(a) => Key::Hash(*a),
        Key::URef(u) => Key::URef(*u),
        Key::Local { seed, key_bytes } => Key::Local { seed: *seed, key_bytes: bytes_dup(key_bytes) },
    }
}

/// Decides equality of two keys, in the sense of their views.
pub fn key_eq(a: &Key, b: &Key) -> (r: bool)
    ensures
        r == (a@ == b@),
{
    match (a, b) {
        (Key::Account(x), Key::Account(y)) => address_eq(x, y),
        (Key::Hash(x), Key::Hash(y)) => address_eq(x, y),
        (Key::URef(x), Key::URef(y)) => x == y,
        (
            Key::Local { seed: sa, key_bytes: ka },
            Key::Local { seed: sb, key_bytes: kb },
        ) => address_eq(sa, sb) && bytes_eq(ka, kb),
        _ => false,
    }
}

/// The slot a key names: two URef keys over one address name one slot,
/// whatever rights their capabilities carry, so the stored form of a URef
/// key drops the rights.
pub open spec fn spec_normalize(k: KeyView) -> KeyView {
    match k {
        KeyView::URef(u) => KeyView::URef(
            URef { addr: u.addr, rights: AccessRights { read: false, write: false, add: false } },
        ),
        _ => k,
    }
}

/// Normalizes a key to the form that names its slot in the store.
pub fn normalize(k: &Key) -> (r: Key)
    ensures
        r@ == spec_normalize(k@),
{
    match k {
        Key::URef(u) => Key::URef(URef { addr: u.addr, rights: AccessRights::none() }),
        _ => key_dup(k),
    }
}

/// A capability statically tagged with the value type the slot is expected
/// to hold; a zero-runtime-cost layer over `URef`.
#[derive(Debug)]
pub struct TURef<T> {
    pub addr: Address,
    pub rights: AccessRights,
    pub marker: PhantomData<T>,
}

impl<T> TURef<T> {
    /// Constructs a typed capability from an address and a right set.
    pub fn new(addr: Address, rights: AccessRights) -> (r: TURef<T>)
        ensures
            r.addr == addr,
            r.rights == rights,
    {
        TURef { addr, rights, marker: PhantomData }
    }

    /// Tags an untyped capability with the expected value type.
    pub fn from_uref(uref: URef) -> (r: TURef<T>)
        ensures
            r.addr == uref.addr,
            r.rights == uref.rights,
    {
        TURef { addr: uref.addr, rights: uref.rights, marker: PhantomData }
    }

    /// Recovers a typed capability from a key.  Fails with
    /// `UnexpectedKeyVariant` unless the key is the `URef` variant.
    pub fn from_key(key: &Key) -> (r: Result<TURef<T>, Error>)
        ensures
            match r {
                Ok(t) => key@ matches KeyView::URef(u) && t.addr == u.addr && t.rights == u.rights,
                Err(e) => e == Error::UnexpectedKeyVariant && !(key@ matches KeyView::URef(_)),
            },
    {
        match key {
            Key::URef(u) => Ok(TURef { addr: u.addr, rights: u.rights, marker: PhantomData }),
            _ => Err(Error::UnexpectedKeyVariant),
        }
    }

    /// The address this capability points at.
    pub fn addr(&self) -> (r: Address)
        ensures
            r == self.addr,
    {
        self.addr
    }

    /// The rights this capability carries.
    pub fn access_rights(&self) -> (r: AccessRights)
        ensures
            r == self.rights,
    {
        self.rights
    }

    /// Narrows the right set in place; widening is ruled out by the
    /// precondition, so no holder can ever gain a right.
    pub fn set_access_rights(&mut self, rights: AccessRights)
        requires
            rights.spec_subset_of(old(self).rights),
        ensures
            final(self).addr == old(self).addr,
            final(self).rights == rights,
    {
        self.rights = rights;
    }

    /// Drops the static tag.
    pub fn to_uref(&self) -> (r: URef)
        ensures
            r.addr == self.addr,
            r.rights == self.rights,
    {
        URef { addr: self.addr, rights: self.rights }
    }

    /// The key this capability resolves to.
    pub fn to_key(&self) -> (r: Key)
        ensures
            r@ == KeyView::URef(URef { addr: self.addr, rights: self.rights }),
    {
        Key::URef(URef { addr: self.addr, rights: self.rights })
    }

    /// The view-level key of this capability.
    pub open spec fn spec_key(&self) -> KeyView {
        KeyView::URef(URef { addr: self.addr, rights: self.rights })
    }

    /// The normalized key of the slot this capability points at: the slot is
    /// named by the address alone, never by the rights.
    pub open spec fn spec_slot_key(&self) -> KeyView {
        KeyView::URef(
            URef {
                addr: self.addr,
                rights: AccessRights { read: false, write: false, add: false },
            },
        )
    }

    /// The key under which the slot of this capability is stored.
    pub fn slot_key(&self) -> (r: Key)
        ensures
            r@ == self.spec_slot_key(),
    {
        Key::URef(URef { addr: self.addr, rights: AccessRights::none() })
    }
}

} // verus!
