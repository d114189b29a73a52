//! The storage surface guest code calls.
//!
//! An `Execution` is one guest run: it reads a fixed snapshot of the global
//! store, buffers every mutation as a transform in its effect accumulator,
//! and mints fresh addresses on behalf of the host.  Nothing here touches
//! the durable store: reads always go to the snapshot, never to the
//! accumulator, and the accumulated effect map becomes durable only through
//! `GlobalState::commit`.  Dropping an `Execution` discards its effects —
//! the clean exit path of an aborted run.

use vstd::prelude::*;
use crate::key::{Key, KeyView, Address, TURef};
use crate::rights::AccessRights;
use crate::value::{Value, ValueView, Storable, Contract, NamedKey};
use crate::transform::{Transform, TransformView, FailureReason};
use crate::effects::EffectMap;
use crate::state::{GlobalState, Snapshot};
use crate::error::Error;

verus! {

/// One guest execution's storage context.
#[derive(Debug)]
pub struct Execution {
    /// The immutable snapshot this execution reads, fixed for its lifetime.
    pub base: Snapshot,
    /// The root the snapshot came from; commits of this execution's effects
    /// are made against it.
    pub base_root: Address,
    /// The seed of this context's local partition.
    pub context_seed: Address,
    /// The deferred mutations generated so far.
    pub effects: EffectMap,
    /// The host's address counter: the next fresh address to mint.
    pub next_mint: u64,
}

impl Execution {
    /// Internal consistency: the snapshot and the accumulator keep their
    /// key-uniqueness.
    pub open spec fn wf(self) -> bool {
        self.base.wf() && self.effects.wf()
    }

    /// Opens an execution against the snapshot `root` names.  `context_seed`
    /// scopes the local partition; `mint_start` is the host's guarantee of
    /// address freshness — the host never hands out a starting counter whose
    /// addresses were issued before.
    pub fn begin(
        state: &GlobalState,
        root: &Address,
        context_seed: Address,
        mint_start: u64,
    ) -> (r: Result<Execution, Error>)
        requires
            state.wf(),
        ensures
            match r {
                Ok(e) => {
                    &&& state.spec_has_root(*root)
                    &&& e.wf()
                    &&& e.base.view_entries() == state.view_roots()[root.w3 as int]
                    &&& e.base_root == root
                    &&& e.context_seed == context_seed
                    &&& e.next_mint == mint_start
                    &&& forall|k: KeyView| e.effects.spec_get(k) is None
                },
                Err(e) => e == Error::RootNotFound && !state.spec_has_root(*root),
            },
    {
        match state.snapshot_at(root) {
            Ok(base) => Ok(
                Execution {
                    base,
                    base_root: *root,
                    context_seed,
                    effects: EffectMap::new(),
                    next_mint: mint_start,
                },
            ),
            Err(e) => Err(e),
        }
    }

    /// Hands the accumulated effect map to the caller, ending the
    /// execution; the effect set is the only way this run's work becomes
    /// observable.
    pub fn into_effects(self) -> (r: EffectMap)
        ensures
            r == self.effects,
    {
        self.effects
    }

    /// The local-partition key for a caller-chosen byte string: scoped by
    /// this context's seed, disjoint from every non-local key.
    pub open spec fn spec_local_key(self, key_bytes: Seq<u8>) -> KeyView {
        KeyView::Local { seed: self.context_seed, key_bytes }
    }
}

/// What a typed read returns, as a function of the fixed snapshot and the
/// capability alone: a missing READ right is refused, an absent slot is
/// `None`, a present value of the wrong shape is a conversion error, and a
/// present value of the right shape is returned whole.
pub open spec fn spec_read_view<T: Storable>(base: Snapshot, turef: TURef<T>) -> Result<
    Option<ValueView>,
    Error,
> {
    if !turef.rights.read {
        Err(Error::InvalidAccess)
    } else {
        match base.spec_get(turef.spec_slot_key()) {
            None => Ok(None),
            Some(v) => if T::value_matches(v) {
                Ok(Some(v))
            } else {
                Err(Error::ValueConversion)
            },
        }
    }
}

/// Read the value under the capability's slot in the execution's snapshot.
pub fn read<T: Storable>(exec: &Execution, turef: &TURef<T>) -> (r: Result<Option<T>, Error>)
    ensures
        match r {
            Ok(None) => spec_read_view(exec.base, *turef) == Ok::<Option<ValueView>, Error>(None),
            Ok(Some(t)) => spec_read_view(exec.base, *turef) == Ok::<Option<ValueView>, Error>(
                Some(t.spec_to_value()),
            ),
            Err(e) => spec_read_view(exec.base, *turef) == Err::<Option<ValueView>, Error>(e),
        },
{
    if !turef.access_rights().is_readable() {
        return Err(Error::InvalidAccess);
    }
    let slot = turef.slot_key();
    match exec.base.get(&slot) {
        None => Ok(None),
        Some(v) => match T::of_value(crate::value::value_dup(v)) {
            Ok(t) => Ok(Some(t)),
            Err(e) => Err(e),
        },
    }
}

/// What a local read returns, as a function of the snapshot, the context
/// seed and the byte key alone.
pub open spec fn spec_read_local_view<T: Storable>(
    base: Snapshot,
    local_key: KeyView,
) -> Result<Option<ValueView>, Error> {
    match base.spec_get(local_key) {
        None => Ok(None),
        Some(v) => if T::value_matches(v) {
            Ok(Some(v))
        } else {
            Err(Error::ValueConversion)
        },
    }
}

/// Reads the value at the given byte key in the context-local partition of
/// the execution's snapshot.
pub fn read_local<T: Storable>(exec: &Execution, key_bytes: &Vec<u8>) -> (r: Result<
    Option<T>,
    Error,
>)
    ensures
        match r {
            Ok(None) => spec_read_local_view::<T>(exec.base, exec.spec_local_key(key_bytes@))
                == Ok::<Option<ValueView>, Error>(None),
            Ok(Some(t)) => spec_read_local_view::<T>(exec.base, exec.spec_local_key(key_bytes@))
                == Ok::<Option<ValueView>, Error>(Some(t.spec_to_value())),
            Err(e) => spec_read_local_view::<T>(exec.base, exec.spec_local_key(key_bytes@))
                == Err::<Option<ValueView>, Error>(e),
        },
{
    let local = Key::Local {
        seed: exec.context_seed,
        key_bytes: crate::key::bytes_dup(key_bytes),
    };
    match exec.base.get(&local) {
        None => Ok(None),
        Some(v) => match T::of_value(crate::value::value_dup(v)) {
            Ok(t) => Ok(Some(t)),
            Err(e) => Err(e),
        },
    }
}

/// The net transform a key holds after one more transform lands on it.
pub open spec fn spec_after(prior: Option<TransformView>, t: TransformView) -> TransformView {
    match prior {
        Some(p) => crate::transform::spec_merge(p, t),
        None => t,
    }
}

/// Everything of an execution but its effect accumulator: the snapshot, the
/// root, the seed and the mint counter.
pub open spec fn spec_same_but_effects(e1: Execution, e2: Execution) -> bool {
    e1.base == e2.base && e1.base_root == e2.base_root && e1.context_seed == e2.context_seed
        && e1.next_mint == e2.next_mint
}

/// Write the value under the capability's slot: buffers a `Write` transform
/// against the resolved slot, overwriting any prior pending transform of
/// that slot by the merge algebra.  Fails with `InvalidAccess`, buffering
/// nothing, when the capability lacks WRITE.
pub fn write<T: Storable>(exec: &mut Execution, turef: &TURef<T>, t: T) -> (r: Result<(), Error>)
    requires
        old(exec).wf(),
    ensures
        final(exec).wf(),
        final(exec).base == old(exec).base,
        match r {
            Ok(()) => {
                &&& turef.rights.write
                &&& spec_same_but_effects(*final(exec), *old(exec))
                &&& final(exec).effects.spec_get(turef.spec_slot_key()) == Some(
                    spec_after(
                        old(exec).effects.spec_get(turef.spec_slot_key()),
                        TransformView::Write(t.spec_to_value()),
                    ),
                )
                &&& forall|k2: KeyView|
                    k2 != turef.spec_slot_key() ==> final(exec).effects.spec_get(k2) == old(
                        exec,
                    ).effects.spec_get(k2)
            },
            Err(e) => e == Error::InvalidAccess && !turef.rights.write && *final(exec) == *old(
                exec,
            ),
        },
{
    if !turef.access_rights().is_writeable() {
        return Err(Error::InvalidAccess);
    }
    let slot = turef.slot_key();
    exec.effects.insert_merge(&slot, Transform::Write(t.to_value()));
    Ok(())
}

/// Writes the value at the given byte key in the context-local partition:
/// buffers a `Write` transform against the local key.  The local partition
/// is scoped to the context seed, so no capability check applies.
pub fn write_local<T: Storable>(exec: &mut Execution, key_bytes: &Vec<u8>, t: T)
    requires
        old(exec).wf(),
    ensures
        final(exec).wf(),
        spec_same_but_effects(*final(exec), *old(exec)),
        final(exec).effects.spec_get(old(exec).spec_local_key(key_bytes@)) == Some(
            spec_after(
                old(exec).effects.spec_get(old(exec).spec_local_key(key_bytes@)),
                TransformView::Write(t.spec_to_value()),
            ),
        ),
        forall|k2: KeyView|
            k2 != old(exec).spec_local_key(key_bytes@) ==> final(exec).effects.spec_get(k2) == old(
                exec,
            ).effects.spec_get(k2),
{
    let local = Key::Local {
        seed: exec.context_seed,
        key_bytes: crate::key::bytes_dup(key_bytes),
    };
    exec.effects.insert_merge(&local, Transform::Write(t.to_value()));
}

/// The add transform a value resolves to: a numeric value of a family with
/// a commutative merge becomes that family's delta; any other value becomes
/// a recorded failure, surfaced at commit time rather than dropped.
pub open spec fn spec_add_transform(v: ValueView) -> TransformView {
    match v {
        ValueView::Int32(x) => TransformView::AddInt32(x),
        ValueView::UInt64(x) => TransformView::AddUInt64(x),
        _ => TransformView::Failure(FailureReason::TypeMismatch),
    }
}

/// Converts a value into the transform that `add` buffers for it.
fn value_to_add_transform(v: Value) -> (r: Transform)
    ensures
        r@ == spec_add_transform(v@),
{
    match v {
        Value::Int32(x) => Transform::AddInt32(x),
        Value::UInt64(x) => Transform::AddUInt64(x),
        _ => Transform::Failure(FailureReason::TypeMismatch),
    }
}

/// Add the value to the one under the capability's slot: buffers a
/// commutative add transform, merged into the slot's pending transform.
/// Fails with `InvalidAccess`, buffering nothing, when the capability lacks
/// ADD; a value outside the numeric families buffers a failure that the
/// commit step reports rather than drops.
pub fn add<T: Storable>(exec: &mut Execution, turef: &TURef<T>, t: T) -> (r: Result<(), Error>)
    requires
        old(exec).wf(),
    ensures
        final(exec).wf(),
        final(exec).base == old(exec).base,
        match r {
            Ok(()) => {
                &&& turef.rights.add
                &&& spec_same_but_effects(*final(exec), *old(exec))
                &&& final(exec).effects.spec_get(turef.spec_slot_key()) == Some(
                    spec_after(
                        old(exec).effects.spec_get(turef.spec_slot_key()),
                        spec_add_transform(t.spec_to_value()),
                    ),
                )
                &&& forall|k2: KeyView|
                    k2 != turef.spec_slot_key() ==> final(exec).effects.spec_get(k2) == old(
                        exec,
                    ).effects.spec_get(k2)
            },
            Err(e) => e == Error::InvalidAccess && !turef.rights.add && *final(exec) == *old(exec),
        },
{
    if !turef.access_rights().is_addable() {
        return Err(Error::InvalidAccess);
    }
    let slot = turef.slot_key();
    exec.effects.insert_merge(&slot, value_to_add_transform(t.to_value()));
    Ok(())
}

/// Returns a new unforgeable capability over a freshly minted address,
/// seeded with `init` by an immediate buffered `Write`, carrying the full
/// READ, ADD and WRITE right set.  The address is the next of the host's
/// counter sequence, so two mints never coincide.
pub fn new_turef<T: Storable>(exec: &mut Execution, init: T) -> (r: TURef<T>)
    requires
        old(exec).wf(),
        old(exec).next_mint < u64::MAX,
    ensures
        final(exec).wf(),
        final(exec).base == old(exec).base,
        final(exec).base_root == old(exec).base_root,
        final(exec).context_seed == old(exec).context_seed,
        final(exec).next_mint == old(exec).next_mint + 1,
        r.addr == Address::spec_from_counter(old(exec).next_mint),
        r.rights == (AccessRights { read: true, write: true, add: true }),
        final(exec).effects.spec_get(r.spec_slot_key()) == Some(
            spec_after(
                old(exec).effects.spec_get(r.spec_slot_key()),
                TransformView::Write(init.spec_to_value()),
            ),
        ),
        forall|k2: KeyView|
            k2 != r.spec_slot_key() ==> final(exec).effects.spec_get(k2) == old(
                exec,
            ).effects.spec_get(k2),
{
    let addr = Address::from_counter(exec.next_mint);
    exec.next_mint = exec.next_mint + 1;
    let turef: TURef<T> = TURef::new(addr, AccessRights::read_add_write());
    let slot = turef.slot_key();
    exec.effects.insert_merge(&slot, Transform::Write(init.to_value()));
    turef
}

/// A reference to a stored contract record: a capability over a mutable
/// slot, or the address of an immutable hash slot.
#[derive(Debug)]
pub enum ContractRef {
    TURef(TURef<Contract>),
    Hash(Address),
}

impl ContractRef {
    /// The key the referenced contract record is stored under.
    pub open spec fn spec_key(self) -> KeyView {
        match self {
            ContractRef::TURef(t) => t.spec_slot_key(),
            ContractRef::Hash(a) => KeyView::Hash(a),
        }
    }

    /// Resolves the reference to its store key.
    pub fn to_key(&self) -> (r: Key)
        ensures
            r@ == self.spec_key(),
    {
        match self {
            ContractRef::TURef(t) => t.slot_key(),
            ContractRef::Hash(a) => Key::Hash(*a),
        }
    }
}

/// The contract record that storing an entry point persists: the entry
/// point's name and a snapshot of the capability bindings handed to it.
pub open spec fn spec_stored_contract(name: Seq<u8>, named_keys: Seq<
    crate::value::NamedKeyView,
>) -> ValueView {
    ValueView::Contract(crate::value::ContractView { body: name, named_keys })
}

/// Stores a named entry point together with a snapshot of capability
/// bindings as a contract record under a freshly minted URef (a mutable
/// slot), and returns the capability over it.
pub fn store_function(exec: &mut Execution, name: &Vec<u8>, named_keys: Vec<NamedKey>) -> (r:
    ContractRef)
    requires
        old(exec).wf(),
        old(exec).next_mint < u64::MAX,
    ensures
        final(exec).wf(),
        final(exec).base == old(exec).base,
        final(exec).base_root == old(exec).base_root,
        final(exec).context_seed == old(exec).context_seed,
        final(exec).next_mint == old(exec).next_mint + 1,
        r matches ContractRef::TURef(t) && t.addr == Address::spec_from_counter(
            old(exec).next_mint,
        ) && t.rights == (AccessRights { read: true, write: true, add: true }),
        final(exec).effects.spec_get(r.spec_key()) == Some(
            spec_after(
                old(exec).effects.spec_get(r.spec_key()),
                TransformView::Write(
                    spec_stored_contract(
                        name@,
                        named_keys@.map_values(|nk: NamedKey| nk@),
                    ),
                ),
            ),
        ),
        forall|k2: KeyView|
            k2 != r.spec_key() ==> final(exec).effects.spec_get(k2) == old(exec).effects.spec_get(
                k2,
            ),
{
    let record = Contract { body: crate::key::bytes_dup(name), named_keys };
    let turef: TURef<Contract> = new_turef(exec, record);
    ContractRef::TURef(turef)
}

/// Stores a named entry point together with a snapshot of capability
/// bindings as a contract record under a host-generated immutable hash
/// slot, and returns its address.
pub fn store_function_at_hash(exec: &mut Execution, name: &Vec<u8>, named_keys: Vec<NamedKey>) -> (
    r: ContractRef)
    requires
        old(exec).wf(),
        old(exec).next_mint < u64::MAX,
    ensures
        final(exec).wf(),
        final(exec).base == old(exec).base,
        final(exec).base_root == old(exec).base_root,
        final(exec).context_seed == old(exec).context_seed,
        final(exec).next_mint == old(exec).next_mint + 1,
        r matches ContractRef::Hash(a) && a == Address::spec_from_counter(old(exec).next_mint),
        final(exec).effects.spec_get(r.spec_key()) == Some(
            spec_after(
                old(exec).effects.spec_get(r.spec_key()),
                TransformView::Write(
                    spec_stored_contract(
                        name@,
                        named_keys@.map_values(|nk: NamedKey| nk@),
                    ),
                ),
            ),
        ),
        forall|k2: KeyView|
            k2 != r.spec_key() ==> final(exec).effects.spec_get(k2) == old(exec).effects.spec_get(
                k2,
            ),
{
    let addr = Address::from_counter(exec.next_mint);
    exec.next_mint = exec.next_mint + 1;
    let record = Contract { body: crate::key::bytes_dup(name), named_keys };
    let hash_key = Key::Hash(addr);
    exec.effects.insert_merge(&hash_key, Transform::Write(record.to_value()));
    ContractRef::Hash(addr)
}

/// Idempotence of reads: what a typed read returns is a function of the
/// fixed base snapshot and the capability alone, so two reads of one
/// capability in one execution agree, whatever uncommitted writes stand in
/// the accumulator between them.
pub proof fn lemma_read_idempotent<T: Storable>(e1: Execution, e2: Execution, turef: TURef<T>)
    requires
        e1.base.view_entries() == e2.base.view_entries(),
    ensures
        spec_read_view::<T>(e1.base, turef) == spec_read_view::<T>(e2.base, turef),
{
    assert(e1.base.spec_get(turef.spec_slot_key()) == e2.base.spec_get(turef.spec_slot_key()));
}

/// Mint freshness: two distinct mints of one execution never return the
/// same address — the counter moves strictly up, and distinct counters give
/// distinct addresses.
pub proof fn lemma_mint_addresses_distinct(c1: u64, c2: u64)
    requires
        c1 != c2,
    ensures
        Address::spec_from_counter(c1) != Address::spec_from_counter(c2),
{
}

/// Partition disjointness: a local-partition key never names the slot of
/// any capability, account or hash key, whatever its seed and bytes.
pub proof fn lemma_local_keys_disjoint(seed: Address, key_bytes: Seq<u8>, k: KeyView)
    requires
        !(k is Local),
    ensures
        (KeyView::Local { seed, key_bytes }) != k,
{
}

} // verus!
