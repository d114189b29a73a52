//! Storable values: the closed set of payload kinds the store can hold.

use vstd::prelude::*;
use crate::key::{Key, KeyView, Address};
use crate::error::Error;

verus! {

/// Mathematical form of one named capability binding.
pub struct NamedKeyView {
    pub name: Seq<u8>,
    pub key: KeyView,
}

/// One named capability binding of an account or contract record.
#[derive(Debug)]
pub struct NamedKey {
    /// UTF-8 bytes of the binding's name.
    pub name: Vec<u8>,
    /// The key the name is bound to.
    pub key: Key,
}

impl View for NamedKey {
    type V = NamedKeyView;

    open spec fn view(&self) -> NamedKeyView {
        NamedKeyView { name: self.name@, key: self.key@ }
    }
}

/// Mathematical form of an account record.
pub struct AccountView {
    pub address: Address,
    pub named_keys: Seq<NamedKeyView>,
}

/// An account record: an address plus its capability bindings.
#[derive(Debug)]
pub struct Account {
    pub address: Address,
    pub named_keys: Vec<NamedKey>,
}

impl View for Account {
    type V = AccountView;

    open spec fn view(&self) -> AccountView {
        AccountView { address: self.address, named_keys: self.named_keys@.map_values(|nk: NamedKey| nk@) }
    }
}

/// Mathematical form of a contract record.
pub struct ContractView {
    pub body: Seq<u8>,
    pub named_keys: Seq<NamedKeyView>,
}

/// A contract record: the stored byte code of a named bundle of entry points
/// together with a snapshot of its capability bindings.
#[derive(Debug)]
pub struct Contract {
    pub body: Vec<u8>,
    pub named_keys: Vec<NamedKey>,
}

impl View for Contract {
    type V = ContractView;

    open spec fn view(&self) -> ContractView {
        ContractView { body: self.body@, named_keys: self.named_keys@.map_values(|nk: NamedKey| nk@) }
    }
}

/// Mathematical form of a cross-boundary typed value.
pub struct ClValueView {
    pub type_tag: Seq<u8>,
    pub bytes: Seq<u8>,
}

/// A typed value crossing the guest boundary: the canonical byte form of
/// the cross-boundary type it claims, and the serialized value itself.
#[derive(Debug)]
pub struct ClValue {
    pub type_tag: Vec<u8>,
    pub bytes: Vec<u8>,
}

impl View for ClValue {
    type V = ClValueView;

    open spec fn view(&self) -> ClValueView {
        ClValueView { type_tag: self.type_tag@, bytes: self.bytes@ }
    }
}

/// Mathematical form of a storable value.
pub enum ValueView {
    Int32(i32),
    UInt64(u64),
    ByteArray(Seq<u8>),
    Unit,
    Account(AccountView),
    Contract(ContractView),
    ClValue(ClValueView),
}

/// The closed set of storable payload kinds.
///
/// Every value round-trips exactly through the canonical codec in `codec`;
/// no two distinct values share an encoding.
#[derive(Debug)]
pub enum Value {
    /// A 32-bit signed scalar; the first family with a commutative add.
    Int32(i32),
    /// A 64-bit unsigned scalar; the second family with a commutative add.
    UInt64(u64),
    /// An opaque byte string.
    ByteArray(Vec<u8>),
    /// The unit value.
    Unit,
    /// An account record.
    Account(Account),
    /// A contract record.
    Contract(Contract),
    /// A typed cross-boundary return value.
    ClValue(ClValue),
}

impl View for Value {
    type V = ValueView;

    open spec fn view(&self) -> ValueView {
        match self {
            Value::Int32(x) => ValueView::Int32(*x),
            Value::UInt64(x) => ValueView::UInt64(*x),
            Value::ByteArray(b) => ValueView::ByteArray(b@),
            Value::Unit => ValueView::Unit,
            Value::Account(a) => ValueView::Account(a@),
            Value::Contract(c) => ValueView::Contract(c@),
            Value::ClValue(c) => ValueView::ClValue(c@),
        }
    }
}

/// Copies one named binding.
pub fn named_key_dup(nk: &NamedKey) -> (r: NamedKey)
    ensures
        r@ == nk@,
{
    NamedKey { name: crate::key::bytes_dup(&nk.name), key: crate::key::key_dup(&nk.key) }
}

/// Copies a list of named bindings.
pub fn named_keys_dup(nks: &Vec<NamedKey>) -> (r: Vec<NamedKey>)
    ensures
        r@.map_values(|nk: NamedKey| nk@) == nks@.map_values(|nk: NamedKey| nk@),
{
    let mut out: Vec<NamedKey> = Vec::new();
    let n = nks.len();
    let mut i: usize = 0;
    while i < n
        invariant
            n == nks@.len(),
            i <= n,
            out@.len() == i,
            forall|j: int| 0 <= j < i ==> out@[j]@ == nks@[j]@,
        decreases n - i,
    {
        out.push(named_key_dup(&nks[i]));
        i = i + 1;
    }
    assert(out@.map_values(|nk: NamedKey| nk@) =~= nks@.map_values(|nk: NamedKey| nk@));
    out
}

/// Copies a value.
pub fn value_dup(v: &Value) -> (r: Value)
    ensures
        r@ == v@,
{
    match v {
        Value::Int32(x) => Value::Int32(*x),
        Value::UInt64(x) => Value::UInt64(*x),
        Value::ByteArray(b) => Value::ByteArray(crate::key::bytes_dup(b)),
        Value::Unit => Value::Unit,
        Value::Account(a) => Value::Account(
            Account { address: a.address, named_keys: named_keys_dup(&a.named_keys) },
        ),
        Value::Contract(c) => Value::Contract(
            Contract { body: crate::key::bytes_dup(&c.body), named_keys: named_keys_dup(&c.named_keys) },
        ),
        Value::ClValue(c) => Value::ClValue(
            ClValue {
                type_tag: crate::key::bytes_dup(&c.type_tag),
                bytes: crate::key::bytes_dup(&c.bytes),
            },
        ),
    }
}

/// A guest type that can cross the storage boundary: it converts to a
/// `Value` losslessly and back by fallible narrowing.
pub trait Storable: Sized {
    /// The value this instance stores as.
    spec fn spec_to_value(self) -> ValueView;

    /// True of exactly the values this type narrows from.
    spec fn value_matches(v: ValueView) -> bool;

    /// Every stored form matches its own type.
    proof fn lemma_stored_matches(self)
        ensures
            Self::value_matches(self.spec_to_value()),
    ;

    /// Converts the instance into its stored form.
    fn to_value(self) -> (v: Value)
        ensures
            v@ == self.spec_to_value(),
    ;

    /// Narrows a value back to this type.  Succeeds exactly on matching
    /// shapes, losslessly; a mismatch is a `ValueConversion` error, never a
    /// silent default.
    fn of_value(v: Value) -> (r: Result<Self, Error>)
        ensures
            r is Ok <==> Self::value_matches(v@),
            r matches Ok(t) ==> t.spec_to_value() == v@,
            r matches Err(e) ==> e == Error::ValueConversion,
    ;
}

impl Storable for i32 {
    open spec fn spec_to_value(self) -> ValueView {
        ValueView::Int32(self)
    }

    open spec fn value_matches(v: ValueView) -> bool {
        v is Int32
    }

    proof fn lemma_stored_matches(self) {
    }

    fn to_value(self) -> (v: Value) {
        Value::Int32(self)
    }

    fn of_value(v: Value) -> (r: Result<i32, Error>) {
        match v {
            Value::Int32(x) => Ok(x),
            _ => Err(Error::ValueConversion),
        }
    }
}

impl Storable for u64 {
    open spec fn spec_to_value(self) -> ValueView {
        ValueView::UInt64(self)
    }

    open spec fn value_matches(v: ValueView) -> bool {
        v is UInt64
    }

    proof fn lemma_stored_matches(self) {
    }

    fn to_value(self) -> (v: Value) {
        Value::UInt64(self)
    }

    fn of_value(v: Value) -> (r: Result<u64, Error>) {
        match v {
            Value::UInt64(x) => Ok(x),
            _ => Err(Error::ValueConversion),
        }
    }
}

impl Storable for Vec<u8> {
    open spec fn spec_to_value(self) -> ValueView {
        ValueView::ByteArray(self@)
    }

    open spec fn value_matches(v: ValueView) -> bool {
        v is ByteArray
    }

    proof fn lemma_stored_matches(self) {
    }

    fn to_value(self) -> (v: Value) {
        Value::ByteArray(self)
    }

    fn of_value(v: Value) -> (r: Result<Vec<u8>, Error>) {
        match v {
            Value::ByteArray(b) => Ok(b),
            _ => Err(Error::ValueConversion),
        }
    }
}

impl Storable for Contract {
    open spec fn spec_to_value(self) -> ValueView {
        ValueView::Contract(self@)
    }

    open spec fn value_matches(v: ValueView) -> bool {
        v is Contract
    }

    proof fn lemma_stored_matches(self) {
    }

    fn to_value(self) -> (v: Value) {
        Value::Contract(self)
    }

    fn of_value(v: Value) -> (r: Result<Contract, Error>) {
        match v {
            Value::Contract(c) => Ok(c),
            _ => Err(Error::ValueConversion),
        }
    }
}

impl Storable for ClValue {
    open spec fn spec_to_value(self) -> ValueView {
        ValueView::ClValue(self@)
    }

    open spec fn value_matches(v: ValueView) -> bool {
        v is ClValue
    }

    proof fn lemma_stored_matches(self) {
    }

    fn to_value(self) -> (v: Value) {
        Value::ClValue(self)
    }

    fn of_value(v: Value) -> (r: Result<ClValue, Error>) {
        match v {
            Value::ClValue(c) => Ok(c),
            _ => Err(Error::ValueConversion),
        }
    }
}

impl Storable for Account {
    open spec fn spec_to_value(self) -> ValueView {
        ValueView::Account(self@)
    }

    open spec fn value_matches(v: ValueView) -> bool {
        v is Account
    }

    proof fn lemma_stored_matches(self) {
    }

    fn to_value(self) -> (v: Value) {
        Value::Account(self)
    }

    fn of_value(v: Value) -> (r: Result<Account, Error>) {
        match v {
            Value::Account(a) => Ok(a),
            _ => Err(Error::ValueConversion),
        }
    }
}

} // verus!
