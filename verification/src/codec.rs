//! The canonical binary form of keys and values.
//!
//! Encoding is deterministic and self-delimiting: every well-formed value
//! has exactly one byte form, decoding the byte form gives the value back,
//! and no two distinct values share an encoding.  Decoding is total over
//! well-formed input and fails on everything else.
//!
//! Scalars are little-endian; byte strings carry a 64-bit length prefix;
//! sums carry a leading tag byte.

use vstd::prelude::*;
use vstd::bytes::{
    spec_u64_to_le_bytes,
    spec_u64_from_le_bytes,
    lemma_auto_spec_u64_to_from_le_bytes,
    spec_u32_to_le_bytes,
    spec_u32_from_le_bytes,
    lemma_auto_spec_u32_to_from_le_bytes,
    u64_to_le_bytes,
    u64_from_le_bytes,
    u32_to_le_bytes,
    u32_from_le_bytes,
};
use crate::rights::AccessRights;
use crate::key::{Key, KeyView, Address, URef};
use crate::value::{Value, ValueView, NamedKey, NamedKeyView, Account, Contract};

verus! {

// ---------------------------------------------------------------------
// Specification: encoders
// ---------------------------------------------------------------------
/// The byte form of a 64-bit scalar.
pub open spec fn enc_u64(x: u64) -> Seq<u8> {
    spec_u64_to_le_bytes(x)
}

/// The byte form of a 32-bit signed scalar: its two's-complement bits.
pub open spec fn enc_i32(x: i32) -> Seq<u8> {
    spec_u32_to_le_bytes(x as u32)
}

/// The byte form of a byte string: a 64-bit length prefix, then the bytes.
pub open spec fn enc_bytes(b: Seq<u8>) -> Seq<u8> {
    enc_u64(b.len() as u64) + b
}

/// The byte form of a 32-byte address: its four limbs.
pub open spec fn enc_addr(a: Address) -> Seq<u8> {
    enc_u64(a.w0) + enc_u64(a.w1) + enc_u64(a.w2) + enc_u64(a.w3)
}

/// The byte form of a right set: its canonical byte.
pub open spec fn enc_rights(r: AccessRights) -> Seq<u8> {
    seq![r.spec_to_byte()]
}

/// The byte form of a key: a tag byte, then the variant's payload.
pub open spec fn enc_key(k: KeyView) -> Seq<u8> {
    match k {
        KeyView::Account(a) => seq![0u8] + enc_addr(a),
        KeyView::Hash(a) => seq![1u8] + enc_addr(a),
        KeyView::URef(u) => seq![2u8] + enc_addr(u.addr) + enc_rights(u.rights),
        KeyView::Local { seed, key_bytes } => seq![3u8] + enc_addr(seed) + enc_bytes(key_bytes),
    }
}

/// The byte form of one named binding.
pub open spec fn enc_named_key(nk: NamedKeyView) -> Seq<u8> {
    enc_bytes(nk.name) + enc_key(nk.key)
}

/// The byte form of a run of named bindings, without a count prefix.
pub open spec fn enc_named_keys(s: Seq<NamedKeyView>) -> Seq<u8>
    decreases s.len(),
{
    if s.len() == 0 {
        Seq::empty()
    } else {
        enc_named_key(s[0]) + enc_named_keys(s.skip(1))
    }
}

/// The byte form of a value: a tag byte, then the variant's payload.
pub open spec fn enc_value(v: ValueView) -> Seq<u8> {
    match v {
        ValueView::Int32(x) => seq![0u8] + enc_i32(x),
        ValueView::UInt64(x) => seq![1u8] + enc_u64(x),
        ValueView::ByteArray(b) => seq![2u8] + enc_bytes(b),
        ValueView::Unit => seq![3u8],
        ValueView::Account(a) => seq![4u8] + enc_addr(a.address) + enc_u64(
            a.named_keys.len() as u64,
        ) + enc_named_keys(a.named_keys),
        ValueView::Contract(c) => seq![5u8] + enc_bytes(c.body) + enc_u64(
            c.named_keys.len() as u64,
        ) + enc_named_keys(c.named_keys),
        ValueView::ClValue(c) => seq![6u8] + enc_bytes(c.type_tag) + enc_bytes(c.bytes),
    }
}

/// Bounded sizes: every byte string and binding list of the value fits its
/// 64-bit length prefix.  True of every value an execution can hold; the
/// decoder can only ever give back values of this shape.
pub open spec fn wf_named_keys(s: Seq<NamedKeyView>) -> bool {
    s.len() < 0x1_0000_0000_0000_0000 && (forall|i: int|
        0 <= i < s.len() ==> (#[trigger] s[i]).name.len() < 0x1_0000_0000_0000_0000
            && wf_key(s[i].key))
}

/// Bounded sizes of a key's byte payloads.
pub open spec fn wf_key(k: KeyView) -> bool {
    match k {
        KeyView::Local { seed, key_bytes } => key_bytes.len() < 0x1_0000_0000_0000_0000,
        _ => true,
    }
}

/// Bounded sizes of a value's byte payloads and binding lists.
pub open spec fn wf_value(v: ValueView) -> bool {
    match v {
        ValueView::ByteArray(b) => b.len() < 0x1_0000_0000_0000_0000,
        ValueView::Account(a) => wf_named_keys(a.named_keys),
        ValueView::Contract(c) => c.body.len() < 0x1_0000_0000_0000_0000 && wf_named_keys(
            c.named_keys,
        ),
        ValueView::ClValue(c) => c.type_tag.len() < 0x1_0000_0000_0000_0000 && c.bytes.len()
            < 0x1_0000_0000_0000_0000,
        _ => true,
    }
}

// ---------------------------------------------------------------------
// Specification: decoders
// ---------------------------------------------------------------------
// Each decoder takes the remaining input from the front and returns the
// decoded item together with the rest of the input, or nothing when the
// input does not start with a well-formed encoding.
/// Decodes a 64-bit scalar from the front.
pub open spec fn dec_u64(s: Seq<u8>) -> Option<(u64, Seq<u8>)> {
    if s.len() >= 8 {
        Some((spec_u64_from_le_bytes(s.subrange(0, 8)), s.skip(8)))
    } else {
        None
    }
}

/// Decodes a 32-bit signed scalar from the front.
pub open spec fn dec_i32(s: Seq<u8>) -> Option<(i32, Seq<u8>)> {
    if s.len() >= 4 {
        Some((spec_u32_from_le_bytes(s.subrange(0, 4)) as i32, s.skip(4)))
    } else {
        None
    }
}

/// Decodes a length-prefixed byte string from the front.
pub open spec fn dec_bytes(s: Seq<u8>) -> Option<(Seq<u8>, Seq<u8>)> {
    match dec_u64(s) {
        Some((n, rest)) => if rest.len() >= n as int {
            Some((rest.subrange(0, n as int), rest.skip(n as int)))
        } else {
            None
        },
        None => None,
    }
}

/// Decodes an address from the front.
pub open spec fn dec_addr(s: Seq<u8>) -> Option<(Address, Seq<u8>)> {
    match dec_u64(s) {
        Some((w0, s1)) => match dec_u64(s1) {
            Some((w1, s2)) => match dec_u64(s2) {
                Some((w2, s3)) => match dec_u64(s3) {
                    Some((w3, s4)) => Some((Address { w0, w1, w2, w3 }, s4)),
                    None => None,
                },
                None => None,
            },
            None => None,
        },
        None => None,
    }
}

/// Decodes a right set from the front; a byte above 7 is no right set.
pub open spec fn dec_rights(s: Seq<u8>) -> Option<(AccessRights, Seq<u8>)> {
    if s.len() >= 1 && s[0] < 8 {
        Some((AccessRights::spec_from_byte(s[0]), s.skip(1)))
    } else {
        None
    }
}

/// Decodes a key from the front.
pub open spec fn dec_key(s: Seq<u8>) -> Option<(KeyView, Seq<u8>)> {
    if s.len() < 1 {
        None
    } else if s[0] == 0 {
        match dec_addr(s.skip(1)) {
            Some((a, rest)) => Some((KeyView::Account(a), rest)),
            None => None,
        }
    } else if s[0] == 1 {
        match dec_addr(s.skip(1)) {
            Some((a, rest)) => Some((KeyView::Hash(a), rest)),
            None => None,
        }
    } else if s[0] == 2 {
        match dec_addr(s.skip(1)) {
            Some((a, s1)) => match dec_rights(s1) {
                Some((r, rest)) => Some((KeyView::URef(URef { addr: a, rights: r }), rest)),
                None => None,
            },
            None => None,
        }
    } else if s[0] == 3 {
        match dec_addr(s.skip(1)) {
            Some((seed, s1)) => match dec_bytes(s1) {
                Some((kb, rest)) => Some((KeyView::Local { seed, key_bytes: kb }, rest)),
                None => None,
            },
            None => None,
        }
    } else {
        None
    }
}

/// Decodes one named binding from the front.
pub open spec fn dec_named_key(s: Seq<u8>) -> Option<(NamedKeyView, Seq<u8>)> {
    match dec_bytes(s) {
        Some((name, s1)) => match dec_key(s1) {
            Some((k, rest)) => Some((NamedKeyView { name, key: k }, rest)),
            None => None,
        },
        None => None,
    }
}

/// Decodes a run of `count` named bindings from the front.
pub open spec fn dec_named_keys(s: Seq<u8>, count: nat) -> Option<(Seq<NamedKeyView>, Seq<u8>)>
    decreases count,
{
    if count == 0 {
        Some((Seq::empty(), s))
    } else {
        match dec_named_key(s) {
            Some((nk, s1)) => match dec_named_keys(s1, (count - 1) as nat) {
                Some((nks, rest)) => Some((seq![nk] + nks, rest)),
                None => None,
            },
            None => None,
        }
    }
}

/// Decodes a value from the front.
pub open spec fn dec_value_prefix(s: Seq<u8>) -> Option<(ValueView, Seq<u8>)> {
    if s.len() < 1 {
        None
    } else if s[0] == 0 {
        match dec_i32(s.skip(1)) {
            Some((x, rest)) => Some((ValueView::Int32(x), rest)),
            None => None,
        }
    } else if s[0] == 1 {
        match dec_u64(s.skip(1)) {
            Some((x, rest)) => Some((ValueView::UInt64(x), rest)),
            None => None,
        }
    } else if s[0] == 2 {
        match dec_bytes(s.skip(1)) {
            Some((b, rest)) => Some((ValueView::ByteArray(b), rest)),
            None => None,
        }
    } else if s[0] == 3 {
        Some((ValueView::Unit, s.skip(1)))
    } else if s[0] == 4 {
        match dec_addr(s.skip(1)) {
            Some((a, s1)) => match dec_u64(s1) {
                Some((n, s2)) => match dec_named_keys(s2, n as nat) {
                    Some((nks, rest)) => Some(
                        (
                            ValueView::Account(
                                crate::value::AccountView { address: a, named_keys: nks },
                            ),
                            rest,
                        ),
                    ),
                    None => None,
                },
                None => None,
            },
            None => None,
        }
    } else if s[0] == 5 {
        match dec_bytes(s.skip(1)) {
            Some((body, s1)) => match dec_u64(s1) {
                Some((n, s2)) => match dec_named_keys(s2, n as nat) {
                    Some((nks, rest)) => Some(
                        (
                            ValueView::Contract(
                                crate::value::ContractView { body, named_keys: nks },
                            ),
                            rest,
                        ),
                    ),
                    None => None,
                },
                None => None,
            },
            None => None,
        }
    } else if s[0] == 6 {
        match dec_bytes(s.skip(1)) {
            Some((type_tag, s1)) => match dec_bytes(s1) {
                Some((bytes, rest)) => Some(
                    (
                        ValueView::ClValue(crate::value::ClValueView { type_tag, bytes }),
                        rest,
                    ),
                ),
                None => None,
            },
            None => None,
        }
    } else {
        None
    }
}

/// Decodes a complete buffer as one value: the encoding must fill the
/// buffer exactly.
pub open spec fn dec_value(s: Seq<u8>) -> Option<ValueView> {
    match dec_value_prefix(s) {
        Some((v, rest)) => if rest.len() == 0 {
            Some(v)
        } else {
            None
        },
        None => None,
    }
}

// ---------------------------------------------------------------------
// Round trip: parsing what was printed
// ---------------------------------------------------------------------
/// A 64-bit scalar parses back from the front of its encoding.
pub proof fn lemma_dec_enc_u64(x: u64, rest: Seq<u8>)
    ensures
        dec_u64(enc_u64(x) + rest) == Some((x, rest)),
{
    lemma_auto_spec_u64_to_from_le_bytes();
    let s = enc_u64(x) + rest;
    assert(s.subrange(0, 8) =~= enc_u64(x));
    assert(s.skip(8) =~= rest);
}

/// A 32-bit signed scalar parses back from the front of its encoding.
pub proof fn lemma_dec_enc_i32(x: i32, rest: Seq<u8>)
    ensures
        dec_i32(enc_i32(x) + rest) == Some((x, rest)),
{
    lemma_auto_spec_u32_to_from_le_bytes();
    let s = enc_i32(x) + rest;
    assert(s.subrange(0, 4) =~= enc_i32(x));
    assert(s.skip(4) =~= rest);
    assert(spec_u32_from_le_bytes(enc_i32(x)) == x as u32);
    assert((x as u32) as i32 == x) by (bit_vector);
}

/// A byte string parses back from the front of its encoding.
pub proof fn lemma_dec_enc_bytes(b: Seq<u8>, rest: Seq<u8>)
    requires
        b.len() < 0x1_0000_0000_0000_0000,
    ensures
        dec_bytes(enc_bytes(b) + rest) == Some((b, rest)),
{
    let s = enc_bytes(b) + rest;
    assert(s =~= enc_u64(b.len() as u64) + (b + rest));
    lemma_dec_enc_u64(b.len() as u64, b + rest);
    let n = b.len() as u64;
    assert((b + rest).subrange(0, n as int) =~= b);
    assert((b + rest).skip(n as int) =~= rest);
}

/// An address parses back from the front of its encoding.
pub proof fn lemma_dec_enc_addr(a: Address, rest: Seq<u8>)
    ensures
        dec_addr(enc_addr(a) + rest) == Some((a, rest)),
{
    let s = enc_addr(a) + rest;
    assert(s =~= enc_u64(a.w0) + (enc_u64(a.w1) + (enc_u64(a.w2) + (enc_u64(a.w3) + rest))));
    lemma_dec_enc_u64(a.w0, enc_u64(a.w1) + (enc_u64(a.w2) + (enc_u64(a.w3) + rest)));
    lemma_dec_enc_u64(a.w1, enc_u64(a.w2) + (enc_u64(a.w3) + rest));
    lemma_dec_enc_u64(a.w2, enc_u64(a.w3) + rest);
    lemma_dec_enc_u64(a.w3, rest);
}

/// A right set parses back from the front of its encoding.
pub proof fn lemma_dec_enc_rights(r: AccessRights, rest: Seq<u8>)
    ensures
        dec_rights(enc_rights(r) + rest) == Some((r, rest)),
{
    let s = enc_rights(r) + rest;
    crate::rights::lemma_rights_byte_round_trip(r);
    assert(s[0] == r.spec_to_byte());
    assert(s.skip(1) =~= rest);
}

/// A key parses back from the front of its encoding.
pub proof fn lemma_dec_enc_key(k: KeyView, rest: Seq<u8>)
    requires
        wf_key(k),
    ensures
        dec_key(enc_key(k) + rest) == Some((k, rest)),
{
    let s = enc_key(k) + rest;
    match k {
        KeyView::Account(a) => {
            assert(s[0] == 0);
            assert(s.skip(1) =~= enc_addr(a) + rest);
            lemma_dec_enc_addr(a, rest);
        },
        KeyView::Hash(a) => {
            assert(s[0] == 1);
            assert(s.skip(1) =~= enc_addr(a) + rest);
            lemma_dec_enc_addr(a, rest);
        },
        KeyView::URef(u) => {
            assert(s[0] == 2);
            assert(s.skip(1) =~= enc_addr(u.addr) + (enc_rights(u.rights) + rest));
            lemma_dec_enc_addr(u.addr, enc_rights(u.rights) + rest);
            lemma_dec_enc_rights(u.rights, rest);
        },
        KeyView::Local { seed, key_bytes } => {
            assert(s[0] == 3);
            assert(s.skip(1) =~= enc_addr(seed) + (enc_bytes(key_bytes) + rest));
            lemma_dec_enc_addr(seed, enc_bytes(key_bytes) + rest);
            lemma_dec_enc_bytes(key_bytes, rest);
        },
    }
}

/// One named binding parses back from the front of its encoding.
pub proof fn lemma_dec_enc_named_key(nk: NamedKeyView, rest: Seq<u8>)
    requires
        nk.name.len() < 0x1_0000_0000_0000_0000,
        wf_key(nk.key),
    ensures
        dec_named_key(enc_named_key(nk) + rest) == Some((nk, rest)),
{
    let s = enc_named_key(nk) + rest;
    assert(s =~= enc_bytes(nk.name) + (enc_key(nk.key) + rest));
    lemma_dec_enc_bytes(nk.name, enc_key(nk.key) + rest);
    lemma_dec_enc_key(nk.key, rest);
}

/// A run of named bindings parses back from the front of its encoding.
#[verifier::spinoff_prover]
#[verifier::rlimit(50)]
pub proof fn lemma_dec_enc_named_keys(nks: Seq<NamedKeyView>, rest: Seq<u8>)
    requires
        wf_named_keys(nks),
    ensures
        dec_named_keys(enc_named_keys(nks) + rest, nks.len()) == Some((nks, rest)),
    decreases nks.len(),
{
    let s = enc_named_keys(nks) + rest;
    if nks.len() == 0 {
        assert(s =~= rest);
        assert(dec_named_keys(rest, 0) == Some((Seq::<NamedKeyView>::empty(), rest)));
        assert(nks =~= Seq::<NamedKeyView>::empty());
    } else {
        assert(s =~= enc_named_key(nks[0]) + (enc_named_keys(nks.skip(1)) + rest));
        lemma_dec_enc_named_key(nks[0], enc_named_keys(nks.skip(1)) + rest);
        assert forall|i: int| 0 <= i < nks.skip(1).len() implies (#[trigger] nks.skip(
            1,
        )[i]).name.len() < 0x1_0000_0000_0000_0000 && wf_key(nks.skip(1)[i].key) by {
            assert(nks.skip(1)[i] == nks[i + 1]);
        }
        lemma_dec_enc_named_keys(nks.skip(1), rest);
        assert(seq![nks[0]] + nks.skip(1) =~= nks);
    }
}

/// A stored account record parses back from the front of its encoding.
proof fn lemma_dec_enc_value_account(a: crate::value::AccountView, rest: Seq<u8>)
    requires
        wf_value(ValueView::Account(a)),
    ensures
        dec_value_prefix(enc_value(ValueView::Account(a)) + rest) == Some(
            (ValueView::Account(a), rest),
        ),
{
    let s = enc_value(ValueView::Account(a)) + rest;
    assert(s[0] == 4);
    assert(s.skip(1) =~= enc_addr(a.address) + (enc_u64(a.named_keys.len() as u64) + (
    enc_named_keys(a.named_keys) + rest)));
    lemma_dec_enc_addr(
        a.address,
        enc_u64(a.named_keys.len() as u64) + (enc_named_keys(a.named_keys) + rest),
    );
    lemma_dec_enc_u64(a.named_keys.len() as u64, enc_named_keys(a.named_keys) + rest);
    lemma_dec_enc_named_keys(a.named_keys, rest);
}

/// A stored contract record parses back from the front of its encoding.
proof fn lemma_dec_enc_value_contract(c: crate::value::ContractView, rest: Seq<u8>)
    requires
        wf_value(ValueView::Contract(c)),
    ensures
        dec_value_prefix(enc_value(ValueView::Contract(c)) + rest) == Some(
            (ValueView::Contract(c), rest),
        ),
{
    let s = enc_value(ValueView::Contract(c)) + rest;
    assert(s[0] == 5);
    assert(s.skip(1) =~= enc_bytes(c.body) + (enc_u64(c.named_keys.len() as u64) + (
    enc_named_keys(c.named_keys) + rest)));
    lemma_dec_enc_bytes(
        c.body,
        enc_u64(c.named_keys.len() as u64) + (enc_named_keys(c.named_keys) + rest),
    );
    lemma_dec_enc_u64(c.named_keys.len() as u64, enc_named_keys(c.named_keys) + rest);
    lemma_dec_enc_named_keys(c.named_keys, rest);
}

/// A typed cross-boundary value parses back from the front of its encoding.
proof fn lemma_dec_enc_value_clvalue(c: crate::value::ClValueView, rest: Seq<u8>)
    requires
        wf_value(ValueView::ClValue(c)),
    ensures
        dec_value_prefix(enc_value(ValueView::ClValue(c)) + rest) == Some(
            (ValueView::ClValue(c), rest),
        ),
{
    let s = enc_value(ValueView::ClValue(c)) + rest;
    assert(s[0] == 6);
    assert(s.skip(1) =~= enc_bytes(c.type_tag) + (enc_bytes(c.bytes) + rest));
    lemma_dec_enc_bytes(c.type_tag, enc_bytes(c.bytes) + rest);
    lemma_dec_enc_bytes(c.bytes, rest);
}

/// A value parses back from the front of its encoding.
pub proof fn lemma_dec_enc_value_prefix(v: ValueView, rest: Seq<u8>)
    requires
        wf_value(v),
    ensures
        dec_value_prefix(enc_value(v) + rest) == Some((v, rest)),
{
    let s = enc_value(v) + rest;
    match v {
        ValueView::Int32(x) => {
            assert(s[0] == 0);
            assert(s.skip(1) =~= enc_i32(x) + rest);
            lemma_dec_enc_i32(x, rest);
        },
        ValueView::UInt64(x) => {
            assert(s[0] == 1);
            assert(s.skip(1) =~= enc_u64(x) + rest);
            lemma_dec_enc_u64(x, rest);
        },
        ValueView::ByteArray(b) => {
            assert(s[0] == 2);
            assert(s.skip(1) =~= enc_bytes(b) + rest);
            lemma_dec_enc_bytes(b, rest);
        },
        ValueView::Unit => {
            assert(s[0] == 3);
            assert(s.skip(1) =~= rest);
        },
        ValueView::Account(a) => {
            lemma_dec_enc_value_account(a, rest);
        },
        ValueView::Contract(c) => {
            lemma_dec_enc_value_contract(c, rest);
        },
        ValueView::ClValue(c) => {
            lemma_dec_enc_value_clvalue(c, rest);
        },
    }
}

/// Round trip: decoding the encoding of any well-formed value gives the
/// value back.
pub proof fn lemma_value_round_trip(v: ValueView)
    requires
        wf_value(v),
    ensures
        dec_value(enc_value(v)) == Some(v),
{
    lemma_dec_enc_value_prefix(v, Seq::empty());
    assert(enc_value(v) + Seq::<u8>::empty() =~= enc_value(v));
}

/// Injectivity: the canonical encoding never identifies two distinct
/// well-formed values.
pub proof fn lemma_encode_injective(v1: ValueView, v2: ValueView)
    requires
        wf_value(v1),
        wf_value(v2),
        enc_value(v1) == enc_value(v2),
    ensures
        v1 == v2,
{
    lemma_value_round_trip(v1);
    lemma_value_round_trip(v2);
}

/// Appending one binding to a run appends its bytes to the run's bytes.
proof fn lemma_enc_named_keys_snoc(s: Seq<NamedKeyView>, x: NamedKeyView)
    ensures
        enc_named_keys(s.push(x)) == enc_named_keys(s) + enc_named_key(x),
    decreases s.len(),
{
    if s.len() == 0 {
        assert(s.push(x).skip(1) =~= s);
        assert(s.push(x)[0] == x);
        assert(enc_named_keys(s.push(x)) =~= enc_named_keys(s) + enc_named_key(x));
    } else {
        lemma_enc_named_keys_snoc(s.skip(1), x);
        assert(s.push(x).skip(1) =~= s.skip(1).push(x));
        assert(s.push(x)[0] == s[0]);
        assert(enc_named_keys(s.push(x)) =~= enc_named_keys(s) + enc_named_key(x));
    }
}

// ---------------------------------------------------------------------
// Executable encoder
// ---------------------------------------------------------------------
/// Appends the byte form of a 64-bit scalar.
fn push_u64(out: &mut Vec<u8>, x: u64)
    ensures
        final(out)@ == old(out)@ + enc_u64(x),
{
    let mut b = u64_to_le_bytes(x);
    out.append(&mut b);
}

/// Appends the byte form of a 32-bit signed scalar.
fn push_i32(out: &mut Vec<u8>, x: i32)
    ensures
        final(out)@ == old(out)@ + enc_i32(x),
{
    let mut b = u32_to_le_bytes(
        #[verifier::truncate]
        (x as u32),
    );
    out.append(&mut b);
}

/// Appends the byte form of a byte string.
fn push_bytes(out: &mut Vec<u8>, b: &Vec<u8>)
    ensures
        final(out)@ == old(out)@ + enc_bytes(b@),
{
    push_u64(out, b.len() as u64);
    let mut copy = crate::key::bytes_dup(b);
    out.append(&mut copy);
    proof {
        assert(out@ =~= old(out)@ + enc_bytes(b@));
    }
}

/// Appends the byte form of an address.
fn push_addr(out: &mut Vec<u8>, a: &Address)
    ensures
        final(out)@ == old(out)@ + enc_addr(*a),
{
    push_u64(out, a.w0);
    push_u64(out, a.w1);
    push_u64(out, a.w2);
    push_u64(out, a.w3);
    proof {
        assert(out@ =~= old(out)@ + enc_addr(*a));
    }
}

/// Appends the byte form of a key.
fn push_key(out: &mut Vec<u8>, k: &Key)
    ensures
        final(out)@ == old(out)@ + enc_key(k@),
{
    match k {
        Key::Account(a) => {
            out.push(0);
            push_addr(out, a);
        },
        Key::Hash(a) => {
            out.push(1);
            push_addr(out, a);
        },
        Key::URef(u) => {
            out.push(2);
            push_addr(out, &u.addr);
            out.push(u.rights.to_byte());
        },
        Key::Local { seed, key_bytes } => {
            out.push(3);
            push_addr(out, seed);
            push_bytes(out, key_bytes);
        },
    }
    proof {
        assert(out@ =~= old(out)@ + enc_key(k@));
    }
}

/// Appends the byte forms of a run of bindings, in order.
fn push_named_keys(out: &mut Vec<u8>, nks: &Vec<NamedKey>)
    ensures
        final(out)@ == old(out)@ + enc_named_keys(nks@.map_values(|nk: NamedKey| nk@)),
{
    let n = nks.len();
    let mut i: usize = 0;
    proof {
        assert(out@ =~= old(out)@ + enc_named_keys(
            nks@.subrange(0, 0).map_values(|nk: NamedKey| nk@),
        ));
    }
    while i < n
        invariant
            n == nks@.len(),
            i <= n,
            out@ == old(out)@ + enc_named_keys(
                nks@.subrange(0, i as int).map_values(|nk: NamedKey| nk@),
            ),
        decreases n - i,
    {
        let nk = &nks[i];
        push_bytes(out, &nk.name);
        push_key(out, &nk.key);
        proof {
            let prefix = nks@.subrange(0, i as int).map_values(|nk2: NamedKey| nk2@);
            lemma_enc_named_keys_snoc(prefix, nk@);
            assert(nks@.subrange(0, i + 1).map_values(|nk2: NamedKey| nk2@) =~= prefix.push(nk@));
            assert(out@ =~= old(out)@ + enc_named_keys(prefix.push(nk@)));
        }
        i = i + 1;
    }
    proof {
        assert(nks@.subrange(0, n as int) =~= nks@);
    }
}

/// Encodes a key into its canonical byte form: what a caller hands to the
/// local partition when its own key is structured.
pub fn key_to_bytes(k: &Key) -> (r: Vec<u8>)
    ensures
        r@ == enc_key(k@),
{
    let mut out: Vec<u8> = Vec::new();
    push_key(&mut out, k);
    proof {
        assert(out@ =~= enc_key(k@));
    }
    out
}

/// Injectivity of the key form: two well-formed keys with one encoding are
/// one key, so canonical key bytes never alias two slots.
pub proof fn lemma_key_encode_injective(k1: KeyView, k2: KeyView)
    requires
        wf_key(k1),
        wf_key(k2),
        enc_key(k1) == enc_key(k2),
    ensures
        k1 == k2,
{
    lemma_dec_enc_key(k1, Seq::empty());
    lemma_dec_enc_key(k2, Seq::empty());
    assert(enc_key(k1) + Seq::<u8>::empty() =~= enc_key(k1));
    assert(enc_key(k2) + Seq::<u8>::empty() =~= enc_key(k2));
}

/// Encodes a value into its canonical byte form.
pub fn to_bytes(v: &Value) -> (r: Vec<u8>)
    ensures
        r@ == enc_value(v@),
{
    let mut out: Vec<u8> = Vec::new();
    match v {
        Value::Int32(x) => {
            out.push(0);
            push_i32(&mut out, *x);
        },
        Value::UInt64(x) => {
            out.push(1);
            push_u64(&mut out, *x);
        },
        Value::ByteArray(b) => {
            out.push(2);
            push_bytes(&mut out, b);
        },
        Value::Unit => {
            out.push(3);
        },
        Value::Account(a) => {
            out.push(4);
            push_addr(&mut out, &a.address);
            push_u64(&mut out, a.named_keys.len() as u64);
            push_named_keys(&mut out, &a.named_keys);
        },
        Value::Contract(c) => {
            out.push(5);
            push_bytes(&mut out, &c.body);
            push_u64(&mut out, c.named_keys.len() as u64);
            push_named_keys(&mut out, &c.named_keys);
        },
        Value::ClValue(c) => {
            out.push(6);
            push_bytes(&mut out, &c.type_tag);
            push_bytes(&mut out, &c.bytes);
        },
    }
    proof {
        assert(out@ =~= enc_value(v@));
    }
    out
}

// ---------------------------------------------------------------------
// Executable decoder
// ---------------------------------------------------------------------
/// Reads a 64-bit scalar at an offset.
fn read_u64_at(s: &Vec<u8>, i: usize) -> (r: Option<(u64, usize)>)
    requires
        i <= s@.len(),
    ensures
        match r {
            Some(p) => i <= p.1 <= s@.len() && dec_u64(s@.skip(i as int)) == Some(
                (p.0, s@.skip(p.1 as int)),
            ),
            None => dec_u64(s@.skip(i as int)) is None,
        },
{
    if s.len() - i >= 8 {
        let sub = vstd::slice::slice_subrange(s.as_slice(), i, i + 8);
        let x = u64_from_le_bytes(sub);
        proof {
            assert(s@.subrange(i as int, i + 8) =~= s@.skip(i as int).subrange(0, 8));
            assert(s@.skip(i as int).skip(8) =~= s@.skip(i + 8));
        }
        Some((x, i + 8))
    } else {
        None
    }
}

/// Reads a 32-bit signed scalar at an offset.
fn read_i32_at(s: &Vec<u8>, i: usize) -> (r: Option<(i32, usize)>)
    requires
        i <= s@.len(),
    ensures
        match r {
            Some(p) => i <= p.1 <= s@.len() && dec_i32(s@.skip(i as int)) == Some(
                (p.0, s@.skip(p.1 as int)),
            ),
            None => dec_i32(s@.skip(i as int)) is None,
        },
{
    if s.len() - i >= 4 {
        let sub = vstd::slice::slice_subrange(s.as_slice(), i, i + 4);
        let x = u32_from_le_bytes(sub);
        proof {
            assert(s@.subrange(i as int, i + 4) =~= s@.skip(i as int).subrange(0, 4));
            assert(s@.skip(i as int).skip(4) =~= s@.skip(i + 4));
        }
        Some((
            #[verifier::truncate]
            (x as i32),
            i + 4,
        ))
    } else {
        None
    }
}

/// Reads a length-prefixed byte string at an offset.
fn read_bytes_at(s: &Vec<u8>, i: usize) -> (r: Option<(Vec<u8>, usize)>)
    requires
        i <= s@.len(),
    ensures
        match r {
            Some(p) => i <= p.1 <= s@.len() && dec_bytes(s@.skip(i as int)) == Some(
                (p.0@, s@.skip(p.1 as int)),
            ),
            None => dec_bytes(s@.skip(i as int)) is None,
        },
{
    match read_u64_at(s, i) {
        Some((n, j)) => {
            if n <= (s.len() - j) as u64 {
                let count = n as usize;
                let total = s.len();
                let mut b: Vec<u8> = Vec::new();
                let mut k: usize = 0;
                while k < count
                    invariant
                        total == s@.len(),
                        j + count <= total,
                        k <= count,
                        b@ == s@.subrange(j as int, j + k),
                    decreases count - k,
                {
                    b.push(s[j + k]);
                    proof {
                        assert(b@ =~= s@.subrange(j as int, j + k + 1));
                    }
                    k = k + 1;
                }
                proof {
                    assert(s@.subrange(j as int, j + count) =~= s@.skip(j as int).subrange(
                        0,
                        n as int,
                    ));
                    assert(s@.skip(j as int).skip(n as int) =~= s@.skip(j + count));
                }
                Some((b, j + count))
            } else {
                None
            }
        },
        None => None,
    }
}

/// Reads an address at an offset.
fn read_addr_at(s: &Vec<u8>, i: usize) -> (r: Option<(Address, usize)>)
    requires
        i <= s@.len(),
    ensures
        match r {
            Some(p) => i <= p.1 <= s@.len() && dec_addr(s@.skip(i as int)) == Some(
                (p.0, s@.skip(p.1 as int)),
            ),
            None => dec_addr(s@.skip(i as int)) is None,
        },
{
    match read_u64_at(s, i) {
        Some((w0, i1)) => match read_u64_at(s, i1) {
            Some((w1, i2)) => match read_u64_at(s, i2) {
                Some((w2, i3)) => match read_u64_at(s, i3) {
                    Some((w3, i4)) => Some((Address { w0, w1, w2, w3 }, i4)),
                    None => None,
                },
                None => None,
            },
            None => None,
        },
        None => None,
    }
}

/// Reads a right set at an offset.
fn read_rights_at(s: &Vec<u8>, i: usize) -> (r: Option<(AccessRights, usize)>)
    requires
        i <= s@.len(),
    ensures
        match r {
            Some(p) => i <= p.1 <= s@.len() && dec_rights(s@.skip(i as int)) == Some(
                (p.0, s@.skip(p.1 as int)),
            ),
            None => dec_rights(s@.skip(i as int)) is None,
        },
{
    if i < s.len() {
        let b = s[i];
        if b < 8 {
            proof {
                assert(s@.skip(i as int)[0] == s@[i as int]);
                assert(s@.skip(i as int).skip(1) =~= s@.skip(i + 1));
            }
            Some((AccessRights::from_byte(b), i + 1))
        } else {
            None
        }
    } else {
        None
    }
}

/// Reads a key at an offset.
fn read_key_at(s: &Vec<u8>, i: usize) -> (r: Option<(Key, usize)>)
    requires
        i <= s@.len(),
    ensures
        match r {
            Some(p) => i <= p.1 <= s@.len() && dec_key(s@.skip(i as int)) == Some(
                (p.0@, s@.skip(p.1 as int)),
            ),
            None => dec_key(s@.skip(i as int)) is None,
        },
{
    if i >= s.len() {
        return None;
    }
    let tag = s[i];
    proof {
        assert(s@.skip(i as int)[0] == s@[i as int]);
        assert(s@.skip(i as int).skip(1) =~= s@.skip(i + 1));
    }
    if tag == 0 {
        match read_addr_at(s, i + 1) {
            Some((a, j)) => Some((Key::Account(a), j)),
            None => None,
        }
    } else if tag == 1 {
        match read_addr_at(s, i + 1) {
            Some((a, j)) => Some((Key::Hash(a), j)),
            None => None,
        }
    } else if tag == 2 {
        match read_addr_at(s, i + 1) {
            Some((a, j)) => match read_rights_at(s, j) {
                Some((rt, j2)) => Some((Key::URef(URef { addr: a, rights: rt }), j2)),
                None => None,
            },
            None => None,
        }
    } else if tag == 3 {
        match read_addr_at(s, i + 1) {
            Some((seed, j)) => match read_bytes_at(s, j) {
                Some((kb, j2)) => Some((Key::Local { seed, key_bytes: kb }, j2)),
                None => None,
            },
            None => None,
        }
    } else {
        None
    }
}

/// Reads a run of `count` bindings at an offset.
fn read_named_keys_at(s: &Vec<u8>, i: usize, count: u64) -> (r: Option<(Vec<NamedKey>, usize)>)
    requires
        i <= s@.len(),
    ensures
        match r {
            Some(p) => i <= p.1 <= s@.len() && dec_named_keys(s@.skip(i as int), count as nat)
                == Some((p.0@.map_values(|nk: NamedKey| nk@), s@.skip(p.1 as int))),
            None => dec_named_keys(s@.skip(i as int), count as nat) is None,
        },
{
    let mut acc: Vec<NamedKey> = Vec::new();
    let mut cur: usize = i;
    let mut left: u64 = count;
    proof {
        assert(acc@.map_values(|nk: NamedKey| nk@) =~= Seq::<NamedKeyView>::empty());
    }
    loop
        invariant
            i <= cur <= s@.len(),
            left <= count,
            (match dec_named_keys(s@.skip(cur as int), left as nat) {
                Some(p) => dec_named_keys(s@.skip(i as int), count as nat) == Some(
                    (acc@.map_values(|nk: NamedKey| nk@) + p.0, p.1),
                ),
                None => dec_named_keys(s@.skip(i as int), count as nat) is None,
            }),
        ensures
            (match dec_named_keys(s@.skip(cur as int), 0) {
                Some(p) => dec_named_keys(s@.skip(i as int), count as nat) == Some(
                    (acc@.map_values(|nk: NamedKey| nk@) + p.0, p.1),
                ),
                None => dec_named_keys(s@.skip(i as int), count as nat) is None,
            }),
            left == 0,
            i <= cur <= s@.len(),
        decreases left,
    {
        if left == 0 {
            break ;
        }
        let name = read_bytes_at(s, cur);
        match name {
            Some((nm, j)) => {
                match read_key_at(s, j) {
                    Some((k, j2)) => {
                        proof {
                            let ghost old_acc = acc@.map_values(|nk: NamedKey| nk@);
                            assert(dec_named_key(s@.skip(cur as int)) == Some(
                                (NamedKeyView { name: nm@, key: k@ }, s@.skip(j2 as int)),
                            ));
                        }
                        let ghost prev_acc = acc@.map_values(|nk: NamedKey| nk@);
                        let nk = NamedKey { name: nm, key: k };
                        let ghost nkv = nk@;
                        acc.push(nk);
                        proof {
                            assert(acc@.map_values(|nk2: NamedKey| nk2@) =~= prev_acc.push(nkv));
                            assert forall|tail: Seq<NamedKeyView>|
                                true implies prev_acc.push(nkv) + tail =~= prev_acc + (seq![nkv]
                                + tail) by {}
                        }
                        cur = j2;
                        left = left - 1;
                    },
                    None => {
                        return None;
                    },
                }
            },
            None => {
                return None;
            },
        }
    }
    Some((acc, cur))
}

/// Decodes a complete buffer as one value; fails unless the buffer is
/// exactly the canonical byte form of some value.
pub fn from_bytes(s: &Vec<u8>) -> (r: Option<Value>)
    ensures
        match r {
            Some(v) => dec_value(s@) == Some(v@),
            None => dec_value(s@) is None,
        },
{
    if s.len() == 0 {
        return None;
    }
    let tag = s[0];
    proof {
        assert(s@.skip(0)[0] == s@[0]);
        assert(s@.skip(0).skip(1) =~= s@.skip(1));
        assert(s@.skip(0) =~= s@);
    }
    let parsed: Option<(Value, usize)> = if tag == 0 {
        match read_i32_at(s, 1) {
            Some((x, j)) => Some((Value::Int32(x), j)),
            None => None,
        }
    } else if tag == 1 {
        match read_u64_at(s, 1) {
            Some((x, j)) => Some((Value::UInt64(x), j)),
            None => None,
        }
    } else if tag == 2 {
        match read_bytes_at(s, 1) {
            Some((b, j)) => Some((Value::ByteArray(b), j)),
            None => None,
        }
    } else if tag == 3 {
        Some((Value::Unit, 1))
    } else if tag == 4 {
        match read_addr_at(s, 1) {
            Some((a, j)) => match read_u64_at(s, j) {
                Some((n, j2)) => match read_named_keys_at(s, j2, n) {
                    Some((nks, j3)) => Some(
                        (Value::Account(Account { address: a, named_keys: nks }), j3),
                    ),
                    None => None,
                },
                None => None,
            },
            None => None,
        }
    } else if tag == 5 {
        match read_bytes_at(s, 1) {
            Some((body, j)) => match read_u64_at(s, j) {
                Some((n, j2)) => match read_named_keys_at(s, j2, n) {
                    Some((nks, j3)) => Some((Value::Contract(Contract { body, named_keys: nks }), j3)),
                    None => None,
                },
                None => None,
            },
            None => None,
        }
    } else if tag == 6 {
        match read_bytes_at(s, 1) {
            Some((type_tag, j)) => match read_bytes_at(s, j) {
                Some((bytes, j2)) => Some(
                    (Value::ClValue(crate::value::ClValue { type_tag, bytes }), j2),
                ),
                None => None,
            },
            None => None,
        }
    } else {
        None
    };
    match parsed {
        Some((v, j)) => {
            if j == s.len() {
                proof {
                    assert(s@.skip(j as int).len() == 0);
                    assert(s@.skip(j as int) =~= Seq::<u8>::empty());
                }
                Some(v)
            } else {
                proof {
                    assert(s@.skip(j as int).len() != 0);
                }
                None
            }
        },
        None => None,
    }
}

// ---------------------------------------------------------------------
// The total order on keys
// ---------------------------------------------------------------------
/// Strict lexicographic order on byte strings: a proper prefix comes first,
/// otherwise the first differing byte decides.
pub open spec fn lex_lt(a: Seq<u8>, b: Seq<u8>) -> bool
    decreases a.len(),
{
    if b.len() == 0 {
        false
    } else if a.len() == 0 {
        true
    } else if a[0] < b[0] {
        true
    } else if a[0] > b[0] {
        false
    } else {
        lex_lt(a.skip(1), b.skip(1))
    }
}

/// The order on keys: lexicographic on the canonical byte form.
pub open spec fn key_le(k1: KeyView, k2: KeyView) -> bool {
    lex_lt(enc_key(k1), enc_key(k2)) || enc_key(k1) == enc_key(k2)
}

/// Exactly one of `lt(a, b)`, `a == b`, `lt(b, a)` holds of byte strings.
pub proof fn lemma_lex_trichotomy(a: Seq<u8>, b: Seq<u8>)
    ensures
        lex_lt(a, b) || a == b || lex_lt(b, a),
        lex_lt(a, b) ==> a != b && !lex_lt(b, a),
        a == b ==> !lex_lt(a, b) && !lex_lt(b, a),
    decreases a.len(),
{
    if a.len() == 0 || b.len() == 0 {
        if a.len() == 0 && b.len() == 0 {
            assert(a =~= b);
        }
    } else {
        lemma_lex_trichotomy(a.skip(1), b.skip(1));
        if a[0] == b[0] && a.skip(1) == b.skip(1) {
            assert(a =~= b) by {
                assert(a.skip(1).len() == b.skip(1).len());
                assert forall|j: int| 0 <= j < a.len() implies a[j] == b[j] by {
                    if j > 0 {
                        assert(a.skip(1)[j - 1] == b.skip(1)[j - 1]);
                    }
                }
            }
        }
        if a == b {
            assert(a.skip(1) =~= b.skip(1));
        }
    }
}

/// The lexicographic order is transitive.
pub proof fn lemma_lex_transitive(a: Seq<u8>, b: Seq<u8>, c: Seq<u8>)
    requires
        lex_lt(a, b),
        lex_lt(b, c),
    ensures
        lex_lt(a, c),
    decreases a.len(),
{
    if a.len() != 0 && b.len() != 0 && c.len() != 0 {
        if a[0] == b[0] && b[0] == c[0] {
            lemma_lex_transitive(a.skip(1), b.skip(1), c.skip(1));
        }
    }
}

/// The key order is total: over well-formed keys it is reflexive,
/// antisymmetric (by injectivity of the canonical form), transitive, and
/// any two keys are comparable — what deterministic iteration over commit
/// batches rests on.
pub proof fn lemma_key_order_total(k1: KeyView, k2: KeyView, k3: KeyView)
    requires
        wf_key(k1),
        wf_key(k2),
        wf_key(k3),
    ensures
        key_le(k1, k1),
        key_le(k1, k2) || key_le(k2, k1),
        key_le(k1, k2) && key_le(k2, k1) ==> k1 == k2,
        key_le(k1, k2) && key_le(k2, k3) ==> key_le(k1, k3),
{
    lemma_lex_trichotomy(enc_key(k1), enc_key(k2));
    lemma_lex_trichotomy(enc_key(k2), enc_key(k3));
    lemma_lex_trichotomy(enc_key(k1), enc_key(k3));
    if enc_key(k1) == enc_key(k2) {
        lemma_key_encode_injective(k1, k2);
    }
    if lex_lt(enc_key(k1), enc_key(k2)) && lex_lt(enc_key(k2), enc_key(k3)) {
        lemma_lex_transitive(enc_key(k1), enc_key(k2), enc_key(k3));
    }
    if enc_key(k2) == enc_key(k3) {
        lemma_key_encode_injective(k2, k3);
    }
}

/// Decides the lexicographic order of two byte strings.
fn bytes_lex_lt(a: &Vec<u8>, b: &Vec<u8>) -> (r: bool)
    ensures
        r == lex_lt(a@, b@),
{
    let n = if a.len() < b.len() {
        a.len()
    } else {
        b.len()
    };
    let mut i: usize = 0;
    proof {
        assert(a@.skip(0) =~= a@);
        assert(b@.skip(0) =~= b@);
    }
    while i < n
        invariant
            n <= a@.len(),
            n <= b@.len(),
            n == (if a@.len() < b@.len() {
                a@.len()
            } else {
                b@.len()
            }),
            i <= n,
            forall|j: int| 0 <= j < i ==> a@[j] == b@[j],
            lex_lt(a@, b@) == lex_lt(a@.skip(i as int), b@.skip(i as int)),
        decreases n - i,
    {
        proof {
            assert(a@.skip(i as int)[0] == a@[i as int]);
            assert(b@.skip(i as int)[0] == b@[i as int]);
        }
        if a[i] < b[i] {
            return true;
        }
        if a[i] > b[i] {
            return false;
        }
        proof {
            assert(a@.skip(i as int).skip(1) =~= a@.skip(i + 1));
            assert(b@.skip(i as int).skip(1) =~= b@.skip(i + 1));
        }
        i = i + 1;
    }
    proof {
        if a@.len() < b@.len() {
            assert(a@.skip(n as int).len() == 0);
            assert(b@.skip(n as int).len() > 0);
        } else {
            assert(b@.skip(n as int).len() == 0);
        }
    }
    a.len() < b.len()
}

/// Decides the key order: at most one of `key_lt(a, b)`, `a@ == b@`,
/// `key_lt(b, a)` holds, and for well-formed keys exactly one.
pub fn key_lt(a: &Key, b: &Key) -> (r: bool)
    ensures
        r == lex_lt(enc_key(a@), enc_key(b@)),
{
    let ea = key_to_bytes(a);
    let eb = key_to_bytes(b);
    bytes_lex_lt(&ea, &eb)
}

} // verus!
