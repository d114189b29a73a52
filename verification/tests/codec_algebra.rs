use capstore::codec::{from_bytes, to_bytes};
use capstore::key::{Address, Key, URef};
use capstore::rights::AccessRights;
use capstore::transform::{merge, FailureReason, Transform};
use capstore::value::{Account, ClValue, Contract, NamedKey, Value};

fn assert_round_trips(v: Value) -> Vec<u8> {
    let bytes = to_bytes(&v);
    let back = from_bytes(&bytes).expect("a canonical encoding decodes");
    let again = to_bytes(&back);
    assert_eq!(bytes, again, "decoding then re-encoding reproduces the bytes");
    bytes
}

#[test]
fn values_round_trip_through_the_codec() {
    let sample_key = Key::URef(URef::new(Address::new(1, 2, 3, 4), AccessRights::read_add()));
    let nk = NamedKey { name: b"counter".to_vec(), key: sample_key };
    let enc_int = assert_round_trips(Value::Int32(-7));
    let enc_u64 = assert_round_trips(Value::UInt64(u64::MAX));
    let enc_bytes = assert_round_trips(Value::ByteArray(b"payload".to_vec()));
    let enc_unit = assert_round_trips(Value::Unit);
    let enc_account = assert_round_trips(Value::Account(Account {
        address: Address::new(5, 6, 7, 8),
        named_keys: vec![nk],
    }));
    let enc_contract = assert_round_trips(Value::Contract(Contract {
        body: b"wasm".to_vec(),
        named_keys: Vec::new(),
    }));
    let enc_cl = assert_round_trips(Value::ClValue(ClValue {
        type_tag: b"uref".to_vec(),
        bytes: b"payload".to_vec(),
    }));
    // injectivity on concrete values: all seven encodings are pairwise distinct
    let all = [enc_int, enc_u64, enc_bytes, enc_unit, enc_account, enc_contract, enc_cl];
    for i in 0..all.len() {
        for j in 0..all.len() {
            if i != j {
                assert_ne!(all[i], all[j]);
            }
        }
    }
}

#[test]
fn decoded_values_match_what_was_encoded() {
    let bytes = to_bytes(&Value::Int32(15));
    match from_bytes(&bytes) {
        Some(Value::Int32(x)) => assert_eq!(x, 15),
        _ => panic!("an Int32 decodes to itself"),
    }
    let local = Key::Local { seed: Address::new(1, 1, 1, 1), key_bytes: b"k".to_vec() };
    let record = Value::Account(Account {
        address: Address::new(2, 2, 2, 2),
        named_keys: vec![NamedKey { name: b"n".to_vec(), key: local }],
    });
    match from_bytes(&to_bytes(&record)) {
        Some(Value::Account(a)) => {
            assert_eq!(a.address, Address::new(2, 2, 2, 2));
            assert_eq!(a.named_keys.len(), 1);
            assert_eq!(a.named_keys[0].name, b"n".to_vec());
            match &a.named_keys[0].key {
                Key::Local { seed, key_bytes } => {
                    assert_eq!(*seed, Address::new(1, 1, 1, 1));
                    assert_eq!(key_bytes, &b"k".to_vec());
                }
                _ => panic!("the binding's key is a local key"),
            }
        }
        _ => panic!("an account record decodes to itself"),
    }
}

#[test]
fn malformed_input_does_not_decode() {
    assert!(from_bytes(&Vec::new()).is_none());
    assert!(from_bytes(&vec![9u8]).is_none(), "an unknown tag is refused");
    assert!(from_bytes(&vec![0u8, 1, 2]).is_none(), "a truncated scalar is refused");
    let mut padded = to_bytes(&Value::Unit);
    padded.push(0);
    assert!(from_bytes(&padded).is_none(), "trailing bytes are refused");
}

#[test]
fn adds_merge_to_one_total_whatever_the_grouping() {
    let left = merge(
        merge(Transform::AddInt32(2), Transform::AddInt32(3)),
        Transform::AddInt32(5),
    );
    let right = merge(
        Transform::AddInt32(2),
        merge(Transform::AddInt32(3), Transform::AddInt32(5)),
    );
    assert!(matches!(left, Transform::AddInt32(10)));
    assert!(matches!(right, Transform::AddInt32(10)));
}

#[test]
fn write_then_add_folds_to_one_net_write() {
    let folded = merge(Transform::Write(Value::Int32(5)), Transform::AddInt32(3));
    assert!(matches!(folded, Transform::Write(Value::Int32(8))));
}

#[test]
fn write_then_add_in_one_execution_occupies_one_key() {
    let mut eff = capstore::effects::EffectMap::new();
    let k = Key::Hash(Address::new(0, 0, 0, 1));
    eff.insert_merge(&k, Transform::Write(Value::Int32(5)));
    eff.insert_merge(&k, Transform::AddInt32(3));
    assert_eq!(eff.len(), 1);
    assert!(matches!(eff.get(&k), Some(Transform::Write(Value::Int32(8)))));
}

#[test]
fn mismatched_add_families_record_a_failure() {
    let clash = merge(Transform::AddInt32(1), Transform::AddUInt64(1));
    assert!(matches!(clash, Transform::Failure(FailureReason::TypeMismatch)));
    let onto_bytes = merge(
        Transform::Write(Value::ByteArray(b"x".to_vec())),
        Transform::AddInt32(1),
    );
    assert!(matches!(onto_bytes, Transform::Failure(FailureReason::TypeMismatch)));
}

#[test]
fn add_wraps_on_overflow() {
    let wrapped = merge(Transform::AddInt32(i32::MAX), Transform::AddInt32(1));
    assert!(matches!(wrapped, Transform::AddInt32(i32::MIN)));
    let wrapped_u = merge(Transform::AddUInt64(u64::MAX), Transform::AddUInt64(2));
    assert!(matches!(wrapped_u, Transform::AddUInt64(1)));
}

#[test]
fn a_later_write_supersedes_a_recorded_failure() {
    // a clash of add families records a failure on the key ...
    let clashed = merge(Transform::AddInt32(1), Transform::AddUInt64(1));
    assert!(matches!(clashed, Transform::Failure(FailureReason::TypeMismatch)));
    // ... and a later write overwrites it: last write wins over any prior
    let net = merge(clashed, Transform::Write(Value::Int32(5)));
    assert!(matches!(net, Transform::Write(Value::Int32(5))));
}

#[test]
fn merge_groups_the_same_across_a_write() {
    let left = merge(
        merge(Transform::AddInt32(1), Transform::AddUInt64(1)),
        Transform::Write(Value::Int32(5)),
    );
    let right = merge(
        Transform::AddInt32(1),
        merge(Transform::AddUInt64(1), Transform::Write(Value::Int32(5))),
    );
    assert!(matches!(left, Transform::Write(Value::Int32(5))));
    assert!(matches!(right, Transform::Write(Value::Int32(5))));
}

#[test]
fn identity_is_the_merge_zero() {
    let a = merge(Transform::Identity, Transform::AddInt32(4));
    assert!(matches!(a, Transform::AddInt32(4)));
    let b = merge(Transform::AddInt32(4), Transform::Identity);
    assert!(matches!(b, Transform::AddInt32(4)));
}

#[test]
fn rights_subsets_and_bytes() {
    let full = AccessRights::read_add_write();
    let ro = AccessRights::read_only();
    assert!(ro.is_subset_of(&full));
    assert!(!full.is_subset_of(&ro));
    assert!(ro.is_readable() && !ro.is_writeable() && !ro.is_addable());
    for b in 0u8..8 {
        assert_eq!(AccessRights::from_byte(b).to_byte(), b);
    }
}

#[test]
fn uref_keys_normalize_to_their_slot() {
    let u = URef::new(Address::new(1, 2, 3, 4), AccessRights::read_add_write());
    let n = capstore::key::normalize(&Key::URef(u));
    match n {
        Key::URef(nu) => {
            assert_eq!(nu.addr, Address::new(1, 2, 3, 4));
            assert_eq!(nu.rights, AccessRights::none());
        }
        _ => panic!("normalizing keeps the variant"),
    }
    let h = capstore::key::normalize(&Key::Hash(Address::new(1, 2, 3, 4)));
    assert!(matches!(h, Key::Hash(_)));
}

#[test]
fn key_encodings_are_distinct_across_variants() {
    let a = Address::new(1, 2, 3, 4);
    let keys = [
        Key::Account(a),
        Key::Hash(a),
        Key::URef(URef::new(a, AccessRights::none())),
        Key::Local { seed: a, key_bytes: b"k".to_vec() },
    ];
    let encoded: Vec<Vec<u8>> = keys.iter().map(capstore::codec::key_to_bytes).collect();
    for i in 0..encoded.len() {
        for j in 0..encoded.len() {
            if i != j {
                assert_ne!(encoded[i], encoded[j]);
            }
        }
    }
}

#[test]
fn key_order_is_strict_and_decides() {
    let small = Key::Account(Address::new(0, 0, 0, 1));
    let large = Key::Account(Address::new(0, 0, 0, 2));
    assert!(capstore::codec::key_lt(&small, &large));
    assert!(!capstore::codec::key_lt(&large, &small));
    assert!(!capstore::codec::key_lt(&small, &small));
    // variants order by their tag
    let hash = Key::Hash(Address::new(0, 0, 0, 1));
    assert!(capstore::codec::key_lt(&small, &hash));
}
