use capstore::api::{new_turef, read, read_local, write_local, store_function, store_function_at_hash, Execution, ContractRef};
use capstore::effects::EffectMap;
use capstore::error::Error;
use capstore::key::{Address, Key, TURef, URef};
use capstore::rights::AccessRights;
use capstore::state::GlobalState;
use capstore::transform::Transform;
use capstore::value::{NamedKey, Value};
use capstore::inspect::SystemContractType;

fn fresh_state_with_root() -> (GlobalState, Address) {
    let mut st = GlobalState::new();
    let eff = EffectMap::new();
    let root = st.genesis(&eff).expect("genesis of an empty effect map succeeds");
    (st, root)
}

fn begin(st: &GlobalState, root: &Address) -> Execution {
    Execution::begin(st, root, Address::new(9, 9, 9, 9), 0).expect("root was committed")
}

#[test]
fn mint_add_commit_read_back() {
    let (mut st, root) = fresh_state_with_root();
    let mut e = begin(&st, &root);
    let t: TURef<i32> = new_turef(&mut e, 10);
    capstore::api::add(&mut e, &t, 5).expect("fresh capability has ADD");
    let eff = e.into_effects();
    let new_root = st.commit(&root, &eff).expect("a write and add commit cleanly");
    let e2 = begin(&st, &new_root);
    let got: Option<i32> = read(&e2, &t).expect("stored value is an i32");
    assert_eq!(got, Some(15));
}

#[test]
fn downgraded_reference_cannot_write_and_value_survives() {
    let (mut st, root) = fresh_state_with_root();
    let mut e = begin(&st, &root);
    let data: Vec<u8> = b"data".to_vec();
    let mut t: TURef<Vec<u8>> = new_turef(&mut e, data.clone());
    let new_root = st.commit(&root, &e.into_effects()).expect("seed write commits");

    let mut e2 = begin(&st, &new_root);
    t.set_access_rights(AccessRights::read_only());
    let denied = capstore::api::write(&mut e2, &t, b"overwritten".to_vec());
    assert_eq!(denied, Err(Error::InvalidAccess));
    // nothing was buffered, so committing this execution changes nothing
    let unchanged_root = st.commit(&new_root, &e2.into_effects()).expect("empty effects commit");
    let e3 = begin(&st, &unchanged_root);
    let got: Option<Vec<u8>> = read(&e3, &t).expect("stored value is a byte array");
    assert_eq!(got, Some(data));
}

#[test]
fn downgraded_reference_cannot_add() {
    let (st, root) = fresh_state_with_root();
    let mut e = begin(&st, &root);
    let mut t: TURef<i32> = new_turef(&mut e, 1);
    t.set_access_rights(AccessRights::read_write());
    let denied = capstore::api::add(&mut e, &t, 1);
    assert_eq!(denied, Err(Error::InvalidAccess));
}

#[test]
fn write_only_reference_cannot_read() {
    let (mut st, root) = fresh_state_with_root();
    let mut e = begin(&st, &root);
    let mut t: TURef<i32> = new_turef(&mut e, 1);
    let new_root = st.commit(&root, &e.into_effects()).expect("seed write commits");
    t.set_access_rights(AccessRights::write_only());
    let e2 = begin(&st, &new_root);
    let denied: Result<Option<i32>, Error> = read(&e2, &t);
    assert_eq!(denied, Err(Error::InvalidAccess));
}

#[test]
fn two_mints_never_share_an_address() {
    let (st, root) = fresh_state_with_root();
    let mut e = begin(&st, &root);
    let t1: TURef<i32> = new_turef(&mut e, 7);
    let t2: TURef<i32> = new_turef(&mut e, 7);
    assert_ne!(t1.addr(), t2.addr());
}

#[test]
fn reads_are_idempotent_across_buffered_writes() {
    let (mut st, root) = fresh_state_with_root();
    let mut e = begin(&st, &root);
    let t: TURef<i32> = new_turef(&mut e, 41);
    let new_root = st.commit(&root, &e.into_effects()).expect("seed write commits");

    let mut e2 = begin(&st, &new_root);
    let first: Option<i32> = read(&e2, &t).expect("stored value is an i32");
    // a buffered write is invisible to reads of the same execution
    capstore::api::write(&mut e2, &t, 1000).expect("capability has WRITE");
    let second: Option<i32> = read(&e2, &t).expect("stored value is an i32");
    assert_eq!(first, Some(41));
    assert_eq!(first, second);
}

#[test]
fn wrong_shape_read_is_a_conversion_error_not_none() {
    let (mut st, root) = fresh_state_with_root();
    let mut e = begin(&st, &root);
    let t: TURef<i32> = new_turef(&mut e, 3);
    let new_root = st.commit(&root, &e.into_effects()).expect("seed write commits");
    let e2 = begin(&st, &new_root);
    let wrong: TURef<u64> = TURef::from_uref(URef::new(t.addr(), t.access_rights()));
    let got: Result<Option<u64>, Error> = read(&e2, &wrong);
    assert_eq!(got, Err(Error::ValueConversion));
}

#[test]
fn absent_key_reads_none() {
    let (st, root) = fresh_state_with_root();
    let e = begin(&st, &root);
    let t: TURef<i32> = TURef::new(Address::new(5, 5, 5, 5), AccessRights::read_add_write());
    let got: Option<i32> = read(&e, &t).expect("an absent key is not an error");
    assert_eq!(got, None);
}

#[test]
fn atomic_commit_rejects_a_malformed_transform_and_keeps_the_prior_root() {
    let (mut st, root) = fresh_state_with_root();
    let mut e = begin(&st, &root);
    let good: TURef<i32> = new_turef(&mut e, 1);
    // an add of a non-numeric value records a failure on its key
    let bad: TURef<Vec<u8>> = new_turef(&mut e, b"blob".to_vec());
    let base_root = st.commit(&root, &e.into_effects()).expect("two seed writes commit");

    let mut e2 = begin(&st, &base_root);
    capstore::api::write(&mut e2, &good, 2).expect("capability has WRITE");
    capstore::api::add(&mut e2, &bad, b"delta".to_vec()).expect("ADD right is present");
    let eff = e2.into_effects();
    let failed = st.commit(&base_root, &eff);
    assert_eq!(failed, Err(Error::CommitFailure));

    // the prior root still answers exactly as before: no partial application
    let e3 = begin(&st, &base_root);
    let good_val: Option<i32> = read(&e3, &good).expect("stored value is an i32");
    let bad_val: Option<Vec<u8>> = read(&e3, &bad).expect("stored value is a byte array");
    assert_eq!(good_val, Some(1));
    assert_eq!(bad_val, Some(b"blob".to_vec()));
}

#[test]
fn write_after_clashing_adds_commits_the_written_value() {
    let (mut st, root) = fresh_state_with_root();
    let mut e = begin(&st, &root);
    let t: TURef<i32> = new_turef(&mut e, 1);
    let base_root = st.commit(&root, &e.into_effects()).expect("seed write commits");

    let mut e2 = begin(&st, &base_root);
    let t_u64: TURef<u64> = TURef::new(t.addr(), AccessRights::read_add_write());
    capstore::api::add(&mut e2, &t, 1).expect("ADD right is present");
    capstore::api::add(&mut e2, &t_u64, 1u64).expect("ADD right is present");
    // the clashing add recorded a failure, but the write overwrites it
    capstore::api::write(&mut e2, &t, 5).expect("capability has WRITE");
    let new_root = st.commit(&base_root, &e2.into_effects()).expect("last write wins");
    let e3 = begin(&st, &new_root);
    let got: Option<i32> = read(&e3, &t).expect("stored value is an i32");
    assert_eq!(got, Some(5));
}

#[test]
fn cl_values_store_and_read_back() {
    let (mut st, root) = fresh_state_with_root();
    let mut e = begin(&st, &root);
    let cl = capstore::value::ClValue { type_tag: b"u512".to_vec(), bytes: vec![1, 2, 3] };
    let t: TURef<capstore::value::ClValue> = new_turef(&mut e, cl);
    let new_root = st.commit(&root, &e.into_effects()).expect("seed write commits");
    let e2 = begin(&st, &new_root);
    let got = read(&e2, &t).expect("stored value is a typed cross-boundary value");
    let got = got.expect("the slot was seeded");
    assert_eq!(got.type_tag, b"u512".to_vec());
    assert_eq!(got.bytes, vec![1, 2, 3]);
}

#[test]
fn commit_against_an_unknown_root_fails() {
    let (mut st, _root) = fresh_state_with_root();
    let eff = EffectMap::new();
    let missing = Address::new(7, 7, 7, 7);
    assert_eq!(st.commit(&missing, &eff), Err(Error::CommitFailure));
}

#[test]
fn read_at_an_unknown_root_fails() {
    let (st, _root) = fresh_state_with_root();
    let missing = Address::new(7, 7, 7, 7);
    let k = Key::Hash(Address::new(1, 2, 3, 4));
    assert!(matches!(st.read_at(&missing, &k), Err(Error::RootNotFound)));
}

#[test]
fn local_partition_round_trip_is_scoped_to_the_seed() {
    let (mut st, root) = fresh_state_with_root();
    let seed = Address::new(9, 9, 9, 9);
    let mut e = Execution::begin(&st, &root, seed, 0).expect("root was committed");
    let key_bytes: Vec<u8> = b"purse-index".to_vec();
    write_local(&mut e, &key_bytes, 99u64);
    let new_root = st.commit(&root, &e.into_effects()).expect("local write commits");

    let e2 = Execution::begin(&st, &new_root, seed, 0).expect("root was committed");
    let got: Option<u64> = read_local(&e2, &key_bytes).expect("stored value is a u64");
    assert_eq!(got, Some(99));

    // another context's seed sees its own empty partition
    let other = Execution::begin(&st, &new_root, Address::new(8, 8, 8, 8), 0)
        .expect("root was committed");
    let missed: Option<u64> = read_local(&other, &key_bytes).expect("a miss is not an error");
    assert_eq!(missed, None);
}

#[test]
fn stored_function_lands_under_its_capability() {
    let (st, root) = fresh_state_with_root();
    let mut e = begin(&st, &root);
    let name: Vec<u8> = b"hello_ext".to_vec();
    let bindings = vec![NamedKey { name: b"counter".to_vec(), key: Key::Hash(Address::new(0, 0, 0, 3)) }];
    let cref = store_function(&mut e, &name, bindings);
    let turef: TURef<capstore::value::Contract> = match &cref {
        ContractRef::TURef(t) => TURef::new(t.addr, t.rights),
        ContractRef::Hash(_) => panic!("store_function returns a capability"),
    };
    let eff = e.into_effects();
    let found = capstore::inspect::get_contract_uref(&eff, &name);
    assert!(found.is_some());
    assert_eq!(found.unwrap().addr, turef.addr);
}

#[test]
fn stored_function_at_hash_lands_under_a_hash_key() {
    let (mut st, root) = fresh_state_with_root();
    let mut e = begin(&st, &root);
    let name: Vec<u8> = b"create".to_vec();
    let cref = store_function_at_hash(&mut e, &name, Vec::new());
    let key = cref.to_key();
    assert!(matches!(key, Key::Hash(_)));
    let new_root = st.commit(&root, &e.into_effects()).expect("contract write commits");
    let stored = st.read_at(&new_root, &key).expect("root exists");
    match stored {
        Some(Value::Contract(c)) => assert_eq!(c.body, name),
        _ => panic!("a contract record was stored"),
    }
}

#[test]
fn turef_from_key_requires_the_uref_variant() {
    let k = Key::Hash(Address::new(1, 1, 1, 1));
    let r: Result<TURef<i32>, Error> = TURef::from_key(&k);
    assert_eq!(r.err(), Some(Error::UnexpectedKeyVariant));

    let u = URef::new(Address::new(2, 2, 2, 2), AccessRights::read_only());
    let ok: Result<TURef<i32>, Error> = TURef::from_key(&Key::URef(u));
    assert!(ok.is_ok());
    assert_eq!(ok.unwrap().addr(), Address::new(2, 2, 2, 2));
}

#[test]
fn genesis_installs_the_first_effect_map() {
    let mut st = GlobalState::new();
    let mut eff = EffectMap::new();
    let k = Key::Account(Address::new(0, 0, 0, 48));
    eff.insert_merge(&k, Transform::Write(Value::UInt64(100_000_000_000)));
    let root = st.genesis(&eff).expect("a write-only genesis map commits");
    let got = st.read_at(&root, &k).expect("the first root exists");
    match got {
        Some(Value::UInt64(x)) => assert_eq!(*x, 100_000_000_000),
        _ => panic!("the genesis write is visible at the first root"),
    }
}

#[test]
fn get_account_finds_the_written_record() {
    let mut eff = EffectMap::new();
    let k = Key::Account(Address::new(0, 0, 0, 1));
    let record = capstore::value::Account { address: Address::new(0, 0, 0, 1), named_keys: Vec::new() };
    eff.insert_merge(&k, Transform::Write(Value::Account(record)));
    let found = capstore::inspect::get_account(&eff, &k);
    assert!(found.is_some());
    assert_eq!(found.unwrap().address, Address::new(0, 0, 0, 1));
    let missing = capstore::inspect::get_account(&eff, &Key::Account(Address::new(0, 0, 0, 2)));
    assert!(missing.is_none());
}

#[test]
fn system_contract_bytes_resolve_by_kind() {
    let bundle = vec![
        (SystemContractType::Mint, b"mint-code".to_vec()),
        (SystemContractType::ProofOfStake, b"pos-code".to_vec()),
    ];
    let mint = capstore::inspect::get_system_contract_bytes(&bundle, SystemContractType::Mint);
    assert_eq!(mint, Some(b"mint-code".to_vec()));
    let none =
        capstore::inspect::get_system_contract_bytes(&bundle, SystemContractType::MintInstall);
    assert_eq!(none, None);
}

#[test]
fn mint_contract_uref_is_found_from_the_effects() {
    let (mut st, root) = fresh_state_with_root();
    let mut e = begin(&st, &root);
    let body: Vec<u8> = b"mint-code".to_vec();
    let cref = store_function(&mut e, &body, Vec::new());
    let minted = match &cref {
        ContractRef::TURef(t) => t.addr,
        ContractRef::Hash(_) => panic!("store_function returns a capability"),
    };
    let eff = e.into_effects();
    let bundle = vec![(SystemContractType::Mint, body)];
    let found = capstore::inspect::get_mint_contract_uref(&eff, &bundle);
    assert_eq!(found.map(|u| u.addr), Some(minted));
    let pos = capstore::inspect::get_pos_contract_uref(&eff, &bundle);
    assert!(pos.is_none());
    let _unused = st.commit(&root, &eff).expect("contract write commits");
}

#[test]
fn query_follows_named_key_paths() {
    let (mut st, root) = fresh_state_with_root();
    let mut e = begin(&st, &root);
    let slot: TURef<u64> = new_turef(&mut e, 512u64);
    let account_key = Key::Account(Address::new(0, 0, 0, 48));
    let record = capstore::value::Account {
        address: Address::new(0, 0, 0, 48),
        named_keys: vec![NamedKey { name: b"mint".to_vec(), key: slot.to_key() }],
    };
    let mut eff = e.into_effects();
    eff.insert_merge(&account_key, Transform::Write(Value::Account(record)));
    let new_root = st.commit(&root, &eff).expect("writes commit");

    let found = st
        .query(&new_root, &account_key, &vec![b"mint".to_vec()])
        .expect("root exists");
    match found {
        Some(Value::UInt64(x)) => assert_eq!(x, 512),
        _ => panic!("the path ends at the minted slot's value"),
    }
    let missing = st
        .query(&new_root, &account_key, &vec![b"pos".to_vec()])
        .expect("root exists");
    assert!(missing.is_none());
}
