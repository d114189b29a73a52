//! Reading facts out of an effect map.
//!
//! After an execution, callers dig its effect map for the records it wrote:
//! the account record under a key, or the capability under which a known
//! contract body was stored.

use vstd::prelude::*;
use crate::key::{Key, KeyView, URef};
use crate::value::{Value, ValueView, Account, named_keys_dup};
use crate::transform::{Transform, TransformView};
use crate::effects::{EffectMap, EffectEntryView};

verus! {

/// The well-known system contracts and their installers.
#[derive(Debug, Copy, Clone, Hash, PartialEq, Eq, Structural)]
pub enum SystemContractType {
    Mint,
    MintInstall,
    ProofOfStake,
    ProofOfStakeInstall,
}

/// True of an accumulator entry that writes a contract record with exactly
/// this body under a capability-addressed slot.
pub open spec fn writes_contract_body(e: EffectEntryView, body: Seq<u8>) -> bool {
    &&& e.key is URef
    &&& e.transform matches TransformView::Write(ValueView::Contract(c)) && c.body == body
}

/// The capability under which a run of entries writes a contract record
/// with this body; the earliest matching entry decides.
pub open spec fn spec_find_contract_uref(s: Seq<EffectEntryView>, body: Seq<u8>) -> Option<URef>
    decreases s.len(),
{
    if s.len() == 0 {
        None
    } else if writes_contract_body(s[0], body) {
        match s[0].key {
            KeyView::URef(u) => Some(u),
            _ => None,
        }
    } else {
        spec_find_contract_uref(s.skip(1), body)
    }
}

proof fn lemma_find_contract_uref_prefix_miss(s: Seq<EffectEntryView>, body: Seq<u8>, i: int)
    requires
        0 <= i < s.len(),
        forall|j: int| 0 <= j < i ==> !writes_contract_body(#[trigger] s[j], body),
        writes_contract_body(s[i], body),
    ensures
        spec_find_contract_uref(s, body) == (match s[i].key {
            KeyView::URef(u) => Some(u),
            _ => None,
        }),
    decreases i,
{
    if i > 0 {
        assert forall|j: int| 0 <= j < i - 1 implies !writes_contract_body(
            #[trigger] s.skip(1)[j],
            body,
        ) by {
            assert(s.skip(1)[j] == s[j + 1]);
        }
        assert(s.skip(1)[i - 1] == s[i]);
        lemma_find_contract_uref_prefix_miss(s.skip(1), body, i - 1);
    }
}

proof fn lemma_find_contract_uref_none(s: Seq<EffectEntryView>, body: Seq<u8>)
    requires
        forall|j: int| 0 <= j < s.len() ==> !writes_contract_body(#[trigger] s[j], body),
    ensures
        spec_find_contract_uref(s, body) is None,
    decreases s.len(),
{
    if s.len() > 0 {
        assert forall|j: int| 0 <= j < s.skip(1).len() implies !writes_contract_body(
            #[trigger] s.skip(1)[j],
            body,
        ) by {
            assert(s.skip(1)[j] == s[j + 1]);
        }
        lemma_find_contract_uref_none(s.skip(1), body);
    }
}

/// The capability slot under which a contract with the given body was
/// written in this effect map, if any; the earliest matching entry decides.
pub fn get_contract_uref(effects: &EffectMap, contract: &Vec<u8>) -> (r: Option<URef>)
    ensures
        match r {
            Some(u) => spec_find_contract_uref(effects.view_entries(), contract@) == Some(u),
            None => spec_find_contract_uref(effects.view_entries(), contract@) is None,
        },
{
    let ghost ev = effects.view_entries();
    let n = effects.entries.len();
    let mut i: usize = 0;
    while i < n
        invariant
            n == effects.entries@.len(),
            ev == effects.view_entries(),
            i <= n,
            forall|j: int| 0 <= j < i ==> !writes_contract_body(#[trigger] ev[j], contract@),
        decreases n - i,
    {
        let entry = &effects.entries[i];
        match (&entry.key, &entry.transform) {
            (Key::URef(u), Transform::Write(Value::Contract(c))) => {
                if crate::key::bytes_eq(&c.body, contract) {
                    proof {
                        assert(writes_contract_body(ev[i as int], contract@));
                        lemma_find_contract_uref_prefix_miss(ev, contract@, i as int);
                    }
                    return Some(*u);
                }
            },
            _ => {},
        }
        proof {
            assert(!writes_contract_body(ev[i as int], contract@));
        }
        i = i + 1;
    }
    proof {
        lemma_find_contract_uref_none(ev, contract@);
    }
    None
}

/// The account record this effect map writes under the given key, if any.
pub fn get_account(effects: &EffectMap, account: &Key) -> (r: Option<Account>)
    ensures
        match r {
            Some(a) => effects.spec_get(account@) matches Some(TransformView::Write(v))
                && v == ValueView::Account(a@),
            None => !(effects.spec_get(account@) matches Some(TransformView::Write(v))
                && v is Account),
        },
{
    match effects.get(account) {
        Some(t) => match t {
            Transform::Write(Value::Account(a)) => Some(
                Account { address: a.address, named_keys: named_keys_dup(&a.named_keys) },
            ),
            _ => None,
        },
        None => None,
    }
}

/// The view of a bundle of system contracts: each entry's kind and body.
pub open spec fn bundle_view(contracts: Seq<(SystemContractType, Vec<u8>)>) -> Seq<
    (SystemContractType, Seq<u8>),
> {
    contracts.map_values(|p: (SystemContractType, Vec<u8>)| (p.0, p.1@))
}

/// The body a bundle gives one system contract; the earliest entry of that
/// kind decides.
pub open spec fn spec_find_bundle(
    s: Seq<(SystemContractType, Seq<u8>)>,
    which: SystemContractType,
) -> Option<Seq<u8>>
    decreases s.len(),
{
    if s.len() == 0 {
        None
    } else if s[0].0 == which {
        Some(s[0].1)
    } else {
        spec_find_bundle(s.skip(1), which)
    }
}

proof fn lemma_find_bundle_prefix_miss(
    s: Seq<(SystemContractType, Seq<u8>)>,
    which: SystemContractType,
    i: int,
)
    requires
        0 <= i < s.len(),
        forall|j: int| 0 <= j < i ==> (#[trigger] s[j]).0 != which,
        s[i].0 == which,
    ensures
        spec_find_bundle(s, which) == Some(s[i].1),
    decreases i,
{
    if i > 0 {
        assert forall|j: int| 0 <= j < i - 1 implies (#[trigger] s.skip(1)[j]).0 != which by {
            assert(s.skip(1)[j] == s[j + 1]);
        }
        assert(s.skip(1)[i - 1] == s[i]);
        lemma_find_bundle_prefix_miss(s.skip(1), which, i - 1);
    }
}

proof fn lemma_find_bundle_none(
    s: Seq<(SystemContractType, Seq<u8>)>,
    which: SystemContractType,
)
    requires
        forall|j: int| 0 <= j < s.len() ==> (#[trigger] s[j]).0 != which,
    ensures
        spec_find_bundle(s, which) is None,
    decreases s.len(),
{
    if s.len() > 0 {
        assert forall|j: int| 0 <= j < s.skip(1).len() implies (#[trigger] s.skip(1)[j]).0
            != which by {
            assert(s.skip(1)[j] == s[j + 1]);
        }
        lemma_find_bundle_none(s.skip(1), which);
    }
}

/// The compiled body of one system contract in a bundle of them, if the
/// bundle holds that contract; the earliest matching entry decides.
pub fn get_system_contract_bytes(
    contracts: &Vec<(SystemContractType, Vec<u8>)>,
    which: SystemContractType,
) -> (r: Option<Vec<u8>>)
    ensures
        match r {
            Some(b) => spec_find_bundle(bundle_view(contracts@), which) == Some(b@),
            None => spec_find_bundle(bundle_view(contracts@), which) is None,
        },
{
    let ghost bv = bundle_view(contracts@);
    let n = contracts.len();
    let mut i: usize = 0;
    while i < n
        invariant
            n == contracts@.len(),
            bv == bundle_view(contracts@),
            i <= n,
            forall|j: int| 0 <= j < i ==> (#[trigger] bv[j]).0 != which,
        decreases n - i,
    {
        if contracts[i].0 == which {
            proof {
                lemma_find_bundle_prefix_miss(bv, which, i as int);
            }
            return Some(crate::key::bytes_dup(&contracts[i].1));
        }
        proof {
            assert(bv[i as int].0 != which);
        }
        i = i + 1;
    }
    proof {
        lemma_find_bundle_none(bv, which);
    }
    None
}

/// What looking one system contract's capability up yields: the bundle
/// names the body, the effect map names the slot it was written under.
pub open spec fn spec_system_contract_uref(
    effects: EffectMap,
    contracts: Seq<(SystemContractType, Vec<u8>)>,
    which: SystemContractType,
) -> Option<URef> {
    match spec_find_bundle(bundle_view(contracts), which) {
        None => None,
        Some(body) => spec_find_contract_uref(effects.view_entries(), body),
    }
}

/// The capability slot under which the bundle's mint contract was written
/// in this effect map, if the bundle names a mint and the map wrote it.
pub fn get_mint_contract_uref(
    effects: &EffectMap,
    contracts: &Vec<(SystemContractType, Vec<u8>)>,
) -> (r: Option<URef>)
    ensures
        r == spec_system_contract_uref(*effects, contracts@, SystemContractType::Mint),
{
    match get_system_contract_bytes(contracts, SystemContractType::Mint) {
        Some(body) => get_contract_uref(effects, &body),
        None => None,
    }
}

/// The capability slot under which the bundle's proof-of-stake contract was
/// written in this effect map, if the bundle names one and the map wrote it.
pub fn get_pos_contract_uref(
    effects: &EffectMap,
    contracts: &Vec<(SystemContractType, Vec<u8>)>,
) -> (r: Option<URef>)
    ensures
        r == spec_system_contract_uref(*effects, contracts@, SystemContractType::ProofOfStake),
{
    match get_system_contract_bytes(contracts, SystemContractType::ProofOfStake) {
        Some(body) => get_contract_uref(effects, &body),
        None => None,
    }
}

} // verus!
