//! Path queries over a committed snapshot.
//!
//! A query starts at a base key and follows a path of binding names: each
//! step reads the current key's record, which must be an account or contract
//! record, and moves to the key its bindings give that name.  The value at
//! the end of the path is the answer; a miss anywhere is `None`.

use vstd::prelude::*;
use crate::key::{Key, KeyView, Address, key_dup, normalize, spec_normalize};
use crate::value::{Value, ValueView, NamedKey, NamedKeyView, value_dup};
use crate::state::{GlobalState, StoreEntryView, store_get};
use crate::error::Error;

verus! {

/// The binding a name resolves to in a record's binding list; the earliest
/// occurrence decides.
pub open spec fn spec_find_named_key(nks: Seq<NamedKeyView>, name: Seq<u8>) -> Option<KeyView>
    decreases nks.len(),
{
    if nks.len() == 0 {
        None
    } else if nks[0].name == name {
        Some(nks[0].key)
    } else {
        spec_find_named_key(nks.skip(1), name)
    }
}

proof fn lemma_find_named_key_prefix_miss(nks: Seq<NamedKeyView>, name: Seq<u8>, i: int)
    requires
        0 <= i < nks.len(),
        forall|j: int| 0 <= j < i ==> nks[j].name != name,
        nks[i].name == name,
    ensures
        spec_find_named_key(nks, name) == Some(nks[i].key),
    decreases i,
{
    if i > 0 {
        lemma_find_named_key_prefix_miss(nks.skip(1), name, i - 1);
    }
}

proof fn lemma_find_named_key_none(nks: Seq<NamedKeyView>, name: Seq<u8>)
    requires
        forall|j: int| 0 <= j < nks.len() ==> nks[j].name != name,
    ensures
        spec_find_named_key(nks, name) is None,
    decreases nks.len(),
{
    if nks.len() > 0 {
        assert forall|j: int| 0 <= j < nks.skip(1).len() implies nks.skip(1)[j].name != name by {
            assert(nks.skip(1)[j] == nks[j + 1]);
        }
        lemma_find_named_key_none(nks.skip(1), name);
    }
}

/// Looks a binding name up in a record's binding list.
pub fn find_named_key(nks: &Vec<NamedKey>, name: &Vec<u8>) -> (r: Option<Key>)
    ensures
        match r {
            Some(k) => spec_find_named_key(nks@.map_values(|nk: NamedKey| nk@), name@) == Some(
                k@,
            ),
            None => spec_find_named_key(nks@.map_values(|nk: NamedKey| nk@), name@) is None,
        },
{
    let ghost nv = nks@.map_values(|nk: NamedKey| nk@);
    let n = nks.len();
    let mut i: usize = 0;
    while i < n
        invariant
            n == nks@.len(),
            nv == nks@.map_values(|nk: NamedKey| nk@),
            i <= n,
            forall|j: int| 0 <= j < i ==> nv[j].name != name@,
        decreases n - i,
    {
        if crate::key::bytes_eq(&nks[i].name, name) {
            proof {
                lemma_find_named_key_prefix_miss(nv, name@, i as int);
            }
            return Some(key_dup(&nks[i].key));
        }
        i = i + 1;
    }
    proof {
        lemma_find_named_key_none(nv, name@);
    }
    None
}

/// The binding list a record exposes to path traversal: account and
/// contract records expose theirs, no other value exposes any.
pub open spec fn spec_named_keys_of(v: ValueView) -> Option<Seq<NamedKeyView>> {
    match v {
        ValueView::Account(a) => Some(a.named_keys),
        ValueView::Contract(c) => Some(c.named_keys),
        _ => None,
    }
}

/// What following a path of binding names from a base key through a
/// snapshot's bindings yields.
pub open spec fn spec_query(
    entries: Seq<StoreEntryView>,
    base: KeyView,
    path: Seq<Seq<u8>>,
) -> Option<ValueView>
    decreases path.len(),
{
    match store_get(entries, spec_normalize(base)) {
        None => None,
        Some(v) => if path.len() == 0 {
            Some(v)
        } else {
            match spec_named_keys_of(v) {
                None => None,
                Some(nks) => match spec_find_named_key(nks, path[0]) {
                    None => None,
                    Some(k) => spec_query(entries, k, path.skip(1)),
                },
            }
        },
    }
}

impl GlobalState {
    /// Follows a path of binding names from a base key through the snapshot
    /// a root names, and returns the value at the end of the path; a miss
    /// anywhere along the path is `None`, an unknown root an error.
    pub fn query(&self, root: &Address, base_key: &Key, path: &Vec<Vec<u8>>) -> (r: Result<
        Option<Value>,
        Error,
    >)
        ensures
            match r {
                Ok(Some(v)) => self.spec_has_root(*root) && spec_query(
                    self.view_roots()[root.w3 as int],
                    base_key@,
                    path@.map_values(|p: Vec<u8>| p@),
                ) == Some(v@),
                Ok(None) => self.spec_has_root(*root) && spec_query(
                    self.view_roots()[root.w3 as int],
                    base_key@,
                    path@.map_values(|p: Vec<u8>| p@),
                ) is None,
                Err(e) => e == Error::RootNotFound && !self.spec_has_root(*root),
            },
    {
        if !(root.w0 == 0 && root.w1 == 0 && root.w2 == 0 && root.w3 < (self.snapshots.len()
            as u64)) {
            return Err(Error::RootNotFound);
        }
        let idx: usize = root.w3 as usize;
        let snap = &self.snapshots[idx];
        let ghost entries = snap.view_entries();
        proof {
            assert(self.view_roots()[root.w3 as int] == entries);
        }
        let ghost full_path = path@.map_values(|p: Vec<u8>| p@);
        let n = path.len();
        let mut cur: Key = key_dup(base_key);
        let mut i: usize = 0;
        proof {
            assert(full_path.skip(0) =~= full_path);
        }
        loop
            invariant
                n == path@.len(),
                full_path == path@.map_values(|p: Vec<u8>| p@),
                entries == snap.view_entries(),
                i <= n,
                spec_query(entries, base_key@, full_path) == spec_query(
                    entries,
                    cur@,
                    full_path.skip(i as int),
                ),
            ensures
                i <= n,
                (match spec_query(entries, base_key@, full_path) {
                    Some(v) => snap.spec_get(spec_normalize(cur@)) == Some(v) && i == n,
                    None => snap.spec_get(spec_normalize(cur@)) is None || (i == n) || !(
                    spec_query(entries, cur@, full_path.skip(i as int)) is Some),
                }),
                spec_query(entries, base_key@, full_path) == spec_query(
                    entries,
                    cur@,
                    full_path.skip(i as int),
                ),
                spec_query(entries, cur@, full_path.skip(i as int)) is Some ==> i == n,
            decreases n - i,
        {
            let slot = normalize(&cur);
            let got = snap.get(&slot);
            match got {
                None => {
                    proof {
                        assert(spec_query(entries, cur@, full_path.skip(i as int)) is None);
                    }
                    break ;
                },
                Some(v) => {
                    if i == n {
                        proof {
                            assert(full_path.skip(n as int).len() == 0);
                        }
                        break ;
                    }
                    let bindings: &Vec<NamedKey> = match v {
                        Value::Account(a) => &a.named_keys,
                        Value::Contract(c) => &c.named_keys,
                        _ => {
                            proof {
                                assert(spec_named_keys_of(v@) is None);
                                assert(spec_query(
                                    entries,
                                    cur@,
                                    full_path.skip(i as int),
                                ) is None);
                            }
                            break ;
                        },
                    };
                    match find_named_key(bindings, &path[i]) {
                        Some(next) => {
                            proof {
                                assert(full_path.skip(i as int)[0] == full_path[i as int]);
                                assert(full_path.skip(i as int).skip(1) =~= full_path.skip(
                                    i + 1,
                                ));
                            }
                            cur = next;
                            i = i + 1;
                        },
                        None => {
                            proof {
                                assert(full_path.skip(i as int)[0] == full_path[i as int]);
                                assert(spec_query(
                                    entries,
                                    cur@,
                                    full_path.skip(i as int),
                                ) is None);
                            }
                            break ;
                        },
                    }
                },
            }
        }
        proof {
            if i == n {
                assert(full_path.skip(n as int).len() == 0);
            }
        }
        let slot = normalize(&cur);
        match snap.get(&slot) {
            Some(v) => {
                if i == n {
                    Ok(Some(value_dup(v)))
                } else {
                    Ok(None)
                }
            },
            None => Ok(None),
        }
    }
}

} // verus!
