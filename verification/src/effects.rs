//! The per-execution effect accumulator.
//!
//! An `EffectMap` collects the transforms one execution generates, at most
//! one net transform per key: a transform landing on a key that already has
//! one is merge-reduced into it with the algebra of `transform`.  A merge
//! that yields a failure occupies the key, so a conflicting add stays
//! visible instead of being dropped — until a later write supersedes it,
//! since the last write wins.

use vstd::prelude::*;
use crate::key::{Key, KeyView, key_eq, key_dup};
use crate::transform::{Transform, TransformView, spec_merge, merge};

verus! {

/// One key's pending net transform.
#[derive(Debug)]
pub struct EffectEntry {
    pub key: Key,
    pub transform: Transform,
}

/// Mathematical form of one accumulator entry.
pub struct EffectEntryView {
    pub key: KeyView,
    pub transform: TransformView,
}

impl View for EffectEntry {
    type V = EffectEntryView;

    open spec fn view(&self) -> EffectEntryView {
        EffectEntryView { key: self.key@, transform: self.transform@ }
    }
}

/// Looks a key up in a run of entries; the earliest occurrence decides.
pub open spec fn seq_get(s: Seq<EffectEntryView>, k: KeyView) -> Option<TransformView>
    decreases s.len(),
{
    if s.len() == 0 {
        None
    } else if s[0].key == k {
        Some(s[0].transform)
    } else {
        seq_get(s.skip(1), k)
    }
}

/// The key-deduplicated collection of merged transforms of one execution,
/// in generation order of each key's first mutation.
#[derive(Debug)]
pub struct EffectMap {
    pub entries: Vec<EffectEntry>,
}

impl EffectMap {
    /// Mathematical form: the run of entries.
    pub open spec fn view_entries(self) -> Seq<EffectEntryView> {
        self.entries@.map_values(|e: EffectEntry| e@)
    }

    /// Key uniqueness: a key has at most one net transform.
    pub open spec fn wf(self) -> bool {
        forall|i: int, j: int|
            0 <= i < j < self.view_entries().len() ==> self.view_entries()[i].key
                != self.view_entries()[j].key
    }

    /// The net transform pending for a key, if any.
    pub open spec fn spec_get(self, k: KeyView) -> Option<TransformView> {
        seq_get(self.view_entries(), k)
    }

    /// An empty accumulator: nothing pending.
    pub fn new() -> (r: EffectMap)
        ensures
            r.wf(),
            forall|k: KeyView| r.spec_get(k) is None,
            r.view_entries().len() == 0,
    {
        let r = EffectMap { entries: Vec::new() };
        proof {
            assert(forall|k: KeyView| seq_get(r.view_entries(), k) is None);
        }
        r
    }

    /// How many keys have a pending transform.
    pub fn len(&self) -> (n: usize)
        ensures
            n == self.view_entries().len(),
    {
        self.entries.len()
    }

    /// The position of a key's entry, if the key has one; every position
    /// before it misses the key.
    fn find(&self, k: &Key) -> (r: Option<usize>)
        ensures
            match r {
                Some(i) => i < self.view_entries().len() && self.view_entries()[i as int].key == k@
                    && (forall|j: int| 0 <= j < i ==> self.view_entries()[j].key != k@),
                None => forall|j: int|
                    0 <= j < self.view_entries().len() ==> self.view_entries()[j].key != k@,
            },
    {
        let n = self.entries.len();
        let mut i: usize = 0;
        while i < n
            invariant
                n == self.entries@.len(),
                i <= n,
                forall|j: int| 0 <= j < i ==> self.view_entries()[j].key != k@,
            decreases n - i,
        {
            if key_eq(&self.entries[i].key, k) {
                return Some(i);
            }
            i = i + 1;
        }
        None
    }

    /// The pending net transform for a key.
    pub fn get(&self, k: &Key) -> (r: Option<&Transform>)
        ensures
            match r {
                Some(t) => self.spec_get(k@) == Some(t@),
                None => self.spec_get(k@) is None,
            },
    {
        match self.find(k) {
            Some(i) => {
                proof {
                    lemma_seq_get_prefix_miss(self.view_entries(), k@, i as int);
                }
                Some(&self.entries[i].transform)
            },
            None => {
                proof {
                    lemma_seq_get_none(self.view_entries(), k@);
                }
                None
            },
        }
    }

    /// Records a freshly generated transform for a key: it merges into the
    /// key's pending transform, or starts one.  Every other key's pending
    /// transform is untouched.
    pub fn insert_merge(&mut self, k: &Key, t: Transform)
        requires
            old(self).wf(),
        ensures
            final(self).wf(),
            final(self).spec_get(k@) == Some(
                match old(self).spec_get(k@) {
                    Some(prior) => spec_merge(prior, t@),
                    None => t@,
                },
            ),
            forall|k2: KeyView| k2 != k@ ==> final(self).spec_get(k2) == old(self).spec_get(k2),
    {
        let found = self.find(k);
        match found {
            Some(i) => {
                proof {
                    lemma_seq_get_prefix_miss(old(self).view_entries(), k@, i as int);
                }
                let prior_entry = self.entries.remove(i);
                let merged = merge(prior_entry.transform, t);
                let new_entry = EffectEntry { key: prior_entry.key, transform: merged };
                self.entries.insert(i, new_entry);
                proof {
                    let ov = old(self).view_entries();
                    let nv = self.view_entries();
                    assert(self.entries@ =~= old(self).entries@.update(i as int, new_entry));
                    assert(nv =~= ov.update(
                        i as int,
                        EffectEntryView {
                            key: k@,
                            transform: spec_merge(ov[i as int].transform, t@),
                        },
                    ));
                    lemma_seq_get_update(ov, nv, k@, i as int);
                    assert forall|a: int, b: int|
                        0 <= a < b < nv.len() implies nv[a].key != nv[b].key by {
                        assert(ov[a].key == nv[a].key || a == i);
                        assert(ov[b].key == nv[b].key || b == i);
                    }
                }
            },
            None => {
                proof {
                    lemma_seq_get_none(old(self).view_entries(), k@);
                }
                let new_entry = EffectEntry { key: key_dup(k), transform: t };
                self.entries.push(new_entry);
                proof {
                    let ov = old(self).view_entries();
                    let nv = self.view_entries();
                    assert(nv =~= ov.push(EffectEntryView { key: k@, transform: t@ }));
                    lemma_seq_get_push(ov, k@, t@);
                    assert forall|a: int, b: int|
                        0 <= a < b < nv.len() implies nv[a].key != nv[b].key by {
                        if b < nv.len() - 1 {
                            assert(nv[a] == ov[a] && nv[b] == ov[b]);
                        } else {
                            assert(nv[a] == ov[a] && nv[b].key == k@);
                        }
                    }
                }
            },
        }
    }
}

/// If every entry before position `i` misses `k`, the lookup result is
/// decided at or after `i`.
pub proof fn lemma_seq_get_prefix_miss(s: Seq<EffectEntryView>, k: KeyView, i: int)
    requires
        0 <= i < s.len(),
        forall|j: int| 0 <= j < i ==> s[j].key != k,
        s[i].key == k,
    ensures
        seq_get(s, k) == Some(s[i].transform),
    decreases i,
{
    if i == 0 {
    } else {
        lemma_seq_get_prefix_miss(s.skip(1), k, i - 1);
    }
}

/// Updating position `i`, whose key is `k` and is missed by every earlier
/// entry, changes the lookup at `k` to the new transform and no other.
proof fn lemma_seq_get_update(s: Seq<EffectEntryView>, s2: Seq<EffectEntryView>, k: KeyView, i: int)
    requires
        0 <= i < s.len(),
        forall|j: int| 0 <= j < i ==> s[j].key != k,
        s[i].key == k,
        s2.len() == s.len(),
        s2[i].key == k,
        forall|j: int| 0 <= j < s.len() && j != i ==> s2[j] == s[j],
    ensures
        seq_get(s2, k) == Some(s2[i].transform),
        forall|k2: KeyView| k2 != k ==> seq_get(s2, k2) == seq_get(s, k2),
    decreases s.len(),
{
    if i == 0 {
        assert forall|k2: KeyView| k2 != k implies seq_get(s2, k2) == seq_get(s, k2) by {
            assert(s2.skip(1) =~= s.skip(1));
        }
    } else {
        assert forall|j: int| 0 <= j < i - 1 implies s.skip(1)[j].key != k by {
            assert(s.skip(1)[j] == s[j + 1]);
        }
        assert(s.skip(1)[i - 1] == s[i]);
        assert(s2.skip(1)[i - 1] == s2[i]);
        assert forall|j: int|
            0 <= j < s.skip(1).len() && j != i - 1 implies s2.skip(1)[j] == s.skip(1)[j] by {
            assert(s2.skip(1)[j] == s2[j + 1]);
            assert(s.skip(1)[j] == s[j + 1]);
        }
        lemma_seq_get_update(s.skip(1), s2.skip(1), k, i - 1);
        assert(s2[0] == s[0]);
        assert(s[0].key != k);
        assert(seq_get(s2, k) == seq_get(s2.skip(1), k));
        assert forall|k2: KeyView| k2 != k implies seq_get(s2, k2) == seq_get(s, k2) by {
            if s[0].key == k2 {
            } else {
                assert(seq_get(s2, k2) == seq_get(s2.skip(1), k2));
                assert(seq_get(s, k2) == seq_get(s.skip(1), k2));
            }
        }
    }
}

/// Appending an entry decides lookups of its key only where every earlier
/// entry missed it, and no other key's lookup.
proof fn lemma_seq_get_push(s: Seq<EffectEntryView>, k: KeyView, t: TransformView)
    ensures
        seq_get(s, k) is None ==> seq_get(
            s.push(EffectEntryView { key: k, transform: t }),
            k,
        ) == Some(t),
        forall|k2: KeyView|
            k2 != k ==> seq_get(s.push(EffectEntryView { key: k, transform: t }), k2) == seq_get(
                s,
                k2,
            ),
    decreases s.len(),
{
    let s2 = s.push(EffectEntryView { key: k, transform: t });
    if s.len() == 0 {
        assert(s2[0].key == k);
        assert forall|k2: KeyView| k2 != k implies seq_get(s2, k2) == seq_get(s, k2) by {
            assert(seq_get(s2.skip(1), k2) is None);
        }
    } else {
        lemma_seq_get_push(s.skip(1), k, t);
        assert(s2.skip(1) =~= s.skip(1).push(EffectEntryView { key: k, transform: t }));
        assert forall|k2: KeyView| k2 != k implies seq_get(s2, k2) == seq_get(s, k2) by {
            if s[0].key == k2 {
                assert(s2[0] == s[0]);
            } else {
                assert(seq_get(s2, k2) == seq_get(s2.skip(1), k2));
                assert(seq_get(s, k2) == seq_get(s.skip(1), k2));
            }
        }
    }
}

/// A lookup that misses everywhere misses: if no entry's key is `k`, the
/// lookup is `None` — and conversely a `None` lookup means every entry
/// misses.
pub proof fn lemma_seq_get_none(s: Seq<EffectEntryView>, k: KeyView)
    ensures
        (seq_get(s, k) is None) <==> (forall|j: int| 0 <= j < s.len() ==> s[j].key != k),
    decreases s.len(),
{
    if s.len() > 0 {
        lemma_seq_get_none(s.skip(1), k);
        assert forall|j: int| 0 <= j < s.len() && seq_get(s, k) is None implies s[j].key != k by {
            if j > 0 {
                assert(s.skip(1)[j - 1] == s[j]);
            }
        }
        if (forall|j: int| 0 <= j < s.len() ==> s[j].key != k) {
            assert forall|j: int| 0 <= j < s.skip(1).len() implies s.skip(1)[j].key != k by {
                assert(s.skip(1)[j] == s[j + 1]);
            }
        }
    }
}

/// A positive lookup names some entry: `seq_get` finding `k` means some
/// position holds `k` with that transform.
pub proof fn lemma_seq_get_some_position(s: Seq<EffectEntryView>, k: KeyView)
    requires
        seq_get(s, k) is Some,
    ensures
        exists|j: int|
            0 <= j < s.len() && s[j].key == k && seq_get(s, k) == Some(s[j].transform),
    decreases s.len(),
{
    if s.len() > 0 {
        if s[0].key == k {
        } else {
            lemma_seq_get_some_position(s.skip(1), k);
            let j = choose|j: int|
                0 <= j < s.skip(1).len() && s.skip(1)[j].key == k && seq_get(s.skip(1), k) == Some(
                    s.skip(1)[j].transform,
                );
            assert(s[j + 1] == s.skip(1)[j]);
        }
    }
}

} // verus!
