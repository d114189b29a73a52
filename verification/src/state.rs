//! The versioned global store: snapshots, roots, and the atomic commit.
//!
//! Each committed root names one immutable snapshot of the whole store.
//! A commit consumes a root and an effect map and either applies every
//! transform, producing exactly one successor root, or applies nothing.
//! Roots here are counter-derived addresses: the in-memory store is a
//! stand-in for the external content-addressed trie, honouring the same
//! interface — snapshot reads at a root, and atomic root-to-root commits.

use vstd::prelude::*;
use crate::key::{Key, KeyView, Address, key_eq, key_dup};
use crate::value::{Value, ValueView, value_dup};
use crate::effects::{EffectMap, lemma_seq_get_some_position, seq_get};
use crate::transform::{spec_apply, apply, FailureReason};
use crate::error::Error;

verus! {

/// One stored binding.
#[derive(Debug)]
pub struct StoreEntry {
    pub key: Key,
    pub value: Value,
}

/// Mathematical form of one stored binding.
pub struct StoreEntryView {
    pub key: KeyView,
    pub value: ValueView,
}

impl View for StoreEntry {
    type V = StoreEntryView;

    open spec fn view(&self) -> StoreEntryView {
        StoreEntryView { key: self.key@, value: self.value@ }
    }
}

/// Looks a key up in a run of bindings; the earliest occurrence decides.
pub open spec fn store_get(s: Seq<StoreEntryView>, k: KeyView) -> Option<ValueView>
    decreases s.len(),
{
    if s.len() == 0 {
        None
    } else if s[0].key == k {
        Some(s[0].value)
    } else {
        store_get(s.skip(1), k)
    }
}

/// One immutable snapshot of the whole store.
#[derive(Debug)]
pub struct Snapshot {
    pub entries: Vec<StoreEntry>,
}

impl Snapshot {
    /// Mathematical form: the run of bindings.
    pub open spec fn view_entries(self) -> Seq<StoreEntryView> {
        self.entries@.map_values(|e: StoreEntry| e@)
    }

    /// Key uniqueness: a key holds at most one value.
    pub open spec fn wf(self) -> bool {
        forall|i: int, j: int|
            0 <= i < j < self.view_entries().len() ==> self.view_entries()[i].key
                != self.view_entries()[j].key
    }

    /// The value stored under a key, if any.
    pub open spec fn spec_get(self, k: KeyView) -> Option<ValueView> {
        store_get(self.view_entries(), k)
    }

    /// The empty snapshot.
    pub fn new() -> (r: Snapshot)
        ensures
            r.wf(),
            r.view_entries().len() == 0,
            forall|k: KeyView| r.spec_get(k) is None,
    {
        let r = Snapshot { entries: Vec::new() };
        proof {
            assert(forall|k: KeyView| store_get(r.view_entries(), k) is None);
        }
        r
    }

    /// The position of a key's binding, if the key has one.
    fn find(&self, k: &Key) -> (r: Option<usize>)
        ensures
            match r {
                Some(i) => i < self.view_entries().len() && self.view_entries()[i as int].key == k@
                    && (forall|j: int| 0 <= j < i ==> self.view_entries()[j].key != k@),
                None => forall|j: int|
                    0 <= j < self.view_entries().len() ==> self.view_entries()[j].key != k@,
            },
    {
        let n = self.entries.len();
        let mut i: usize = 0;
        while i < n
            invariant
                n == self.entries@.len(),
                i <= n,
                forall|j: int| 0 <= j < i ==> self.view_entries()[j].key != k@,
            decreases n - i,
        {
            if key_eq(&self.entries[i].key, k) {
                return Some(i);
            }
            i = i + 1;
        }
        None
    }

    /// The value stored under a key.
    pub fn get(&self, k: &Key) -> (r: Option<&Value>)
        ensures
            match r {
                Some(v) => self.spec_get(k@) == Some(v@),
                None => self.spec_get(k@) is None,
            },
    {
        match self.find(k) {
            Some(i) => {
                proof {
                    lemma_store_get_prefix_miss(self.view_entries(), k@, i as int);
                }
                Some(&self.entries[i].value)
            },
            None => {
                proof {
                    lemma_store_get_none(self.view_entries(), k@);
                }
                None
            },
        }
    }

    /// Binds a key to a value, replacing any prior binding of that key and
    /// no other.
    pub fn set(&mut self, k: &Key, v: Value)
        requires
            old(self).wf(),
        ensures
            final(self).wf(),
            final(self).spec_get(k@) == Some(v@),
            forall|k2: KeyView| k2 != k@ ==> final(self).spec_get(k2) == old(self).spec_get(k2),
    {
        let found = self.find(k);
        match found {
            Some(i) => {
                let prior_entry = self.entries.remove(i);
                let new_entry = StoreEntry { key: prior_entry.key, value: v };
                self.entries.insert(i, new_entry);
                proof {
                    let ov = old(self).view_entries();
                    let nv = self.view_entries();
                    assert(self.entries@ =~= old(self).entries@.update(i as int, new_entry));
                    assert(nv =~= ov.update(
                        i as int,
                        StoreEntryView { key: k@, value: v@ },
                    ));
                    lemma_store_get_update(ov, nv, k@, i as int);
                    assert forall|a: int, b: int|
                        0 <= a < b < nv.len() implies nv[a].key != nv[b].key by {
                        assert(ov[a].key == nv[a].key || a == i);
                        assert(ov[b].key == nv[b].key || b == i);
                    }
                }
            },
            None => {
                proof {
                    lemma_store_get_none(old(self).view_entries(), k@);
                }
                let new_entry = StoreEntry { key: key_dup(k), value: v };
                self.entries.push(new_entry);
                proof {
                    let ov = old(self).view_entries();
                    let nv = self.view_entries();
                    assert(nv =~= ov.push(StoreEntryView { key: k@, value: v@ }));
                    lemma_store_get_push(ov, k@, v@);
                    assert forall|a: int, b: int|
                        0 <= a < b < nv.len() implies nv[a].key != nv[b].key by {
                        if b < nv.len() - 1 {
                            assert(nv[a] == ov[a] && nv[b] == ov[b]);
                        } else {
                            assert(nv[a] == ov[a] && nv[b].key == k@);
                        }
                    }
                }
            },
        }
    }

    /// Copies a snapshot binding for binding.
    pub fn dup(&self) -> (r: Snapshot)
        ensures
            r.view_entries() == self.view_entries(),
    {
        let mut out: Vec<StoreEntry> = Vec::new();
        let n = self.entries.len();
        let mut i: usize = 0;
        while i < n
            invariant
                n == self.entries@.len(),
                i <= n,
                out@.len() == i,
                forall|j: int| 0 <= j < i ==> out@[j]@ == self.entries@[j]@,
            decreases n - i,
        {
            let e = &self.entries[i];
            out.push(StoreEntry { key: key_dup(&e.key), value: value_dup(&e.value) });
            i = i + 1;
        }
        let r = Snapshot { entries: out };
        proof {
            assert(r.view_entries() =~= self.view_entries());
        }
        r
    }
}

proof fn lemma_store_get_prefix_miss(s: Seq<StoreEntryView>, k: KeyView, i: int)
    requires
        0 <= i < s.len(),
        forall|j: int| 0 <= j < i ==> s[j].key != k,
        s[i].key == k,
    ensures
        store_get(s, k) == Some(s[i].value),
    decreases i,
{
    if i == 0 {
    } else {
        lemma_store_get_prefix_miss(s.skip(1), k, i - 1);
    }
}

proof fn lemma_store_get_update(s: Seq<StoreEntryView>, s2: Seq<StoreEntryView>, k: KeyView, i: int)
    requires
        0 <= i < s.len(),
        forall|j: int| 0 <= j < i ==> s[j].key != k,
        s[i].key == k,
        s2.len() == s.len(),
        s2[i].key == k,
        forall|j: int| 0 <= j < s.len() && j != i ==> s2[j] == s[j],
    ensures
        store_get(s2, k) == Some(s2[i].value),
        forall|k2: KeyView| k2 != k ==> store_get(s2, k2) == store_get(s, k2),
    decreases s.len(),
{
    if i == 0 {
        assert forall|k2: KeyView| k2 != k implies store_get(s2, k2) == store_get(s, k2) by {
            assert(s2.skip(1) =~= s.skip(1));
        }
    } else {
        assert forall|j: int| 0 <= j < i - 1 implies s.skip(1)[j].key != k by {
            assert(s.skip(1)[j] == s[j + 1]);
        }
        assert(s.skip(1)[i - 1] == s[i]);
        assert(s2.skip(1)[i - 1] == s2[i]);
        assert forall|j: int|
            0 <= j < s.skip(1).len() && j != i - 1 implies s2.skip(1)[j] == s.skip(1)[j] by {
            assert(s2.skip(1)[j] == s2[j + 1]);
            assert(s.skip(1)[j] == s[j + 1]);
        }
        lemma_store_get_update(s.skip(1), s2.skip(1), k, i - 1);
        assert(s2[0] == s[0]);
        assert(s[0].key != k);
        assert forall|k2: KeyView| k2 != k implies store_get(s2, k2) == store_get(s, k2) by {
            if s[0].key == k2 {
            } else {
                assert(store_get(s2, k2) == store_get(s2.skip(1), k2));
                assert(store_get(s, k2) == store_get(s.skip(1), k2));
            }
        }
    }
}

proof fn lemma_store_get_push(s: Seq<StoreEntryView>, k: KeyView, v: ValueView)
    ensures
        store_get(s, k) is None ==> store_get(
            s.push(StoreEntryView { key: k, value: v }),
            k,
        ) == Some(v),
        forall|k2: KeyView|
            k2 != k ==> store_get(s.push(StoreEntryView { key: k, value: v }), k2) == store_get(
                s,
                k2,
            ),
    decreases s.len(),
{
    let s2 = s.push(StoreEntryView { key: k, value: v });
    if s.len() == 0 {
        assert(s2[0].key == k);
        assert forall|k2: KeyView| k2 != k implies store_get(s2, k2) == store_get(s, k2) by {
            assert(store_get(s2.skip(1), k2) is None);
        }
    } else {
        lemma_store_get_push(s.skip(1), k, v);
        assert(s2.skip(1) =~= s.skip(1).push(StoreEntryView { key: k, value: v }));
        assert forall|k2: KeyView| k2 != k implies store_get(s2, k2) == store_get(s, k2) by {
            if s[0].key == k2 {
                assert(s2[0] == s[0]);
            } else {
                assert(store_get(s2, k2) == store_get(s2.skip(1), k2));
                assert(store_get(s, k2) == store_get(s.skip(1), k2));
            }
        }
    }
}

proof fn lemma_store_get_none(s: Seq<StoreEntryView>, k: KeyView)
    ensures
        (store_get(s, k) is None) <==> (forall|j: int| 0 <= j < s.len() ==> s[j].key != k),
    decreases s.len(),
{
    if s.len() > 0 {
        lemma_store_get_none(s.skip(1), k);
        assert forall|j: int| 0 <= j < s.len() && store_get(s, k) is None implies s[j].key
            != k by {
            if j > 0 {
                assert(s.skip(1)[j - 1] == s[j]);
            }
        }
        if (forall|j: int| 0 <= j < s.len() ==> s[j].key != k) {
            assert forall|j: int| 0 <= j < s.skip(1).len() implies s.skip(1)[j].key != k by {
                assert(s.skip(1)[j] == s[j + 1]);
            }
        }
    }
}

/// The versioned store: every committed snapshot, in commit order.  The root
/// of the `i`-th snapshot is the `i`-th counter address; a root, once
/// produced, never changes meaning.
#[derive(Debug)]
pub struct GlobalState {
    pub snapshots: Vec<Snapshot>,
}

/// What one key reads as after an effect map is applied over a parent
/// snapshot, assuming every transform applies cleanly.
pub open spec fn spec_post_commit(
    effects: EffectMap,
    parent: Seq<StoreEntryView>,
    k: KeyView,
) -> Option<ValueView> {
    match effects.spec_get(k) {
        Some(t) => match spec_apply(t, store_get(parent, k)) {
            Ok(v) => v,
            Err(_) => None,
        },
        None => store_get(parent, k),
    }
}

/// True when every transform of the effect map applies cleanly over the
/// parent snapshot — the condition under which a commit is owed success.
pub open spec fn spec_effects_apply(effects: EffectMap, parent: Seq<StoreEntryView>) -> bool {
    forall|k: KeyView, t: crate::transform::TransformView|
        effects.spec_get(k) == Some(t) ==> spec_apply(t, store_get(parent, k)) is Ok
}

/// Applies an effect map over a parent snapshot, all of it or none of it.
fn apply_effects(parent: &Snapshot, effects: &EffectMap) -> (r: Result<Snapshot, Error>)
    requires
        parent.wf(),
        effects.wf(),
    ensures
        match r {
            Ok(snap) => spec_effects_apply(*effects, parent.view_entries()) && snap.wf() && (
            forall|k: KeyView|
                snap.spec_get(k) == spec_post_commit(*effects, parent.view_entries(), k)),
            Err(e) => e == Error::CommitFailure && !spec_effects_apply(
                *effects,
                parent.view_entries(),
            ),
        },
{
    let mut snap = parent.dup();
    let n = effects.entries.len();
    let ghost ev = effects.view_entries();
    let mut i: usize = 0;
    while i < n
        invariant
            n == effects.entries@.len(),
            ev == effects.view_entries(),
            effects.wf(),
            parent.wf(),
            snap.wf(),
            i <= n,
            forall|j: int|
                0 <= j < i ==> spec_apply(ev[j].transform, parent.spec_get(ev[j].key)) is Ok,
            forall|j: int|
                0 <= j < i ==> spec_apply(ev[j].transform, parent.spec_get(ev[j].key)) == Ok::<
                    Option<ValueView>,
                    FailureReason,
                >(snap.spec_get(ev[j].key)),
            forall|k: KeyView|
                (forall|j: int| 0 <= j < i ==> ev[j].key != k) ==> snap.spec_get(k)
                    == parent.spec_get(k),
        decreases n - i,
    {
        let entry = &effects.entries[i];
        proof {
            assert(ev[i as int].key == entry.key@);
            assert forall|j: int| 0 <= j < i implies ev[j].key != entry.key@ by {
                assert(ev[j].key != ev[i as int].key);
            }
            assert(snap.spec_get(entry.key@) == parent.spec_get(entry.key@));
        }
        let applied = apply(&entry.transform, snap.get(&entry.key));
        match applied {
            Ok(Some(v)) => {
                snap.set(&entry.key, v);
            },
            Ok(None) => {
                // the transform keeps an absent key absent; nothing to bind
            },
            Err(_) => {
                proof {
                    crate::effects::lemma_seq_get_prefix_miss(ev, entry.key@, i as int);
                }
                return Err(Error::CommitFailure);
            },
        }
        i = i + 1;
    }
    proof {
        assert forall|k: KeyView, t: crate::transform::TransformView|
            effects.spec_get(k) == Some(t) implies spec_apply(
            t,
            store_get(parent.view_entries(), k),
        ) is Ok by {
            lemma_seq_get_some_position(ev, k);
            let j = choose|j: int|
                0 <= j < ev.len() && ev[j].key == k && seq_get(ev, k) == Some(ev[j].transform);
            assert(spec_apply(ev[j].transform, parent.spec_get(ev[j].key)) is Ok);
            assert(store_get(parent.view_entries(), k) == parent.spec_get(k));
        }
        assert forall|k: KeyView| snap.spec_get(k) == spec_post_commit(
            *effects,
            parent.view_entries(),
            k,
        ) by {
            if effects.spec_get(k) is Some {
                lemma_seq_get_some_position(ev, k);
                let j = choose|j: int|
                    0 <= j < ev.len() && ev[j].key == k && seq_get(ev, k) == Some(
                        ev[j].transform,
                    );
                assert(spec_apply(ev[j].transform, parent.spec_get(ev[j].key)) == Ok::<
                    Option<ValueView>,
                    FailureReason,
                >(snap.spec_get(ev[j].key)));
            } else {
                crate::effects::lemma_seq_get_none(ev, k);
                assert(snap.spec_get(k) == parent.spec_get(k));
            }
        }
        assert(spec_effects_apply(*effects, parent.view_entries()));
    }
    Ok(snap)
}

impl GlobalState {
    /// Mathematical form: each committed snapshot's bindings, in commit
    /// order.
    pub open spec fn view_roots(self) -> Seq<Seq<StoreEntryView>> {
        self.snapshots@.map_values(|s: Snapshot| s.view_entries())
    }

    /// Every snapshot has unique keys.
    pub open spec fn wf(self) -> bool {
        forall|i: int| 0 <= i < self.snapshots@.len() ==> (#[trigger] self.snapshots@[i]).wf()
    }

    /// True of exactly the roots some commit (or genesis) has produced.
    pub open spec fn spec_has_root(self, r: Address) -> bool {
        r.w0 == 0 && r.w1 == 0 && r.w2 == 0 && (r.w3 as int) < self.snapshots@.len()
    }

    /// What a snapshot read at a root returns: the value bound to the key in
    /// the root's snapshot, `None` for an absent key or an unknown root.
    pub open spec fn spec_read(self, r: Address, k: KeyView) -> Option<ValueView> {
        if self.spec_has_root(r) {
            store_get(self.view_roots()[r.w3 as int], k)
        } else {
            None
        }
    }

    /// A store with no committed root yet; only genesis can produce the
    /// first root.
    pub fn new() -> (r: GlobalState)
        ensures
            r.wf(),
            r.snapshots@.len() == 0,
            forall|a: Address| !r.spec_has_root(a),
    {
        GlobalState { snapshots: Vec::new() }
    }

    /// Snapshot read: the value under `k` in the immutable snapshot that
    /// `root` names.  Never sees uncommitted effects; fails only on a root
    /// that was never committed.
    pub fn read_at(&self, root: &Address, k: &Key) -> (r: Result<Option<&Value>, Error>)
        ensures
            match r {
                Ok(Some(v)) => self.spec_has_root(*root) && self.spec_read(*root, k@) == Some(v@),
                Ok(None) => self.spec_has_root(*root) && self.spec_read(*root, k@) is None,
                Err(e) => e == Error::RootNotFound && !self.spec_has_root(*root),
            },
    {
        if root.w0 == 0 && root.w1 == 0 && root.w2 == 0 && root.w3 < (self.snapshots.len() as u64)
        {
            let idx: usize = root.w3 as usize;
            let snap = &self.snapshots[idx];
            proof {
                assert(self.view_roots()[root.w3 as int] == snap.view_entries());
            }
            Ok(snap.get(k))
        } else {
            Err(Error::RootNotFound)
        }
    }

    /// A private copy of the snapshot a root names, for an execution to
    /// read for its whole lifetime.
    pub fn snapshot_at(&self, root: &Address) -> (r: Result<Snapshot, Error>)
        requires
            self.wf(),
        ensures
            match r {
                Ok(s) => self.spec_has_root(*root) && s.wf() && s.view_entries()
                    == self.view_roots()[root.w3 as int],
                Err(e) => e == Error::RootNotFound && !self.spec_has_root(*root),
            },
    {
        if root.w0 == 0 && root.w1 == 0 && root.w2 == 0 && root.w3 < (self.snapshots.len() as u64)
        {
            let idx: usize = root.w3 as usize;
            let snap = &self.snapshots[idx];
            proof {
                assert(self.view_roots()[root.w3 as int] == snap.view_entries());
            }
            Ok(snap.dup())
        } else {
            Err(Error::RootNotFound)
        }
    }

    /// Commits an effect map against the snapshot `root` names: applies
    /// every transform atomically and produces exactly one successor root,
    /// or applies nothing at all.  Earlier roots stay untouched either way.
    pub fn commit(&mut self, root: &Address, effects: &EffectMap) -> (r: Result<Address, Error>)
        requires
            old(self).wf(),
            effects.wf(),
            old(self).snapshots@.len() < u64::MAX,
        ensures
            final(self).wf(),
            match r {
                Ok(new_root) => {
                    &&& old(self).spec_has_root(*root)
                    &&& spec_effects_apply(*effects, old(self).view_roots()[root.w3 as int])
                    &&& !old(self).spec_has_root(new_root)
                    &&& final(self).spec_has_root(new_root)
                    &&& final(self).view_roots().len() == old(self).view_roots().len() + 1
                    &&& forall|i: int|
                        0 <= i < old(self).view_roots().len() ==> final(self).view_roots()[i]
                            == old(self).view_roots()[i]
                    &&& forall|k: KeyView|
                        final(self).spec_read(new_root, k) == spec_post_commit(
                            *effects,
                            old(self).view_roots()[root.w3 as int],
                            k,
                        )
                },
                Err(e) => {
                    &&& e == Error::CommitFailure
                    &&& *final(self) == *old(self)
                    &&& !(old(self).spec_has_root(*root) && spec_effects_apply(
                        *effects,
                        old(self).view_roots()[root.w3 as int],
                    ))
                },
            },
    {
        if !(root.w0 == 0 && root.w1 == 0 && root.w2 == 0 && root.w3 < (self.snapshots.len()
            as u64)) {
            return Err(Error::CommitFailure);
        }
        let idx: usize = root.w3 as usize;
        let parent = &self.snapshots[idx];
        let ghost parent_view = parent.view_entries();
        proof {
            assert(parent_view == old(self).view_roots()[root.w3 as int]);
        }
        let applied = apply_effects(parent, effects);
        match applied {
            Ok(snap) => {
                let ghost snap_view = snap.view_entries();
                proof {
                    assert forall|k: KeyView|
                        store_get(snap_view, k) == spec_post_commit(*effects, parent_view, k) by {
                        assert(snap.spec_get(k) == spec_post_commit(
                            *effects,
                            parent.view_entries(),
                            k,
                        ));
                    }
                }
                let new_root = Address::from_counter(self.snapshots.len() as u64);
                self.snapshots.push(snap);
                proof {
                    assert(self.view_roots() =~= old(self).view_roots().push(snap_view));
                    assert(new_root.w3 as int == old(self).view_roots().len());
                    assert(self.view_roots()[new_root.w3 as int] == snap_view);
                    assert forall|k: KeyView|
                        self.spec_read(new_root, k) == spec_post_commit(
                            *effects,
                            old(self).view_roots()[root.w3 as int],
                            k,
                        ) by {
                        assert(self.spec_read(new_root, k) == store_get(snap_view, k));
                    }
                }
                Ok(new_root)
            },
            Err(e) => Err(e),
        }
    }

    /// Installs the first committed effect map over the empty store,
    /// producing the first root; no root exists before this call.
    pub fn genesis(&mut self, effects: &EffectMap) -> (r: Result<Address, Error>)
        requires
            old(self).wf(),
            effects.wf(),
            old(self).snapshots@.len() == 0,
        ensures
            final(self).wf(),
            match r {
                Ok(first_root) => {
                    &&& spec_effects_apply(*effects, Seq::empty())
                    &&& final(self).spec_has_root(first_root)
                    &&& final(self).view_roots().len() == 1
                    &&& forall|k: KeyView|
                        final(self).spec_read(first_root, k) == spec_post_commit(
                            *effects,
                            Seq::empty(),
                            k,
                        )
                },
                Err(e) => {
                    &&& e == Error::CommitFailure
                    &&& *final(self) == *old(self)
                    &&& !spec_effects_apply(*effects, Seq::empty())
                },
            },
    {
        let empty = Snapshot::new();
        proof {
            assert(empty.view_entries() =~= Seq::<StoreEntryView>::empty());
        }
        let ghost empty_view = empty.view_entries();
        let applied = apply_effects(&empty, effects);
        match applied {
            Ok(snap) => {
                let ghost snap_view = snap.view_entries();
                proof {
                    assert forall|k: KeyView|
                        store_get(snap_view, k) == spec_post_commit(*effects, empty_view, k) by {
                        assert(snap.spec_get(k) == spec_post_commit(
                            *effects,
                            empty.view_entries(),
                            k,
                        ));
                    }
                }
                let first_root = Address::from_counter(0);
                self.snapshots.push(snap);
                proof {
                    assert(self.view_roots() =~= old(self).view_roots().push(snap_view));
                    assert(empty_view =~= Seq::<StoreEntryView>::empty());
                    assert(self.view_roots()[0] == snap_view);
                    assert forall|k: KeyView|
                        self.spec_read(first_root, k) == spec_post_commit(
                            *effects,
                            Seq::empty(),
                            k,
                        ) by {
                        assert(self.spec_read(first_root, k) == store_get(snap_view, k));
                        assert(spec_post_commit(*effects, empty_view, k) == spec_post_commit(
                            *effects,
                            Seq::empty(),
                            k,
                        ));
                    }
                }
                Ok(first_root)
            },
            Err(e) => Err(e),
        }
    }
}

} // verus!
