//! Registries mapping stable string ids to host type keys.

use vstd::prelude::*;

verus! {

/// The value paired with `k` in `s`, if any pair has that key.
pub open spec fn lookup<K, V>(s: Seq<(K, V)>, k: K) -> Option<V> {
    if exists|i: int| 0 <= i < s.len() && s[i].0 == k {
        Some(s[choose|i: int| 0 <= i < s.len() && s[i].0 == k].1)
    } else {
        None
    }
}

/// No two pairs of `s` have the same key.
pub open spec fn keys_unique<K, V>(s: Seq<(K, V)>) -> bool {
    forall|i: int, j: int| 0 <= i < s.len() && 0 <= j < s.len() && s[i].0 == s[j].0 ==> i == j
}

/// No two pairs of `s` have the same value.
pub open spec fn values_unique<K, V>(s: Seq<(K, V)>) -> bool {
    forall|i: int, j: int| 0 <= i < s.len() && 0 <= j < s.len() && s[i].1 == s[j].1 ==> i == j
}

/// With unique keys, the pair at `i` is what a lookup of its key finds.
pub proof fn lemma_lookup_at<K, V>(s: Seq<(K, V)>, i: int)
    requires
        keys_unique(s),
        0 <= i < s.len(),
    ensures
        lookup(s, s[i].0) == Some(s[i].1),
{
    assert(0 <= i < s.len() && s[i].0 == s[i].0);
}

/// A lookup finds nothing when no pair has the key.
pub proof fn lemma_lookup_none<K, V>(s: Seq<(K, V)>, k: K)
    requires
        forall|i: int| 0 <= i < s.len() ==> #[trigger] s[i].0 != k,
    ensures
        lookup(s, k) is None,
{
}

/// Why a registration was refused.
#[derive(Debug, Clone, Copy, PartialEq, Eq, Structural)]
pub enum RegistryError {
    /// Another entry already has this id.
    DuplicateId,
    /// Another entry already has this type key.
    DuplicateTypeKey,
}

/// One registered kind of value: its id and the key of its host type.
pub struct RegistryEntry {
    pub id: String,
    pub type_key: u64,
}

/// An append-only registry, built once at startup and read afterwards.
pub struct Registry {
    entries: Vec<RegistryEntry>,
}

impl Registry {
    /// The entries as (id, type key) pairs, in registration order.
    pub closed spec fn view_entries(&self) -> Seq<(Seq<char>, u64)> {
        self.entries@.map_values(|e: RegistryEntry| (e.id@, e.type_key))
    }

    /// Ids and type keys are each unique.
    pub open spec fn wf(&self) -> bool {
        keys_unique(self.view_entries()) && values_unique(self.view_entries())
    }

    /// The type key registered under `id`.
    pub open spec fn spec_find(&self, id: Seq<char>) -> Option<u64> {
        lookup(self.view_entries(), id)
    }

    /// An empty registry.
    pub fn new() -> (r: Registry)
        ensures
            r.wf(),
            r.view_entries() == Seq::<(Seq<char>, u64)>::empty(),
    {
        let r = Registry { entries: Vec::new() };
        assert(r.view_entries() =~= Seq::<(Seq<char>, u64)>::empty());
        r
    }

    /// The number of entries.
    pub fn len(&self) -> (r: usize)
        ensures
            r == self.view_entries().len(),
    {
        self.entries.len()
    }

    /// Registers `id` for `type_key`; a duplicate id or type key is refused
    /// and leaves the registry as it was.
    pub fn register(&mut self, id: String, type_key: u64) -> (r: Result<(), RegistryError>)
        requires
            old(self).wf(),
        ensures
            final(self).wf(),
            old(self).spec_find(id@) is Some ==> r == Err::<(), RegistryError>(
                RegistryError::DuplicateId,
            ),
            old(self).spec_find(id@) is None && (exists|i: int|
                0 <= i < old(self).view_entries().len() && #[trigger] old(self).view_entries()[i].1
                    == type_key) ==> r == Err::<(), RegistryError>(RegistryError::DuplicateTypeKey),
            old(self).spec_find(id@) is None && (forall|i: int|
                0 <= i < old(self).view_entries().len() ==> #[trigger] old(self).view_entries()[i].1
                    != type_key) ==> r is Ok,
            r is Err ==> final(self).view_entries() == old(self).view_entries(),
            r is Ok ==> final(self).view_entries() == old(self).view_entries().push((id@, type_key)),
    {
        let ghost s = self.view_entries();
        let mut i: usize = 0;
        while i < self.entries.len()
            invariant
                s == self.view_entries(),
                keys_unique(s),
                values_unique(s),
                s.len() == self.entries@.len(),
                i <= s.len(),
                forall|j: int| 0 <= j < i ==> #[trigger] s[j].0 != id@ && s[j].1 != type_key,
            decreases self.entries.len() - i,
        {
            assert(s[i as int] == (self.entries@[i as int].id@, self.entries@[i as int].type_key));
            if self.entries[i].id == id {
                proof { lemma_lookup_at(s, i as int); }
                return Err(RegistryError::DuplicateId);
            }
            if self.entries[i].type_key == type_key {
                let mut m: usize = i + 1;
                while m < self.entries.len()
                    invariant
                        s == self.view_entries(),
                        keys_unique(s),
                        values_unique(s),
                        s.len() == self.entries@.len(),
                        i < m <= s.len(),
                        forall|j: int| 0 <= j < i ==> #[trigger] s[j].0 != id@,
                        forall|j: int| i < j < m ==> #[trigger] s[j].0 != id@,
                        s[i as int].0 != id@,
                    decreases self.entries.len() - m,
                {
                    assert(s[m as int] == (self.entries@[m as int].id@, self.entries@[m as int].type_key));
                    if self.entries[m].id == id {
                        proof { lemma_lookup_at(s, m as int); }
                        return Err(RegistryError::DuplicateId);
                    }
                    m += 1;
                }
                assert(forall|j: int| 0 <= j < s.len() ==> #[trigger] s[j].0 != id@);
                proof { lemma_lookup_none(s, id@); }
                return Err(RegistryError::DuplicateTypeKey);
            }
            i += 1;
        }
        proof { lemma_lookup_none(s, id@); }
        self.entries.push(RegistryEntry { id, type_key });
        assert(self.view_entries() =~= s.push((id@, type_key)));
        Ok(())
    }

    /// Finds the type key registered under `id`.
    pub fn find(&self, id: &String) -> (r: Option<u64>)
        requires
            self.wf(),
        ensures
            r == self.spec_find(id@),
    {
        let ghost s = self.view_entries();
        let mut i: usize = 0;
        while i < self.entries.len()
            invariant
                s == self.view_entries(),
                keys_unique(s),
                values_unique(s),
                s.len() == self.entries@.len(),
                i <= s.len(),
                forall|j: int| 0 <= j < i ==> #[trigger] s[j].0 != id@,
            decreases self.entries.len() - i,
        {
            assert(s[i as int] == (self.entries@[i as int].id@, self.entries@[i as int].type_key));
            if self.entries[i].id == *id {
                proof { lemma_lookup_at(s, i as int); }
                return Some(self.entries[i].type_key);
            }
            i += 1;
        }
        proof { lemma_lookup_none(s, id@); }
        None
    }
}

} // verus!
