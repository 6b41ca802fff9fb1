//! The per-address id index: an append-only, set-valued map from an address
//! to the offer ids ever recorded for it, in the order they were recorded.
//! The ledger records each fresh id under the offer's creator and recipient
//! at creation and never removes one, so the structure offers only `insert`
//! and a read of a key's whole sequence.
//!
//! The view of an index is a total `Map<u64, Seq<u64>>`: an address with no
//! recorded ids maps to the empty sequence.

use vstd::prelude::*;

verus! {

/// One key of the index together with the ids recorded under it.
struct IndexEntry {
    key: u64,
    ids: Vec<u64>,
}

/// An append-only set-valued map from an address to offer ids, stored as a
/// list of entries with pairwise distinct keys.
pub struct AddressIndex {
    entries: Vec<IndexEntry>,
}

/// The ids recorded under `key`: those of the first entry carrying it, or
/// none when no entry does.
spec fn lookup(entries: Seq<IndexEntry>, key: u64) -> Seq<u64>
    decreases entries.len(),
{
    if entries.len() == 0 {
        Seq::empty()
    } else if entries[0].key == key {
        entries[0].ids@
    } else {
        lookup(entries.drop_first(), key)
    }
}

proof fn lemma_lookup_first_match(entries: Seq<IndexEntry>, i: int, key: u64)
    requires
        0 <= i < entries.len(),
        entries[i].key == key,
        forall|m: int| 0 <= m < i ==> (#[trigger] entries[m]).key != key,
    ensures
        lookup(entries, key) == entries[i].ids@,
    decreases i,
{
    if i > 0 {
        assert forall|m: int| 0 <= m < i - 1 implies (#[trigger] entries.drop_first()[m]).key
            != key by {
            assert(entries.drop_first()[m] == entries[m + 1]);
        }
        lemma_lookup_first_match(entries.drop_first(), i - 1, key);
    }
}

proof fn lemma_lookup_no_match(entries: Seq<IndexEntry>, key: u64)
    requires
        forall|m: int| 0 <= m < entries.len() ==> (#[trigger] entries[m]).key != key,
    ensures
        lookup(entries, key) == Seq::<u64>::empty(),
    decreases entries.len(),
{
    if entries.len() > 0 {
        assert forall|m: int| 0 <= m < entries.drop_first().len() implies (#[trigger] entries
            .drop_first()[m]).key != key by {
            assert(entries.drop_first()[m] == entries[m + 1]);
        }
        lemma_lookup_no_match(entries.drop_first(), key);
    }
}

proof fn lemma_lookup_update(entries: Seq<IndexEntry>, i: int, e2: IndexEntry, b: u64)
    requires
        0 <= i < entries.len(),
        e2.key == entries[i].key,
        forall|m: int| 0 <= m < i ==> (#[trigger] entries[m]).key != entries[i].key,
    ensures
        lookup(entries.update(i, e2), b) == if b == entries[i].key {
            e2.ids@
        } else {
            lookup(entries, b)
        },
    decreases i,
{
    if i == 0 {
        if b != entries[0].key {
            assert(entries.update(0, e2).drop_first() =~= entries.drop_first());
        }
    } else {
        assert(entries.update(i, e2).drop_first() =~= entries.drop_first().update(i - 1, e2));
        assert forall|m: int| 0 <= m < i - 1 implies (#[trigger] entries.drop_first()[m]).key
            != entries.drop_first()[i - 1].key by {
            assert(entries.drop_first()[m] == entries[m + 1]);
        }
        lemma_lookup_update(entries.drop_first(), i - 1, e2, b);
    }
}

proof fn lemma_lookup_push(entries: Seq<IndexEntry>, e: IndexEntry, b: u64)
    requires
        forall|m: int| 0 <= m < entries.len() ==> (#[trigger] entries[m]).key != e.key,
    ensures
        lookup(entries.push(e), b) == if b == e.key {
            e.ids@
        } else {
            lookup(entries, b)
        },
    decreases entries.len(),
{
    if entries.len() == 0 {
        assert(entries.push(e)[0] == e);
        if b != e.key {
            assert(entries.push(e).drop_first() =~= Seq::<IndexEntry>::empty());
            assert(lookup(entries.push(e), b) == lookup(Seq::<IndexEntry>::empty(), b));
        }
    } else {
        assert(entries.push(e)[0] == entries[0]);
        assert(entries.push(e).drop_first() =~= entries.drop_first().push(e));
        assert forall|m: int| 0 <= m < entries.drop_first().len() implies (#[trigger] entries
            .drop_first()[m]).key != e.key by {
            assert(entries.drop_first()[m] == entries[m + 1]);
        }
        lemma_lookup_push(entries.drop_first(), e, b);
        if entries[0].key == b {
            assert(lookup(entries.push(e), b) == entries[0].ids@);
            assert(lookup(entries, b) == entries[0].ids@);
        } else {
            assert(lookup(entries.push(e), b) == lookup(entries.drop_first().push(e), b));
            assert(lookup(entries, b) == lookup(entries.drop_first(), b));
        }
    }
}

impl View for AddressIndex {
    type V = Map<u64, Seq<u64>>;

    closed spec fn view(&self) -> Map<u64, Seq<u64>> {
        Map::new(|key: u64| true, |key: u64| lookup(self.entries@, key))
    }
}

impl AddressIndex {
    /// Representation invariant: each key owns at most one entry.
    pub closed spec fn wf(&self) -> bool {
        forall|i: int, j: int|
            0 <= i < j < self.entries@.len() ==> (#[trigger] self.entries@[i]).key
                != (#[trigger] self.entries@[j]).key
    }

    /// An index with no recorded ids for any address.
    pub fn new() -> (r: Self)
        ensures
            r.wf(),
            r@.dom() == Set::<u64>::full(),
            forall|key: u64| #[trigger] r@[key] == Seq::<u64>::empty(),
    {
        let r = AddressIndex { entries: Vec::new() };
        proof {
            assert(r@.dom() =~= Set::<u64>::full());
        }
        r
    }

    /// The position of the entry carrying `key`, when one exists.
    fn position_of(&self, key: u64) -> (r: Option<usize>)
        ensures
            match r {
                Some(i) => {
                    &&& i < self.entries@.len()
                    &&& self.entries@[i as int].key == key
                    &&& forall|m: int| 0 <= m < i ==> (#[trigger] self.entries@[m]).key != key
                },
                None => forall|m: int|
                    0 <= m < self.entries@.len() ==> (#[trigger] self.entries@[m]).key != key,
            },
    {
        let n = self.entries.len();
        let mut i: usize = 0;
        while i < n
            invariant
                i <= n,
                n == self.entries@.len(),
                forall|m: int| 0 <= m < i ==> (#[trigger] self.entries@[m]).key != key,
            decreases n - i,
        {
            if self.entries[i].key == key {
                return Some(i);
            }
            i = i + 1;
        }
        None
    }

    /// Record `id` under `key`, leaving every other key's ids untouched.
    pub fn insert(&mut self, key: u64, id: u64)
        requires
            old(self).wf(),
        ensures
            final(self).wf(),
            final(self)@ == old(self)@.insert(key, old(self)@[key].push(id)),
            final(self)@.dom() == Set::<u64>::full(),
    {
        let ghost old_entries = self.entries@;
        match self.position_of(key) {
            Some(i) => {
                let entry = &mut self.entries[i];
                entry.ids.push(id);
                proof {
                    lemma_lookup_first_match(old_entries, i as int, key);
                    assert forall|b: u64| #[trigger] self@[b] == old(self)@.insert(
                        key,
                        old(self)@[key].push(id),
                    )[b] by {
                        lemma_lookup_update(old_entries, i as int, self.entries@[i as int], b);
                    }
                    assert(self@ =~= old(self)@.insert(key, old(self)@[key].push(id)));
                    assert(self@.dom() =~= Set::<u64>::full());
                }
            },
            None => {
                let mut ids: Vec<u64> = Vec::new();
                ids.push(id);
                self.entries.push(IndexEntry { key: key, ids: ids });
                proof {
                    lemma_lookup_no_match(old_entries, key);
                    assert forall|b: u64| #[trigger] self@[b] == old(self)@.insert(
                        key,
                        old(self)@[key].push(id),
                    )[b] by {
                        lemma_lookup_push(
                            old_entries,
                            self.entries@[self.entries@.len() - 1],
                            b,
                        );
                    }
                    assert(self@ =~= old(self)@.insert(key, old(self)@[key].push(id)));
                    assert(self@.dom() =~= Set::<u64>::full());
                }
            },
        }
    }

    /// The ids ever recorded under `key`, in recording order.
    pub fn get_ids(&self, key: u64) -> (r: Vec<u64>)
        ensures
            r@ == self@[key],
    {
        match self.position_of(key) {
            Some(i) => {
                proof {
                    lemma_lookup_first_match(self.entries@, i as int, key);
                }
                let src = &self.entries[i].ids;
                let n = src.len();
                let mut out: Vec<u64> = Vec::new();
                let mut j: usize = 0;
                while j < n
                    invariant
                        j <= n,
                        n == src@.len(),
                        out@ == src@.take(j as int),
                    decreases n - j,
                {
                    out.push(src[j]);
                    proof {
                        assert(out@ =~= src@.take(j + 1));
                    }
                    j = j + 1;
                }
                proof {
                    assert(src@.take(n as int) =~= src@);
                }
                out
            },
            None => {
                proof {
                    lemma_lookup_no_match(self.entries@, key);
                }
                Vec::new()
            },
        }
    }
}

} // verus!
