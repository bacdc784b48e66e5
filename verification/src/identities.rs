//! Identities in a list, which are found again quickly.
use std::collections::HashMap;
use crate::checkpoint::{recent_view, RecentView, StoredRecentInput};
use crate::model::{InputRef, ReactiveInputIdentity};
use vstd::prelude::*;

verus! {

broadcast use vstd::std_specs::hash::group_hash_axioms;

/// The index of the first occurrence of an identity from `from` on; the length
/// where there is none.
pub open spec fn id_index(
    ids: Seq<ReactiveInputIdentity>,
    identity: ReactiveInputIdentity,
    from: int,
) -> int
    decreases ids.len() - from,
{
    if from < 0 || from >= ids.len() {
        ids.len() as int
    } else if ids[from] == identity {
        from
    } else {
        id_index(ids, identity, from + 1)
    }
}

/// An index with the identity, before which it does not occur, is `id_index`.
pub proof fn lemma_id_index(
    ids: Seq<ReactiveInputIdentity>,
    identity: ReactiveInputIdentity,
    from: int,
    at: int,
)
    requires
        0 <= from <= at <= ids.len(),
        forall|j: int| from <= j < at ==> ids[j] != identity,
        at < ids.len() ==> ids[at] == identity,
    ensures
        id_index(ids, identity, from) == at,
    decreases at - from,
{
    if from < at {
        lemma_id_index(ids, identity, from + 1, at);
    }
}

/// Where `id_index` points.
pub proof fn lemma_id_index_range(
    ids: Seq<ReactiveInputIdentity>,
    identity: ReactiveInputIdentity,
    from: int,
)
    requires
        0 <= from <= ids.len(),
    ensures
        from <= id_index(ids, identity, from) <= ids.len(),
        id_index(ids, identity, from) < ids.len() ==> ids[id_index(ids, identity, from)]
            == identity,
        forall|j: int|
            from <= j < id_index(ids, identity, from) ==> (#[trigger] ids[j]) != identity,
    decreases ids.len() - from,
{
    if from < ids.len() && ids[from] != identity {
        lemma_id_index_range(ids, identity, from + 1);
    }
}

/// A number by which identities are found again.
pub open spec fn bucket_of(identity: ReactiveInputIdentity) -> u64 {
    match identity.input_ref {
        InputRef::Log { block_hash, transaction_hash, log_index, .. } => block_hash.w0
            ^ transaction_hash.w0 ^ log_index,
        InputRef::PendingTx { hash, .. } => hash.w0,
        InputRef::Block { hash, number, .. } => hash.w0 ^ number,
    }
}

fn bucket(identity: &ReactiveInputIdentity) -> (r: u64)
    ensures
        r == bucket_of(*identity),
{
    match identity.input_ref {
        InputRef::Log { block_hash, transaction_hash, log_index, .. } => block_hash.w0
            ^ transaction_hash.w0 ^ log_index,
        InputRef::PendingTx { hash, .. } => hash.w0,
        InputRef::Block { hash, number, .. } => hash.w0 ^ number,
    }
}

/// A list of identities with an index of their places.
#[derive(Debug, PartialEq, Eq)]
pub struct IdentityIndex {
    ids: Vec<ReactiveInputIdentity>,
    buckets: HashMap<u64, Vec<usize>>,
}

impl View for IdentityIndex {
    type V = Seq<ReactiveInputIdentity>;

    /// The identities in the order in which they were added.
    closed spec fn view(&self) -> Seq<ReactiveInputIdentity> {
        self.ids@
    }
}

impl IdentityIndex {
    #[verifier::type_invariant]
    closed spec fn indexed(self) -> bool {
        &&& forall|i: int|
            0 <= i < self.ids@.len() ==> self.buckets@.contains_key(
                bucket_of(#[trigger] self.ids@[i]),
            ) && self.buckets@[bucket_of(self.ids@[i])]@.contains(i as usize)
        &&& forall|k: u64, n: int|
            self.buckets@.contains_key(k) && 0 <= n < self.buckets@[k]@.len()
                ==> #[trigger] self.buckets@[k]@[n] < self.ids@.len()
    }

    /// No identities.
    pub fn new() -> (r: IdentityIndex)
        ensures
            r@ == Seq::<ReactiveInputIdentity>::empty(),
    {
        IdentityIndex { ids: Vec::new(), buckets: HashMap::new() }
    }

    /// The index of the first occurrence of an identity; the length where there
    /// is none.
    pub fn find(&self, identity: &ReactiveInputIdentity) -> (r: usize)
        ensures
            r == id_index(self@, *identity, 0),
            r <= self@.len(),
            r == self@.len() <==> !self@.contains(*identity),
            r < self@.len() ==> self@[r as int] == *identity,
    {
        proof {
            use_type_invariant(self);
        }
        let total: usize = self.ids.len();
        let key: u64 = bucket(identity);
        let mut best: usize = total;
        if let Some(places) = self.buckets.get(&key) {
            let mut n: usize = 0;
            while n < places.len()
                invariant
                    n <= places@.len(),
                    total == self.ids@.len(),
                    best <= total,
                    best < total ==> self.ids@[best as int] == *identity,
                    forall|m: int|
                        0 <= m < places@.len() ==> #[trigger] places@[m] < self.ids@.len(),
                    forall|m: int|
                        0 <= m < n && self.ids@[(#[trigger] places@[m]) as int] == *identity
                            ==> best <= places@[m],
                decreases places@.len() - n,
            {
                assert(places@[n as int] < self.ids@.len());
                let place: usize = places[n];
                if place < best && self.ids[place] == *identity {
                    best = place;
                }
                n += 1;
            }
            proof {
                assert forall|j: int| 0 <= j < best implies self.ids@[j] != *identity by {
                    if self.ids@[j] == *identity {
                        assert(self.buckets@[bucket_of(self.ids@[j])]@.contains(j as usize));
                        let m = choose|m: int| 0 <= m < places@.len() && places@[m] == j as usize;
                        assert(self.ids@[places@[m] as int] == *identity);
                    }
                }
            }
        } else {
            proof {
                assert forall|j: int| 0 <= j < best implies self.ids@[j] != *identity by {
                    assert(self.buckets@.contains_key(bucket_of(self.ids@[j])));
                }
            }
        }
        proof {
            lemma_id_index(self@, *identity, 0, best as int);
            if best < total {
                assert(self@[best as int] == *identity);
            }
        }
        best
    }

    /// Adds an identity behind the others.
    pub fn add_identity(&mut self, identity: ReactiveInputIdentity)
        ensures
            final(self)@ == old(self)@.push(identity),
    {
        proof {
            use_type_invariant(&*self);
        }
        let mut held_set = IdentityIndex::new();
        std::mem::swap(self, &mut held_set);
        let IdentityIndex { ids, buckets } = held_set;
        let mut ids = ids;
        let mut buckets = buckets;
        let ghost all = ids@;
        let key: u64 = bucket(&identity);
        let place: usize = ids.len();
        let mut places: Vec<usize> = match buckets.remove(&key) {
            Some(places) => places,
            None => Vec::new(),
        };
        let ghost held = places@;
        places.push(place);
        buckets.insert(key, places);
        ids.push(identity);
        proof {
            assert forall|i: int| 0 <= i < ids@.len() implies buckets@.contains_key(
                bucket_of(#[trigger] ids@[i]),
            ) && buckets@[bucket_of(ids@[i])]@.contains(i as usize) by {
                if i == all.len() {
                    assert(places@[held.len() as int] == place);
                } else {
                    assert(ids@[i] == all[i]);
                    if bucket_of(all[i]) == key {
                        let m = choose|m: int| 0 <= m < held.len() && held[m] == i as usize;
                        assert(places@[m] == i as usize);
                    }
                }
            }
        }
        let mut next = IdentityIndex { ids, buckets };
        std::mem::swap(self, &mut next);
    }
}

/// The identities of recent inputs.
pub open spec fn identities(entries: Seq<RecentView>) -> Seq<ReactiveInputIdentity> {
    Seq::new(entries.len(), |i: int| entries[i].identity)
}

/// Whether some identity occurs twice.
pub fn has_duplicate_identities(entries: &[StoredRecentInput]) -> (r: bool)
    ensures
        r == !identities(recent_view(entries@)).no_duplicates(),
{
    let ghost all = identities(recent_view(entries@));
    let mut seen = IdentityIndex::new();
    let mut i: usize = 0;
    while i < entries.len()
        invariant
            i <= entries@.len(),
            all == identities(recent_view(entries@)),
            seen@ =~= all.take(i as int),
            forall|a: int, b: int| 0 <= a < b < i ==> all[a] != all[b],
        decreases entries@.len() - i,
    {
        let identity: ReactiveInputIdentity = entries[i].identity;
        assert(all[i as int] == identity);
        let at: usize = seen.find(&identity);
        if at < i {
            assert(all[at as int] == all[i as int]);
            return true;
        }
        proof {
            assert forall|a: int, b: int| 0 <= a < b < i + 1 implies all[a] != all[b] by {
                if b == i && all[a] == all[b] {
                    assert(seen@[a] == identity);
                }
            }
        }
        seen.add_identity(identity);
        i += 1;
    }
    assert(all.no_duplicates()) by {
        assert forall|a: int, b: int| 0 <= a < all.len() && 0 <= b < all.len() && a != b implies
            all[a] != all[b] by {
            if a < b {
                assert(all[a] != all[b]);
            } else {
                assert(all[b] != all[a]);
            }
        }
    }
    false
}

/// How many different identities occur.
pub open spec fn distinct(ids: Seq<ReactiveInputIdentity>) -> nat
    decreases ids.len(),
{
    if ids.len() == 0 {
        0
    } else if ids.drop_last().contains(ids.last()) {
        distinct(ids.drop_last())
    } else {
        distinct(ids.drop_last()) + 1
    }
}

} // verus!
