//! Handler ids in order, and maps keyed by them.
//!
//! A map is a vector of entries in strictly ascending order of the bytes of
//! their ids; its view is the sequence of entries in that order.
use crate::model::HandlerId;
use vstd::prelude::*;

verus! {

/// Whether `a` comes before `b` in lexicographic order of bytes.
pub open spec fn bytes_lt(a: Seq<u8>, b: Seq<u8>) -> bool
    decreases a.len(),
{
    if b.len() == 0 {
        false
    } else if a.len() == 0 {
        true
    } else if a[0] != b[0] {
        a[0] < b[0]
    } else {
        bytes_lt(a.drop_first(), b.drop_first())
    }
}

/// No byte string comes before itself.
pub proof fn lemma_bytes_lt_irreflexive(a: Seq<u8>)
    ensures
        !bytes_lt(a, a),
    decreases a.len(),
{
    if a.len() > 0 {
        lemma_bytes_lt_irreflexive(a.drop_first());
    }
}

/// The order of byte strings is transitive.
pub proof fn lemma_bytes_lt_transitive(a: Seq<u8>, b: Seq<u8>, c: Seq<u8>)
    requires
        bytes_lt(a, b),
        bytes_lt(b, c),
    ensures
        bytes_lt(a, c),
    decreases a.len(),
{
    if a.len() > 0 && b.len() > 0 && c.len() > 0 && a[0] == b[0] && b[0] == c[0] {
        lemma_bytes_lt_transitive(a.drop_first(), b.drop_first(), c.drop_first());
    }
}

/// Of two different byte strings one comes before the other.
pub proof fn lemma_bytes_lt_total(a: Seq<u8>, b: Seq<u8>)
    ensures
        bytes_lt(a, b) || bytes_lt(b, a) || a == b,
        !(bytes_lt(a, b) && bytes_lt(b, a)),
    decreases a.len(),
{
    if a.len() > 0 && b.len() > 0 {
        if a[0] == b[0] {
            lemma_bytes_lt_total(a.drop_first(), b.drop_first());
            if a.drop_first() == b.drop_first() {
                assert(a =~= seq![a[0]] + a.drop_first());
                assert(b =~= seq![b[0]] + b.drop_first());
            }
        }
    } else if a.len() == 0 && b.len() == 0 {
        assert(a =~= b);
    }
}

/// Whether `a` comes before `b` in lexicographic order of bytes.
pub fn bytes_before(a: &[u8], b: &[u8]) -> (r: bool)
    ensures
        r == bytes_lt(a@, b@),
{
    let mut i: usize = 0;
    proof {
        assert(a@.skip(0) =~= a@);
        assert(b@.skip(0) =~= b@);
    }
    while i < a.len() && i < b.len()
        invariant
            i <= a@.len(),
            i <= b@.len(),
            bytes_lt(a@, b@) == bytes_lt(a@.skip(i as int), b@.skip(i as int)),
        decreases a@.len() - i,
    {
        proof {
            assert(a@.skip(i as int)[0] == a@[i as int]);
            assert(b@.skip(i as int)[0] == b@[i as int]);
            assert(a@.skip(i as int).drop_first() =~= a@.skip(i + 1));
            assert(b@.skip(i as int).drop_first() =~= b@.skip(i + 1));
        }
        if a[i] != b[i] {
            return a[i] < b[i];
        }
        i += 1;
    }
    i < b.len()
}

/// Whether the keys of `s` are strictly ascending.
pub open spec fn sorted_keys<V>(s: Seq<(Seq<u8>, V)>) -> bool {
    forall|i: int, j: int| 0 <= i < j < s.len() ==> bytes_lt(#[trigger] s[i].0, #[trigger] s[j].0)
}

/// How many keys at the front of `s` come before `k`.
pub open spec fn key_pos<V>(s: Seq<(Seq<u8>, V)>, k: Seq<u8>) -> int
    decreases s.len(),
{
    if s.len() == 0 || !bytes_lt(s[0].0, k) {
        0
    } else {
        1 + key_pos(s.drop_first(), k)
    }
}

/// Whether `k` is a key of `s`.
pub open spec fn has_key<V>(s: Seq<(Seq<u8>, V)>, k: Seq<u8>) -> bool {
    lookup(s, k) is Some
}

/// The value at `k`.
pub open spec fn lookup<V>(s: Seq<(Seq<u8>, V)>, k: Seq<u8>) -> Option<V> {
    let p = key_pos(s, k);
    if p < s.len() && s[p].0 == k {
        Some(s[p].1)
    } else {
        None
    }
}

/// `s` with the value at `k` set to `v`.
pub open spec fn with_entry<V>(s: Seq<(Seq<u8>, V)>, k: Seq<u8>, v: V) -> Seq<(Seq<u8>, V)> {
    let p = key_pos(s, k);
    if has_key(s, k) {
        s.update(p, (k, v))
    } else {
        s.insert(p, (k, v))
    }
}

/// `s` without an entry at `k`.
pub open spec fn without_entry<V>(s: Seq<(Seq<u8>, V)>, k: Seq<u8>) -> Seq<(Seq<u8>, V)> {
    if has_key(s, k) {
        s.remove(key_pos(s, k))
    } else {
        s
    }
}

/// Where `key_pos` stands in a sorted sequence.
pub proof fn lemma_key_pos<V>(s: Seq<(Seq<u8>, V)>, k: Seq<u8>)
    requires
        sorted_keys(s),
    ensures
        0 <= key_pos(s, k) <= s.len(),
        forall|i: int| 0 <= i < key_pos(s, k) ==> bytes_lt(#[trigger] s[i].0, k),
        forall|i: int| key_pos(s, k) <= i < s.len() ==> !bytes_lt(#[trigger] s[i].0, k),
    decreases s.len(),
{
    if s.len() > 0 {
        let t = s.drop_first();
        assert(sorted_keys(t));
        lemma_key_pos(t, k);
        if bytes_lt(s[0].0, k) {
            assert forall|i: int| 0 <= i < key_pos(s, k) implies bytes_lt(
                #[trigger] s[i].0,
                k,
            ) by {
                if i > 0 {
                    assert(t[i - 1] == s[i]);
                }
            }
            assert forall|i: int| key_pos(s, k) <= i < s.len() implies !bytes_lt(
                #[trigger] s[i].0,
                k,
            ) by {
                assert(t[i - 1] == s[i]);
            }
        } else {
            assert forall|i: int| 0 <= i < s.len() implies !bytes_lt(#[trigger] s[i].0, k) by {
                if i > 0 && bytes_lt(s[i].0, k) {
                    assert(bytes_lt(s[0].0, s[i].0));
                    lemma_bytes_lt_transitive(s[0].0, s[i].0, k);
                }
            }
        }
    }
}

/// A position with smaller keys before it and none behind it is `key_pos`.
pub proof fn lemma_key_pos_unique<V>(s: Seq<(Seq<u8>, V)>, k: Seq<u8>, p: int)
    requires
        sorted_keys(s),
        0 <= p <= s.len(),
        forall|i: int| 0 <= i < p ==> bytes_lt(#[trigger] s[i].0, k),
        p < s.len() ==> !bytes_lt(s[p].0, k),
    ensures
        key_pos(s, k) == p,
{
    lemma_key_pos(s, k);
    let q = key_pos(s, k);
    if q < p {
        assert(bytes_lt(s[q].0, k));
    }
    if p < q {
        assert(bytes_lt(s[p].0, k));
    }
}

/// A key stands in a sorted sequence exactly where `lookup` finds it.
pub proof fn lemma_lookup<V>(s: Seq<(Seq<u8>, V)>, k: Seq<u8>)
    requires
        sorted_keys(s),
    ensures
        has_key(s, k) <==> exists|i: int| 0 <= i < s.len() && #[trigger] s[i].0 == k,
        forall|i: int| 0 <= i < s.len() && #[trigger] s[i].0 == k ==> lookup(s, k) == Some(s[i].1)
            && key_pos(s, k) == i,
{
    lemma_key_pos(s, k);
    if has_key(s, k) {
        let p = key_pos(s, k);
        assert(s[p].0 == k);
    }
    assert forall|i: int| 0 <= i < s.len() && #[trigger] s[i].0 == k implies lookup(s, k) == Some(
        s[i].1,
    ) && key_pos(s, k) == i by {
        lemma_bytes_lt_irreflexive(k);
        assert forall|j: int| 0 <= j < i implies bytes_lt(#[trigger] s[j].0, k) by {}
        lemma_key_pos_unique(s, k, i);
    }
}

/// Setting an entry keeps the order and changes the value at that key alone.
pub proof fn lemma_with_entry<V>(s: Seq<(Seq<u8>, V)>, k: Seq<u8>, v: V)
    requires
        sorted_keys(s),
    ensures
        sorted_keys(with_entry(s, k, v)),
        lookup(with_entry(s, k, v), k) == Some(v),
        forall|j: Seq<u8>| j != k ==> #[trigger] lookup(with_entry(s, k, v), j) == lookup(s, j),
        with_entry(s, k, v).len() == s.len() + (if has_key(s, k) { 0int } else { 1int }),
{
    lemma_key_pos(s, k);
    lemma_lookup(s, k);
    let p = key_pos(s, k);
    let t = with_entry(s, k, v);
    if has_key(s, k) {
        assert(forall|i: int| 0 <= i < s.len() ==> (#[trigger] t[i]).0 == s[i].0);
        assert(sorted_keys(t));
    } else {
        assert forall|i: int| p <= i < s.len() implies bytes_lt(k, #[trigger] s[i].0) by {
            lemma_bytes_lt_total(s[i].0, k);
            if s[i].0 == k {
                assert(has_key(s, k));
            }
        }
        assert forall|i: int, j: int| 0 <= i < j < t.len() implies bytes_lt(
            #[trigger] t[i].0,
            #[trigger] t[j].0,
        ) by {
            if i < p {
                assert(t[i] == s[i]);
            }
            if j < p {
                assert(t[j] == s[j]);
            }
            if i > p {
                assert(t[i] == s[i - 1]);
            }
            if j > p {
                assert(t[j] == s[j - 1]);
            }
        }
    }
    assert(t[p] == (k, v));
    lemma_lookup(t, k);
    assert(t[p].0 == k);
    assert forall|j: Seq<u8>| j != k implies #[trigger] lookup(t, j) == lookup(s, j) by {
        lemma_lookup(t, j);
        lemma_lookup(s, j);
        if has_key(t, j) {
            let q = key_pos(t, j);
            assert(t[q].0 == j);
            let o = if q < p || has_key(s, k) { q } else { q - 1 };
            assert(s[o] == t[q]);
        }
        if has_key(s, j) {
            let q = key_pos(s, j);
            assert(s[q].0 == j);
            let o = if q < p || has_key(s, k) { q } else { q + 1 };
            assert(t[o] == s[q]);
        }
    }
}

/// Dropping an entry keeps the order and every other value.
pub proof fn lemma_without_entry<V>(s: Seq<(Seq<u8>, V)>, k: Seq<u8>)
    requires
        sorted_keys(s),
    ensures
        sorted_keys(without_entry(s, k)),
        lookup(without_entry(s, k), k) is None,
        forall|j: Seq<u8>| j != k ==> #[trigger] lookup(without_entry(s, k), j) == lookup(s, j),
{
    lemma_lookup(s, k);
    let t = without_entry(s, k);
    if has_key(s, k) {
        let p = key_pos(s, k);
        lemma_key_pos(s, k);
        assert forall|i: int, j: int| 0 <= i < j < t.len() implies bytes_lt(
            #[trigger] t[i].0,
            #[trigger] t[j].0,
        ) by {
            let a = if i < p { i } else { i + 1 };
            let b = if j < p { j } else { j + 1 };
            assert(t[i] == s[a] && t[j] == s[b]);
        }
        lemma_lookup(t, k);
        if has_key(t, k) {
            let q = key_pos(t, k);
            let o = if q < p { q } else { q + 1 };
            assert(t[q] == s[o]);
            lemma_bytes_lt_irreflexive(k);
            if o < p {
                assert(bytes_lt(s[o].0, s[p].0));
            } else {
                assert(bytes_lt(s[p].0, s[o].0));
            }
        }
        assert forall|j: Seq<u8>| j != k implies #[trigger] lookup(t, j) == lookup(s, j) by {
            lemma_lookup(t, j);
            lemma_lookup(s, j);
            if has_key(t, j) {
                let q = key_pos(t, j);
                let o = if q < p { q } else { q + 1 };
                assert(s[o] == t[q]);
            }
            if has_key(s, j) {
                let q = key_pos(s, j);
                assert(s[q].0 == j);
                assert(q != p);
                let o = if q < p { q } else { q - 1 };
                assert(t[o] == s[q]);
            }
        }
    }
}

/// One entry of an owner map.
#[derive(Debug, PartialEq, Eq)]
pub struct OwnerEntry<V> {
    pub owner: HandlerId,
    pub value: V,
}

impl<V> View for OwnerEntry<V> {
    type V = (Seq<u8>, V);

    open spec fn view(&self) -> (Seq<u8>, V) {
        (self.owner@, self.value)
    }
}

/// The entries of a map as a sequence of pairs.
pub open spec fn entries_view<V>(entries: Seq<OwnerEntry<V>>) -> Seq<(Seq<u8>, V)> {
    Seq::new(entries.len(), |i: int| entries[i]@)
}

/// A map keyed by handler ids.
#[derive(Debug, PartialEq, Eq)]
pub struct OwnerMap<V> {
    entries: Vec<OwnerEntry<V>>,
}

impl<V> View for OwnerMap<V> {
    type V = Seq<(Seq<u8>, V)>;

    /// The entries in ascending order of their ids.
    closed spec fn view(&self) -> Seq<(Seq<u8>, V)> {
        entries_view(self.entries@)
    }
}

impl<V> OwnerMap<V> {
    #[verifier::type_invariant]
    pub closed spec fn ordered(self) -> bool {
        sorted_keys(entries_view(self.entries@))
    }

    /// A map without entries.
    pub fn new() -> (r: OwnerMap<V>)
        ensures
            r@ == Seq::<(Seq<u8>, V)>::empty(),
    {
        let entries: Vec<OwnerEntry<V>> = Vec::new();
        assert(entries_view(entries@) =~= Seq::<(Seq<u8>, V)>::empty());
        OwnerMap { entries }
    }

    /// The number of entries.
    pub fn len(&self) -> (r: usize)
        ensures
            r == self@.len(),
            sorted_keys(self@),
    {
        proof {
            use_type_invariant(self);
        }
        self.entries.len()
    }

    /// Whether there is no entry.
    pub fn is_empty(&self) -> (r: bool)
        ensures
            r == (self@.len() == 0),
    {
        self.entries.len() == 0
    }

    /// The owner of the entry at `index`.
    pub fn owner_at(&self, index: usize) -> (r: &HandlerId)
        requires
            index < self@.len(),
        ensures
            r@ == self@[index as int].0,
    {
        &self.entries[index].owner
    }

    /// The value of the entry at `index`.
    pub fn value_at(&self, index: usize) -> (r: &V)
        requires
            index < self@.len(),
        ensures
            *r == self@[index as int].1,
    {
        &self.entries[index].value
    }

    /// How many entries have a smaller id than `owner`.
    pub fn position(&self, owner: &HandlerId) -> (r: usize)
        ensures
            r == key_pos(self@, owner@),
            r <= self@.len(),
            sorted_keys(self@),
    {
        proof {
            use_type_invariant(self);
        }
        let mut low: usize = 0;
        let mut high: usize = self.entries.len();
        while low < high
            invariant
                low <= high <= self@.len(),
                self@.len() == self.entries@.len(),
                self@ == entries_view(self.entries@),
                sorted_keys(self@),
                forall|i: int| 0 <= i < low ==> bytes_lt(#[trigger] self@[i].0, owner@),
                forall|i: int| high <= i < self@.len() ==> !bytes_lt(#[trigger] self@[i].0, owner@),
            decreases high - low,
        {
            let middle: usize = low + (high - low) / 2;
            let smaller: bool = bytes_before(
                self.entries[middle].owner.as_bytes(),
                owner.as_bytes(),
            );
            assert(self@[middle as int].0 == self.entries@[middle as int].owner@);
            if smaller {
                proof {
                    assert forall|i: int| 0 <= i < middle + 1 implies bytes_lt(
                        #[trigger] self@[i].0,
                        owner@,
                    ) by {
                        if i < middle {
                            assert(bytes_lt(self@[i].0, self@[middle as int].0));
                            lemma_bytes_lt_transitive(
                                self@[i].0,
                                self@[middle as int].0,
                                owner@,
                            );
                        }
                    }
                }
                low = middle + 1;
            } else {
                proof {
                    assert forall|i: int| middle <= i < self@.len() implies !bytes_lt(
                        #[trigger] self@[i].0,
                        owner@,
                    ) by {
                        if i > middle && bytes_lt(self@[i].0, owner@) {
                            assert(bytes_lt(self@[middle as int].0, self@[i].0));
                            lemma_bytes_lt_transitive(
                                self@[middle as int].0,
                                self@[i].0,
                                owner@,
                            );
                        }
                    }
                }
                high = middle;
            }
        }
        proof {
            lemma_key_pos_unique(self@, owner@, low as int);
        }
        low
    }

    /// The value at `owner`.
    pub fn get(&self, owner: &HandlerId) -> (r: Option<&V>)
        ensures
            match r {
                Some(v) => lookup(self@, owner@) == Some(*v),
                None => lookup(self@, owner@) is None,
            },
    {
        let at: usize = self.position(owner);
        if at < self.entries.len() && self.entries[at].owner.same(owner) {
            Some(&self.entries[at].value)
        } else {
            None
        }
    }

    /// Whether `owner` has an entry.
    pub fn contains_key(&self, owner: &HandlerId) -> (r: bool)
        ensures
            r == has_key(self@, owner@),
    {
        self.get(owner).is_some()
    }

    /// Sets the value at `owner`.
    pub fn insert(&mut self, owner: HandlerId, value: V)
        ensures
            final(self)@ == with_entry(old(self)@, owner@, value),
            sorted_keys(final(self)@),
    {
        let at: usize = self.position(&owner);
        let ghost before = self@;
        proof {
            use_type_invariant(&*self);
            lemma_with_entry(self@, owner@, value);
        }
        let found: bool = at < self.entries.len() && self.entries[at].owner.same(&owner);
        let ghost key = owner@;
        let ghost now = with_entry(before, key, value);
        let mut entries: Vec<OwnerEntry<V>> = Vec::new();
        self.swap_entries(&mut entries);
        if found {
            entries[at] = OwnerEntry { owner, value };
            assert(entries_view(entries@) =~= now);
        } else {
            entries.insert(at, OwnerEntry { owner, value });
            assert(entries_view(entries@) =~= now);
        }
        self.swap_entries(&mut entries);
    }

    /// Exchanges the entries with another ordered vector of them.
    fn swap_entries(&mut self, other: &mut Vec<OwnerEntry<V>>)
        requires
            sorted_keys(entries_view(old(other)@)),
        ensures
            final(self)@ == entries_view(old(other)@),
            entries_view(final(other)@) == old(self)@,
            final(other)@.len() == old(self)@.len(),
    {
        proof {
            use_type_invariant(&*self);
        }
        std::mem::swap(&mut self.entries, other);
    }

    /// Adds an entry behind all others.
    pub fn push_last(&mut self, owner: HandlerId, value: V)
        requires
            old(self)@.len() > 0 ==> bytes_lt(old(self)@.last().0, owner@),
        ensures
            final(self)@ == old(self)@.push((owner@, value)),
            sorted_keys(final(self)@),
    {
        let ghost before = self@;
        let ghost key = owner@;
        proof {
            use_type_invariant(&*self);
            let now = before.push((key, value));
            assert forall|i: int, j: int| 0 <= i < j < now.len() implies bytes_lt(
                #[trigger] now[i].0,
                #[trigger] now[j].0,
            ) by {
                if j == before.len() {
                    if i < before.len() - 1 {
                        lemma_bytes_lt_transitive(before[i].0, before.last().0, key);
                    }
                }
            }
        }
        let mut entries: Vec<OwnerEntry<V>> = Vec::new();
        self.swap_entries(&mut entries);
        entries.push(OwnerEntry { owner, value });
        assert(entries_view(entries@) =~= before.push((key, value)));
        self.swap_entries(&mut entries);
    }

    /// Drops the entry at `owner`, if there is one.
    pub fn remove(&mut self, owner: &HandlerId)
        ensures
            final(self)@ == without_entry(old(self)@, owner@),
            sorted_keys(final(self)@),
    {
        let at: usize = self.position(owner);
        let ghost before = self@;
        proof {
            lemma_without_entry(before, owner@);
        }
        if at < self.entries.len() && self.entries[at].owner.same(owner) {
            let mut entries: Vec<OwnerEntry<V>> = Vec::new();
            self.swap_entries(&mut entries);
            entries.remove(at);
            assert(entries_view(entries@) =~= before.remove(at as int));
            self.swap_entries(&mut entries);
        }
    }
}

/// The ids in a sequence of them, as bytes.
pub open spec fn ids_view(ids: Seq<HandlerId>) -> Seq<Seq<u8>> {
    Seq::new(ids.len(), |i: int| ids[i]@)
}

/// The keys of a map, in order.
pub open spec fn keys_of<V>(s: Seq<(Seq<u8>, V)>) -> Seq<Seq<u8>> {
    Seq::new(s.len(), |i: int| s[i].0)
}

/// The ids in `ids` as a set: a map without values.
pub open spec fn id_set(ids: Seq<Seq<u8>>) -> Seq<(Seq<u8>, ())>
    decreases ids.len(),
{
    if ids.len() == 0 {
        Seq::empty()
    } else {
        with_entry(id_set(ids.drop_last()), ids.last(), ())
    }
}

/// The ids in `ids` in ascending order, each once.
pub open spec fn normalized(ids: Seq<Seq<u8>>) -> Seq<Seq<u8>> {
    keys_of(id_set(ids))
}

/// Whether the ids are strictly ascending.
pub open spec fn sorted_ids(ids: Seq<Seq<u8>>) -> bool {
    forall|i: int, j: int| 0 <= i < j < ids.len() ==> bytes_lt(#[trigger] ids[i], #[trigger] ids[j])
}

/// A set of ids holds exactly the ids that it was made of.
pub proof fn lemma_id_set(ids: Seq<Seq<u8>>)
    ensures
        sorted_keys(id_set(ids)),
        forall|k: Seq<u8>| #[trigger] has_key(id_set(ids), k) <==> ids.contains(k),
    decreases ids.len(),
{
    if ids.len() == 0 {
        assert forall|k: Seq<u8>| #[trigger] has_key(id_set(ids), k) <==> ids.contains(k) by {
            assert(key_pos(id_set(ids), k) == 0);
        }
    } else {
        let front = ids.drop_last();
        lemma_id_set(front);
        lemma_with_entry(id_set(front), ids.last(), ());
        assert forall|k: Seq<u8>| #[trigger] has_key(id_set(ids), k) <==> ids.contains(k) by {
            if k != ids.last() {
                assert(lookup(id_set(ids), k) == lookup(id_set(front), k));
                assert(has_key(id_set(front), k) <==> front.contains(k));
                if ids.contains(k) {
                    let i = choose|i: int| 0 <= i < ids.len() && ids[i] == k;
                    assert(front[i] == k);
                }
                if front.contains(k) {
                    let i = choose|i: int| 0 <= i < front.len() && front[i] == k;
                    assert(ids[i] == k);
                }
            } else {
                assert(ids[ids.len() - 1] == k);
            }
        }
    }
}

/// Normalizing orders the ids, drops repetitions, and keeps which ids there
/// are.
pub proof fn lemma_normalized(ids: Seq<Seq<u8>>)
    ensures
        sorted_ids(normalized(ids)),
        forall|k: Seq<u8>| #[trigger] normalized(ids).contains(k) <==> ids.contains(k),
{
    lemma_id_set(ids);
    let s = id_set(ids);
    assert forall|k: Seq<u8>| #[trigger] normalized(ids).contains(k) <==> ids.contains(k) by {
        lemma_lookup(s, k);
        assert(has_key(s, k) <==> ids.contains(k));
        if has_key(s, k) {
            assert(normalized(ids)[key_pos(s, k)] == k);
        }
        if normalized(ids).contains(k) {
            let i = choose|i: int| 0 <= i < normalized(ids).len() && normalized(ids)[i] == k;
            assert(s[i].0 == k);
        }
    }
}

/// The set of some ids.
pub fn owner_set(ids: &[HandlerId]) -> (r: OwnerMap<()>)
    ensures
        r@ == id_set(ids_view(ids@)),
        sorted_keys(r@),
        forall|k: Seq<u8>| #[trigger] has_key(r@, k) <==> ids_view(ids@).contains(k),
{
    let mut set: OwnerMap<()> = OwnerMap::new();
    let mut i: usize = 0;
    assert(ids_view(ids@).take(0) =~= Seq::<Seq<u8>>::empty());
    while i < ids.len()
        invariant
            i <= ids@.len(),
            set@ == id_set(ids_view(ids@).take(i as int)),
        decreases ids@.len() - i,
    {
        set.insert(ids[i].duplicate(), ());
        proof {
            let next = ids_view(ids@).take(i + 1);
            assert(next.drop_last() =~= ids_view(ids@).take(i as int));
            assert(next.last() == ids@[i as int]@);
        }
        i += 1;
    }
    proof {
        assert(ids_view(ids@).take(i as int) =~= ids_view(ids@));
        lemma_id_set(ids_view(ids@));
    }
    set
}

/// Orders ids and drops repetitions.
pub fn normalize_owners(owners: &mut Vec<HandlerId>)
    ensures
        ids_view(final(owners)@) == normalized(ids_view(old(owners)@)),
{
    let set: OwnerMap<()> = owner_set(owners.as_slice());
    let keys: Vec<HandlerId> = set.owners();
    *owners = keys;
}

/// Whether some id occurs twice.
pub fn has_duplicate_owners(owners: &[HandlerId]) -> (r: bool)
    ensures
        r == !ids_view(owners@).no_duplicates(),
{
    let ghost all = ids_view(owners@);
    let mut set: OwnerMap<()> = OwnerMap::new();
    let mut i: usize = 0;
    assert(all.take(0) =~= Seq::<Seq<u8>>::empty());
    while i < owners.len()
        invariant
            i <= owners@.len(),
            all == ids_view(owners@),
            set@ == id_set(all.take(i as int)),
            forall|a: int, b: int| 0 <= a < b < i ==> all[a] != all[b],
        decreases owners@.len() - i,
    {
        proof {
            lemma_id_set(all.take(i as int));
            assert(has_key(set@, all[i as int]) <==> all.take(i as int).contains(all[i as int]));
        }
        if set.contains_key(&owners[i]) {
            proof {
                let front = all.take(i as int);
                let j = choose|j: int| 0 <= j < front.len() && front[j] == all[i as int];
                assert(all[j] == all[i as int]);
            }
            return true;
        }
        set.insert(owners[i].duplicate(), ());
        proof {
            let next = all.take(i + 1);
            assert(next.drop_last() =~= all.take(i as int));
            assert(next.last() == all[i as int]);
            assert forall|a: int, b: int| 0 <= a < b < i + 1 implies all[a] != all[b] by {
                if b == i && all[a] == all[b] {
                    assert(all.take(i as int)[a] == all[i as int]);
                }
            }
        }
        i += 1;
    }
    assert(all.no_duplicates()) by {
        assert forall|a: int, b: int| 0 <= a < all.len() && 0 <= b < all.len() && a != b implies
            all[a] != all[b] by {
            if a < b {
                assert(all[a] != all[b]);
            } else {
                assert(all[b] != all[a]);
            }
        }
    }
    false
}

impl<V> OwnerMap<V> {
    /// The ids of the map, in order.
    pub fn owners(&self) -> (r: Vec<HandlerId>)
        ensures
            ids_view(r@) == keys_of(self@),
            sorted_keys(self@),
    {
        proof {
            use_type_invariant(self);
        }
        let mut ids: Vec<HandlerId> = Vec::with_capacity(self.entries.len());
        let mut i: usize = 0;
        while i < self.entries.len()
            invariant
                i <= self.entries@.len(),
                ids@.len() == i,
                self@ == entries_view(self.entries@),
                forall|j: int| 0 <= j < i ==> (#[trigger] ids@[j])@ == self@[j].0,
            decreases self.entries@.len() - i,
        {
            ids.push(self.entries[i].owner.duplicate());
            i += 1;
        }
        assert(ids_view(ids@) =~= keys_of(self@));
        ids
    }
}

/// Another vector with the same ids.
pub fn copy_ids(ids: &[HandlerId]) -> (r: Vec<HandlerId>)
    ensures
        ids_view(r@) == ids_view(ids@),
{
    let mut out: Vec<HandlerId> = Vec::with_capacity(ids.len());
    let mut i: usize = 0;
    while i < ids.len()
        invariant
            i <= ids@.len(),
            out@.len() == i,
            forall|j: int| 0 <= j < i ==> (#[trigger] out@[j])@ == ids@[j]@,
        decreases ids@.len() - i,
    {
        out.push(ids[i].duplicate());
        i += 1;
    }
    assert(ids_view(out@) =~= ids_view(ids@));
    out
}

impl<V: Copy> OwnerMap<V> {
    /// Another map with the same entries.
    pub fn duplicate(&self) -> (r: OwnerMap<V>)
        ensures
            r@ == self@,
            sorted_keys(r@),
    {
        proof {
            use_type_invariant(self);
        }
        let mut entries: Vec<OwnerEntry<V>> = Vec::with_capacity(self.entries.len());
        let mut i: usize = 0;
        while i < self.entries.len()
            invariant
                i <= self.entries@.len(),
                entries@.len() == i,
                self@ == entries_view(self.entries@),
                forall|j: int| 0 <= j < i ==> (#[trigger] entries@[j])@ == self@[j],
            decreases self.entries@.len() - i,
        {
            entries.push(
                OwnerEntry {
                    owner: self.entries[i].owner.duplicate(),
                    value: self.entries[i].value,
                },
            );
            i += 1;
        }
        assert(entries_view(entries@) =~= self@);
        OwnerMap { entries }
    }
}

} // verus!
