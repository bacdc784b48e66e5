//! Owners and their interests, in the order of their ids.
use crate::error::SubscriberError;
use crate::intent::{
    interests_view, list_owner_ids, owners_view, InterestView, OwnerInterests, OwnerInterestsView,
    PortableInterest,
};
use crate::model::HandlerId;
use crate::owners::{
    bytes_before, bytes_lt, has_duplicate_owners, key_pos, keys_of, lemma_with_entry, lookup,
    sorted_keys, with_entry, without_entry,
};
use vstd::prelude::*;

verus! {

proof fn lemma_key_pos_step(s: Seq<OwnerInterestsView>, k: Seq<u8>, n: int)
    requires
        0 <= n <= s.len(),
        forall|i: int| 0 <= i < n ==> bytes_lt(#[trigger] s[i].0, k),
        n < s.len() ==> !bytes_lt(s[n].0, k),
    ensures
        key_pos(s, k) == n,
    decreases n,
{
    if n > 0 {
        let rest = s.drop_first();
        assert(bytes_lt(s[0].0, k));
        assert forall|i: int| 0 <= i < n - 1 implies bytes_lt(#[trigger] rest[i].0, k) by {
            assert(rest[i] == s[i + 1]);
        }
        if n < s.len() {
            assert(rest[n - 1] == s[n]);
        }
        lemma_key_pos_step(rest, k, n - 1);
    }
}

/// How many owners at the front of a list come before this one.
fn position_of(owners: &Vec<OwnerInterests>, owner: &HandlerId) -> (r: usize)
    ensures
        r == key_pos(owners_view(owners@), owner@),
        r <= owners@.len(),
{
    let ghost all = owners_view(owners@);
    let mut i: usize = 0;
    while i < owners.len() && bytes_before(owners[i].owner.as_bytes(), owner.as_bytes())
        invariant
            i <= owners@.len(),
            all == owners_view(owners@),
            forall|j: int| 0 <= j < i ==> bytes_lt(#[trigger] all[j].0, owner@),
        decreases owners@.len() - i,
    {
        assert(all[i as int].0 == owners@[i as int].owner@);
        i += 1;
    }
    proof {
        if i < owners@.len() {
            assert(all[i as int].0 == owners@[i as int].owner@);
        }
        lemma_key_pos_step(all, owner@, i as int);
    }
    i
}

/// The interests of an owner.
pub fn interests_of<'a>(owners: &'a Vec<OwnerInterests>, owner: &HandlerId) -> (r: Option<
    &'a Vec<PortableInterest>,
>)
    ensures
        match r {
            Some(interests) => lookup(owners_view(owners@), owner@) == Some(
                interests_view(interests@),
            ),
            None => lookup(owners_view(owners@), owner@) is None,
        },
{
    let at: usize = position_of(owners, owner);
    if at < owners.len() {
        assert(owners_view(owners@)[at as int] == owners@[at as int]@);
        if owners[at].owner.same(owner) {
            return Some(&owners[at].interests);
        }
    }
    None
}

/// Sets the interests of an owner.
pub fn set_owner(owners: &mut Vec<OwnerInterests>, entry: OwnerInterests)
    ensures
        owners_view(final(owners)@) == with_entry(owners_view(old(owners)@), entry@.0, entry@.1),
{
    let ghost before = owners_view(owners@);
    let ghost now = with_entry(before, entry@.0, entry@.1);
    let at: usize = position_of(owners, &entry.owner);
    let mut found: bool = false;
    if at < owners.len() {
        assert(before[at as int] == owners@[at as int]@);
        found = owners[at].owner.same(&entry.owner);
    }
    if found {
        owners[at] = entry;
    } else {
        owners.insert(at, entry);
    }
    assert(owners_view(owners@) =~= now);
}

/// Drops an owner.
pub fn drop_owner(owners: &mut Vec<OwnerInterests>, owner: &HandlerId)
    ensures
        owners_view(final(owners)@) == without_entry(owners_view(old(owners)@), owner@),
{
    let ghost before = owners_view(owners@);
    let ghost now = without_entry(before, owner@);
    let at: usize = position_of(owners, owner);
    if at < owners.len() {
        assert(before[at as int] == owners@[at as int]@);
        if owners[at].owner.same(owner) {
            owners.remove(at);
        }
    }
    assert(owners_view(owners@) =~= now);
}

/// A topology with more owners set, in order.
pub open spec fn with_owners(
    topology: Seq<OwnerInterestsView>,
    list: Seq<OwnerInterestsView>,
) -> Seq<OwnerInterestsView>
    decreases list.len(),
{
    if list.len() == 0 {
        topology
    } else {
        with_entry(with_owners(topology, list.drop_last()), list.last().0, list.last().1)
    }
}

/// The topology of a list of owners.
pub open spec fn topology_of(list: Seq<OwnerInterestsView>) -> Seq<OwnerInterestsView> {
    with_owners(Seq::empty(), list)
}

/// A topology that owners were set in is in the order of their ids, and names
/// each once.
pub proof fn law_topology_is_sorted(
    topology: Seq<OwnerInterestsView>,
    list: Seq<OwnerInterestsView>,
)
    requires
        sorted_keys(topology),
    ensures
        sorted_keys(with_owners(topology, list)),
    decreases list.len(),
{
    if list.len() > 0 {
        law_topology_is_sorted(topology, list.drop_last());
        lemma_with_entry(
            with_owners(topology, list.drop_last()),
            list.last().0,
            list.last().1,
        );
    }
}

/// What a list says last of an owner.
pub open spec fn said_last(list: Seq<OwnerInterestsView>, k: Seq<u8>) -> Option<Seq<InterestView>>
    decreases list.len(),
{
    if list.len() == 0 {
        None
    } else if list.last().0 == k {
        Some(list.last().1)
    } else {
        said_last(list.drop_last(), k)
    }
}

/// What a topology says of an owner once more owners are set.
pub proof fn lemma_with_owners_lookup(
    owners: Seq<OwnerInterestsView>,
    list: Seq<OwnerInterestsView>,
    k: Seq<u8>,
)
    requires
        sorted_keys(owners),
    ensures
        lookup(with_owners(owners, list), k) == (match said_last(list, k) {
            Some(interests) => Some(interests),
            None => lookup(owners, k),
        }),
    decreases list.len(),
{
    if list.len() > 0 {
        let front = list.drop_last();
        lemma_with_owners_lookup(owners, front, k);
        law_topology_is_sorted(owners, front);
        lemma_with_entry(with_owners(owners, front), list.last().0, list.last().1);
    }
}

/// A list says nothing of an owner that it does not name.
pub proof fn lemma_not_said(list: Seq<OwnerInterestsView>, k: Seq<u8>)
    requires
        !keys_of(list).contains(k),
    ensures
        said_last(list, k) is None,
    decreases list.len(),
{
    if list.len() > 0 {
        let keys = keys_of(list);
        assert(keys[list.len() - 1] == list.last().0);
        let front = list.drop_last();
        assert forall|i: int| 0 <= i < keys_of(front).len() implies keys_of(front)[i] != k by {
            assert(keys[i] == keys_of(front)[i]);
        }
        lemma_not_said(front, k);
    }
}

/// A list that names no owner twice says one thing of each.
pub proof fn lemma_said(list: Seq<OwnerInterestsView>, i: int)
    requires
        keys_of(list).no_duplicates(),
        0 <= i < list.len(),
    ensures
        said_last(list, list[i].0) == Some(list[i].1),
    decreases list.len(),
{
    let n = list.len() - 1;
    let keys = keys_of(list);
    assert(keys[i] == list[i].0 && keys[n] == list[n].0);
    if i < n {
        let front = list.drop_last();
        assert(keys[i] != keys[n]);
        assert(keys_of(front) =~= keys.drop_last());
        assert forall|x: int, y: int|
            0 <= x < front.len() && 0 <= y < front.len() && x != y implies keys_of(front)[x]
            != keys_of(front)[y] by {
            assert(keys[x] != keys[y]);
        }
        lemma_said(front, i);
    }
}

/// Sets more owners.
pub fn set_owners(owners: &mut Vec<OwnerInterests>, list: &Vec<OwnerInterests>)
    ensures
        owners_view(final(owners)@) == with_owners(owners_view(old(owners)@), owners_view(list@)),
{
    let ghost start = owners_view(owners@);
    let ghost all = owners_view(list@);
    let mut i: usize = 0;
    assert(all.take(0) =~= Seq::<OwnerInterestsView>::empty());
    while i < list.len()
        invariant
            i <= list@.len(),
            all == owners_view(list@),
            owners_view(owners@) == with_owners(start, all.take(i as int)),
        decreases list@.len() - i,
    {
        proof {
            let next = all.take(i + 1);
            assert(next.drop_last() =~= all.take(i as int));
            assert(next.last() == all[i as int]);
            assert(all[i as int] == list@[i as int]@);
        }
        set_owner(owners, list[i].duplicate());
        i += 1;
    }
    assert(all.take(i as int) =~= all);
}

/// What a list of owners, none of them named twice, is as a topology.
pub open spec fn exact_topology(list: Seq<OwnerInterestsView>, operation: &'static str) -> Result<
    Seq<OwnerInterestsView>,
    SubscriberError,
> {
    if !keys_of(list).no_duplicates() {
        Err(SubscriberError::InvalidConfig(operation))
    } else {
        Ok(topology_of(list))
    }
}

/// The topology of a list of owners. A list that names an owner twice is
/// refused with the given text.
pub fn exact_owner_topology(list: &Vec<OwnerInterests>, operation: &'static str) -> (r: Result<
    Vec<OwnerInterests>,
    SubscriberError,
>)
    ensures
        match r {
            Ok(owners) => exact_topology(owners_view(list@), operation) == Ok::<
                _,
                SubscriberError,
            >(owners_view(owners@)),
            Err(e) => exact_topology(owners_view(list@), operation) == Err::<
                Seq<OwnerInterestsView>,
                _,
            >(e),
        },
{
    let ids: Vec<HandlerId> = list_owner_ids(list);
    if has_duplicate_owners(ids.as_slice()) {
        return Err(SubscriberError::InvalidConfig(operation));
    }
    let mut owners: Vec<OwnerInterests> = Vec::new();
    assert(owners_view(owners@) =~= Seq::<OwnerInterestsView>::empty());
    set_owners(&mut owners, list);
    Ok(owners)
}

/// Whether some owner of a topology is interested in something.
pub open spec fn topology_active(owners: Seq<OwnerInterestsView>) -> bool {
    exists|i: int| 0 <= i < owners.len() && (#[trigger] owners[i]).1.len() > 0
}

} // verus!
