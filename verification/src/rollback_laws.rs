//! What becomes of the topologies of the two sources.
use crate::error::SubscriberError;
use crate::intent::{InterestView, OwnerInterestsView};
use crate::lifecycle::{
    change_planned, mode_error, next_topology, previous_of, rollback_for, ChangePlanView,
    ChangeVerdicts, ChangeView,
};
use crate::lifecycle_laws::{law_modes_exclude_each_other, topology_sound};
use crate::owners::{
    bytes_lt, key_pos, keys_of, lemma_bytes_lt_irreflexive, lemma_bytes_lt_total,
    lemma_bytes_lt_transitive, lemma_key_pos_unique, lemma_lookup, lemma_with_entry,
    lemma_without_entry, lookup, sorted_keys, with_entry, without_entry,
};
use crate::rollback::{
    bulk_actions, historical_actions, live_actions, rollback_due, rolled_back, to_register,
    to_remove, undo_step, RollbackEvent, RollbackStepView,
};
use crate::state::{CoordView, RollbackView};
use crate::steps::{historical_form, history_action, plain_action, ActionView};
use crate::topology::{
    law_topology_is_sorted, lemma_not_said, lemma_with_owners_lookup, said_last, topology_of,
    with_owners,
};
use crate::words::Epoch;
use vstd::prelude::*;

verus! {

/// What is registered at a source.
pub struct SourceTopology {
    pub base: Seq<InterestView>,
    pub owners: Seq<OwnerInterestsView>,
}

/// What is registered at a source once it did what it was told.
pub open spec fn after_action(t: SourceTopology, action: ActionView) -> SourceTopology {
    match action {
        ActionView::Register(base) => SourceTopology { base, owners: Seq::empty() },
        ActionView::Replace(list) => SourceTopology { base: Seq::empty(), owners: topology_of(list) },
        ActionView::ReplaceWithBackfill(list) => SourceTopology {
            base: Seq::empty(),
            owners: topology_of(list),
        },
        ActionView::ReplaceAfter(list, _) => SourceTopology {
            base: Seq::empty(),
            owners: topology_of(list),
        },
        ActionView::Upsert(list) => SourceTopology { owners: with_owners(t.owners, list), ..t },
        ActionView::Add(entry) => SourceTopology {
            owners: with_owners(t.owners, seq![entry]),
            ..t
        },
        ActionView::AddWithBackfill(entry) => SourceTopology {
            owners: with_owners(t.owners, seq![entry]),
            ..t
        },
        ActionView::AddFrom(entry, _) => SourceTopology {
            owners: with_owners(t.owners, seq![entry]),
            ..t
        },
        ActionView::Remove(owner) => SourceTopology { owners: without_entry(t.owners, owner), ..t },
        ActionView::Refuse(_) => t,
    }
}

/// What is registered at a source once it did what it was told, one after the
/// other.
pub open spec fn after_actions(t: SourceTopology, actions: Seq<ActionView>) -> SourceTopology
    decreases actions.len(),
{
    if actions.len() == 0 {
        t
    } else {
        after_action(after_actions(t, actions.drop_last()), actions.last())
    }
}

/// What the coordinator takes to be registered at both sources.
pub open spec fn topology_at(v: CoordView) -> SourceTopology {
    SourceTopology { base: v.base_interests, owners: v.owners }
}

// ---------------------------------------------------------------------------
// Topologies by what they say of each owner
// ---------------------------------------------------------------------------

proof fn lemma_same_lookups(s: Seq<OwnerInterestsView>, t: Seq<OwnerInterestsView>)
    requires
        sorted_keys(s),
        sorted_keys(t),
        forall|k: Seq<u8>| #[trigger] lookup(s, k) == lookup(t, k),
    ensures
        s == t,
    decreases s.len(),
{
    if s.len() == 0 {
        if t.len() > 0 {
            lemma_bytes_lt_irreflexive(t[0].0);
            assert(lookup(t, t[0].0) is Some);
            assert(lookup(s, t[0].0) is None);
        }
        assert(s =~= t);
    } else {
        let k = s[0].0;
        lemma_bytes_lt_irreflexive(k);
        assert(lookup(s, k) == Some(s[0].1));
        assert(lookup(t, k) == Some(s[0].1));
        if t.len() == 0 {
            assert(lookup(t, k) is None);
        }
        let j = t[0].0;
        lemma_bytes_lt_irreflexive(j);
        assert(lookup(t, j) == Some(t[0].1));
        assert(lookup(s, j) == Some(t[0].1));
        lemma_lookup(s, j);
        lemma_lookup(t, k);
        if k != j {
            lemma_bytes_lt_total(k, j);
            let a = key_pos(s, j);
            let b = key_pos(t, k);
            assert(s[a].0 == j && t[b].0 == k);
            if a > 0 {
                assert(bytes_lt(s[0].0, s[a].0));
            }
            if b > 0 {
                assert(bytes_lt(t[0].0, t[b].0));
                lemma_bytes_lt_transitive(k, j, k);
            }
        }
        let s1 = s.drop_first();
        let t1 = t.drop_first();
        lemma_without_entry(s, k);
        lemma_without_entry(t, k);
        assert(without_entry(s, k) =~= s1);
        assert(without_entry(t, k) =~= t1);
        assert forall|m: Seq<u8>| #[trigger] lookup(s1, m) == lookup(t1, m) by {
            if m != k {
                assert(lookup(without_entry(s, k), m) == lookup(s, m));
                assert(lookup(without_entry(t, k), m) == lookup(t, m));
            }
        }
        lemma_same_lookups(s1, t1);
        assert(s =~= seq![s[0]] + s1);
        assert(t =~= seq![t[0]] + t1);
    }
}

/// A topology in order is that of its own owners.
proof fn lemma_topology_of_itself(s: Seq<OwnerInterestsView>)
    requires
        sorted_keys(s),
    ensures
        topology_of(s) == s,
    decreases s.len(),
{
    if s.len() > 0 {
        let front = s.drop_last();
        let last = s.last();
        lemma_topology_of_itself(front);
        let n = front.len() as int;
        assert forall|i: int| 0 <= i < n implies bytes_lt(#[trigger] front[i].0, last.0) by {
            assert(bytes_lt(s[i].0, s[n].0));
        }
        lemma_key_pos_unique(front, last.0, n);
        assert(with_entry(front, last.0, last.1) =~= s);
    } else {
        assert(topology_of(s) =~= s);
    }
}

proof fn lemma_one_owner_lookup(owners: Seq<OwnerInterestsView>, entry: OwnerInterestsView)
    ensures
        with_owners(owners, seq![entry]) == with_entry(owners, entry.0, entry.1),
{
    let list = seq![entry];
    assert(list.drop_last() =~= Seq::<OwnerInterestsView>::empty());
    assert(list.last() == entry);
    assert(with_owners(owners, list.drop_last()) == owners);
}

// ---------------------------------------------------------------------------
// Taking a bulk change back
// ---------------------------------------------------------------------------

proof fn lemma_previous(v: CoordView, list: Seq<OwnerInterestsView>, k: Seq<u8>)
    ensures
        said_last(to_register(previous_of(v, list)), k) == (if keys_of(list).contains(k) {
            lookup(v.owners, k)
        } else {
            None
        }),
        to_remove(previous_of(v, list)).contains(k) <==> keys_of(list).contains(k) && lookup(
            v.owners,
            k,
        ) is None,
    decreases list.len(),
{
    let each = previous_of(v, list);
    if list.len() > 0 {
        let front = list.drop_last();
        lemma_previous(v, front, k);
        assert(each.drop_last() =~= previous_of(v, front));
        assert(each.last() == (list.last().0, lookup(v.owners, list.last().0)));
        let keys = keys_of(list);
        assert(keys.drop_last() =~= keys_of(front));
        assert(keys.last() == list.last().0);
        assert(keys =~= keys.drop_last().push(keys.last()));
        assert(keys.contains(k) <==> keys_of(front).contains(k) || k == list.last().0) by {
            if keys_of(front).contains(k) {
                let i = choose|i: int| 0 <= i < keys_of(front).len() && keys_of(front)[i] == k;
                assert(keys[i] == k);
            }
            if k == list.last().0 {
                assert(keys[list.len() - 1] == k);
            }
        }
        let before = to_register(each.drop_last());
        let gone = to_remove(each.drop_last());
        match each.last().1 {
            Some(interests) => {
                let now = before.push((each.last().0, interests));
                assert(to_register(each) == now);
                assert(now.drop_last() =~= before);
                assert(now.last() == (each.last().0, interests));
            },
            None => {
                let now = gone.push(each.last().0);
                assert(to_remove(each) == now);
                assert(now.contains(k) <==> gone.contains(k) || k == each.last().0) by {
                    if gone.contains(k) {
                        let i = choose|i: int| 0 <= i < gone.len() && gone[i] == k;
                        assert(now[i] == k);
                    }
                    if k == each.last().0 {
                        assert(now[gone.len() as int] == k);
                    }
                }
            },
        }
    } else {
        assert(each =~= Seq::<(Seq<u8>, Option<Seq<InterestView>>)>::empty());
    }
}

spec fn removals(ids: Seq<Seq<u8>>) -> Seq<ActionView> {
    Seq::new(ids.len(), |i: int| ActionView::Remove(ids[i]))
}

proof fn lemma_removals(t: SourceTopology, ids: Seq<Seq<u8>>)
    requires
        sorted_keys(t.owners),
    ensures
        after_actions(t, removals(ids)).base == t.base,
        sorted_keys(after_actions(t, removals(ids)).owners),
        forall|k: Seq<u8>|
            #[trigger] lookup(after_actions(t, removals(ids)).owners, k) == (if ids.contains(k) {
                None
            } else {
                lookup(t.owners, k)
            }),
    decreases ids.len(),
{
    let actions = removals(ids);
    if ids.len() > 0 {
        let front = ids.drop_last();
        assert(actions.drop_last() =~= removals(front));
        assert(actions.last() == ActionView::Remove(ids.last()));
        lemma_removals(t, front);
        let before = after_actions(t, removals(front)).owners;
        lemma_without_entry(before, ids.last());
        assert forall|k: Seq<u8>|
            #[trigger] lookup(after_actions(t, actions).owners, k) == (if ids.contains(k) {
                None
            } else {
                lookup(t.owners, k)
            }) by {
            assert(after_actions(t, actions).owners == without_entry(before, ids.last()));
            if k == ids.last() {
                assert(ids[ids.len() - 1] == k);
            } else {
                assert(lookup(without_entry(before, ids.last()), k) == lookup(before, k));
                if front.contains(k) {
                    let i = choose|i: int| 0 <= i < front.len() && front[i] == k;
                    assert(ids[i] == k);
                }
                if ids.contains(k) {
                    let i = choose|i: int| 0 <= i < ids.len() && ids[i] == k;
                    assert(front[i] == k);
                }
            }
        }
    } else {
        assert(actions =~= Seq::<ActionView>::empty());
    }
}

proof fn lemma_first_action(t: SourceTopology, first: ActionView, rest: Seq<ActionView>)
    ensures
        after_actions(t, seq![first] + rest) == after_actions(after_action(t, first), rest),
    decreases rest.len(),
{
    let all = seq![first] + rest;
    if rest.len() == 0 {
        assert(all.drop_last() =~= Seq::<ActionView>::empty());
        assert(all.last() == first);
        assert(after_actions(t, all.drop_last()) == t);
    } else {
        lemma_first_action(t, first, rest.drop_last());
        assert(all.drop_last() =~= seq![first] + rest.drop_last());
        assert(all.last() == rest.last());
    }
}

/// Whether two topologies say the same of every owner that a list does not name.
spec fn agree_beside(
    s: Seq<OwnerInterestsView>,
    t: Seq<OwnerInterestsView>,
    list: Seq<OwnerInterestsView>,
) -> bool {
    forall|k: Seq<u8>| !keys_of(list).contains(k) ==> #[trigger] lookup(s, k) == lookup(t, k)
}

proof fn lemma_bulk_restored(v: CoordView, t: SourceTopology, list: Seq<OwnerInterestsView>)
    requires
        sorted_keys(v.owners),
        sorted_keys(t.owners),
        agree_beside(t.owners, v.owners, list),
    ensures
        ({
            let each = previous_of(v, list);
            after_actions(t, bulk_actions(to_register(each), to_remove(each)))
                == (SourceTopology { owners: v.owners, ..t })
        }),
{
    let each = previous_of(v, list);
    let back = to_register(each);
    let gone = to_remove(each);
    let mid = SourceTopology { owners: with_owners(t.owners, back), ..t };
    law_topology_is_sorted(t.owners, back);
    lemma_removals(mid, gone);
    let end = after_actions(mid, removals(gone));
    assert forall|k: Seq<u8>| #[trigger] lookup(end.owners, k) == lookup(v.owners, k) by {
        lemma_previous(v, list, k);
        lemma_with_owners_lookup(t.owners, back, k);
    }
    lemma_same_lookups(end.owners, v.owners);
    if back.len() > 0 {
        lemma_first_action(t, ActionView::Upsert(back), removals(gone));
        assert(bulk_actions(back, gone) =~= seq![ActionView::Upsert(back)] + removals(gone));
    } else {
        assert(mid.owners == t.owners);
        assert(bulk_actions(back, gone) =~= removals(gone));
    }
}

// ---------------------------------------------------------------------------
// Laws
// ---------------------------------------------------------------------------

proof fn lemma_planned_topology(
    v: CoordView,
    change: ChangeView,
    historical_chain: Option<u64>,
    verdicts: ChangeVerdicts,
    epoch: Epoch,
)
    ensures
        match change_planned(v, change, historical_chain, verdicts, epoch) {
            Ok(Some(p)) => {
                &&& p.change == change
                &&& mode_error(v, change) is None
                &&& next_topology(v, change) == Ok::<_, SubscriberError>(
                    Some((p.next.base, p.next.owners)),
                )
            },
            _ => true,
        },
{
}

/// A planned change leads both sources, each in the form in which it is told,
/// from the topology of the coordinator to the planned one.
pub proof fn law_sources_follow_the_plan(
    v: CoordView,
    change: ChangeView,
    historical_chain: Option<u64>,
    verdicts: ChangeVerdicts,
    epoch: Epoch,
)
    requires
        topology_sound(v),
    ensures
        match change_planned(v, change, historical_chain, verdicts, epoch) {
            Ok(Some(p)) => {
                let planned = SourceTopology { base: p.next.base, owners: p.next.owners };
                &&& after_action(topology_at(v), plain_action(p.change)) == planned
                &&& after_action(topology_at(v), historical_form(p)) == planned
            },
            _ => true,
        },
{
    lemma_planned_topology(v, change, historical_chain, verdicts, epoch);
    if let Ok(Some(p)) = change_planned(v, change, historical_chain, verdicts, epoch) {
        lemma_followed(v, p);
    }
}

proof fn lemma_followed(v: CoordView, p: ChangePlanView)
    requires
        mode_error(v, p.change) is None,
        next_topology(v, p.change) == Ok::<_, SubscriberError>(
            Some((p.next.base, p.next.owners)),
        ),
    ensures
        after_action(topology_at(v), plain_action(p.change)) == (SourceTopology {
            base: p.next.base,
            owners: p.next.owners,
        }),
        after_action(topology_at(v), history_action(p.change)) == (SourceTopology {
            base: p.next.base,
            owners: p.next.owners,
        }),
{
    let none = Seq::<InterestView>::empty();
    if !(p.change is Base) {
        assert(v.base_interests =~= none);
    }
}

/// A planned change that does not come to its end stays noted: it is due to be
/// taken back before another is made, the historical source being told first and
/// the live one next.
pub proof fn law_unfinished_change_is_taken_back_first(
    v: CoordView,
    change: ChangeView,
    historical_chain: Option<u64>,
    verdicts: ChangeVerdicts,
    epoch: Epoch,
)
    ensures
        match change_planned(v, change, historical_chain, verdicts, epoch) {
            Ok(Some(p)) => {
                let r = rollback_for(v, change, p.next);
                let n = CoordView { rollback: Some(r), ..v };
                &&& rollback_due(n, !(change is Base)) == Ok::<_, SubscriberError>(Some(r))
                &&& undo_step(r, RollbackEvent::Due) == RollbackStepView::RestoreHistorical(
                    historical_actions(r),
                )
                &&& undo_step(r, RollbackEvent::HistoricalTried) == RollbackStepView::RestoreLive(
                    live_actions(r),
                )
                &&& undo_step(r, RollbackEvent::LiveTried) == RollbackStepView::Finish
            },
            _ => true,
        },
{
}

/// Taking a change back fails where either source does, and then leaves it due;
/// where both did what they were told, it is due no more.
pub proof fn law_rollback_is_due_until_it_is_done(
    before: CoordView,
    after: CoordView,
    r: RollbackView,
    historical: Result<(), SubscriberError>,
    live: Result<(), SubscriberError>,
    owner_managed: bool,
    result: Result<(), SubscriberError>,
)
    requires
        before.rollback == Some(r),
        rolled_back(before, after, r, historical, live, owner_managed, result),
    ensures
        historical is Err || live is Err ==> result is Err && after == before,
        result is Ok ==> historical is Ok && live is Ok && after == (CoordView {
            rollback: None,
            ..before
        }),
{
}

/// The form of a topology in which a source may be once a change was to be made
/// there: as it was, or as it was to be.
pub open spec fn made_or_not(v: CoordView, change: ChangeView, t: SourceTopology) -> bool {
    t == topology_at(v) || t == after_action(topology_at(v), plain_action(change))
}

/// Taking a planned change back leaves each source with what was registered
/// there before, whether it had made the change or not.
pub proof fn law_taking_back_restores_the_sources(
    v: CoordView,
    change: ChangeView,
    historical_chain: Option<u64>,
    verdicts: ChangeVerdicts,
    epoch: Epoch,
    t: SourceTopology,
)
    requires
        topology_sound(v),
        made_or_not(v, change, t),
    ensures
        match change_planned(v, change, historical_chain, verdicts, epoch) {
            Ok(Some(p)) => {
                let r = rollback_for(v, change, p.next);
                &&& after_actions(t, live_actions(r)) == topology_at(v)
                &&& after_actions(t, historical_actions(r)) == topology_at(v)
            },
            _ => true,
        },
{
    lemma_planned_topology(v, change, historical_chain, verdicts, epoch);
    law_modes_exclude_each_other(v);
    if let Ok(Some(p)) = change_planned(v, change, historical_chain, verdicts, epoch) {
        lemma_restored(v, p, t);
    }
}

proof fn lemma_single(t: SourceTopology, action: ActionView)
    ensures
        after_actions(t, seq![action]) == after_action(t, action),
{
    let all = seq![action];
    assert(all.drop_last() =~= Seq::<ActionView>::empty());
    assert(after_actions(t, all.drop_last()) == t);
}

proof fn lemma_owner_restored(v: CoordView, owner: Seq<u8>, t: SourceTopology)
    requires
        sorted_keys(v.owners),
        sorted_keys(t.owners),
        t.base == v.base_interests,
        forall|k: Seq<u8>| k != owner ==> #[trigger] lookup(t.owners, k) == lookup(v.owners, k),
    ensures
        match lookup(v.owners, owner) {
            Some(interests) => after_action(t, ActionView::Add((owner, interests))) == topology_at(v),
            None => after_action(t, ActionView::Remove(owner)) == topology_at(v),
        },
{
    match lookup(v.owners, owner) {
        Some(interests) => {
            lemma_one_owner_lookup(t.owners, (owner, interests));
            let now = with_entry(t.owners, owner, interests);
            lemma_with_entry(t.owners, owner, interests);
            assert forall|k: Seq<u8>| #[trigger] lookup(now, k) == lookup(v.owners, k) by {
                if k != owner {
                    assert(lookup(now, k) == lookup(t.owners, k));
                }
            }
            lemma_same_lookups(now, v.owners);
        },
        None => {
            let now = without_entry(t.owners, owner);
            lemma_without_entry(t.owners, owner);
            assert forall|k: Seq<u8>| #[trigger] lookup(now, k) == lookup(v.owners, k) by {
                if k != owner {
                    assert(lookup(now, k) == lookup(t.owners, k));
                }
            }
            lemma_same_lookups(now, v.owners);
        },
    }
}

proof fn lemma_owner_touched(v: CoordView, change: ChangeView, owner: Seq<u8>, t: SourceTopology)
    requires
        sorted_keys(v.owners),
        made_or_not(v, change, t),
        match plain_action(change) {
            ActionView::Add(entry) => entry.0 == owner,
            ActionView::Remove(k) => k == owner,
            _ => false,
        },
    ensures
        sorted_keys(t.owners),
        t.base == v.base_interests,
        forall|k: Seq<u8>| k != owner ==> #[trigger] lookup(t.owners, k) == lookup(v.owners, k),
{
    match plain_action(change) {
        ActionView::Add(entry) => {
            lemma_one_owner_lookup(v.owners, entry);
            lemma_with_entry(v.owners, owner, entry.1);
        },
        _ => {
            lemma_without_entry(v.owners, owner);
        },
    }
}

proof fn lemma_restored(v: CoordView, p: ChangePlanView, t: SourceTopology)
    requires
        topology_sound(v),
        v.base_interests.len() == 0 || v.owners.len() == 0,
        mode_error(v, p.change) is None,
        made_or_not(v, p.change, t),
    ensures
        after_actions(t, live_actions(rollback_for(v, p.change, p.next))) == topology_at(v),
        after_actions(t, historical_actions(rollback_for(v, p.change, p.next))) == topology_at(v),
{
    let r = rollback_for(v, p.change, p.next);
    match p.change {
        ChangeView::Base(_) => {
            assert(v.owners =~= Seq::<OwnerInterestsView>::empty());
            lemma_single(t, ActionView::Register(v.base_interests));
        },
        ChangeView::Replace(_) | ChangeView::ReplaceWithBackfill(_) => {
            assert(v.base_interests =~= Seq::<InterestView>::empty());
            lemma_topology_of_itself(v.owners);
            lemma_single(t, live_actions(r)[0]);
            lemma_single(t, historical_actions(r)[0]);
            assert(live_actions(r) =~= seq![live_actions(r)[0]]);
            assert(historical_actions(r) =~= seq![historical_actions(r)[0]]);
        },
        ChangeView::Upsert(list) => {
            law_topology_is_sorted(v.owners, list);
            assert(agree_beside(t.owners, v.owners, list)) by {
                assert forall|k: Seq<u8>| !keys_of(list).contains(k) implies #[trigger] lookup(
                    t.owners,
                    k,
                ) == lookup(v.owners, k) by {
                    lemma_with_owners_lookup(v.owners, list, k);
                    lemma_not_said(list, k);
                }
            }
            lemma_bulk_restored(v, t, list);
        },
        ChangeView::Add(entry) | ChangeView::AddWithBackfill(entry) => {
            lemma_owner_touched(v, p.change, entry.0, t);
            lemma_owner_restored(v, entry.0, t);
            lemma_single(t, live_actions(r)[0]);
        },
        ChangeView::AddFrom(entry, _) => {
            lemma_owner_touched(v, p.change, entry.0, t);
            lemma_owner_restored(v, entry.0, t);
            lemma_single(t, live_actions(r)[0]);
        },
        ChangeView::Remove(owner) => {
            lemma_owner_touched(v, p.change, owner, t);
            lemma_owner_restored(v, owner, t);
            lemma_single(t, live_actions(r)[0]);
        },
    }
}

} // verus!
