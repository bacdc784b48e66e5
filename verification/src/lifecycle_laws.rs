//! What holds of the topology throughout.
use crate::barrier::barrier_commit;
use crate::checkpoint::{CheckpointView, SourceView};
use crate::commit::{
    ancestors_of, committed, other_committed, resets, source_committed, uncertified, CommitView,
};
use crate::config::HybridConfig;
use crate::error::SubscriberError;
use crate::filter::{commit_ids, state_after};
use crate::fit::law_fit_keeps_protected_suffix;
use crate::flow::{next, recovery_activated, StepView};
use crate::history::seeded_all;
use crate::identities::distinct;
use crate::intent::{intent_of, law_empty_list_has_empty_fingerprint, OwnerInterestsView};
use crate::lifecycle::{
    alters_some, change_committed, change_planned, generations_with, mode_error, next_generations,
    next_topology, owners_interested, resolved, rollback_for, ChangePlanView, ChangeVerdicts,
    ChangeView, NextView,
};
use crate::model::BlockRef;
use crate::owners::{
    bytes_lt, key_pos, keys_of, lemma_with_entry, lemma_without_entry, lookup, sorted_keys,
    with_entry, without_entry,
};
use crate::rollback::{rollback_due, rolled_back};
use crate::state::{healthy_error, reconfigure_error, restoring_error, CoordView, HybridPhase};
use crate::steps::{plain_action, ActionView};
use crate::subscriber::started;
use crate::topology::{
    law_topology_is_sorted, lemma_not_said, lemma_said, lemma_with_owners_lookup, with_owners,
};
use crate::validate::SequenceVerdict;
use crate::words::{B256, Epoch};
use vstd::prelude::*;

verus! {

/// Whether the durable state knows the topology: its intent is that of the
/// interests, and every registered owner has a generation.
pub open spec fn topology_sound(v: CoordView) -> bool {
    &&& intent_of(v.base_interests, v.owners) == Ok::<_, SubscriberError>(
        v.durable.lifecycle_intent,
    )
    &&& keys_of(v.durable.owner_generations) == keys_of(v.owners)
    &&& sorted_keys(v.owners)
    &&& sorted_keys(v.durable.owner_generations)
}

/// A new coordinator knows its topology.
pub proof fn law_start_knows_its_topology(chain_id: u64, config: HybridConfig, epoch: Epoch)
    ensures
        topology_sound(started(chain_id, config, epoch)),
{
    law_empty_list_has_empty_fingerprint();
    let v = started(chain_id, config, epoch);
    assert(keys_of(v.owners) =~= Seq::<Seq<u8>>::empty());
    assert(keys_of(v.durable.owner_generations) =~= Seq::<Seq<u8>>::empty());
}

proof fn lemma_same_pos<A, B>(s: Seq<(Seq<u8>, A)>, t: Seq<(Seq<u8>, B)>, k: Seq<u8>)
    requires
        keys_of(s) == keys_of(t),
    ensures
        key_pos(s, k) == key_pos(t, k),
        0 <= key_pos(s, k) <= s.len(),
    decreases s.len(),
{
    assert(keys_of(s).len() == s.len() && keys_of(t).len() == t.len());
    if s.len() > 0 {
        assert(keys_of(s)[0] == s[0].0 && keys_of(t)[0] == t[0].0);
        if bytes_lt(s[0].0, k) {
            assert(keys_of(s.drop_first()) =~= keys_of(s).drop_first());
            assert(keys_of(t.drop_first()) =~= keys_of(t).drop_first());
            lemma_same_pos(s.drop_first(), t.drop_first(), k);
        }
    }
}

proof fn lemma_same_keys<A, B>(
    s: Seq<(Seq<u8>, A)>,
    t: Seq<(Seq<u8>, B)>,
    k: Seq<u8>,
    a: A,
    b: B,
)
    requires
        keys_of(s) == keys_of(t),
    ensures
        keys_of(with_entry(s, k, a)) == keys_of(with_entry(t, k, b)),
        keys_of(without_entry(s, k)) == keys_of(without_entry(t, k)),
{
    lemma_same_pos(s, t, k);
    let p = key_pos(s, k);
    assert(keys_of(s).len() == s.len() && keys_of(t).len() == t.len());
    if p < s.len() {
        assert(keys_of(s)[p] == s[p].0 && keys_of(t)[p] == t[p].0);
    }
    assert forall|i: int| 0 <= i < s.len() implies (#[trigger] s[i]).0 == t[i].0 by {
        assert(keys_of(s)[i] == s[i].0 && keys_of(t)[i] == t[i].0);
    }
    assert(keys_of(with_entry(s, k, a)) =~= keys_of(with_entry(t, k, b)));
    assert(keys_of(without_entry(s, k)) =~= keys_of(without_entry(t, k)));
}

proof fn lemma_keys_with_owners(
    owners: Seq<OwnerInterestsView>,
    generations: Seq<(Seq<u8>, u64)>,
    list: Seq<OwnerInterestsView>,
    generation: u64,
)
    requires
        keys_of(owners) == keys_of(generations),
        sorted_keys(generations),
    ensures
        keys_of(with_owners(owners, list)) == keys_of(
            generations_with(generations, keys_of(list), generation),
        ),
        sorted_keys(generations_with(generations, keys_of(list), generation)),
    decreases list.len(),
{
    let ids = keys_of(list);
    if list.len() > 0 {
        let front = list.drop_last();
        assert(keys_of(front) =~= ids.drop_last());
        assert(ids.last() == list.last().0);
        lemma_keys_with_owners(owners, generations, front, generation);
        let o = with_owners(owners, front);
        let g = generations_with(generations, keys_of(front), generation);
        lemma_same_keys(o, g, list.last().0, list.last().1, generation);
        lemma_with_entry(g, list.last().0, generation);
    }
}

/// The owners that a change leads to are those that have a generation then.
proof fn lemma_next_keys(v: CoordView, change: ChangeView, generation: u64)
    requires
        topology_sound(v),
    ensures
        match next_topology(v, change) {
            Ok(Some((base, owners))) => keys_of(owners) == keys_of(
                next_generations(v, change, generation),
            ) && sorted_keys(owners) && sorted_keys(next_generations(v, change, generation)),
            _ => true,
        },
{
    let no_owners = Seq::<OwnerInterestsView>::empty();
    let no_generations = Seq::<(Seq<u8>, u64)>::empty();
    assert(keys_of(no_owners) =~= keys_of(no_generations));
    match change {
        ChangeView::Base(_) => {},
        ChangeView::Replace(list) => {
            lemma_keys_with_owners(no_owners, no_generations, list, generation);
            law_topology_is_sorted(no_owners, list);
        },
        ChangeView::ReplaceWithBackfill(list) => {
            lemma_keys_with_owners(no_owners, no_generations, list, generation);
            law_topology_is_sorted(no_owners, list);
        },
        ChangeView::Upsert(list) => {
            lemma_keys_with_owners(v.owners, v.durable.owner_generations, list, generation);
            law_topology_is_sorted(v.owners, list);
        },
        ChangeView::Add(entry) => {
            lemma_one_owner(v, entry, generation);
        },
        ChangeView::AddWithBackfill(entry) => {
            lemma_one_owner(v, entry, generation);
        },
        ChangeView::AddFrom(entry, _) => {
            lemma_one_owner(v, entry, generation);
        },
        ChangeView::Remove(owner) => {
            lemma_without_entry(v.owners, owner);
            lemma_without_entry(v.durable.owner_generations, owner);
            lemma_same_keys(
                v.owners,
                v.durable.owner_generations,
                owner,
                Seq::empty(),
                0u64,
            );
        },
    }
}

proof fn lemma_one_owner(v: CoordView, entry: OwnerInterestsView, generation: u64)
    requires
        topology_sound(v),
    ensures
        keys_of(with_owners(v.owners, seq![entry])) == keys_of(
            with_entry(v.durable.owner_generations, entry.0, generation),
        ),
        sorted_keys(with_owners(v.owners, seq![entry])),
        sorted_keys(with_entry(v.durable.owner_generations, entry.0, generation)),
{
    let list = seq![entry];
    assert(list.drop_last() =~= Seq::<OwnerInterestsView>::empty());
    assert(list.last() == entry);
    assert(with_owners(v.owners, list.drop_last()) == v.owners);
    assert(with_owners(v.owners, list) == with_entry(v.owners, entry.0, entry.1));
    lemma_same_keys(v.owners, v.durable.owner_generations, entry.0, entry.1, generation);
    law_topology_is_sorted(v.owners, list);
    lemma_with_entry(v.durable.owner_generations, entry.0, generation);
}

/// A change that is taken over leaves a durable state that knows the new
/// topology, in a later generation than before.
pub proof fn law_change_keeps_topology(
    v: CoordView,
    change: ChangeView,
    chain: Option<u64>,
    verdicts: ChangeVerdicts,
    planned_epoch: Epoch,
    epoch: Epoch,
)
    requires
        topology_sound(v),
    ensures
        match change_planned(v, change, chain, verdicts, planned_epoch) {
            Ok(Some(plan)) => {
                let n = change_committed(
                    CoordView { rollback: Some(rollback_for(v, change, plan.next)), ..v },
                    plan,
                    epoch,
                );
                &&& topology_sound(n)
                &&& n.durable.lifecycle_generation == v.durable.lifecycle_generation + 1
                &&& n.rollback is None
            },
            _ => true,
        },
{
    if let Ok(Some(plan)) = change_planned(v, change, chain, verdicts, planned_epoch) {
        assert(resolved(v, change, chain) == Ok::<_, SubscriberError>(Some(plan.next)));
        lemma_next_keys(v, change, plan.next.generation);
    }
}

pub proof fn lemma_generations_with(
    generations: Seq<(Seq<u8>, u64)>,
    ids: Seq<Seq<u8>>,
    generation: u64,
    k: Seq<u8>,
)
    requires
        sorted_keys(generations),
    ensures
        sorted_keys(generations_with(generations, ids, generation)),
        lookup(generations_with(generations, ids, generation), k) == (if ids.contains(k) {
            Some(generation)
        } else {
            lookup(generations, k)
        }),
    decreases ids.len(),
{
    if ids.len() > 0 {
        let front = ids.drop_last();
        lemma_generations_with(generations, front, generation, k);
        lemma_with_entry(
            generations_with(generations, front, generation),
            ids.last(),
            generation,
        );
        if front.contains(k) {
            let i = choose|i: int| 0 <= i < front.len() && front[i] == k;
            assert(ids[i] == k);
        }
        if ids.contains(k) && k != ids.last() {
            let i = choose|i: int| 0 <= i < ids.len() && ids[i] == k;
            assert(front[i] == k);
        }
        if k == ids.last() {
            assert(ids[ids.len() - 1] == k);
        }
    }
}

/// Whether a change may be requested as the coordinator stands: it is healthy,
/// not being restored, in the mode of the change, and has caught up.
pub open spec fn open_to(v: CoordView, change: ChangeView) -> bool {
    healthy_error(v) is None && restoring_error(v) is None && mode_error(v, change) is None
        && reconfigure_error(v) is None
}

/// A list of owners that names one twice is refused. An empty list, and one that
/// leads to the same intent, ask for nothing.
pub proof fn law_upsert_refuses_or_ignores(
    v: CoordView,
    list: Seq<OwnerInterestsView>,
    chain: Option<u64>,
    verdicts: ChangeVerdicts,
    epoch: Epoch,
)
    requires
        open_to(v, ChangeView::Upsert(list)),
    ensures
        !keys_of(list).no_duplicates() ==> change_planned(
            v,
            ChangeView::Upsert(list),
            chain,
            verdicts,
            epoch,
        ) is Err,
        list.len() == 0 || keys_of(list).no_duplicates() && intent_of(
            v.base_interests,
            with_owners(v.owners, list),
        ) == Ok::<_, SubscriberError>(v.durable.lifecycle_intent) ==> change_planned(
            v,
            ChangeView::Upsert(list),
            chain,
            verdicts,
            epoch,
        ) == Ok::<Option<ChangePlanView>, SubscriberError>(None),
{
    if list.len() == 0 {
        assert(keys_of(list).no_duplicates());
    }
}

/// Once a bulk registration is taken over, the owners that it lists have the
/// interests that it gives them, in the new generation; every other owner has
/// what it had, in its own.
pub proof fn law_upsert_touches_the_listed_alone(
    v: CoordView,
    list: Seq<OwnerInterestsView>,
    chain: Option<u64>,
    verdicts: ChangeVerdicts,
    planned_epoch: Epoch,
    epoch: Epoch,
)
    requires
        topology_sound(v),
    ensures
        match change_planned(v, ChangeView::Upsert(list), chain, verdicts, planned_epoch) {
            Ok(Some(p)) => {
                let n = change_committed(
                    CoordView {
                        rollback: Some(rollback_for(v, ChangeView::Upsert(list), p.next)),
                        ..v
                    },
                    p,
                    epoch,
                );
                let generation = (v.durable.lifecycle_generation + 1) as u64;
                &&& n.durable.lifecycle_generation == v.durable.lifecycle_generation + 1
                &&& n.base_interests == v.base_interests
                &&& forall|i: int|
                    0 <= i < list.len() ==> lookup(n.owners, (#[trigger] list[i]).0) == Some(
                        list[i].1,
                    ) && lookup(n.durable.owner_generations, list[i].0) == Some(generation)
                &&& forall|k: Seq<u8>|
                    !keys_of(list).contains(k) ==> #[trigger] lookup(n.owners, k) == lookup(
                        v.owners,
                        k,
                    )
                &&& forall|k: Seq<u8>|
                    !keys_of(list).contains(k) ==> #[trigger] lookup(
                        n.durable.owner_generations,
                        k,
                    ) == lookup(v.durable.owner_generations, k)
            },
            _ => true,
        },
{
    let change = ChangeView::Upsert(list);
    if let Ok(Some(p)) = change_planned(v, change, chain, verdicts, planned_epoch) {
        assert(resolved(v, change, chain) == Ok::<_, SubscriberError>(Some(p.next)));
        let generation = (v.durable.lifecycle_generation + 1) as u64;
        let n = change_committed(
            CoordView { rollback: Some(rollback_for(v, change, p.next)), ..v },
            p,
            epoch,
        );
        assert(n.owners == with_owners(v.owners, list));
        assert(n.durable.owner_generations == generations_with(
            v.durable.owner_generations,
            keys_of(list),
            generation,
        ));
        assert forall|i: int| 0 <= i < list.len() implies lookup(n.owners, (#[trigger] list[i]).0)
            == Some(list[i].1) && lookup(n.durable.owner_generations, list[i].0) == Some(
            generation,
        ) by {
            lemma_said(list, i);
            lemma_with_owners_lookup(v.owners, list, list[i].0);
            assert(keys_of(list)[i] == list[i].0);
            lemma_generations_with(
                v.durable.owner_generations,
                keys_of(list),
                generation,
                list[i].0,
            );
        }
        assert forall|k: Seq<u8>| !keys_of(list).contains(k) implies #[trigger] lookup(
            n.owners,
            k,
        ) == lookup(v.owners, k) by {
            lemma_not_said(list, k);
            lemma_with_owners_lookup(v.owners, list, k);
        }
        assert forall|k: Seq<u8>| !keys_of(list).contains(k) implies #[trigger] lookup(
            n.durable.owner_generations,
            k,
        ) == lookup(v.durable.owner_generations, k) by {
            lemma_generations_with(v.durable.owner_generations, keys_of(list), generation, k);
        }
    }
}

/// Base interests and owners exclude each other.
pub proof fn law_modes_exclude_each_other(v: CoordView)
    requires
        topology_sound(v),
    ensures
        v.base_interests.len() == 0 || v.owners.len() == 0,
{
}

/// Where a change cannot have interrupted a subscription, it can be tried again
/// once it is taken back: adding an owner that was not registered, or had no
/// interests, leaves no gap.
pub proof fn law_new_owner_is_retryable(
    v: CoordView,
    change: ChangeView,
    entry: OwnerInterestsView,
    next: NextView,
    after: CoordView,
    owner_managed: bool,
    result: Result<(), SubscriberError>,
)
    requires
        plain_action(change) == ActionView::Add(entry),
        lookup(v.owners, entry.0) is None || lookup(v.owners, entry.0)->Some_0.len() == 0,
        v.rollback is None,
        rolled_back(
            CoordView { rollback: Some(rollback_for(v, change, next)), ..v },
            after,
            rollback_for(v, change, next),
            Ok(()),
            Ok(()),
            owner_managed,
            result,
        ),
    ensures
        result is Ok,
        after == v,
{
}

/// Whether a change may interrupt a subscription that is active: the base
/// interests, or those of an owner that it names or drops. A change that
/// delivers history again is another matter.
pub open spec fn interrupts(v: CoordView, change: ChangeView, next: NextView) -> bool {
    match change {
        ChangeView::Base(_) => v.base_interests.len() > 0,
        ChangeView::Replace(_) => owners_interested(v.durable.lifecycle_intent),
        ChangeView::ReplaceWithBackfill(_) => false,
        ChangeView::Upsert(list) => alters_some(list, v.durable.lifecycle_intent, next.intent),
        ChangeView::Add(entry) => interested(v, entry.0),
        ChangeView::AddWithBackfill(entry) => interested(v, entry.0),
        ChangeView::AddFrom(entry, _) => interested(v, entry.0),
        ChangeView::Remove(owner) => interested(v, owner),
    }
}

/// Whether an owner is registered and interested in something.
pub open spec fn interested(v: CoordView, owner: Seq<u8>) -> bool {
    lookup(v.owners, owner) is Some && lookup(v.owners, owner)->Some_0.len() > 0
}

/// Where a change may have interrupted a subscription above what was
/// acknowledged, taking it back stops the coordinator for good.
pub proof fn law_interrupted_subscription_stops(
    v: CoordView,
    change: ChangeView,
    next: NextView,
    after: CoordView,
    owner_managed: bool,
    result: Result<(), SubscriberError>,
)
    requires
        interrupts(v, change, next),
        v.durable.coverage_head is Some,
        rolled_back(
            CoordView { rollback: Some(rollback_for(v, change, next)), ..v },
            after,
            rollback_for(v, change, next),
            Ok(()),
            Ok(()),
            owner_managed,
            result,
        ),
    ensures
        result is Err,
        after.phase == HybridPhase::Poisoned,
        after.poisoned is Some,
{
}

/// A destructive change that is taken back is not over before the historical
/// source has filled the gap: the coordinator recovers from what was covered,
/// under a new epoch.
pub proof fn law_destructive_change_recovers(
    v: CoordView,
    list: Seq<OwnerInterestsView>,
    next: NextView,
    after: CoordView,
    result: Result<(), SubscriberError>,
    epoch: Epoch,
)
    requires
        v.durable.coverage_head is Some,
        v.base_interests.len() == 0,
        v.owners.len() > 0,
        rolled_back(
            CoordView {
                rollback: Some(rollback_for(v, ChangeView::ReplaceWithBackfill(list), next)),
                ..v
            },
            after,
            rollback_for(v, ChangeView::ReplaceWithBackfill(list), next),
            Ok(()),
            Ok(()),
            true,
            result,
        ),
    ensures
        result is Err,
        rollback_due(after, true) is Err,
        recovery_activated(after, epoch).phase == HybridPhase::Recovering,
        recovery_activated(after, epoch).recovery_anchor == v.durable.coverage_head,
        recovery_activated(after, epoch).durable.epoch == epoch,
{
}

/// A topology in which nothing is subscribed any more goes straight to the live
/// phase: its barrier is delivered first, and no source is polled.
pub proof fn law_cleared_topology_delivers_its_barrier(
    v: CoordView,
    change: ChangeView,
    chain: Option<u64>,
    verdicts: ChangeVerdicts,
    planned_epoch: Epoch,
    epoch: Epoch,
)
    ensures
        match change_planned(v, change, chain, verdicts, planned_epoch) {
            Ok(Some(plan)) => !plan.next.active ==> {
                let n = change_committed(
                    CoordView { rollback: Some(rollback_for(v, change, plan.next)), ..v },
                    plan,
                    epoch,
                );
                &&& n.phase == HybridPhase::Live
                &&& n.in_flight is Some
                &&& next(n, epoch) == Ok::<_, SubscriberError>(
                    (n, StepView::Deliver(n.in_flight->Some_0.output)),
                )
            },
            _ => true,
        },
{
}

proof fn lemma_nothing_moves(s: SourceView, commit: CommitView, capacity: nat)
    requires
        commit.canonical.len() == 0,
        commit.source_progress is None,
        commit.source_observed_through is None,
    ensures
        source_committed(s, commit, capacity) == Ok::<_, SubscriberError>(
            SourceView {
                delivery_token: commit.source_token,
                checkpoint: commit.source_checkpoint,
                delivery_digest: Some(commit.source_delivery_digest),
                ..s
            },
        ),
        ancestors_of(commit.canonical) == Seq::<BlockRef>::empty(),
        !resets(commit.canonical),
        other_committed(s, commit, capacity) == Ok::<_, SubscriberError>(s),
        seeded_all(s, ancestors_of(commit.canonical), 0, capacity) == Ok::<_, SubscriberError>(s),
{
}

/// The barrier of an empty topology keeps what both sources resume from, and
/// claims no coverage: committing it changes no cursor, no history and no head.
pub proof fn law_barrier_preserves_sources(
    c: CheckpointView,
    config: HybridConfig,
    digest: B256,
    sequence: SequenceVerdict,
)
    ensures
        match state_after(c, config, barrier_commit(c, digest), sequence) {
            Ok(n) => {
                &&& n.historical_position == c.historical_position
                &&& n.live_position.checkpoint == c.live_position.checkpoint
                &&& n.live_position.coverage_head == c.live_position.coverage_head
                &&& n.live_position.canonical_history == c.live_position.canonical_history
                &&& n.live_position.delivery_token is None
                &&& c.live_position.delivery_digest is Some ==> n.live_position.delivery_digest
                    == c.live_position.delivery_digest
                &&& n.canonical_history == c.canonical_history
                &&& n.coverage_head == c.coverage_head
                &&& n.safe_head == c.safe_head
                &&& n.finalized_head == c.finalized_head
                &&& n.certified_historical == c.certified_historical
            },
            Err(_) => true,
        },
{
    let commit = barrier_commit(c, digest);
    let capacity = config.canonical_history_capacity as nat;
    lemma_nothing_moves(c.live_position, commit, capacity);
    lemma_nothing_moves(c.historical_position, commit, capacity);
    assert(!uncertified(c.certified_historical, commit.canonical));
    if let Ok(n) = state_after(c, config, commit, sequence) {
        let d = committed(c, commit, capacity)->Ok_0;
        law_fit_keeps_protected_suffix(
            d,
            distinct(commit_ids(commit.audiences)),
            config.recent_input_capacity as nat,
            config.max_recent_owner_entries as nat,
            sequence,
        );
    }
}

} // verus!
