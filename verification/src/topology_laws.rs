//! What a change of topology leads to, and what it leaves alone.
use crate::barrier::{barrier_installed, barrier_prepared, BarrierView};
use crate::checkpoint::{CheckpointView, HybridSource, HybridTokenKind, IntentView, RecentView};
use crate::config::HybridConfig;
use crate::error::SubscriberError;
use crate::flow::sequence_of;
use crate::flow_laws::{at_work, forgot_its_cursor, wanted};
use crate::intent::{empty_fingerprint, intent_of, OwnerInterestsView};
use crate::lifecycle::{
    change_candidate, change_committed, next_topology, resolved, rollback_for, ChangePlanView,
    ChangeView, NextView,
};
use crate::lifecycle_laws::lemma_generations_with;
use crate::overlap::overlap_error;
use crate::owners::{
    bytes_lt, has_key, keys_of, lemma_with_entry, lemma_without_entry, lookup, sorted_keys,
};
use crate::state::{reconfigure_error, subscribed, CoordView, HybridPhase, RollbackView};
use crate::token::{law_token_round_trip, unwrapped};
use crate::topology::{
    law_topology_is_sorted, lemma_not_said, lemma_said, lemma_with_owners_lookup, with_owners,
};
use crate::validate::SequenceVerdict;
use crate::words::{word_bytes, Epoch};
use vstd::prelude::*;

verus! {

// ---------------------------------------------------------------------------
// Ids
// ---------------------------------------------------------------------------

/// Ids stand in the order of a dictionary: the first byte that differs decides,
/// and a beginning comes before what it begins.
pub proof fn law_ids_are_in_dictionary_order(a: Seq<u8>, b: Seq<u8>)
    ensures
        bytes_lt(a, b) <==> exists|n: int|
            0 <= n <= a.len() && n < b.len() && #[trigger] a.take(n) == b.take(n) && (n == a.len()
                || a[n] < b[n]),
    decreases a.len(),
{
    if b.len() > 0 && a.len() > 0 && a[0] == b[0] {
        let (x, y) = (a.drop_first(), b.drop_first());
        law_ids_are_in_dictionary_order(x, y);
        if bytes_lt(x, y) {
            let n = choose|n: int|
                0 <= n <= x.len() && n < y.len() && #[trigger] x.take(n) == y.take(n) && (n
                    == x.len() || x[n] < y[n]);
            assert(a.take(n + 1) =~= seq![a[0]] + x.take(n));
            assert(b.take(n + 1) =~= seq![b[0]] + y.take(n));
            assert(a.take(n + 1) == b.take(n + 1));
        }
        if exists|n: int|
            0 <= n <= a.len() && n < b.len() && #[trigger] a.take(n) == b.take(n) && (n == a.len()
                || a[n] < b[n]) {
            let n = choose|n: int|
                0 <= n <= a.len() && n < b.len() && #[trigger] a.take(n) == b.take(n) && (n
                    == a.len() || a[n] < b[n]);
            assert(n > 0);
            assert(x.take(n - 1) =~= a.take(n).drop_first());
            assert(y.take(n - 1) =~= b.take(n).drop_first());
            assert(x.take(n - 1) == y.take(n - 1));
        }
    } else if b.len() > 0 {
        assert(a.take(0) =~= b.take(0));
        if exists|n: int|
            0 <= n <= a.len() && n < b.len() && #[trigger] a.take(n) == b.take(n) && (n == a.len()
                || a[n] < b[n]) {
            let n = choose|n: int|
                0 <= n <= a.len() && n < b.len() && #[trigger] a.take(n) == b.take(n) && (n
                    == a.len() || a[n] < b[n]);
            if n > 0 {
                assert(a.take(n)[0] == a[0] && b.take(n)[0] == b[0]);
            }
        }
    }
}

// ---------------------------------------------------------------------------
// The topology that a change leads to
// ---------------------------------------------------------------------------

/// The owners that a change names.
pub open spec fn named_by(change: ChangeView) -> Seq<OwnerInterestsView> {
    match change {
        ChangeView::Replace(list) => list,
        ChangeView::ReplaceWithBackfill(list) => list,
        ChangeView::Upsert(list) => list,
        ChangeView::Add(entry) => seq![entry],
        ChangeView::AddWithBackfill(entry) => seq![entry],
        ChangeView::AddFrom(entry, _) => seq![entry],
        ChangeView::Base(_) => Seq::empty(),
        ChangeView::Remove(_) => Seq::empty(),
    }
}

/// Whether a change leaves an owner that it does not name registered.
pub open spec fn spares(change: ChangeView, owner: Seq<u8>) -> bool {
    match change {
        ChangeView::Base(_) => false,
        ChangeView::Replace(_) => false,
        ChangeView::ReplaceWithBackfill(_) => false,
        ChangeView::Remove(gone) => gone != owner,
        _ => true,
    }
}

/// Whether a change starts deliveries afresh.
pub open spec fn starts_afresh(change: ChangeView) -> bool {
    change is Base || change is Replace || change is ReplaceWithBackfill
}

/// Whether owners are listed at most once each.
pub open spec fn listed_once(list: Seq<OwnerInterestsView>) -> bool {
    forall|i: int, j: int|
        0 <= i < j < list.len() ==> (#[trigger] list[i]).0 != (#[trigger] list[j]).0
}

proof fn lemma_listed_once(list: Seq<OwnerInterestsView>)
    ensures
        keys_of(list).no_duplicates() <==> listed_once(list),
{
    let k = keys_of(list);
    if listed_once(list) {
        assert forall|i: int, j: int| 0 <= i < k.len() && 0 <= j < k.len() && i != j implies k[i]
            != k[j] by {
            if i < j {
                assert(list[i].0 != list[j].0);
            } else {
                assert(list[j].0 != list[i].0);
            }
        }
    }
    if k.no_duplicates() {
        assert forall|i: int, j: int| 0 <= i < j < list.len() implies (#[trigger] list[i]).0 != (
        #[trigger] list[j]).0 by {
            assert(k[i] != k[j]);
        }
    }
}

proof fn lemma_next_topology(v: CoordView, change: ChangeView, k: Seq<u8>)
    requires
        sorted_keys(v.owners),
        next_topology(v, change) is Ok,
        next_topology(v, change)->Ok_0 is Some,
    ensures
        ({
            let (base, owners) = next_topology(v, change)->Ok_0->Some_0;
            &&& sorted_keys(owners)
            &&& listed_once(named_by(change))
            &&& forall|i: int|
                0 <= i < named_by(change).len() ==> lookup(owners, (#[trigger] named_by(
                    change,
                )[i]).0) == Some(named_by(change)[i].1)
            &&& !keys_of(named_by(change)).contains(k) ==> lookup(owners, k) == if spares(
                change,
                k,
            ) {
                lookup(v.owners, k)
            } else {
                None
            }
        }),
{
    let list = named_by(change);
    lemma_listed_once(list);
    if change is Base {
    } else if let ChangeView::Remove(owner) = change {
        lemma_without_entry(v.owners, owner);
    } else {
        assert(listed_once(list));
        let from = if starts_afresh(change) {
            Seq::<OwnerInterestsView>::empty()
        } else {
            v.owners
        };
        assert(next_topology(v, change)->Ok_0->Some_0.1 == with_owners(from, list));
        law_topology_is_sorted(from, list);
        assert forall|i: int| 0 <= i < list.len() implies lookup(
            with_owners(from, list),
            (#[trigger] list[i]).0,
        ) == Some(list[i].1) by {
            lemma_said(list, i);
            lemma_with_owners_lookup(from, list, list[i].0);
        }
        if !keys_of(list).contains(k) {
            lemma_not_said(list, k);
            lemma_with_owners_lookup(from, list, k);
        }
    }
}

/// A change registers the owners that it names, each with the interests that it
/// gives, and keeps or drops every other owner as it says; no other interests
/// change.
pub proof fn law_change_registers_whom_it_names(
    v: CoordView,
    change: ChangeView,
    chain: Option<u64>,
    k: Seq<u8>,
)
    requires
        sorted_keys(v.owners),
        resolved(v, change, chain) is Ok,
        resolved(v, change, chain)->Ok_0 is Some,
    ensures
        ({
            let n = resolved(v, change, chain)->Ok_0->Some_0;
            let list = named_by(change);
            &&& sorted_keys(n.owners)
            &&& forall|i: int|
                0 <= i < list.len() ==> lookup(n.owners, (#[trigger] list[i]).0) == Some(list[i].1)
            &&& !keys_of(list).contains(k) && spares(change, k) ==> lookup(n.owners, k) == lookup(
                v.owners,
                k,
            )
            &&& !keys_of(list).contains(k) && !spares(change, k) ==> lookup(n.owners, k) is None
            &&& change is Base ==> n.base == change->Base_0
            &&& change is Replace || change is ReplaceWithBackfill ==> n.base.len() == 0
            &&& !starts_afresh(change) ==> n.base == v.base_interests
            &&& intent_of(n.base, n.owners) == Ok::<_, SubscriberError>(n.intent)
            &&& n.active <==> n.base.len() > 0 || exists|i: int|
                0 <= i < n.owners.len() && (#[trigger] n.owners[i]).1.len() > 0
        }),
{
    lemma_next_topology(v, change, k);
}

proof fn lemma_next_generations(v: CoordView, change: ChangeView, generation: u64, k: Seq<u8>)
    requires
        sorted_keys(v.durable.owner_generations),
    ensures
        ({
            let g = crate::lifecycle::next_generations(v, change, generation);
            &&& sorted_keys(g)
            &&& keys_of(named_by(change)).contains(k) ==> lookup(g, k) == Some(generation)
            &&& !keys_of(named_by(change)).contains(k) ==> lookup(g, k) == if spares(change, k) {
                lookup(v.durable.owner_generations, k)
            } else {
                None
            }
        }),
{
    let list = named_by(change);
    let from = if starts_afresh(change) {
        Seq::<(Seq<u8>, u64)>::empty()
    } else {
        v.durable.owner_generations
    };
    lemma_generations_with(from, keys_of(list), generation, k);
    if let ChangeView::Remove(owner) = change {
        lemma_without_entry(v.durable.owner_generations, owner);
    } else if change is Add || change is AddWithBackfill || change is AddFrom {
        lemma_with_entry(v.durable.owner_generations, list[0].0, generation);
        assert(keys_of(list)[0] == list[0].0);
    }
}

/// A change starts the next generation: the owners that it names are in it, the
/// others in their own.
pub proof fn law_change_starts_the_next_generation(
    v: CoordView,
    change: ChangeView,
    chain: Option<u64>,
    k: Seq<u8>,
)
    requires
        sorted_keys(v.durable.owner_generations),
        resolved(v, change, chain) is Ok,
        resolved(v, change, chain)->Ok_0 is Some,
    ensures
        ({
            let n = resolved(v, change, chain)->Ok_0->Some_0;
            let named = keys_of(named_by(change)).contains(k);
            &&& n.generation == v.durable.lifecycle_generation + 1
            &&& sorted_keys(n.generations)
            &&& named ==> lookup(n.generations, k) == Some(n.generation)
            &&& !named && spares(change, k) ==> lookup(n.generations, k) == lookup(
                v.durable.owner_generations,
                k,
            )
            &&& !named && !spares(change, k) ==> lookup(n.generations, k) is None
        }),
{
    let n = resolved(v, change, chain)->Ok_0->Some_0;
    lemma_next_generations(v, change, n.generation, k);
}

/// Whether a change may be made to a topology that delivers: interests that
/// replace others only before anything is covered, and an owner that starts at a
/// retained block only at one that is.
pub open spec fn leaves_no_gap(v: CoordView, change: ChangeView) -> bool {
    match change {
        ChangeView::Base(_) => v.durable.coverage_head is None,
        ChangeView::Replace(_) => v.durable.coverage_head is None,
        ChangeView::AddFrom(_, retained) => overlap_error(v.durable, retained) is None,
        _ => true,
    }
}

/// Whether a change asks for nothing, whatever it leads to.
pub open spec fn asks_nothing(v: CoordView, change: ChangeView) -> bool {
    match change {
        ChangeView::Upsert(list) => list.len() == 0,
        ChangeView::Remove(owner) => !has_key(v.owners, owner),
        _ => false,
    }
}

/// Whether base interests and owners would be mixed by a change.
pub open spec fn mixes(v: CoordView, change: ChangeView) -> bool {
    if change is Base {
        v.owners.len() > 0
    } else {
        v.base_interests.len() > 0
    }
}

/// A change is made exactly where the coordinator is at work and between
/// deliveries, base interests and owners are not mixed, no owner is listed twice,
/// something changes, and a topology that delivers is on the right chain, without
/// a gap.
pub proof fn law_change_is_made_or_refused(v: CoordView, change: ChangeView, chain: Option<u64>)
    ensures
        ({
            let r = resolved(v, change, chain);
            let open = at_work(v) && !mixes(v, change) && reconfigure_error(v) is None;
            &&& !open ==> r is Err
            &&& open && asks_nothing(v, change) ==> r is Ok && r->Ok_0 is None
            &&& open && !asks_nothing(v, change) && !listed_once(named_by(change)) ==> r is Err
            &&& open && !asks_nothing(v, change) && listed_once(named_by(change)) ==> {
                &&& next_topology(v, change) is Ok
                &&& next_topology(v, change)->Ok_0 is Some
                &&& {
                    let (base, owners) = next_topology(v, change)->Ok_0->Some_0;
                    let intent = intent_of(base, owners);
                    let active = base.len() > 0 || exists|i: int|
                        0 <= i < owners.len() && (#[trigger] owners[i]).1.len() > 0;
                    let same = intent->Ok_0 == v.durable.lifecycle_intent && !(
                    change is ReplaceWithBackfill) && !(change is Remove);
                    let fit = (active ==> chain == Some(v.durable.chain_id) && leaves_no_gap(
                        v,
                        change,
                    )) && v.durable.lifecycle_generation < u64::MAX;
                    &&& intent is Err ==> r is Err
                    &&& intent is Ok && same ==> r is Ok && r->Ok_0 is None
                    &&& intent is Ok && !same && fit ==> r is Ok && r->Ok_0 is Some
                    &&& intent is Ok && !same && !fit ==> r is Err
                }
            }
        }),
{
    lemma_listed_once(named_by(change));
    if change is Add || change is AddWithBackfill || change is AddFrom {
        assert(listed_once(named_by(change)));
    }
}

// ---------------------------------------------------------------------------
// Taking a change over
// ---------------------------------------------------------------------------

/// Whether an input is remembered as before, but for one owner that is said to
/// have had nothing.
pub open spec fn forgot_one_owner(before: RecentView, after: RecentView, owner: Seq<u8>) -> bool {
    &&& after.identity == before.identity
    &&& after.coverage.block == before.coverage.block
    &&& after.coverage.witness == before.coverage.witness
    &&& after.coverage.base == before.coverage.base
    &&& lookup(after.coverage.owners, owner) is None
    &&& forall|k: Seq<u8>|
        k != owner ==> #[trigger] lookup(after.coverage.owners, k) == lookup(
            before.coverage.owners,
            k,
        )
}

/// A change that is taken over leaves the new topology in force, nothing to take
/// back and nothing certified; the chain, its history and its heads stay.
pub proof fn law_change_keeps_the_chain(v: CoordView, plan: ChangePlanView, epoch: Epoch)
    requires
        plan.barrier is None,
    ensures
        ({
            let n = change_committed(v, plan, epoch);
            &&& n.rollback is None
            &&& n.base_interests == plan.next.base
            &&& n.owners == plan.next.owners
            &&& n.durable.lifecycle_generation == plan.next.generation
            &&& n.durable.owner_generations == plan.next.generations
            &&& n.durable.lifecycle_intent == plan.next.intent
            &&& n.durable.certified_historical is None
            &&& n.durable.chain_id == v.durable.chain_id
            &&& sequence_of(n.durable) == sequence_of(v.durable)
            &&& n.config == v.config
            &&& n.poisoned == v.poisoned
            &&& n.durable.historical_position.coverage_head
                == v.durable.historical_position.coverage_head
            &&& n.durable.historical_position.canonical_history
                == v.durable.historical_position.canonical_history
            &&& n.durable.live_position.coverage_head == v.durable.live_position.coverage_head
            &&& n.durable.live_position.canonical_history
                == v.durable.live_position.canonical_history
        }),
{
}

/// A topology that replaces another starts deliveries afresh under the new epoch:
/// no input is remembered, both sources lose their cursors, and the historical
/// source catches up.
pub proof fn law_replaced_topology_starts_afresh(
    v: CoordView,
    plan: ChangePlanView,
    epoch: Epoch,
)
    requires
        plan.barrier is None,
        starts_afresh(plan.change),
    ensures
        ({
            let n = change_committed(v, plan, epoch);
            &&& n.phase == HybridPhase::CatchingUp
            &&& n.durable.epoch == epoch
            &&& n.durable.next_synthetic_token == 1
            &&& n.durable.last_committed_token is None
            &&& n.durable.recent_inputs.len() == 0
            &&& forgot_its_cursor(v.durable.historical_position, n.durable.historical_position)
            &&& forgot_its_cursor(v.durable.live_position, n.durable.live_position)
            &&& n.live_buffer.len() == 0
            &&& n.buffered_live_records == 0
            &&& n.buffered_live_bytes == 0
            &&& n.in_flight is None
            &&& n.fence is None
            &&& n.drain_through is None
            &&& n.pending_cutover is None
            &&& n.acknowledged_historical_through is None
            &&& !n.replay_historical
            &&& !n.replay_live
            &&& n.pending_preparation is None
            &&& n.prepared_position is None
            &&& n.recovery_anchor == v.recovery_anchor
        }),
{
}

/// Removing an owner makes every remembered input forget it, and nothing else:
/// the phase, the tokens, both sources and the buffer stay as they are.
pub proof fn law_removed_owner_is_forgotten(
    v: CoordView,
    plan: ChangePlanView,
    epoch: Epoch,
    owner: Seq<u8>,
)
    requires
        plan.barrier is None,
        plan.change == ChangeView::Remove(owner),
        forall|i: int|
            0 <= i < v.durable.recent_inputs.len() ==> sorted_keys(
                (#[trigger] v.durable.recent_inputs[i]).coverage.owners,
            ),
    ensures
        ({
            let n = change_committed(v, plan, epoch);
            &&& n.durable.recent_inputs.len() == v.durable.recent_inputs.len()
            &&& forall|i: int|
                0 <= i < v.durable.recent_inputs.len() ==> forgot_one_owner(
                    #[trigger] v.durable.recent_inputs[i],
                    n.durable.recent_inputs[i],
                    owner,
                )
            &&& n.durable.epoch == v.durable.epoch
            &&& n.durable.next_synthetic_token == v.durable.next_synthetic_token
            &&& n.durable.last_committed_token == v.durable.last_committed_token
            &&& n.durable.historical_position == v.durable.historical_position
            &&& n.durable.live_position == v.durable.live_position
            &&& n.phase == v.phase
            &&& n.fence == v.fence
            &&& n.live_buffer == v.live_buffer
            &&& n.in_flight == v.in_flight
            &&& n.recovery_anchor == v.recovery_anchor
            &&& n.replay_historical == v.replay_historical
            &&& n.replay_live == v.replay_live
        }),
{
    let n = change_committed(v, plan, epoch);
    assert forall|i: int| 0 <= i < v.durable.recent_inputs.len() implies forgot_one_owner(
        #[trigger] v.durable.recent_inputs[i],
        n.durable.recent_inputs[i],
        owner,
    ) by {
        lemma_without_entry(v.durable.recent_inputs[i].coverage.owners, owner);
    }
}

/// Owners that are added keep every delivery and every cursor; the historical
/// source catches up, to below the oldest live batch that is buffered, unless
/// nothing is subscribed at all.
pub proof fn law_added_owners_keep_deliveries(v: CoordView, plan: ChangePlanView, epoch: Epoch)
    requires
        plan.barrier is None,
        !starts_afresh(plan.change),
        !(plan.change is Remove),
    ensures
        ({
            let n = change_committed(v, plan, epoch);
            let first = v.live_buffer[0].max_canonical_block;
            &&& n.durable.epoch == v.durable.epoch
            &&& n.durable.next_synthetic_token == v.durable.next_synthetic_token
            &&& n.durable.last_committed_token == v.durable.last_committed_token
            &&& n.durable.recent_inputs == v.durable.recent_inputs
            &&& n.durable.historical_position == v.durable.historical_position
            &&& n.durable.live_position == v.durable.live_position
            &&& n.live_buffer == v.live_buffer
            &&& n.buffered_live_records == v.buffered_live_records
            &&& n.buffered_live_bytes == v.buffered_live_bytes
            &&& n.in_flight == v.in_flight
            &&& n.replay_historical == v.replay_historical
            &&& n.replay_live == v.replay_live
            &&& n.pending_cutover is None
            &&& n.drain_through is None
            &&& n.acknowledged_historical_through is None
            &&& wanted(n) ==> n.phase == HybridPhase::CatchingUp && n.recovery_anchor
                == v.recovery_anchor
            &&& !wanted(n) ==> n.phase == HybridPhase::Live && n.fence is None && n.recovery_anchor
                is None
            &&& wanted(n) && v.live_buffer.len() == 0 ==> n.fence is None
            &&& wanted(n) && v.live_buffer.len() > 0 && first is None ==> n.fence is None
            &&& wanted(n) && v.live_buffer.len() > 0 && first is Some ==> n.fence is Some && (
            if first->Some_0 == 0 {
                n.fence->Some_0 == 0
            } else {
                n.fence->Some_0 + 1 == first->Some_0
            })
        }),
{
    let n = change_committed(v, plan, epoch);
    assert(subscribed(n) == wanted(n));
    assert(n.base_interests == plan.next.base && n.owners == plan.next.owners);
    let m = CoordView {
        rollback: None,
        base_interests: plan.next.base,
        owners: plan.next.owners,
        durable: crate::lifecycle::under(v.durable, plan.next),
        ..v
    };
    assert(n == crate::lifecycle::catchup_begun(m));
    assert(subscribed(m) == wanted(n));
}

/// The state that room for a delivery is asked for is the one that the change
/// leads to: taking the change over under the same epoch leaves exactly it.
pub proof fn law_room_is_asked_for_what_follows(v: CoordView, plan: ChangePlanView)
    requires
        plan.barrier is None,
    ensures
        change_committed(v, plan, v.durable.epoch).durable == change_candidate(
            v.durable,
            plan.change,
            plan.next,
        ),
{
}

// ---------------------------------------------------------------------------
// Taking a change back
// ---------------------------------------------------------------------------

/// Taking a change back restores what was registered before: the base interests,
/// the owners, or what each owner that is named was interested in.
pub proof fn law_rollback_remembers_what_was(v: CoordView, change: ChangeView, next: NextView)
    ensures
        match rollback_for(v, change, next) {
            RollbackView::Base { previous, .. } => change is Base && previous == v.base_interests,
            RollbackView::Topology { base, owners, .. } => (change is Replace
                || change is ReplaceWithBackfill) && base == v.base_interests && owners == v.owners,
            RollbackView::Bulk { each, .. } => change is Upsert && each.len()
                == change->Upsert_0.len() && forall|i: int|
                0 <= i < each.len() ==> (#[trigger] each[i]).0 == change->Upsert_0[i].0
                    && each[i].1 == lookup(v.owners, change->Upsert_0[i].0),
            RollbackView::Owner { owner, before, .. } => before == lookup(v.owners, owner)
                && match change {
                ChangeView::Add(entry) => owner == entry.0,
                ChangeView::AddWithBackfill(entry) => owner == entry.0,
                ChangeView::AddFrom(entry, _) => owner == entry.0,
                ChangeView::Remove(gone) => owner == gone,
                _ => false,
            },
            RollbackView::Recovery { .. } => false,
        },
{
}

/// Whether a change touches a subscription that delivers.
pub open spec fn interrupts(v: CoordView, change: ChangeView, next: NextView) -> bool {
    match change {
        ChangeView::Base(_) => v.base_interests.len() > 0,
        ChangeView::Replace(_) => exists|i: int|
            0 <= i < v.durable.lifecycle_intent.owners.len() && (
            #[trigger] v.durable.lifecycle_intent.owners[i]).1 != empty_fingerprint(),
        ChangeView::ReplaceWithBackfill(_) => false,
        ChangeView::Upsert(list) => exists|i: int|
            0 <= i < list.len() && interest_changes(
                (#[trigger] list[i]).0,
                v.durable.lifecycle_intent,
                next.intent,
            ),
        ChangeView::Add(entry) => delivers_to(v, entry.0),
        ChangeView::AddWithBackfill(entry) => delivers_to(v, entry.0),
        ChangeView::AddFrom(entry, _) => delivers_to(v, entry.0),
        ChangeView::Remove(owner) => delivers_to(v, owner),
    }
}

/// Whether an owner is interested in something.
pub open spec fn delivers_to(v: CoordView, owner: Seq<u8>) -> bool {
    lookup(v.owners, owner) is Some && lookup(v.owners, owner)->Some_0.len() > 0
}

/// Whether an owner was interested in something and is now in something else.
pub open spec fn interest_changes(owner: Seq<u8>, before: IntentView, after: IntentView) -> bool {
    &&& lookup(before.owners, owner) is Some
    &&& lookup(after.owners, owner) is Some
    &&& lookup(before.owners, owner)->Some_0 != empty_fingerprint()
    &&& lookup(before.owners, owner)->Some_0 != lookup(after.owners, owner)->Some_0
}

/// A change may have missed an event exactly where something is covered and it
/// interrupts a subscription that delivers; what was covered then is where the
/// gap begins. Only a replacement with history recovers instead, from there.
pub proof fn law_gap_begins_where_coverage_ended(v: CoordView, change: ChangeView, next: NextView)
    ensures
        rollback_for(v, change, next).spec_gap_anchor() == if interrupts(v, change, next) {
            v.durable.coverage_head
        } else {
            None
        },
        rollback_for(v, change, next) is Topology ==> rollback_for(
            v,
            change,
            next,
        )->Topology_recovery_anchor == if change is ReplaceWithBackfill {
            v.durable.coverage_head
        } else {
            None
        },
{
    if let ChangeView::Upsert(list) = change {
        let current = v.durable.lifecycle_intent;
        assert forall|i: int| 0 <= i < list.len() implies crate::lifecycle::altered(
            #[trigger] list[i].0,
            current,
            next.intent,
        ) == interest_changes(list[i].0, current, next.intent) by {}
        if interrupts(v, change, next) {
            let i = choose|i: int|
                0 <= i < list.len() && interest_changes(
                    (#[trigger] list[i]).0,
                    current,
                    next.intent,
                );
            assert(crate::lifecycle::altered(list[i].0, current, next.intent));
        }
    }
}

// ---------------------------------------------------------------------------
// Barriers
// ---------------------------------------------------------------------------

/// The barrier of an empty topology is all that is handed out: one control, at
/// what is covered, under the first token of the new epoch, with no record; the
/// next token that is made up is another one. Both sources keep their cursors
/// and what they cover.
pub proof fn law_barrier_is_all_that_is_delivered(
    c: CheckpointView,
    config: HybridConfig,
    epoch: Epoch,
    generation: u64,
    generations: Seq<(Seq<u8>, u64)>,
    intent: IntentView,
    sequence: SequenceVerdict,
)
    ensures
        match barrier_prepared(c, config, epoch, generation, generations, intent, sequence) {
            Ok(b) => {
                let out = b.held.output;
                &&& !intent.active()
                &&& b.base_state.epoch == epoch
                &&& b.base_state.lifecycle_generation == generation
                &&& b.base_state.owner_generations == generations
                &&& b.base_state.lifecycle_intent == intent
                &&& b.base_state.chain_id == c.chain_id
                &&& sequence_of(b.base_state) == sequence_of(c)
                &&& b.base_state.recent_inputs.len() == 0
                &&& b.base_state.certified_historical is None
                &&& b.base_state.last_committed_token is None
                &&& b.base_state.next_synthetic_token == 2
                &&& b.base_state.historical_position.checkpoint == c.historical_position.checkpoint
                &&& b.base_state.historical_position.coverage_head
                    == c.historical_position.coverage_head
                &&& b.base_state.historical_position.canonical_history
                    == c.historical_position.canonical_history
                &&& b.base_state.historical_position.delivery_digest
                    == c.historical_position.delivery_digest
                &&& b.base_state.historical_position.delivery_token is None
                &&& b.base_state.live_position.checkpoint == c.live_position.checkpoint
                &&& b.base_state.live_position.coverage_head == c.live_position.coverage_head
                &&& b.base_state.live_position.canonical_history
                    == c.live_position.canonical_history
                &&& b.base_state.live_position.delivery_digest == c.live_position.delivery_digest
                &&& b.base_state.live_position.delivery_token is None
                &&& out.chain_id == Some(c.chain_id)
                &&& out.deliveries.len() == 0
                &&& out.chain_controls.len() == 1
                &&& out.chain_controls[0] is Barrier
                &&& out.chain_controls[0]->Barrier_block == c.coverage_head
                &&& out.payload_commitment is None
                &&& out.delivery_token is Some
                &&& unwrapped(out.delivery_token->Some_0) is Ok
                &&& unwrapped(out.delivery_token->Some_0)->Ok_0.epoch == epoch
                &&& unwrapped(out.delivery_token->Some_0)->Ok_0.source == HybridSource::Live
                &&& unwrapped(out.delivery_token->Some_0)->Ok_0.kind == HybridTokenKind::Synthetic
                &&& unwrapped(out.delivery_token->Some_0)->Ok_0.inner == word_bytes(1)
                &&& b.held.commit.source == HybridSource::Live
                &&& b.held.commit.token_kind == HybridTokenKind::Synthetic
                &&& b.held.commit.token_bytes == word_bytes(1)
            },
            Err(_) => true,
        },
{
    law_token_round_trip(epoch, HybridSource::Live, HybridTokenKind::Synthetic, word_bytes(1));
}

/// An empty topology turns the coordinator to the live phase with its barrier in
/// flight and nothing else; no earlier batch, gap or restored source is left.
pub proof fn law_idle_coordinator_holds_its_barrier_alone(v: CoordView, b: BarrierView)
    ensures
        ({
            let n = barrier_installed(v, b);
            &&& n.durable == b.base_state
            &&& n.in_flight == Some(b.held)
            &&& n.phase == HybridPhase::Live
            &&& n.live_buffer.len() == 0
            &&& n.buffered_live_records == 0
            &&& n.buffered_live_bytes == 0
            &&& n.fence is None
            &&& n.drain_through is None
            &&& n.pending_cutover is None
            &&& n.acknowledged_historical_through is None
            &&& n.rollback is None
            &&& n.recovery_anchor is None
            &&& !n.replay_historical
            &&& !n.replay_live
            &&& n.pending_preparation is None
            &&& n.prepared_position is None
            &&& n.base_interests == v.base_interests
            &&& n.owners == v.owners
            &&& n.config == v.config
            &&& n.poisoned == v.poisoned
            &&& n.pending_restore == v.pending_restore
        }),
{
}

} // verus!
