//! Changes of what is subscribed.
//!
//! A change is planned and checked in full before either source hears of it;
//! then it is made at the live source and at the historical one, and only then
//! does the coordinator take it over. Where it fails in between, it is taken
//! back at both sources, or noted until it is.
use crate::audience::CoverageView;
use crate::barrier::{
    barrier_installed, barrier_prepared, BarrierView, PreparedEmptyLifecycleBarrier,
};
use crate::capacity::{preflight_maximum_canonical_log_delivery, room_error, ProbeVerdicts};
use crate::checkpoint::{
    recent_view, CheckpointView, HybridCheckpointV5, HybridSource, IntentView, LifecycleIntent,
    RecentView, StoredRecentInput,
};
use crate::error::SubscriberError;
use crate::flow::{below, renew_tokens, renewed};
use crate::ingress::BufferedView;
use crate::intent::{
    copy_interests, copy_owners, empty_fingerprint, empty_interest_fingerprint, intent_of,
    interests_view, lifecycle_intent, list_owner_ids, owners_view, EXCLUSIVE_TOPOLOGY_ERROR,
    InterestView, OwnerInterests, OwnerInterestsView, PortableInterest,
};
use crate::model::{BlockRef, HandlerId};
use crate::overlap::{overlap_error, validate_overlap_block};
use crate::owners::{
    has_duplicate_owners, has_key, ids_view, keys_of, lookup, with_entry, without_entry, OwnerMap,
};
use crate::state::{
    any_interests, buffer_view, chain_error, healthy_error, opt_interests, previous_view,
    reconfigure_error, restoring_error, subscribed, CoordView, Coordinator, HybridPhase,
    LiveRollback, PreviousOwner, RollbackView,
};
use crate::topology::{
    drop_owner, exact_owner_topology, exact_topology, interests_of, set_owners, topology_active,
    with_owners,
};
use crate::validate::SequenceVerdict;
use crate::words::{B256, Epoch};
use vstd::prelude::*;

verus! {

// ---------------------------------------------------------------------------
// Changes
// ---------------------------------------------------------------------------

/// A change of what is subscribed.
#[derive(Debug, PartialEq, Eq)]
pub enum TopologyChange {
    /// These interests, of no owner, and nothing else.
    Base(Vec<PortableInterest>),
    /// These owners and no others.
    Replace(Vec<OwnerInterests>),
    /// These owners and no others, with history delivered again.
    ReplaceWithBackfill(Vec<OwnerInterests>),
    /// These owners besides the others.
    Upsert(Vec<OwnerInterests>),
    /// This owner besides the others.
    Add(OwnerInterests),
    /// This owner besides the others, with history delivered again.
    AddWithBackfill(OwnerInterests),
    /// This owner besides the others, from a retained block on.
    AddFrom(OwnerInterests, BlockRef),
    /// The others without this owner.
    Remove(HandlerId),
}

/// A change over sequences.
pub enum ChangeView {
    Base(Seq<InterestView>),
    Replace(Seq<OwnerInterestsView>),
    ReplaceWithBackfill(Seq<OwnerInterestsView>),
    Upsert(Seq<OwnerInterestsView>),
    Add(OwnerInterestsView),
    AddWithBackfill(OwnerInterestsView),
    AddFrom(OwnerInterestsView, BlockRef),
    Remove(Seq<u8>),
}

impl View for TopologyChange {
    type V = ChangeView;

    open spec fn view(&self) -> ChangeView {
        match self {
            TopologyChange::Base(base) => ChangeView::Base(interests_view(base@)),
            TopologyChange::Replace(list) => ChangeView::Replace(owners_view(list@)),
            TopologyChange::ReplaceWithBackfill(list) => ChangeView::ReplaceWithBackfill(
                owners_view(list@),
            ),
            TopologyChange::Upsert(list) => ChangeView::Upsert(owners_view(list@)),
            TopologyChange::Add(entry) => ChangeView::Add(entry@),
            TopologyChange::AddWithBackfill(entry) => ChangeView::AddWithBackfill(entry@),
            TopologyChange::AddFrom(entry, retained) => ChangeView::AddFrom(entry@, *retained),
            TopologyChange::Remove(owner) => ChangeView::Remove(owner@),
        }
    }
}

/// The topology that a change leads to: base interests and owners; none where
/// it asks for nothing.
pub open spec fn next_topology(v: CoordView, change: ChangeView) -> Result<
    Option<(Seq<InterestView>, Seq<OwnerInterestsView>)>,
    SubscriberError,
> {
    match change {
        ChangeView::Base(base) => Ok(Some((base, Seq::empty()))),
        ChangeView::Replace(list) => match exact_topology(
            list,
            "hybrid exact owner replacement contains a duplicate owner id",
        ) {
            Err(e) => Err(e),
            Ok(owners) => Ok(Some((Seq::empty(), owners))),
        },
        ChangeView::ReplaceWithBackfill(list) => match exact_topology(
            list,
            "hybrid global owner replacement contains a duplicate owner id",
        ) {
            Err(e) => Err(e),
            Ok(owners) => Ok(Some((Seq::empty(), owners))),
        },
        ChangeView::Upsert(list) => if list.len() == 0 {
            Ok(None)
        } else if !keys_of(list).no_duplicates() {
            Err(
                SubscriberError::Provider(
                    "hybrid bulk owner lifecycle contains a duplicate owner id",
                ),
            )
        } else {
            Ok(Some((v.base_interests, with_owners(v.owners, list))))
        },
        ChangeView::Add(entry) => Ok(
            Some((v.base_interests, with_owners(v.owners, seq![entry]))),
        ),
        ChangeView::AddWithBackfill(entry) => Ok(
            Some((v.base_interests, with_owners(v.owners, seq![entry]))),
        ),
        ChangeView::AddFrom(entry, _) => Ok(
            Some((v.base_interests, with_owners(v.owners, seq![entry]))),
        ),
        ChangeView::Remove(owner) => if has_key(v.owners, owner) {
            Ok(Some((v.base_interests, without_entry(v.owners, owner))))
        } else {
            Ok(None)
        },
    }
}

/// Whether a change is made even where it leads to the same intent.
pub open spec fn always_made(change: ChangeView) -> bool {
    change is ReplaceWithBackfill || change is Remove
}

/// The error that a change earns for the mode that the coordinator is in: base
/// interests and owners exclude each other.
pub open spec fn mode_error(v: CoordView, change: ChangeView) -> Option<SubscriberError> {
    let taken = if change is Base {
        v.owners.len() > 0
    } else {
        v.base_interests.len() > 0
    };
    if taken {
        Some(SubscriberError::InvalidConfig(EXCLUSIVE_TOPOLOGY_ERROR))
    } else {
        None
    }
}

/// The error that a change to an active topology earns once something is
/// covered: some changes would leave a gap, others must start at a retained
/// block.
pub open spec fn coverage_change_error(v: CoordView, change: ChangeView) -> Option<SubscriberError> {
    match change {
        ChangeView::Base(_) => if v.durable.coverage_head is Some {
            Some(
                SubscriberError::Unsupported(
                    "hybrid cannot replace a base/unowned topology after canonical coverage exists because EventSubscriber has no atomic global-backfill rollback primitive; use handler-owned interests or restore a fresh coordinator",
                ),
            )
        } else {
            None
        },
        ChangeView::Replace(_) => if v.durable.coverage_head is Some {
            Some(
                SubscriberError::Unsupported(
                    "hybrid exact owner replacement after canonical coverage requires replace_interest_owners_with_global_backfill so a destructive child reset cannot create an event gap",
                ),
            )
        } else {
            None
        },
        ChangeView::AddFrom(_, retained) => match overlap_error(v.durable, retained) {
            None => None,
            Some(cause) => Some(
                SubscriberError::ActivationBaseline {
                    number: retained.number,
                    cause: Box::new(cause),
                },
            ),
        },
        _ => None,
    }
}

/// Generations with these owners set to one of them, in order.
pub open spec fn generations_with(
    generations: Seq<(Seq<u8>, u64)>,
    ids: Seq<Seq<u8>>,
    generation: u64,
) -> Seq<(Seq<u8>, u64)>
    decreases ids.len(),
{
    if ids.len() == 0 {
        generations
    } else {
        with_entry(
            generations_with(generations, ids.drop_last(), generation),
            ids.last(),
            generation,
        )
    }
}

/// The generations of the owners once a change is made: those that it names
/// start a new one.
pub open spec fn next_generations(v: CoordView, change: ChangeView, generation: u64) -> Seq<
    (Seq<u8>, u64),
> {
    match change {
        ChangeView::Base(_) => Seq::empty(),
        ChangeView::Replace(list) => generations_with(Seq::empty(), keys_of(list), generation),
        ChangeView::ReplaceWithBackfill(list) => generations_with(
            Seq::empty(),
            keys_of(list),
            generation,
        ),
        ChangeView::Upsert(list) => generations_with(
            v.durable.owner_generations,
            keys_of(list),
            generation,
        ),
        ChangeView::Add(entry) => with_entry(v.durable.owner_generations, entry.0, generation),
        ChangeView::AddWithBackfill(entry) => with_entry(
            v.durable.owner_generations,
            entry.0,
            generation,
        ),
        ChangeView::AddFrom(entry, _) => with_entry(
            v.durable.owner_generations,
            entry.0,
            generation,
        ),
        ChangeView::Remove(owner) => without_entry(v.durable.owner_generations, owner),
    }
}

/// A topology that a change leads to, with all that follows from it.
#[derive(Debug, PartialEq, Eq)]
pub struct NextTopology {
    pub base: Vec<PortableInterest>,
    pub owners: Vec<OwnerInterests>,
    pub intent: LifecycleIntent,
    /// Whether anything is subscribed in it.
    pub active: bool,
    pub generation: u64,
    pub generations: OwnerMap<u64>,
}

/// A topology that a change leads to, over sequences.
pub struct NextView {
    pub base: Seq<InterestView>,
    pub owners: Seq<OwnerInterestsView>,
    pub intent: IntentView,
    pub active: bool,
    pub generation: u64,
    pub generations: Seq<(Seq<u8>, u64)>,
}

impl View for NextTopology {
    type V = NextView;

    open spec fn view(&self) -> NextView {
        NextView {
            base: interests_view(self.base@),
            owners: owners_view(self.owners@),
            intent: self.intent@,
            active: self.active,
            generation: self.generation,
            generations: self.generations@,
        }
    }
}

/// The topology that a change leads to, or why it is refused as the coordinator
/// stands; none where it asks for nothing.
pub open spec fn resolved(v: CoordView, change: ChangeView, historical_chain: Option<u64>) -> Result<
    Option<NextView>,
    SubscriberError,
> {
    match healthy_error(v) { Some(e) => Err(e), None =>
    match restoring_error(v) { Some(e) => Err(e), None =>
    match mode_error(v, change) { Some(e) => Err(e), None =>
    match reconfigure_error(v) { Some(e) => Err(e), None =>
    match next_topology(v, change) { Err(e) => Err(e), Ok(None) => Ok(None), Ok(Some((base, owners))) =>
    match intent_of(base, owners) { Err(e) => Err(e), Ok(intent) => {
        let active = base.len() > 0 || topology_active(owners);
        let chain = chain_error(v.durable.chain_id, HybridSource::Historical, historical_chain);
        if intent == v.durable.lifecycle_intent && !always_made(change) {
            Ok(None)
        } else if active && chain is Some {
            Err(chain->Some_0)
        } else if active && coverage_change_error(v, change) is Some {
            Err(coverage_change_error(v, change)->Some_0)
        } else if v.durable.lifecycle_generation == u64::MAX {
            Err(SubscriberError::Provider("hybrid lifecycle generation exhausted"))
        } else {
            let generation = (v.durable.lifecycle_generation + 1) as u64;
            Ok(
                Some(
                    NextView {
                        base,
                        owners,
                        intent,
                        active,
                        generation,
                        generations: next_generations(v, change, generation),
                    },
                ),
            )
        }
    } } } } } } }
}

fn set_generations(generations: &mut OwnerMap<u64>, ids: &Vec<HandlerId>, generation: u64)
    ensures
        final(generations)@ == generations_with(old(generations)@, ids_view(ids@), generation),
{
    let ghost start = generations@;
    let ghost all = ids_view(ids@);
    let mut i: usize = 0;
    assert(all.take(0) =~= Seq::<Seq<u8>>::empty());
    while i < ids.len()
        invariant
            i <= ids@.len(),
            all == ids_view(ids@),
            generations@ == generations_with(start, all.take(i as int), generation),
        decreases ids@.len() - i,
    {
        proof {
            let next = all.take(i + 1);
            assert(next.drop_last() =~= all.take(i as int));
            assert(next.last() == all[i as int]);
        }
        generations.insert(ids[i].duplicate(), generation);
        i += 1;
    }
    assert(all.take(i as int) =~= all);
}

fn list_generations(list: &Vec<OwnerInterests>, generation: u64) -> (r: OwnerMap<u64>)
    ensures
        r@ == generations_with(Seq::empty(), keys_of(owners_view(list@)), generation),
{
    let mut generations: OwnerMap<u64> = OwnerMap::new();
    let ids: Vec<HandlerId> = list_owner_ids(list);
    set_generations(&mut generations, &ids, generation);
    generations
}

fn generations_after(core: &Coordinator, change: &TopologyChange, generation: u64) -> (r: OwnerMap<
    u64,
>)
    ensures
        r@ == next_generations(core@, change@, generation),
{
    match change {
        TopologyChange::Base(_) => OwnerMap::new(),
        TopologyChange::Replace(list) => list_generations(list, generation),
        TopologyChange::ReplaceWithBackfill(list) => list_generations(list, generation),
        TopologyChange::Upsert(list) => {
            let mut generations: OwnerMap<u64> = core.durable.owner_generations.duplicate();
            let ids: Vec<HandlerId> = list_owner_ids(list);
            set_generations(&mut generations, &ids, generation);
            generations
        },
        TopologyChange::Add(entry) | TopologyChange::AddWithBackfill(entry) => {
            let mut generations: OwnerMap<u64> = core.durable.owner_generations.duplicate();
            generations.insert(entry.owner.duplicate(), generation);
            generations
        },
        TopologyChange::AddFrom(entry, _) => {
            let mut generations: OwnerMap<u64> = core.durable.owner_generations.duplicate();
            generations.insert(entry.owner.duplicate(), generation);
            generations
        },
        TopologyChange::Remove(owner) => {
            let mut generations: OwnerMap<u64> = core.durable.owner_generations.duplicate();
            generations.remove(owner);
            generations
        },
    }
}

fn owners_with(core: &Coordinator, entry: &OwnerInterests) -> (r: Vec<OwnerInterests>)
    ensures
        owners_view(r@) == with_owners(core@.owners, seq![entry@]),
{
    let mut owners: Vec<OwnerInterests> = copy_owners(&core.owners);
    let mut list: Vec<OwnerInterests> = Vec::new();
    list.push(entry.duplicate());
    assert(owners_view(list@) =~= seq![entry@]);
    set_owners(&mut owners, &list);
    owners
}

fn topology_after(core: &Coordinator, change: &TopologyChange) -> (r: Result<
    Option<(Vec<PortableInterest>, Vec<OwnerInterests>)>,
    SubscriberError,
>)
    ensures
        match r {
            Err(e) => next_topology(core@, change@) == Err::<
                Option<(Seq<InterestView>, Seq<OwnerInterestsView>)>,
                _,
            >(e),
            Ok(None) => next_topology(core@, change@) == Ok::<
                Option<(Seq<InterestView>, Seq<OwnerInterestsView>)>,
                SubscriberError,
            >(None),
            Ok(Some((base, owners))) => next_topology(core@, change@) == Ok::<_, SubscriberError>(
                Some((interests_view(base@), owners_view(owners@))),
            ),
        },
{
    let no_base: Vec<PortableInterest> = Vec::new();
    assert(interests_view(no_base@) =~= Seq::<InterestView>::empty());
    match change {
        TopologyChange::Base(base) => {
            let none: Vec<OwnerInterests> = Vec::new();
            assert(owners_view(none@) =~= Seq::<OwnerInterestsView>::empty());
            Ok(Some((copy_interests(base), none)))
        },
        TopologyChange::Replace(list) => {
            let owners: Vec<OwnerInterests> = exact_owner_topology(
                list,
                "hybrid exact owner replacement contains a duplicate owner id",
            )?;
            Ok(Some((no_base, owners)))
        },
        TopologyChange::ReplaceWithBackfill(list) => {
            let owners: Vec<OwnerInterests> = exact_owner_topology(
                list,
                "hybrid global owner replacement contains a duplicate owner id",
            )?;
            Ok(Some((no_base, owners)))
        },
        TopologyChange::Upsert(list) => {
            assert(owners_view(list@).len() == list@.len());
            if list.len() == 0 {
                return Ok(None);
            }
            let ids: Vec<HandlerId> = list_owner_ids(list);
            if has_duplicate_owners(ids.as_slice()) {
                return Err(
                    SubscriberError::Provider(
                        "hybrid bulk owner lifecycle contains a duplicate owner id",
                    ),
                );
            }
            let mut owners: Vec<OwnerInterests> = copy_owners(&core.owners);
            set_owners(&mut owners, list);
            Ok(Some((copy_interests(&core.base_interests), owners)))
        },
        TopologyChange::Add(entry) | TopologyChange::AddWithBackfill(entry) => Ok(
            Some((copy_interests(&core.base_interests), owners_with(core, entry))),
        ),
        TopologyChange::AddFrom(entry, _) => Ok(
            Some((copy_interests(&core.base_interests), owners_with(core, entry))),
        ),
        TopologyChange::Remove(owner) => {
            if interests_of(&core.owners, owner).is_none() {
                return Ok(None);
            }
            let mut owners: Vec<OwnerInterests> = copy_owners(&core.owners);
            drop_owner(&mut owners, owner);
            Ok(Some((copy_interests(&core.base_interests), owners)))
        },
    }
}

fn check_coverage_change(core: &Coordinator, change: &TopologyChange) -> (r: Result<
    (),
    SubscriberError,
>)
    ensures
        match r {
            Ok(_) => coverage_change_error(core@, change@) is None,
            Err(e) => coverage_change_error(core@, change@) == Some(e),
        },
{
    match change {
        TopologyChange::Base(_) => {
            if core.durable.coverage_head.is_some() {
                return Err(
                    SubscriberError::Unsupported(
                        "hybrid cannot replace a base/unowned topology after canonical coverage exists because EventSubscriber has no atomic global-backfill rollback primitive; use handler-owned interests or restore a fresh coordinator",
                    ),
                );
            }
        },
        TopologyChange::Replace(_) => {
            if core.durable.coverage_head.is_some() {
                return Err(
                    SubscriberError::Unsupported(
                        "hybrid exact owner replacement after canonical coverage requires replace_interest_owners_with_global_backfill so a destructive child reset cannot create an event gap",
                    ),
                );
            }
        },
        TopologyChange::AddFrom(_, retained) => match validate_overlap_block(
            &core.durable,
            retained,
        ) {
            Ok(_) => {},
            Err(cause) => {
                return Err(
                    SubscriberError::ActivationBaseline {
                        number: retained.number,
                        cause: Box::new(cause),
                    },
                );
            },
        },
        _ => {},
    }
    Ok(())
}

impl Coordinator {
    /// The topology that a change leads to. Refuses a change that cannot be made
    /// as the coordinator stands. `historical_chain` is the chain that the
    /// historical source is on now.
    pub fn resolve_change(&self, change: &TopologyChange, historical_chain: Option<u64>) -> (r: Result<
        Option<NextTopology>,
        SubscriberError,
    >)
        ensures
            match r {
                Err(e) => resolved(self@, change@, historical_chain) == Err::<Option<NextView>, _>(e),
                Ok(None) => resolved(self@, change@, historical_chain) == Ok::<
                    Option<NextView>,
                    SubscriberError,
                >(None),
                Ok(Some(next)) => resolved(self@, change@, historical_chain) == Ok::<
                    _,
                    SubscriberError,
                >(Some(next@)),
            },
    {
        assert(self@.owners.len() == self.owners@.len());
        assert(self@.base_interests.len() == self.base_interests@.len());
        self.ensure_healthy()?;
        self.ensure_no_pending_restore()?;
        let taken: bool = match change {
            TopologyChange::Base(_) => self.owners.len() > 0,
            _ => self.base_interests.len() > 0,
        };
        if taken {
            return Err(SubscriberError::InvalidConfig(EXCLUSIVE_TOPOLOGY_ERROR));
        }
        self.ensure_reconfigurable()?;
        let (base, owners) = match topology_after(self, change)? {
            None => {
                return Ok(None);
            },
            Some(topology) => topology,
        };
        let intent: LifecycleIntent = lifecycle_intent(&base, &owners)?;
        let always: bool = match change {
            TopologyChange::ReplaceWithBackfill(_) => true,
            TopologyChange::Remove(_) => true,
            _ => false,
        };
        if !always && intent.same(&self.durable.lifecycle_intent) {
            return Ok(None);
        }
        let active: bool = base.len() > 0 || any_interests(&owners);
        assert(interests_view(base@).len() == base@.len());
        if active {
            self.ensure_source_chain(HybridSource::Historical, historical_chain)?;
            check_coverage_change(self, change)?;
        }
        if self.durable.lifecycle_generation == u64::MAX {
            return Err(SubscriberError::Provider("hybrid lifecycle generation exhausted"));
        }
        let generation: u64 = self.durable.lifecycle_generation + 1;
        let generations: OwnerMap<u64> = generations_after(self, change, generation);
        Ok(Some(NextTopology { base, owners, intent, active, generation, generations }))
    }
}

// ---------------------------------------------------------------------------
// The state that a change leads to
// ---------------------------------------------------------------------------

/// Recent inputs that one owner has not had any more.
pub open spec fn recent_without(recent: Seq<RecentView>, owner: Seq<u8>) -> Seq<RecentView> {
    Seq::new(
        recent.len(),
        |i: int|
            RecentView {
                coverage: CoverageView {
                    owners: without_entry(recent[i].coverage.owners, owner),
                    ..recent[i].coverage
                },
                ..recent[i]
            },
    )
}

fn forget_owner(recent: &mut Vec<StoredRecentInput>, owner: &HandlerId)
    ensures
        recent_view(final(recent)@) == recent_without(recent_view(old(recent)@), owner@),
{
    let ghost start = recent_view(recent@);
    let mut out: Vec<StoredRecentInput> = Vec::new();
    let mut i: usize = 0;
    while i < recent.len()
        invariant
            i <= recent@.len(),
            start == recent_view(recent@),
            recent@ == old(recent)@,
            recent_view(out@) =~= recent_without(start, owner@).take(i as int),
        decreases recent@.len() - i,
    {
        let mut entry: StoredRecentInput = recent[i].duplicate();
        assert(start[i as int] == recent@[i as int]@);
        entry.coverage.owners.remove(owner);
        let ghost last = entry@;
        let ghost before = out@;
        out.push(entry);
        assert(recent_view(out@) =~= recent_view(before).push(last));
        assert(last == recent_without(start, owner@)[i as int]);
        i += 1;
    }
    assert(recent_view(out@) =~= recent_without(start, owner@));
    *recent = out;
}

/// A state whose deliveries start afresh: nothing is known of recent inputs.
pub open spec fn fresh_start(c: CheckpointView, epoch: Epoch) -> CheckpointView {
    renewed(
        CheckpointView { recent_inputs: Seq::empty(), certified_historical: None, ..c },
        epoch,
    )
}

/// A state under the topology that a change leads to.
pub open spec fn under(c: CheckpointView, next: NextView) -> CheckpointView {
    CheckpointView {
        lifecycle_generation: next.generation,
        owner_generations: next.generations,
        lifecycle_intent: next.intent,
        ..c
    }
}

/// The state that a change leads to, as far as room for a delivery depends on
/// it: some changes start deliveries afresh, others keep what is known.
pub open spec fn change_candidate(c: CheckpointView, change: ChangeView, next: NextView) -> CheckpointView {
    let n = CheckpointView { certified_historical: None, ..under(c, next) };
    match change {
        ChangeView::Base(_) => fresh_start(n, c.epoch),
        ChangeView::Replace(_) => fresh_start(n, c.epoch),
        ChangeView::ReplaceWithBackfill(_) => fresh_start(n, c.epoch),
        ChangeView::Remove(owner) => CheckpointView {
            recent_inputs: recent_without(n.recent_inputs, owner),
            ..n
        },
        _ => n,
    }
}

impl Coordinator {
    /// The state that a change leads to, as far as room for a delivery depends
    /// on it.
    pub fn candidate_after(&self, change: &TopologyChange, next: &NextTopology) -> (r:
        HybridCheckpointV5)
        ensures
            r@ == change_candidate(self@.durable, change@, next@),
    {
        let mut state: HybridCheckpointV5 = self.durable.duplicate();
        state.lifecycle_generation = next.generation;
        state.owner_generations = next.generations.duplicate();
        state.lifecycle_intent = next.intent.duplicate();
        state.certified_historical = None;
        match change {
            TopologyChange::Base(_) | TopologyChange::Replace(_)
            | TopologyChange::ReplaceWithBackfill(_) => {
                state.recent_inputs = Vec::new();
                assert(state@.recent_inputs =~= Seq::<RecentView>::empty());
                renew_tokens(&mut state, self.durable.epoch);
            },
            TopologyChange::Remove(owner) => {
                forget_owner(&mut state.recent_inputs, owner);
            },
            _ => {},
        }
        state
    }
}

// ---------------------------------------------------------------------------
// Plans
// ---------------------------------------------------------------------------

/// What the canonical-sequence rules say in the course of a change: of the
/// simulated states, and of the history and heads as they are.
#[derive(Debug, PartialEq, Eq)]
pub struct ChangeVerdicts {
    pub probe: ProbeVerdicts,
    pub current: SequenceVerdict,
}

/// A change that may be made: both sources may be told.
#[derive(Debug, PartialEq, Eq)]
pub struct ChangePlan {
    pub change: TopologyChange,
    pub next: NextTopology,
    pub barrier: Option<PreparedEmptyLifecycleBarrier>,
}

/// A change that may be made, over sequences.
pub struct ChangePlanView {
    pub change: ChangeView,
    pub next: NextView,
    pub barrier: Option<BarrierView>,
}

/// An optional barrier over sequences.
pub open spec fn opt_barrier(value: Option<PreparedEmptyLifecycleBarrier>) -> Option<BarrierView> {
    match value {
        Some(x) => Some(x@),
        None => None,
    }
}

impl View for ChangePlan {
    type V = ChangePlanView;

    open spec fn view(&self) -> ChangePlanView {
        ChangePlanView {
            change: self.change@,
            next: self.next@,
            barrier: opt_barrier(self.barrier),
        }
    }
}

/// The error that a change earns that leaves no room for a delivery.
pub open spec fn change_room_error(
    v: CoordView,
    change: ChangeView,
    next: NextView,
    verdicts: ProbeVerdicts,
) -> Option<SubscriberError> {
    if next.intent.active() {
        room_error(
            change_candidate(v.durable, change, next),
            v.config,
            if change is Base {
                "hybrid base topology"
            } else {
                "hybrid owner topology"
            },
            verdicts,
        )
    } else {
        None
    }
}

/// What is covered, where a condition holds.
pub open spec fn covered_if(v: CoordView, condition: bool) -> Option<BlockRef> {
    if condition {
        v.durable.coverage_head
    } else {
        None
    }
}

/// What each of the owners was interested in.
pub open spec fn previous_of(v: CoordView, list: Seq<OwnerInterestsView>) -> Seq<
    (Seq<u8>, Option<Seq<InterestView>>),
> {
    Seq::new(list.len(), |i: int| (list[i].0, lookup(v.owners, list[i].0)))
}

/// Whether some of the owners was interested in something that a change alters.
pub open spec fn alters_some(
    list: Seq<OwnerInterestsView>,
    current: IntentView,
    next: IntentView,
) -> bool {
    exists|i: int|
        0 <= i < list.len() && altered(#[trigger] list[i].0, current, next)
}

/// Whether an owner was interested in something that a change alters.
pub open spec fn altered(owner: Seq<u8>, current: IntentView, next: IntentView) -> bool {
    let before = lookup(current.owners, owner);
    let after = lookup(next.owners, owner);
    before is Some && after is Some && before != after && before->Some_0 != empty_fingerprint()
}

/// Whether some owner of an intent is interested in something.
pub open spec fn owners_interested(intent: IntentView) -> bool {
    exists|i: int|
        0 <= i < intent.owners.len() && (#[trigger] intent.owners[i]).1 != empty_fingerprint()
}

/// How to take back the change of one owner.
pub open spec fn owner_rollback(v: CoordView, owner: Seq<u8>) -> RollbackView {
    let before = lookup(v.owners, owner);
    RollbackView::Owner {
        owner,
        before,
        gap_anchor: covered_if(v, before is Some && before->Some_0.len() > 0),
    }
}

/// How to take a change back.
pub open spec fn rollback_for(v: CoordView, change: ChangeView, next: NextView) -> RollbackView {
    match change {
        ChangeView::Base(_) => RollbackView::Base {
            previous: v.base_interests,
            gap_anchor: covered_if(v, v.base_interests.len() > 0),
        },
        ChangeView::Replace(_) => RollbackView::Topology {
            base: v.base_interests,
            owners: v.owners,
            recovery_anchor: None,
            gap_anchor: covered_if(v, owners_interested(v.durable.lifecycle_intent)),
        },
        ChangeView::ReplaceWithBackfill(_) => RollbackView::Topology {
            base: v.base_interests,
            owners: v.owners,
            recovery_anchor: v.durable.coverage_head,
            gap_anchor: None,
        },
        ChangeView::Upsert(list) => RollbackView::Bulk {
            each: previous_of(v, list),
            gap_anchor: covered_if(
                v,
                alters_some(list, v.durable.lifecycle_intent, next.intent),
            ),
        },
        ChangeView::Add(entry) => owner_rollback(v, entry.0),
        ChangeView::AddWithBackfill(entry) => owner_rollback(v, entry.0),
        ChangeView::AddFrom(entry, _) => owner_rollback(v, entry.0),
        ChangeView::Remove(owner) => owner_rollback(v, owner),
    }
}

/// A change that may be made, with everything that it takes, or why it may not
/// be made; none where it asks for nothing.
pub open spec fn change_planned(
    v: CoordView,
    change: ChangeView,
    historical_chain: Option<u64>,
    verdicts: ChangeVerdicts,
    epoch: Epoch,
) -> Result<Option<ChangePlanView>, SubscriberError> {
    match resolved(v, change, historical_chain) { Err(e) => Err(e), Ok(None) => Ok(None), Ok(Some(next)) =>
    match change_room_error(v, change, next, verdicts.probe) { Some(e) => Err(e), None =>
    if next.active {
        Ok(Some(ChangePlanView { change, next, barrier: None }))
    } else {
        match barrier_prepared(
            v.durable,
            v.config,
            epoch,
            next.generation,
            next.generations,
            next.intent,
            verdicts.current,
        ) {
            Err(e) => Err(e),
            Ok(b) => Ok(Some(ChangePlanView { change, next, barrier: Some(b) })),
        }
    } } }
}

fn covered_where(core: &Coordinator, condition: bool) -> (r: Option<BlockRef>)
    ensures
        r == covered_if(core@, condition),
{
    if condition {
        core.durable.coverage_head
    } else {
        None
    }
}

fn previous_interests(core: &Coordinator, owner: &HandlerId) -> (r: Option<Vec<PortableInterest>>)
    ensures
        opt_interests(r) == lookup(core@.owners, owner@),
{
    match interests_of(&core.owners, owner) {
        Some(interests) => Some(copy_interests(interests)),
        None => None,
    }
}

fn rollback_of_owner(core: &Coordinator, owner: &HandlerId) -> (r: LiveRollback)
    ensures
        r@ == owner_rollback(core@, owner@),
{
    let before: Option<Vec<PortableInterest>> = previous_interests(core, owner);
    let interested: bool = match &before {
        Some(interests) => {
            assert(interests_view(interests@).len() == interests@.len());
            interests.len() > 0
        },
        None => false,
    };
    LiveRollback::Owner {
        owner: owner.duplicate(),
        before,
        gap_anchor: covered_where(core, interested),
    }
}

fn previous_owners(core: &Coordinator, list: &Vec<OwnerInterests>) -> (r: Vec<PreviousOwner>)
    ensures
        previous_view(r@) == previous_of(core@, owners_view(list@)),
{
    let ghost all = owners_view(list@);
    let mut out: Vec<PreviousOwner> = Vec::new();
    let mut i: usize = 0;
    while i < list.len()
        invariant
            i <= list@.len(),
            out@.len() == i,
            all == owners_view(list@),
            forall|j: int| 0 <= j < i ==> (#[trigger] out@[j])@ == previous_of(core@, all)[j],
        decreases list@.len() - i,
    {
        assert(all[i as int] == list@[i as int]@);
        out.push(
            PreviousOwner {
                owner: list[i].owner.duplicate(),
                previous: previous_interests(core, &list[i].owner),
            },
        );
        i += 1;
    }
    assert(previous_view(out@) =~= previous_of(core@, all));
    out
}

fn any_altered(list: &Vec<OwnerInterests>, current: &LifecycleIntent, next: &LifecycleIntent) -> (r: bool)
    ensures
        r == alters_some(owners_view(list@), current@, next@),
{
    let ghost all = owners_view(list@);
    let empty: B256 = empty_interest_fingerprint();
    let mut i: usize = 0;
    while i < list.len()
        invariant
            i <= list@.len(),
            all == owners_view(list@),
            empty == empty_fingerprint(),
            forall|j: int| 0 <= j < i ==> !altered(#[trigger] all[j].0, current@, next@),
        decreases list@.len() - i,
    {
        assert(all[i as int].0 == list@[i as int].owner@);
        let before: Option<&B256> = current.owners.get(&list[i].owner);
        let after: Option<&B256> = next.owners.get(&list[i].owner);
        if let (Some(a), Some(b)) = (before, after) {
            if *a != *b && *a != empty {
                assert(altered(all[i as int].0, current@, next@));
                return true;
            }
        }
        i += 1;
    }
    false
}

fn any_owner_interested(intent: &LifecycleIntent) -> (r: bool)
    ensures
        r == owners_interested(intent@),
{
    let empty: B256 = empty_interest_fingerprint();
    let mut i: usize = 0;
    while i < intent.owners.len()
        invariant
            i <= intent.owners@.len(),
            empty == empty_fingerprint(),
            forall|j: int| 0 <= j < i ==> (#[trigger] intent.owners@[j]).1 == empty,
        decreases intent.owners@.len() - i,
    {
        if *intent.owners.value_at(i) != empty {
            assert(intent@.owners[i as int].1 != empty_fingerprint());
            return true;
        }
        i += 1;
    }
    false
}

fn make_rollback(core: &Coordinator, change: &TopologyChange, next: &NextTopology) -> (r: LiveRollback)
    ensures
        r@ == rollback_for(core@, change@, next@),
{
    match change {
        TopologyChange::Base(_) => {
            assert(core@.base_interests.len() == core.base_interests@.len());
            LiveRollback::Base {
                previous: copy_interests(&core.base_interests),
                gap_anchor: covered_where(core, core.base_interests.len() > 0),
            }
        },
        TopologyChange::Replace(_) => LiveRollback::Topology {
            base: copy_interests(&core.base_interests),
            owners: copy_owners(&core.owners),
            recovery_anchor: None,
            gap_anchor: covered_where(core, any_owner_interested(&core.durable.lifecycle_intent)),
        },
        TopologyChange::ReplaceWithBackfill(_) => LiveRollback::Topology {
            base: copy_interests(&core.base_interests),
            owners: copy_owners(&core.owners),
            recovery_anchor: core.durable.coverage_head,
            gap_anchor: None,
        },
        TopologyChange::Upsert(list) => LiveRollback::Bulk {
            each: previous_owners(core, list),
            gap_anchor: covered_where(
                core,
                any_altered(list, &core.durable.lifecycle_intent, &next.intent),
            ),
        },
        TopologyChange::Add(entry) | TopologyChange::AddWithBackfill(entry) => rollback_of_owner(
            core,
            &entry.owner,
        ),
        TopologyChange::AddFrom(entry, _) => rollback_of_owner(core, &entry.owner),
        TopologyChange::Remove(owner) => rollback_of_owner(core, owner),
    }
}

impl Coordinator {
    /// Refuses a change that leaves no room for a delivery.
    fn preflight_change(&self, change: &TopologyChange, next: &NextTopology, verdicts: &ProbeVerdicts) -> (r:
        Result<(), SubscriberError>)
        ensures
            match r {
                Ok(_) => change_room_error(self@, change@, next@, *verdicts) is None,
                Err(e) => change_room_error(self@, change@, next@, *verdicts) == Some(e),
            },
    {
        if !next.intent.has_active_interests() {
            return Ok(());
        }
        let candidate: HybridCheckpointV5 = self.candidate_after(change, next);
        let context: &'static str = match change {
            TopologyChange::Base(_) => "hybrid base topology",
            _ => "hybrid owner topology",
        };
        preflight_maximum_canonical_log_delivery(&self.config, &candidate, context, verdicts)
    }

    /// Plans a change, and notes how it would be taken back; both sources may
    /// then be told of it. A change that is refused, or that asks for nothing,
    /// leaves everything as it is. A change that failed before must have been
    /// taken back. `epoch` names the tokens from here on where nothing is
    /// subscribed any more.
    pub fn plan_change(
        &mut self,
        change: TopologyChange,
        historical_chain: Option<u64>,
        verdicts: &ChangeVerdicts,
        epoch: Epoch,
    ) -> (r: Result<Option<ChangePlan>, SubscriberError>)
        requires
            old(self)@.rollback is None,
        ensures
            match r {
                Err(e) => change_planned(old(self)@, change@, historical_chain, *verdicts, epoch)
                    == Err::<Option<ChangePlanView>, _>(e) && final(self)@ == old(self)@,
                Ok(None) => change_planned(old(self)@, change@, historical_chain, *verdicts, epoch)
                    == Ok::<Option<ChangePlanView>, SubscriberError>(None) && final(self)@ == old(
                    self,
                )@,
                Ok(Some(plan)) => change_planned(
                    old(self)@,
                    change@,
                    historical_chain,
                    *verdicts,
                    epoch,
                ) == Ok::<_, SubscriberError>(Some(plan@)) && final(self)@ == (CoordView {
                    rollback: Some(rollback_for(old(self)@, change@, plan@.next)),
                    ..old(self)@
                }),
            },
    {
        let next: NextTopology = match self.resolve_change(&change, historical_chain)? {
            None => {
                return Ok(None);
            },
            Some(next) => next,
        };
        self.preflight_change(&change, &next, &verdicts.probe)?;
        let barrier: Option<PreparedEmptyLifecycleBarrier> = if next.active {
            None
        } else {
            Some(
                self.prepare_empty_lifecycle_barrier(
                    epoch,
                    next.generation,
                    &next.generations,
                    &next.intent,
                    &verdicts.current,
                )?,
            )
        };
        let rollback: LiveRollback = make_rollback(self, &change, &next);
        self.rollback = Some(rollback);
        Ok(Some(ChangePlan { change, next, barrier }))
    }
}

// ---------------------------------------------------------------------------
// Taking a change over
// ---------------------------------------------------------------------------

/// The state whose deliveries start afresh under a new epoch.
pub open spec fn delivery_reset(v: CoordView, epoch: Epoch) -> CoordView {
    CoordView {
        durable: fresh_start(v.durable, epoch),
        phase: HybridPhase::CatchingUp,
        fence: None,
        drain_through: None,
        pending_cutover: None,
        acknowledged_historical_through: None,
        live_buffer: Seq::empty(),
        buffered_live_records: 0,
        buffered_live_bytes: 0,
        in_flight: None,
        rollback: None,
        replay_historical: false,
        replay_live: false,
        pending_preparation: None,
        prepared_position: None,
        ..v
    }
}

/// The height below the first live batch in a buffer.
pub open spec fn buffer_fence(buffer: Seq<BufferedView>) -> Option<u64> {
    if buffer.len() > 0 && buffer[0].max_canonical_block is Some {
        Some(below(buffer[0].max_canonical_block->Some_0))
    } else {
        None
    }
}

/// The state in which the historical source catches up with a changed topology.
pub open spec fn catchup_begun(v: CoordView) -> CoordView {
    let n = CoordView {
        durable: CheckpointView { certified_historical: None, ..v.durable },
        drain_through: None,
        pending_cutover: None,
        acknowledged_historical_through: None,
        ..v
    };
    if subscribed(v) {
        CoordView { phase: HybridPhase::CatchingUp, fence: buffer_fence(v.live_buffer), ..n }
    } else {
        CoordView { phase: HybridPhase::Live, fence: None, recovery_anchor: None, ..n }
    }
}

/// The state once a change that both sources made is taken over.
pub open spec fn change_committed(v: CoordView, plan: ChangePlanView, epoch: Epoch) -> CoordView {
    let n = CoordView {
        rollback: None,
        base_interests: plan.next.base,
        owners: plan.next.owners,
        durable: under(v.durable, plan.next),
        ..v
    };
    match plan.barrier {
        Some(barrier) => barrier_installed(n, barrier),
        None => match plan.change {
            ChangeView::Base(_) => delivery_reset(n, epoch),
            ChangeView::Replace(_) => delivery_reset(n, epoch),
            ChangeView::ReplaceWithBackfill(_) => delivery_reset(n, epoch),
            ChangeView::Remove(owner) => CoordView {
                durable: CheckpointView {
                    certified_historical: None,
                    recent_inputs: recent_without(n.durable.recent_inputs, owner),
                    ..n.durable
                },
                ..n
            },
            _ => catchup_begun(n),
        },
    }
}

/// What an owner that a change removes was interested in.
pub open spec fn removed_interests(v: CoordView, change: ChangeView) -> Option<Seq<InterestView>> {
    match change {
        ChangeView::Remove(owner) => lookup(v.owners, owner),
        _ => None,
    }
}

impl Coordinator {
    /// Starts deliveries afresh under a new epoch.
    pub fn reset_delivery_state(&mut self, epoch: Epoch)
        ensures
            final(self)@ == delivery_reset(old(self)@, epoch),
    {
        renew_tokens(&mut self.durable, epoch);
        self.durable.certified_historical = None;
        self.durable.recent_inputs = Vec::new();
        self.phase = HybridPhase::CatchingUp;
        self.fence = None;
        self.drain_through = None;
        self.pending_cutover = None;
        self.acknowledged_historical_through = None;
        self.live_buffer = Vec::new();
        self.buffered_live_records = 0;
        self.buffered_live_bytes = 0;
        self.in_flight = None;
        self.rollback = None;
        self.replay_historical = false;
        self.replay_live = false;
        self.pending_preparation = None;
        self.prepared_position = None;
        assert(self@.durable.recent_inputs =~= Seq::<RecentView>::empty());
        assert(buffer_view(self.live_buffer@) =~= Seq::<BufferedView>::empty());
    }

    /// Lets the historical source catch up with a changed topology.
    pub fn begin_reconfiguration_catchup(&mut self)
        ensures
            final(self)@ == catchup_begun(old(self)@),
    {
        let ghost v = self@;
        let active: bool = self.has_active_interests();
        self.durable.certified_historical = None;
        self.drain_through = None;
        self.pending_cutover = None;
        self.acknowledged_historical_through = None;
        if !active {
            self.phase = HybridPhase::Live;
            self.fence = None;
            self.recovery_anchor = None;
            return;
        }
        self.phase = HybridPhase::CatchingUp;
        assert(v.live_buffer.len() == self.live_buffer@.len());
        self.fence = if self.live_buffer.len() > 0 {
            assert(v.live_buffer[0] == self.live_buffer@[0]@);
            match self.live_buffer[0].max_canonical_block {
                Some(head) => Some(head.saturating_sub(1)),
                None => None,
            }
        } else {
            None
        };
    }

    /// Takes over a change that both sources made, and gives what an owner that
    /// it removes was interested in.
    pub fn commit_change(&mut self, plan: ChangePlan, epoch: Epoch) -> (r: Option<
        Vec<PortableInterest>,
    >)
        ensures
            final(self)@ == change_committed(old(self)@, plan@, epoch),
            opt_interests(r) == removed_interests(old(self)@, plan@.change),
    {
        let ChangePlan { change, next, barrier } = plan;
        let removed: Option<Vec<PortableInterest>> = match &change {
            TopologyChange::Remove(owner) => previous_interests(self, owner),
            _ => None,
        };
        self.rollback = None;
        self.base_interests = next.base;
        self.owners = next.owners;
        self.durable.lifecycle_generation = next.generation;
        self.durable.owner_generations = next.generations;
        self.durable.lifecycle_intent = next.intent;
        if let Some(prepared) = barrier {
            self.install_empty_lifecycle_barrier(prepared);
            return removed;
        }
        match change {
            TopologyChange::Base(_) | TopologyChange::Replace(_)
            | TopologyChange::ReplaceWithBackfill(_) => {
                self.reset_delivery_state(epoch);
            },
            TopologyChange::Remove(owner) => {
                self.durable.certified_historical = None;
                forget_owner(&mut self.durable.recent_inputs, &owner);
            },
            _ => {
                self.begin_reconfiguration_catchup();
            },
        }
        removed
    }
}

} // verus!
