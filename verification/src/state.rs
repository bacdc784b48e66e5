//! The state of a coordinator between two events.
use crate::checkpoint::{
    copy_blocks, copy_opt_bytes, opt_bytes, CheckpointView, HybridCheckpointV5, HybridSource,
    IntentView, LifecycleIntent,
};
use crate::commit::{CommitView, PendingCoordinatorCommit};
use crate::config::HybridConfig;
use crate::error::SubscriberError;
use crate::ingress::{BatchView, BufferedBatch, BufferedView, ReactiveInputBatch};
use crate::intent::{
    interests_view, owners_view, InterestView, OwnerInterests, OwnerInterestsView, PortableInterest,
};
use crate::message::text;
use crate::model::{same_bytes, BlockRef, HandlerId};
use crate::validate::SequenceVerdict;
use vstd::prelude::*;

verus! {

/// What a coordinator is doing.
#[derive(Clone, Copy, Debug, PartialEq, Eq, Structural)]
#[non_exhaustive]
pub enum HybridPhase {
    /// Live batches are buffered while the historical source approaches the
    /// fence.
    CatchingUp,
    /// The fence was reached and acknowledged; buffered live batches are
    /// delivered.
    DrainingLive,
    /// The live source delivers.
    Live,
    /// The live source failed; the historical source fills the gap.
    Recovering,
    /// Something that safe delivery rests on could not be shown. A coordinator
    /// never leaves this phase.
    Poisoned,
}

/// A historical delivery that ends the catch-up once it is acknowledged.
#[derive(Debug, PartialEq, Eq)]
pub struct PendingCutover {
    pub historical_token: Vec<u8>,
    pub through: u64,
}

/// A pending cutover over sequences.
pub struct CutoverView {
    pub historical_token: Seq<u8>,
    pub through: u64,
}

impl View for PendingCutover {
    type V = CutoverView;

    open spec fn view(&self) -> CutoverView {
        CutoverView { historical_token: self.historical_token@, through: self.through }
    }
}

/// A delivery that was handed out and waits to be acknowledged: what it will
/// commit, what the canonical-sequence rules say of the result, and the batch.
#[derive(Debug, PartialEq, Eq)]
pub struct InFlight {
    pub commit: PendingCoordinatorCommit,
    pub sequence: SequenceVerdict,
    pub output: ReactiveInputBatch,
}

/// A delivery in flight over sequences.
pub struct InFlightView {
    pub commit: CommitView,
    pub sequence: SequenceVerdict,
    pub output: BatchView,
}

impl View for InFlight {
    type V = InFlightView;

    open spec fn view(&self) -> InFlightView {
        InFlightView { commit: self.commit@, sequence: self.sequence, output: self.output@ }
    }
}

/// Where a runtime stands when it resumes.
#[derive(Debug, PartialEq, Eq)]
pub struct SubscriberResumePosition {
    pub chain_id: u64,
    pub coverage_head: BlockRef,
    pub canonical_history: Vec<BlockRef>,
    pub delivery_token: Option<Vec<u8>>,
    pub subscriber_checkpoint: Option<Vec<u8>>,
}

/// A resume position over sequences.
pub struct PositionView {
    pub chain_id: u64,
    pub coverage_head: BlockRef,
    pub canonical_history: Seq<BlockRef>,
    pub delivery_token: Option<Seq<u8>>,
    pub subscriber_checkpoint: Option<Seq<u8>>,
}

impl View for SubscriberResumePosition {
    type V = PositionView;

    open spec fn view(&self) -> PositionView {
        PositionView {
            chain_id: self.chain_id,
            coverage_head: self.coverage_head,
            canonical_history: self.canonical_history@,
            delivery_token: opt_bytes(self.delivery_token),
            subscriber_checkpoint: opt_bytes(self.subscriber_checkpoint),
        }
    }
}

/// Whether two optional byte strings are the same.
pub fn same_opt_bytes(a: &Option<Vec<u8>>, b: &Option<Vec<u8>>) -> (r: bool)
    ensures
        r == (opt_bytes(*a) == opt_bytes(*b)),
{
    match (a, b) {
        (Some(x), Some(y)) => same_bytes(x.as_slice(), y.as_slice()),
        (None, None) => true,
        _ => false,
    }
}

/// Whether two histories are the same.
pub fn same_blocks(a: &Vec<BlockRef>, b: &Vec<BlockRef>) -> (r: bool)
    ensures
        r == (a@ == b@),
{
    if a.len() != b.len() {
        return false;
    }
    let mut i: usize = 0;
    while i < a.len()
        invariant
            i <= a@.len(),
            a@.len() == b@.len(),
            forall|j: int| 0 <= j < i ==> a@[j] == b@[j],
        decreases a@.len() - i,
    {
        if a[i] != b[i] {
            return false;
        }
        i += 1;
    }
    assert(a@ =~= b@);
    true
}

impl SubscriberResumePosition {
    /// Another position with the same contents.
    pub fn duplicate(&self) -> (r: SubscriberResumePosition)
        ensures
            r@ == self@,
    {
        SubscriberResumePosition {
            chain_id: self.chain_id,
            coverage_head: self.coverage_head,
            canonical_history: copy_blocks(self.canonical_history.as_slice()),
            delivery_token: copy_opt_bytes(&self.delivery_token),
            subscriber_checkpoint: copy_opt_bytes(&self.subscriber_checkpoint),
        }
    }

    /// Whether both positions are the same.
    pub fn same(&self, other: &SubscriberResumePosition) -> (r: bool)
        ensures
            r == (self@ == other@),
    {
        self.chain_id == other.chain_id && self.coverage_head == other.coverage_head && same_blocks(
            &self.canonical_history,
            &other.canonical_history,
        ) && same_opt_bytes(&self.delivery_token, &other.delivery_token) && same_opt_bytes(
            &self.subscriber_checkpoint,
            &other.subscriber_checkpoint,
        )
    }
}

/// An optional position over sequences.
pub open spec fn opt_position(value: Option<SubscriberResumePosition>) -> Option<PositionView> {
    match value {
        Some(p) => Some(p@),
        None => None,
    }
}

/// A restore that was admitted but not yet made in both sources.
#[derive(Debug, PartialEq, Eq)]
pub struct PendingRestore {
    pub position: SubscriberResumePosition,
    pub state: HybridCheckpointV5,
    pub historical_resume: Option<SubscriberResumePosition>,
    pub live_resume: Option<SubscriberResumePosition>,
    pub historical_restored: bool,
    pub live_restored: bool,
}

/// A pending restore over sequences.
pub struct RestoreView {
    pub position: PositionView,
    pub state: CheckpointView,
    pub historical_resume: Option<PositionView>,
    pub live_resume: Option<PositionView>,
    pub historical_restored: bool,
    pub live_restored: bool,
}

impl View for PendingRestore {
    type V = RestoreView;

    open spec fn view(&self) -> RestoreView {
        RestoreView {
            position: self.position@,
            state: self.state@,
            historical_resume: opt_position(self.historical_resume),
            live_resume: opt_position(self.live_resume),
            historical_restored: self.historical_restored,
            live_restored: self.live_restored,
        }
    }
}

/// A preparation for a restore that is not finished.
#[derive(Debug, PartialEq, Eq)]
pub struct PendingRestorePreparation {
    pub position: SubscriberResumePosition,
    pub intent: LifecycleIntent,
    pub base_interests: Vec<PortableInterest>,
    pub owners: Vec<OwnerInterests>,
    pub live_topology_installed: bool,
}

/// A pending preparation over sequences.
pub struct PreparationView {
    pub position: PositionView,
    pub intent: IntentView,
    pub base_interests: Seq<InterestView>,
    pub owners: Seq<OwnerInterestsView>,
    pub live_topology_installed: bool,
}

impl View for PendingRestorePreparation {
    type V = PreparationView;

    open spec fn view(&self) -> PreparationView {
        PreparationView {
            position: self.position@,
            intent: self.intent@,
            base_interests: interests_view(self.base_interests@),
            owners: owners_view(self.owners@),
            live_topology_installed: self.live_topology_installed,
        }
    }
}

/// One owner and what it was interested in before a change; nothing where it was
/// not registered.
#[derive(Debug, PartialEq, Eq)]
pub struct PreviousOwner {
    pub owner: HandlerId,
    pub previous: Option<Vec<PortableInterest>>,
}

/// Optional interests over sequences.
pub open spec fn opt_interests(value: Option<Vec<PortableInterest>>) -> Option<Seq<InterestView>> {
    match value {
        Some(v) => Some(interests_view(v@)),
        None => None,
    }
}

impl View for PreviousOwner {
    type V = (Seq<u8>, Option<Seq<InterestView>>);

    open spec fn view(&self) -> (Seq<u8>, Option<Seq<InterestView>>) {
        (self.owner@, opt_interests(self.previous))
    }
}

/// Previous owners over sequences.
pub open spec fn previous_view(s: Seq<PreviousOwner>) -> Seq<(Seq<u8>, Option<Seq<InterestView>>)> {
    Seq::new(s.len(), |i: int| s[i]@)
}

/// How to take a change back that one of the sources may already have made.
#[derive(Debug, PartialEq, Eq)]
pub enum LiveRollback {
    Base { previous: Vec<PortableInterest>, gap_anchor: Option<BlockRef> },
    Topology {
        base: Vec<PortableInterest>,
        owners: Vec<OwnerInterests>,
        recovery_anchor: Option<BlockRef>,
        gap_anchor: Option<BlockRef>,
    },
    Owner {
        owner: HandlerId,
        before: Option<Vec<PortableInterest>>,
        gap_anchor: Option<BlockRef>,
    },
    Bulk { each: Vec<PreviousOwner>, gap_anchor: Option<BlockRef> },
    Recovery { anchor: BlockRef },
}

/// A rollback over sequences.
pub enum RollbackView {
    Base { previous: Seq<InterestView>, gap_anchor: Option<BlockRef> },
    Topology {
        base: Seq<InterestView>,
        owners: Seq<OwnerInterestsView>,
        recovery_anchor: Option<BlockRef>,
        gap_anchor: Option<BlockRef>,
    },
    Owner {
        owner: Seq<u8>,
        before: Option<Seq<InterestView>>,
        gap_anchor: Option<BlockRef>,
    },
    Bulk {
        each: Seq<(Seq<u8>, Option<Seq<InterestView>>)>,
        gap_anchor: Option<BlockRef>,
    },
    Recovery { anchor: BlockRef },
}

impl View for LiveRollback {
    type V = RollbackView;

    open spec fn view(&self) -> RollbackView {
        match self {
            LiveRollback::Base { previous, gap_anchor } => RollbackView::Base {
                previous: interests_view(previous@),
                gap_anchor: *gap_anchor,
            },
            LiveRollback::Topology { base, owners, recovery_anchor, gap_anchor } =>
                RollbackView::Topology {
                base: interests_view(base@),
                owners: owners_view(owners@),
                recovery_anchor: *recovery_anchor,
                gap_anchor: *gap_anchor,
            },
            LiveRollback::Owner { owner, before, gap_anchor } => RollbackView::Owner {
                owner: owner@,
                before: opt_interests(*before),
                gap_anchor: *gap_anchor,
            },
            LiveRollback::Bulk { each, gap_anchor } => RollbackView::Bulk {
                each: previous_view(each@),
                gap_anchor: *gap_anchor,
            },
            LiveRollback::Recovery { anchor } => RollbackView::Recovery { anchor: *anchor },
        }
    }
}

impl RollbackView {
    /// The block up to which coverage was acknowledged, where a filter that was
    /// active may have missed an event.
    pub open spec fn spec_gap_anchor(self) -> Option<BlockRef> {
        match self {
            RollbackView::Base { gap_anchor, .. } => gap_anchor,
            RollbackView::Topology { gap_anchor, .. } => gap_anchor,
            RollbackView::Owner { gap_anchor, .. } => gap_anchor,
            RollbackView::Bulk { gap_anchor, .. } => gap_anchor,
            RollbackView::Recovery { .. } => None,
        }
    }

    /// What the change was about.
    pub open spec fn spec_gap_scope(self) -> &'static str {
        match self {
            RollbackView::Base { .. } => "base subscription",
            RollbackView::Topology { .. } => "owner topology",
            RollbackView::Owner { .. } => "owner subscription",
            RollbackView::Bulk { .. } => "bulk owner subscription",
            RollbackView::Recovery { .. } => "topology recovery",
        }
    }
}

impl LiveRollback {
    /// The block up to which coverage was acknowledged, where a filter that was
    /// active may have missed an event.
    pub fn gap_anchor(&self) -> (r: Option<BlockRef>)
        ensures
            r == self@.spec_gap_anchor(),
    {
        match self {
            LiveRollback::Base { gap_anchor, .. } => *gap_anchor,
            LiveRollback::Topology { gap_anchor, .. } => *gap_anchor,
            LiveRollback::Owner { gap_anchor, .. } => *gap_anchor,
            LiveRollback::Bulk { gap_anchor, .. } => *gap_anchor,
            LiveRollback::Recovery { .. } => None,
        }
    }

    /// What the change was about.
    pub fn gap_scope(&self) -> (r: &'static str)
        ensures
            r == self@.spec_gap_scope(),
    {
        match self {
            LiveRollback::Base { .. } => "base subscription",
            LiveRollback::Topology { .. } => "owner topology",
            LiveRollback::Owner { .. } => "owner subscription",
            LiveRollback::Bulk { .. } => "bulk owner subscription",
            LiveRollback::Recovery { .. } => "topology recovery",
        }
    }
}

/// The state of a coordinator, apart from its sources.
#[derive(Debug, PartialEq, Eq)]
pub struct Coordinator {
    /// What is kept across restarts.
    pub durable: HybridCheckpointV5,
    pub config: HybridConfig,
    pub phase: HybridPhase,
    /// The height that the historical source must reach before the live source
    /// takes over.
    pub fence: Option<u64>,
    /// The height up to which buffered live batches repeat what was delivered.
    pub drain_through: Option<u64>,
    pub pending_cutover: Option<PendingCutover>,
    pub acknowledged_historical_through: Option<u64>,
    pub live_buffer: Vec<BufferedBatch>,
    pub buffered_live_records: usize,
    pub buffered_live_bytes: usize,
    pub in_flight: Option<InFlight>,
    pub rollback: Option<LiveRollback>,
    /// Whether the last delivery of the historical source may come again
    /// because its acknowledgement may have been lost.
    pub replay_historical: bool,
    /// The same for the live source.
    pub replay_live: bool,
    pub recovery_anchor: Option<BlockRef>,
    pub pending_restore: Option<PendingRestore>,
    pub pending_preparation: Option<PendingRestorePreparation>,
    pub prepared_position: Option<SubscriberResumePosition>,
    pub poisoned: Option<String>,
    pub base_interests: Vec<PortableInterest>,
    pub owners: Vec<OwnerInterests>,
}

/// A coordinator over sequences.
pub struct CoordView {
    pub durable: CheckpointView,
    pub config: HybridConfig,
    pub phase: HybridPhase,
    pub fence: Option<u64>,
    pub drain_through: Option<u64>,
    pub pending_cutover: Option<CutoverView>,
    pub acknowledged_historical_through: Option<u64>,
    pub live_buffer: Seq<BufferedView>,
    pub buffered_live_records: usize,
    pub buffered_live_bytes: usize,
    pub in_flight: Option<InFlightView>,
    pub rollback: Option<RollbackView>,
    pub replay_historical: bool,
    pub replay_live: bool,
    pub recovery_anchor: Option<BlockRef>,
    pub pending_restore: Option<RestoreView>,
    pub pending_preparation: Option<PreparationView>,
    pub prepared_position: Option<PositionView>,
    pub poisoned: Option<String>,
    pub base_interests: Seq<InterestView>,
    pub owners: Seq<OwnerInterestsView>,
}

/// Buffered batches over sequences.
pub open spec fn buffer_view(s: Seq<BufferedBatch>) -> Seq<BufferedView> {
    Seq::new(s.len(), |i: int| s[i]@)
}

/// An optional cutover over sequences.
pub open spec fn opt_cutover(value: Option<PendingCutover>) -> Option<CutoverView> {
    match value {
        Some(x) => Some(x@),
        None => None,
    }
}

/// An optional delivery in flight over sequences.
pub open spec fn opt_in_flight(value: Option<InFlight>) -> Option<InFlightView> {
    match value {
        Some(x) => Some(x@),
        None => None,
    }
}

/// An optional rollback over sequences.
pub open spec fn opt_rollback(value: Option<LiveRollback>) -> Option<RollbackView> {
    match value {
        Some(x) => Some(x@),
        None => None,
    }
}

/// An optional restore over sequences.
pub open spec fn opt_restore(value: Option<PendingRestore>) -> Option<RestoreView> {
    match value {
        Some(x) => Some(x@),
        None => None,
    }
}

/// An optional preparation over sequences.
pub open spec fn opt_preparation(value: Option<PendingRestorePreparation>) -> Option<
    PreparationView,
> {
    match value {
        Some(x) => Some(x@),
        None => None,
    }
}

impl View for Coordinator {
    type V = CoordView;

    open spec fn view(&self) -> CoordView {
        CoordView {
            durable: self.durable@,
            config: self.config,
            phase: self.phase,
            fence: self.fence,
            drain_through: self.drain_through,
            pending_cutover: opt_cutover(self.pending_cutover),
            acknowledged_historical_through: self.acknowledged_historical_through,
            live_buffer: buffer_view(self.live_buffer@),
            buffered_live_records: self.buffered_live_records,
            buffered_live_bytes: self.buffered_live_bytes,
            in_flight: opt_in_flight(self.in_flight),
            rollback: opt_rollback(self.rollback),
            replay_historical: self.replay_historical,
            replay_live: self.replay_live,
            recovery_anchor: self.recovery_anchor,
            pending_restore: opt_restore(self.pending_restore),
            pending_preparation: opt_preparation(self.pending_preparation),
            prepared_position: opt_position(self.prepared_position),
            poisoned: self.poisoned,
            base_interests: interests_view(self.base_interests@),
            owners: owners_view(self.owners@),
        }
    }
}

// ---------------------------------------------------------------------------
// Refusals
// ---------------------------------------------------------------------------

/// Whether `after` is `before`, stopped for good with this reason.
pub open spec fn poisoned_by(before: CoordView, after: CoordView, reason: Seq<char>) -> bool {
    after.poisoned is Some && after.poisoned->Some_0@ == reason && after == (CoordView {
        phase: HybridPhase::Poisoned,
        poisoned: after.poisoned,
        ..before
    })
}

/// The error that a stopped coordinator earns.
pub open spec fn healthy_error(v: CoordView) -> Option<SubscriberError> {
    match v.poisoned {
        Some(reason) => Some(SubscriberError::Poisoned { reason }),
        None => None,
    }
}

/// The error that a coordinator earns in the middle of a restore.
pub open spec fn restoring_error(v: CoordView) -> Option<SubscriberError> {
    if v.pending_restore is Some {
        Some(
            SubscriberError::Provider(
                "hybrid child restore reconciliation is pending; retry the exact same restore position before any other operation",
            ),
        )
    } else if v.pending_preparation is Some {
        Some(
            SubscriberError::Provider(
                "hybrid ephemeral-live restore preparation is pending; retry that exact preparation before any other operation",
            ),
        )
    } else if v.prepared_position is Some {
        Some(
            SubscriberError::Provider(
                "hybrid ephemeral live source is prepared; restore the exact durable position before any other operation",
            ),
        )
    } else {
        None
    }
}

/// The error that a source earns for the chain that it is on.
pub open spec fn chain_error(expected: u64, source: HybridSource, observed: Option<u64>) -> Option<
    SubscriberError,
> {
    match observed {
        Some(found) => if found == expected {
            None
        } else {
            Some(SubscriberError::SourceChainChanged { source, found, expected })
        },
        None => Some(SubscriberError::SourceChainUnresolved { source, expected }),
    }
}

/// The error that a coordinator earns when its topology is to change now.
pub open spec fn reconfigure_error(v: CoordView) -> Option<SubscriberError> {
    if restoring_error(v) is Some {
        restoring_error(v)
    } else if v.pending_cutover is Some || v.in_flight is Some {
        Some(
            SubscriberError::Provider(
                "hybrid registration cannot change while a delivery is unacknowledged",
            ),
        )
    } else if v.live_buffer.len() > 0 {
        Some(
            SubscriberError::Provider(
                "hybrid registration cannot change while any buffered live delivery is pending",
            ),
        )
    } else if v.durable.lifecycle_generation > 1 && v.phase != HybridPhase::Live {
        Some(
            SubscriberError::Provider(
                "hybrid registration cannot change until the previous lifecycle revision has fully caught up and drained to Live",
            ),
        )
    } else {
        None
    }
}

/// Whether anything is subscribed.
pub open spec fn subscribed(v: CoordView) -> bool {
    v.base_interests.len() > 0 || exists|i: int|
        0 <= i < v.owners.len() && (#[trigger] v.owners[i]).1.len() > 0
}

/// Whether some owner is interested in something.
pub fn any_interests(owners: &Vec<OwnerInterests>) -> (r: bool)
    ensures
        r == exists|i: int|
            0 <= i < owners_view(owners@).len() && (#[trigger] owners_view(owners@)[i]).1.len() > 0,
{
    let ghost all = owners_view(owners@);
    let mut i: usize = 0;
    while i < owners.len()
        invariant
            i <= owners@.len(),
            all == owners_view(owners@),
            forall|j: int| 0 <= j < i ==> (#[trigger] all[j]).1.len() == 0,
        decreases owners@.len() - i,
    {
        assert(all[i as int] == owners@[i as int]@);
        if owners[i].interests.len() > 0 {
            assert(all[i as int].1.len() > 0);
            return true;
        }
        i += 1;
    }
    false
}

impl Coordinator {
    /// Whether anything is subscribed.
    pub fn has_active_interests(&self) -> (r: bool)
        ensures
            r == subscribed(self@),
    {
        self.base_interests.len() > 0 || any_interests(&self.owners)
    }

    /// Refuses a coordinator that stopped for good.
    pub fn ensure_healthy(&self) -> (r: Result<(), SubscriberError>)
        ensures
            match r {
                Ok(_) => healthy_error(self@) is None,
                Err(e) => healthy_error(self@) == Some(e),
            },
    {
        match &self.poisoned {
            Some(reason) => Err(SubscriberError::Poisoned { reason: reason.clone() }),
            None => Ok(()),
        }
    }

    /// Refuses a coordinator in the middle of a restore.
    pub fn ensure_no_pending_restore(&self) -> (r: Result<(), SubscriberError>)
        ensures
            match r {
                Ok(_) => restoring_error(self@) is None,
                Err(e) => restoring_error(self@) == Some(e),
            },
    {
        if self.pending_restore.is_some() {
            return Err(
                SubscriberError::Provider(
                    "hybrid child restore reconciliation is pending; retry the exact same restore position before any other operation",
                ),
            );
        }
        if self.pending_preparation.is_some() {
            return Err(
                SubscriberError::Provider(
                    "hybrid ephemeral-live restore preparation is pending; retry that exact preparation before any other operation",
                ),
            );
        }
        if self.prepared_position.is_some() {
            return Err(
                SubscriberError::Provider(
                    "hybrid ephemeral live source is prepared; restore the exact durable position before any other operation",
                ),
            );
        }
        Ok(())
    }

    /// Refuses a source that is on another chain, or does not know its chain.
    pub fn ensure_source_chain(&self, source: HybridSource, observed: Option<u64>) -> (r: Result<
        (),
        SubscriberError,
    >)
        ensures
            match r {
                Ok(_) => chain_error(self@.durable.chain_id, source, observed) is None,
                Err(e) => chain_error(self@.durable.chain_id, source, observed) == Some(e),
            },
    {
        let expected: u64 = self.durable.chain_id;
        match observed {
            Some(found) => if found == expected {
                Ok(())
            } else {
                Err(SubscriberError::SourceChainChanged { source, found, expected })
            },
            None => Err(SubscriberError::SourceChainUnresolved { source, expected }),
        }
    }

    /// Refuses a change of topology while a delivery is in flight, live batches
    /// are buffered, or an earlier change has not been caught up with.
    pub fn ensure_reconfigurable(&self) -> (r: Result<(), SubscriberError>)
        ensures
            match r {
                Ok(_) => reconfigure_error(self@) is None,
                Err(e) => reconfigure_error(self@) == Some(e),
            },
    {
        self.ensure_no_pending_restore()?;
        if self.pending_cutover.is_some() || self.in_flight.is_some() {
            return Err(
                SubscriberError::Provider(
                    "hybrid registration cannot change while a delivery is unacknowledged",
                ),
            );
        }
        if self.live_buffer.len() > 0 {
            return Err(
                SubscriberError::Provider(
                    "hybrid registration cannot change while any buffered live delivery is pending",
                ),
            );
        }
        if self.durable.lifecycle_generation > 1 && self.phase != HybridPhase::Live {
            return Err(
                SubscriberError::Provider(
                    "hybrid registration cannot change until the previous lifecycle revision has fully caught up and drained to Live",
                ),
            );
        }
        Ok(())
    }

    /// Stops for good with the text of an error as the reason.
    pub fn poison(&mut self, error: &SubscriberError)
        ensures
            poisoned_by(old(self)@, final(self)@, text(*error)),
    {
        self.phase = HybridPhase::Poisoned;
        self.poisoned = Some(error.message());
    }
}

} // verus!
