//! The barrier that ends a topology in which nothing is subscribed any more.
use crate::checkpoint::{
    copy_blocks, copy_opt_bytes, CheckpointView, HybridCheckpointV5, HybridSource, HybridTokenKind,
    IntentView, LifecycleIntent, SourceView,
};
use crate::codec::{encode_hybrid_checkpoint, encoded};
use crate::commit::{AudienceCommitView, CommitView, PendingCoordinatorCommit};
use crate::config::HybridConfig;
use crate::decode::MAX_CHECKPOINT_PAYLOAD_BYTES;
use crate::delivery::copy_verdict;
use crate::error::SubscriberError;
use crate::filter::{checkpoint_after, state_after};
use crate::history::CanonicalMutation;
use crate::ingress::{BatchView, BufferedView, ReactiveInputBatch};
use crate::intent::{barrier_id, empty_lifecycle_barrier_id};
use crate::owners::OwnerMap;
use crate::records::{
    controls_view, delivery_digest, routed_view, source_delivery_digest, ChainControl, ControlView,
    RoutedRecord, RoutedView,
};
use crate::state::{buffer_view, CoordView, Coordinator, HybridPhase, InFlight, InFlightView};
use crate::token::{wrap_token, wrapped};
use crate::validate::{state_error, validate_checkpoint_state, SequenceVerdict};
use crate::words::{push_word, word_bytes, B256, Epoch};
use vstd::prelude::*;

verus! {

/// The state that an empty lifecycle starts from: its tokens start afresh under
/// a new epoch, and both sources keep their cursors.
pub open spec fn idle_state(
    c: CheckpointView,
    epoch: Epoch,
    generation: u64,
    generations: Seq<(Seq<u8>, u64)>,
    intent: IntentView,
) -> CheckpointView {
    CheckpointView {
        epoch,
        next_synthetic_token: 2,
        lifecycle_generation: generation,
        owner_generations: generations,
        lifecycle_intent: intent,
        recent_inputs: Seq::empty(),
        certified_historical: None,
        last_committed_token: None,
        historical_position: SourceView { delivery_token: None, ..c.historical_position },
        live_position: SourceView { delivery_token: None, ..c.live_position },
        ..c
    }
}

/// The barrier of an idle state.
pub open spec fn barrier_control(c: CheckpointView) -> ControlView {
    ControlView::Barrier { id: barrier_id(c), block: c.coverage_head }
}

/// What acknowledging the barrier of an idle state commits: its token, and no
/// progress of any source.
pub open spec fn barrier_commit(c: CheckpointView, digest: B256) -> CommitView {
    CommitView {
        audiences: Seq::empty(),
        canonical: Seq::empty(),
        source: HybridSource::Live,
        source_token: None,
        source_checkpoint: c.live_position.checkpoint,
        source_progress: None,
        source_observed_through: None,
        token_kind: HybridTokenKind::Synthetic,
        token_bytes: word_bytes(1),
        source_delivery_digest: match c.live_position.delivery_digest {
            Some(known) => known,
            None => digest,
        },
        next_safe_head: c.safe_head,
        next_finalized_head: c.finalized_head,
        next_canonical_history: c.canonical_history,
        next_coverage_head: c.coverage_head,
    }
}

/// The idle state and its barrier as a delivery, or why there is none.
pub open spec fn barrier_built(
    c: CheckpointView,
    config: HybridConfig,
    sequence: SequenceVerdict,
) -> Result<InFlightView, SubscriberError> {
    match state_error(c, sequence) { Some(e) => Err(e), None =>
    match delivery_digest(Seq::empty(), seq![barrier_control(c)], None, None, c.chain_id) { Err(e) => Err(
        e,
    ), Ok(digest) =>
    match state_after(c, config, barrier_commit(c, digest), sequence) { Err(e) => Err(e), Ok(n) =>
    match encoded(n, sequence, MAX_CHECKPOINT_PAYLOAD_BYTES) { Err(e) => Err(e), Ok(bytes) =>
    Ok(InFlightView {
        commit: barrier_commit(c, digest),
        sequence,
        output: BatchView {
            chain_id: Some(c.chain_id),
            deliveries: Seq::empty(),
            chain_controls: seq![barrier_control(c)],
            delivery_token: Some(
                wrapped(c.epoch, HybridSource::Live, HybridTokenKind::Synthetic, word_bytes(1)),
            ),
            subscriber_checkpoint: Some(bytes),
            payload_commitment: None,
        },
    }) } } } }
}

/// An idle state and the barrier that is delivered from it.
#[derive(Debug, PartialEq, Eq)]
pub struct PreparedEmptyLifecycleBarrier {
    pub base_state: HybridCheckpointV5,
    pub held: InFlight,
}

/// An idle state and its barrier over sequences.
pub struct BarrierView {
    pub base_state: CheckpointView,
    pub held: InFlightView,
}

impl View for PreparedEmptyLifecycleBarrier {
    type V = BarrierView;

    open spec fn view(&self) -> BarrierView {
        BarrierView { base_state: self.base_state@, held: self.held@ }
    }
}

/// The idle state that follows a state, and its barrier, or why there is none.
pub open spec fn barrier_prepared(
    c: CheckpointView,
    config: HybridConfig,
    epoch: Epoch,
    generation: u64,
    generations: Seq<(Seq<u8>, u64)>,
    intent: IntentView,
    sequence: SequenceVerdict,
) -> Result<BarrierView, SubscriberError> {
    if intent.active() {
        Err(
            SubscriberError::Provider(
                "hybrid empty-lifecycle barrier was requested for an active topology",
            ),
        )
    } else {
        let base_state = idle_state(c, epoch, generation, generations, intent);
        match barrier_built(base_state, config, sequence) {
            Err(e) => Err(e),
            Ok(held) => Ok(BarrierView { base_state, held }),
        }
    }
}

fn build_barrier(state: &HybridCheckpointV5, config: &HybridConfig, sequence: &SequenceVerdict) -> (r:
    Result<InFlight, SubscriberError>)
    ensures
        match r {
            Ok(held) => barrier_built(state@, *config, *sequence) == Ok::<_, SubscriberError>(
                held@,
            ),
            Err(e) => barrier_built(state@, *config, *sequence) == Err::<InFlightView, _>(e),
        },
{
    validate_checkpoint_state(state, sequence)?;
    let control = ChainControl::Barrier {
        id: empty_lifecycle_barrier_id(state),
        block: state.coverage_head,
    };
    let mut controls: Vec<ChainControl> = Vec::new();
    controls.push(control);
    assert(controls_view(controls@) =~= seq![barrier_control(state@)]);
    let records: Vec<RoutedRecord> = Vec::new();
    assert(routed_view(records@) =~= Seq::<RoutedView>::empty());
    let digest: B256 = source_delivery_digest(&records, &controls, &None, &None, state.chain_id)?;
    let mut token_bytes: Vec<u8> = Vec::new();
    push_word(&mut token_bytes, 1);
    assert(token_bytes@ =~= word_bytes(1));
    let token: Vec<u8> = wrap_token(
        state.epoch,
        HybridSource::Live,
        HybridTokenKind::Synthetic,
        token_bytes.as_slice(),
    );
    let commit = PendingCoordinatorCommit {
        audiences: Vec::new(),
        canonical: Vec::new(),
        source: HybridSource::Live,
        source_token: None,
        source_checkpoint: copy_opt_bytes(&state.live_position.checkpoint),
        source_progress: None,
        source_observed_through: None,
        token_kind: HybridTokenKind::Synthetic,
        token_bytes,
        source_delivery_digest: match state.live_position.delivery_digest {
            Some(known) => known,
            None => digest,
        },
        next_safe_head: state.safe_head,
        next_finalized_head: state.finalized_head,
        next_canonical_history: copy_blocks(state.canonical_history.as_slice()),
        next_coverage_head: state.coverage_head,
    };
    assert(commit@.audiences =~= Seq::<AudienceCommitView>::empty());
    assert(commit@.canonical =~= Seq::<CanonicalMutation>::empty());
    assert(commit@ == barrier_commit(state@, digest));
    let next: HybridCheckpointV5 = checkpoint_after(state, config, &commit, sequence)?;
    let bytes: Vec<u8> = encode_hybrid_checkpoint(&next, sequence)?;
    let output = ReactiveInputBatch {
        chain_id: Some(state.chain_id),
        deliveries: records,
        chain_controls: controls,
        delivery_token: Some(token),
        subscriber_checkpoint: Some(bytes),
        payload_commitment: None,
    };
    Ok(InFlight { commit, sequence: copy_verdict(sequence), output })
}

/// The state of a coordinator once nothing is subscribed any more and the
/// barrier that says so waits to be acknowledged.
pub open spec fn barrier_installed(v: CoordView, b: BarrierView) -> CoordView {
    CoordView {
        durable: b.base_state,
        phase: HybridPhase::Live,
        fence: None,
        drain_through: None,
        pending_cutover: None,
        acknowledged_historical_through: None,
        live_buffer: Seq::empty(),
        buffered_live_records: 0,
        buffered_live_bytes: 0,
        in_flight: Some(b.held),
        rollback: None,
        replay_historical: false,
        replay_live: false,
        recovery_anchor: None,
        pending_preparation: None,
        prepared_position: None,
        ..v
    }
}

impl Coordinator {
    /// Makes ready the idle state that is to follow, and its barrier, without
    /// changing anything.
    pub fn prepare_empty_lifecycle_barrier(
        &self,
        epoch: Epoch,
        generation: u64,
        generations: &OwnerMap<u64>,
        intent: &LifecycleIntent,
        sequence: &SequenceVerdict,
    ) -> (r: Result<PreparedEmptyLifecycleBarrier, SubscriberError>)
        ensures
            match r {
                Ok(b) => barrier_prepared(
                    self@.durable,
                    self@.config,
                    epoch,
                    generation,
                    generations@,
                    intent@,
                    *sequence,
                ) == Ok::<_, SubscriberError>(b@),
                Err(e) => barrier_prepared(
                    self@.durable,
                    self@.config,
                    epoch,
                    generation,
                    generations@,
                    intent@,
                    *sequence,
                ) == Err::<BarrierView, _>(e),
            },
    {
        if intent.has_active_interests() {
            return Err(
                SubscriberError::Provider(
                    "hybrid empty-lifecycle barrier was requested for an active topology",
                ),
            );
        }
        let mut base_state: HybridCheckpointV5 = self.durable.duplicate();
        base_state.epoch = epoch;
        base_state.next_synthetic_token = 2;
        base_state.lifecycle_generation = generation;
        base_state.owner_generations = generations.duplicate();
        base_state.lifecycle_intent = intent.duplicate();
        base_state.recent_inputs = Vec::new();
        base_state.certified_historical = None;
        base_state.last_committed_token = None;
        base_state.historical_position.delivery_token = None;
        base_state.live_position.delivery_token = None;
        assert(base_state@.recent_inputs =~= Seq::empty());
        assert(base_state@ == idle_state(
            self@.durable,
            epoch,
            generation,
            generations@,
            intent@,
        ));
        let held: InFlight = build_barrier(&base_state, &self.config, sequence)?;
        Ok(PreparedEmptyLifecycleBarrier { base_state, held })
    }

    /// Turns to an idle state whose barrier waits to be acknowledged.
    pub fn install_empty_lifecycle_barrier(&mut self, prepared: PreparedEmptyLifecycleBarrier)
        ensures
            final(self)@ == barrier_installed(old(self)@, prepared@),
    {
        self.durable = prepared.base_state;
        self.phase = HybridPhase::Live;
        self.fence = None;
        self.drain_through = None;
        self.pending_cutover = None;
        self.acknowledged_historical_through = None;
        self.live_buffer = Vec::new();
        self.buffered_live_records = 0;
        self.buffered_live_bytes = 0;
        self.in_flight = Some(prepared.held);
        self.rollback = None;
        self.replay_historical = false;
        self.replay_live = false;
        self.recovery_anchor = None;
        self.pending_preparation = None;
        self.prepared_position = None;
        assert(buffer_view(self.live_buffer@) =~= Seq::<BufferedView>::empty());
    }
}

} // verus!
