//! The course of deliveries: what is polled next, how batches of the two
//! sources are admitted, buffered and drained, and what an acknowledgement does.
use crate::checkpoint::{
    copy_blocks, CheckpointView, HybridCheckpointV5, HybridSource, HybridTokenKind, SourcePosition,
    SourceView, TokenView,
};
use crate::commit::{CommitView, PendingCoordinatorCommit};
use crate::delivery::{built, comes_again, emitted, outgoing, quiet};
use crate::error::SubscriberError;
use crate::filter::{checkpoint_after, merges_view, state_after, MergeOutcome};
use crate::history::CanonicalMutation;
use crate::ingress::{admitted, BatchView, BufferedBatch, BufferedView, ReactiveInputBatch};
use crate::message::text;
use crate::model::{copy_bytes, same_bytes, BlockRef};
use crate::overlap::{
    batch_drained, batch_recovered, catchup_error, drain_batch, reconcile_historical_recovery,
    same_buffered_delivery, same_delivery, validate_owner_catchup_overlap,
};
use crate::plan::{planned, prepare_canonical_batch, CanonicalOutcome, CanonicalPlanError};
use crate::state::{
    buffer_view, chain_error, healthy_error, poisoned_by, restoring_error, same_opt_bytes,
    subscribed, CoordView, Coordinator, CutoverView, HybridPhase, LiveRollback, PendingCutover,
    RollbackView,
};
use crate::token::{unwrap_token, unwrapped, UnwrappedToken, UnwrappedView};
use crate::validate::SequenceVerdict;
use crate::words::Epoch;
use vstd::prelude::*;

verus! {

// ---------------------------------------------------------------------------
// What the canonical-sequence rules are asked about
// ---------------------------------------------------------------------------

/// A retained history and the heads above it.
#[derive(Debug, PartialEq, Eq)]
pub struct SequenceState {
    pub history: Vec<BlockRef>,
    pub coverage_head: Option<BlockRef>,
    pub safe_head: Option<BlockRef>,
    pub finalized_head: Option<BlockRef>,
}

/// A retained history and the heads above it, over sequences.
pub struct SequenceView {
    pub history: Seq<BlockRef>,
    pub coverage_head: Option<BlockRef>,
    pub safe_head: Option<BlockRef>,
    pub finalized_head: Option<BlockRef>,
}

impl View for SequenceState {
    type V = SequenceView;

    open spec fn view(&self) -> SequenceView {
        SequenceView {
            history: self.history@,
            coverage_head: self.coverage_head,
            safe_head: self.safe_head,
            finalized_head: self.finalized_head,
        }
    }
}

/// The history and heads of a state.
pub open spec fn sequence_of(c: CheckpointView) -> SequenceView {
    SequenceView {
        history: c.canonical_history,
        coverage_head: c.coverage_head,
        safe_head: c.safe_head,
        finalized_head: c.finalized_head,
    }
}

/// The history and heads that a planned batch of a source leads to.
pub open spec fn sequence_next(c: CheckpointView, source: HybridSource, b: BufferedView) -> SequenceView {
    if comes_again(c, source, b) {
        sequence_of(c)
    } else {
        SequenceView {
            history: b.next_canonical_history,
            coverage_head: b.next_coverage_head,
            safe_head: b.next_safe_head,
            finalized_head: b.next_finalized_head,
        }
    }
}

/// The history and heads of a state.
pub fn sequence_state(state: &HybridCheckpointV5) -> (r: SequenceState)
    ensures
        r@ == sequence_of(state@),
{
    SequenceState {
        history: copy_blocks(state.canonical_history.as_slice()),
        coverage_head: state.coverage_head,
        safe_head: state.safe_head,
        finalized_head: state.finalized_head,
    }
}

/// The history and heads that a planned batch of a source leads to.
pub fn sequence_after(state: &HybridCheckpointV5, source: HybridSource, batch: &BufferedBatch) -> (r:
    SequenceState)
    ensures
        r@ == sequence_next(state@, source, batch@),
{
    let position: &SourcePosition = match source {
        HybridSource::Historical => &state.historical_position,
        HybridSource::Live => &state.live_position,
    };
    assert(position@ == state@.position(source));
    if batch.token.is_some() && same_opt_bytes(&position.delivery_token, &batch.token) {
        sequence_state(state)
    } else {
        SequenceState {
            history: copy_blocks(batch.next_canonical_history.as_slice()),
            coverage_head: batch.next_coverage_head,
            safe_head: batch.next_safe_head,
            finalized_head: batch.next_finalized_head,
        }
    }
}

/// The state that the acknowledgement of a delivery leads to has the history
/// and heads that its planned batch led to.
pub proof fn law_acknowledged_sequence_is_planned(
    v: CoordView,
    source: HybridSource,
    b: BufferedView,
    merges: Seq<crate::filter::MergeView>,
    sequence: SequenceVerdict,
)
    ensures
        match built(v, source, b, merges, sequence) {
            Ok(Some((durable, f))) => {
                &&& state_after(durable, v.config, f.commit, sequence) is Ok
                &&& sequence_of(
                    state_after(durable, v.config, f.commit, sequence)->Ok_0,
                ) == sequence_next(v.durable, source, b)
            },
            _ => true,
        },
{
    reveal(outgoing);
}

// ---------------------------------------------------------------------------
// The next step
// ---------------------------------------------------------------------------

/// The state once a recovery that a change of topology left behind is begun.
pub open spec fn recovery_activated(v: CoordView, epoch: Epoch) -> CoordView {
    match v.rollback {
        Some(RollbackView::Recovery { anchor }) => CoordView {
            durable: renewed(CheckpointView { certified_historical: None, ..v.durable }, epoch),
            phase: HybridPhase::Recovering,
            fence: None,
            drain_through: None,
            pending_cutover: None,
            acknowledged_historical_through: None,
            live_buffer: Seq::empty(),
            buffered_live_records: 0,
            buffered_live_bytes: 0,
            in_flight: None,
            rollback: None,
            replay_historical: false,
            replay_live: false,
            recovery_anchor: Some(anchor),
            ..v
        },
        _ => v,
    }
}

/// A source whose deliveries start afresh, where it stands.
pub open spec fn cleared_source(p: SourceView) -> SourceView {
    SourceView { delivery_token: None, checkpoint: None, delivery_digest: None, ..p }
}

/// A state whose tokens start afresh, under a new epoch.
pub open spec fn renewed(c: CheckpointView, epoch: Epoch) -> CheckpointView {
    CheckpointView {
        epoch,
        next_synthetic_token: 1,
        historical_position: cleared_source(c.historical_position),
        live_position: cleared_source(c.live_position),
        last_committed_token: None,
        ..c
    }
}

fn clear_source(position: &mut SourcePosition)
    ensures
        final(position)@ == cleared_source(old(position)@),
{
    position.delivery_token = None;
    position.checkpoint = None;
    position.delivery_digest = None;
}

/// Starts the tokens of a state afresh, under a new epoch.
pub fn renew_tokens(state: &mut HybridCheckpointV5, epoch: Epoch)
    ensures
        final(state)@ == renewed(old(state)@, epoch),
{
    state.epoch = epoch;
    state.next_synthetic_token = 1;
    clear_source(&mut state.historical_position);
    clear_source(&mut state.live_position);
    state.last_committed_token = None;
}

/// What a caller that wants the next delivery has to do.
#[derive(Debug, PartialEq, Eq)]
pub enum NextStep {
    /// Tell a source again that its last delivery was committed.
    Acknowledge { source: HybridSource, token: Vec<u8> },
    /// Hand out the delivery that waits to be acknowledged.
    Deliver(ReactiveInputBatch),
    /// Nothing is subscribed: there will be no delivery.
    Idle,
    /// Take a batch out of the live buffer.
    DrainLive,
    /// Poll the live source.
    PollLive,
    /// Poll the historical source alone.
    PollHistorical,
    /// Poll both sources.
    PollBoth,
}

/// A next step over sequences.
pub enum StepView {
    Acknowledge { source: HybridSource, token: Seq<u8> },
    Deliver(BatchView),
    Idle,
    DrainLive,
    PollLive,
    PollHistorical,
    PollBoth,
}

impl View for NextStep {
    type V = StepView;

    open spec fn view(&self) -> StepView {
        match self {
            NextStep::Acknowledge { source, token } => StepView::Acknowledge {
                source: *source,
                token: token@,
            },
            NextStep::Deliver(batch) => StepView::Deliver(batch@),
            NextStep::Idle => StepView::Idle,
            NextStep::DrainLive => StepView::DrainLive,
            NextStep::PollLive => StepView::PollLive,
            NextStep::PollHistorical => StepView::PollHistorical,
            NextStep::PollBoth => StepView::PollBoth,
        }
    }
}

/// The acknowledgement that a restored source is owed first; none where none
/// is.
pub open spec fn owed_acknowledgement(v: CoordView) -> Option<HybridSource> {
    if v.replay_historical {
        Some(HybridSource::Historical)
    } else if v.replay_live {
        Some(HybridSource::Live)
    } else {
        None
    }
}

/// Whether a buffered live batch waits to be acknowledged to its source.
pub open spec fn holds_token(buffer: Seq<BufferedView>) -> bool {
    exists|i: int| 0 <= i < buffer.len() && (#[trigger] buffer[i]).token is Some
}

/// The next step, with the state that it is taken from, or why there is none.
/// Live batches that wait to be acknowledged are not asked for again: the
/// historical source is polled alone until they can be delivered.
pub open spec fn next(v: CoordView, epoch: Epoch) -> Result<(CoordView, StepView), SubscriberError> {
    if healthy_error(v) is Some {
        Err(healthy_error(v)->Some_0)
    } else if restoring_error(v) is Some {
        Err(restoring_error(v)->Some_0)
    } else if owed_acknowledgement(v) is Some {
        let source = owed_acknowledgement(v)->Some_0;
        match v.durable.position(source).delivery_token {
            Some(token) => Ok((v, StepView::Acknowledge { source, token })),
            None => Err(SubscriberError::MissingReplayToken { source }),
        }
    } else {
        let n = recovery_activated(v, epoch);
        if n.rollback is Some {
            Err(
                SubscriberError::Provider(
                    "hybrid lifecycle reconciliation is pending; retry the cancelled lifecycle operation before delivery",
                ),
            )
        } else if n.in_flight is Some {
            Ok((n, StepView::Deliver(n.in_flight->Some_0.output)))
        } else if !subscribed(n) {
            Ok((n, StepView::Idle))
        } else {
            Ok(
                (
                    n,
                    match n.phase {
                        HybridPhase::DrainingLive => StepView::DrainLive,
                        HybridPhase::Live => StepView::PollLive,
                        _ => if holds_token(n.live_buffer) {
                            StepView::PollHistorical
                        } else {
                            StepView::PollBoth
                        },
                    },
                ),
            )
        }
    }
}

/// A coordinator in the last phase knows why.
pub open spec fn poison_explained(v: CoordView) -> bool {
    v.phase == HybridPhase::Poisoned ==> v.poisoned is Some
}

fn any_token(buffer: &Vec<BufferedBatch>) -> (r: bool)
    ensures
        r == holds_token(buffer_view(buffer@)),
{
    let ghost all = buffer_view(buffer@);
    let mut i: usize = 0;
    while i < buffer.len()
        invariant
            i <= buffer@.len(),
            all == buffer_view(buffer@),
            forall|j: int| 0 <= j < i ==> (#[trigger] all[j]).token is None,
        decreases buffer@.len() - i,
    {
        assert(all[i as int] == buffer@[i as int]@);
        if buffer[i].token.is_some() {
            return true;
        }
        i += 1;
    }
    false
}

impl Coordinator {
    /// Begins the recovery that a change of topology left behind, if one did:
    /// both sources start afresh, and the historical one fills the gap above
    /// the anchor.
    pub fn activate_lifecycle_recovery(&mut self, epoch: Epoch)
        ensures
            final(self)@ == recovery_activated(old(self)@, epoch),
    {
        let anchor: BlockRef = match &self.rollback {
            Some(LiveRollback::Recovery { anchor }) => *anchor,
            _ => {
                return;
            },
        };
        self.rollback = None;
        self.phase = HybridPhase::Recovering;
        self.recovery_anchor = Some(anchor);
        self.fence = None;
        self.drain_through = None;
        self.pending_cutover = None;
        self.acknowledged_historical_through = None;
        self.durable.certified_historical = None;
        self.live_buffer = Vec::new();
        self.buffered_live_records = 0;
        self.buffered_live_bytes = 0;
        renew_tokens(&mut self.durable, epoch);
        self.in_flight = None;
        self.replay_historical = false;
        self.replay_live = false;
        assert(buffer_view(self.live_buffer@) =~= Seq::<BufferedView>::empty());
    }

    /// Says what to do next for a delivery. `epoch` names the tokens from here
    /// on where a recovery begins, and is not used otherwise.
    pub fn next_step(&mut self, epoch: Epoch) -> (r: Result<NextStep, SubscriberError>)
        requires
            poison_explained(old(self)@),
        ensures
            match r {
                Ok(step) => next(old(self)@, epoch) == Ok::<_, SubscriberError>(
                    (final(self)@, step@),
                ),
                Err(e) => next(old(self)@, epoch) == Err::<(CoordView, StepView), _>(e)
                    && final(self)@ == old(self)@,
            },
    {
        self.ensure_healthy()?;
        self.ensure_no_pending_restore()?;
        if self.replay_historical || self.replay_live {
            let source: HybridSource = if self.replay_historical {
                HybridSource::Historical
            } else {
                HybridSource::Live
            };
            let position: &SourcePosition = match source {
                HybridSource::Historical => &self.durable.historical_position,
                HybridSource::Live => &self.durable.live_position,
            };
            return match &position.delivery_token {
                Some(token) => Ok(
                    NextStep::Acknowledge { source, token: copy_bytes(token.as_slice()) },
                ),
                None => Err(SubscriberError::MissingReplayToken { source }),
            };
        }
        self.activate_lifecycle_recovery(epoch);
        if self.rollback.is_some() {
            return Err(
                SubscriberError::Provider(
                    "hybrid lifecycle reconciliation is pending; retry the cancelled lifecycle operation before delivery",
                ),
            );
        }
        if let Some(held) = &self.in_flight {
            return Ok(NextStep::Deliver(held.output.duplicate()));
        }
        if !self.has_active_interests() {
            return Ok(NextStep::Idle);
        }
        match self.phase {
            HybridPhase::DrainingLive => Ok(NextStep::DrainLive),
            HybridPhase::Live => Ok(NextStep::PollLive),
            _ => if any_token(&self.live_buffer) {
                Ok(NextStep::PollHistorical)
            } else {
                Ok(NextStep::PollBoth)
            },
        }
    }

    /// Notes that a restored source was told again that its last delivery was
    /// committed.
    pub fn replay_acknowledged(&mut self, source: HybridSource)
        ensures
            final(self)@ == quiet(old(self)@, source),
    {
        match source {
            HybridSource::Historical => {
                self.replay_historical = false;
            },
            HybridSource::Live => {
                self.replay_live = false;
            },
        }
    }
}

// ---------------------------------------------------------------------------
// Lost sources
// ---------------------------------------------------------------------------

/// The state once the live source is lost: the historical source takes over
/// from what is covered.
pub open spec fn live_lost(v: CoordView) -> CoordView {
    CoordView {
        phase: HybridPhase::Recovering,
        recovery_anchor: v.durable.coverage_head,
        ..v
    }
}

impl Coordinator {
    /// Turns to the historical source because the live source failed.
    pub fn live_source_failed(&mut self)
        ensures
            final(self)@ == live_lost(old(self)@),
    {
        self.phase = HybridPhase::Recovering;
        self.recovery_anchor = self.durable.coverage_head;
    }

    /// Turns to the historical source because the live source ended, and gives
    /// the error to report.
    pub fn live_source_ended(&mut self) -> (r: SubscriberError)
        ensures
            final(self)@ == live_lost(old(self)@),
            r == (if old(self)@.phase == HybridPhase::Live {
                SubscriberError::Provider("hybrid live source ended; entering historical recovery")
            } else {
                SubscriberError::Provider("hybrid live source ended during catch-up/recovery")
            }),
    {
        let was_live: bool = self.phase == HybridPhase::Live;
        self.live_source_failed();
        if was_live {
            SubscriberError::Provider("hybrid live source ended; entering historical recovery")
        } else {
            SubscriberError::Provider("hybrid live source ended during catch-up/recovery")
        }
    }

    /// The error to report when the historical source ends.
    pub fn historical_source_ended(&self) -> (r: SubscriberError)
        ensures
            r == SubscriberError::Provider(
                "hybrid historical source ended without an acknowledged coverage proof for the live fence",
            ),
    {
        SubscriberError::Provider(
            "hybrid historical source ended without an acknowledged coverage proof for the live fence",
        )
    }
}

// ---------------------------------------------------------------------------
// Cutover
// ---------------------------------------------------------------------------

/// The state once it is seen whether an acknowledged historical delivery
/// already reached the fence: if so, the live buffer is drained.
pub open spec fn cut_over(v: CoordView) -> CoordView {
    if v.fence is Some && v.acknowledged_historical_through is Some
        && v.acknowledged_historical_through->Some_0 >= v.fence->Some_0 && v.pending_cutover is None
        && (v.phase == HybridPhase::CatchingUp || v.phase == HybridPhase::Recovering) {
        CoordView {
            phase: HybridPhase::DrainingLive,
            drain_through: v.acknowledged_historical_through,
            recovery_anchor: None,
            acknowledged_historical_through: None,
            ..v
        }
    } else {
        v
    }
}

impl Coordinator {
    /// Starts to drain the live buffer where an acknowledged historical
    /// delivery already reached the fence.
    pub fn finish_acknowledged_cutover_if_ready(&mut self)
        ensures
            final(self)@ == cut_over(old(self)@),
    {
        let reached: Option<u64> = match (self.fence, self.acknowledged_historical_through) {
            (Some(fence), Some(through)) if through >= fence => Some(through),
            _ => None,
        };
        let waiting: bool = self.phase == HybridPhase::CatchingUp || self.phase
            == HybridPhase::Recovering;
        if let Some(through) = reached {
            if self.pending_cutover.is_none() && waiting {
                self.phase = HybridPhase::DrainingLive;
                self.drain_through = Some(through);
                self.recovery_anchor = None;
                self.acknowledged_historical_through = None;
            }
        }
    }
}

// ---------------------------------------------------------------------------
// Live batches while the historical source catches up
// ---------------------------------------------------------------------------

/// A batch of the live source as it is admitted.
pub open spec fn live_admitted(v: CoordView, batch: BatchView, observed: Option<u64>) -> Result<
    BufferedView,
    SubscriberError,
> {
    match chain_error(v.durable.chain_id, HybridSource::Live, observed) {
        Some(e) => Err(e),
        None => match admitted(
            batch,
            v.durable.chain_id,
            v.config.spec_ingress(),
            v.durable.owner_generations,
        ) {
            Err(e) => Err(e),
            Ok(b) => match catchup_error(v.durable, b.records, 0) {
                Some(e) => Err(e),
                None => Ok(b),
            },
        },
    }
}

/// The index of the first buffered batch, from `from` on, with this token; the
/// length where there is none.
pub open spec fn token_index(buffer: Seq<BufferedView>, token: Seq<u8>, from: int) -> int
    decreases buffer.len() - from,
{
    if from < 0 || from >= buffer.len() {
        buffer.len() as int
    } else if buffer[from].token == Some(token) {
        from
    } else {
        token_index(buffer, token, from + 1)
    }
}

/// A sum that stops at the largest number.
pub open spec fn saturated(a: usize, b: usize) -> usize {
    if a + b > usize::MAX {
        usize::MAX
    } else {
        (a + b) as usize
    }
}

/// The height below this one; zero has none below.
pub open spec fn below(n: u64) -> u64 {
    if n == 0 {
        0
    } else {
        (n - 1) as u64
    }
}

/// The state once one more live batch is in the buffer. The first height seen
/// sets the fence, one below it.
pub open spec fn with_buffered(v: CoordView, b: BufferedView) -> CoordView {
    cut_over(
        CoordView {
            fence: if v.fence is None && b.max_canonical_block is Some {
                Some(below(b.max_canonical_block->Some_0))
            } else {
                v.fence
            },
            buffered_live_records: saturated(v.buffered_live_records, b.records.len() as usize),
            buffered_live_bytes: saturated(v.buffered_live_bytes, b.accounted_bytes),
            live_buffer: v.live_buffer.push(b),
            ..v
        },
    )
}

/// The state once an admitted live batch is buffered, or why it cannot be. A
/// batch that is in the buffer already is not buffered twice.
pub open spec fn buffer_judged(v: CoordView, b: BufferedView) -> Result<CoordView, SubscriberError> {
    let at = token_index(v.live_buffer, b.token->Some_0, 0);
    let records = saturated(v.buffered_live_records, b.records.len() as usize);
    let bytes = saturated(v.buffered_live_bytes, b.accounted_bytes);
    if b.token is Some && b.max_canonical_block is None {
        Err(
            SubscriberError::Unsupported(
                "hybrid cannot buffer a tokened live delivery without canonical coverage; a durable live child must co-sequence finality and cursor-only controls with an acknowledgeable canonical batch",
            ),
        )
    } else if b.token is Some && at < v.live_buffer.len() {
        if same_delivery(v.live_buffer[at], b) {
            Ok(v)
        } else {
            Err(
                SubscriberError::Provider(
                    "hybrid live source reused one delivery token for different data",
                ),
            )
        }
    } else if v.live_buffer.len() >= v.config.max_buffered_live_batches || records
        > v.config.max_buffered_live_records || bytes > v.config.max_buffered_live_bytes {
        Err(
            SubscriberError::LiveBufferExceeded {
                batches: saturated(v.live_buffer.len() as usize, 1),
                max_batches: v.config.max_buffered_live_batches,
                records,
                max_records: v.config.max_buffered_live_records,
                bytes,
                max_bytes: v.config.max_buffered_live_bytes,
            },
        )
    } else {
        Ok(with_buffered(v, b))
    }
}

/// The state once a live batch is admitted and buffered, or why it cannot be.
pub open spec fn live_buffered(v: CoordView, batch: BatchView, observed: Option<u64>) -> Result<
    CoordView,
    SubscriberError,
> {
    match live_admitted(v, batch, observed) {
        Err(e) => Err(e),
        Ok(b) => buffer_judged(v, b),
    }
}

fn find_token(buffer: &Vec<BufferedBatch>, token: &Vec<u8>) -> (r: usize)
    ensures
        r == token_index(buffer_view(buffer@), token@, 0),
        r <= buffer@.len(),
{
    let ghost all = buffer_view(buffer@);
    let mut i: usize = 0;
    while i < buffer.len()
        invariant
            i <= buffer@.len(),
            all == buffer_view(buffer@),
            token_index(all, token@, 0) == token_index(all, token@, i as int),
        decreases buffer@.len() - i,
    {
        assert(all[i as int] == buffer@[i as int]@);
        if let Some(found) = &buffer[i].token {
            if same_bytes(found.as_slice(), token.as_slice()) {
                return i;
            }
        }
        i += 1;
    }
    i
}

fn admit_live_batch(core: &Coordinator, batch: ReactiveInputBatch, observed: Option<u64>) -> (r: Result<
    BufferedBatch,
    SubscriberError,
>)
    ensures
        match r {
            Ok(b) => live_admitted(core@, batch@, observed) == Ok::<_, SubscriberError>(b@),
            Err(e) => live_admitted(core@, batch@, observed) == Err::<BufferedView, _>(e),
        },
{
    core.ensure_source_chain(HybridSource::Live, observed)?;
    let admitted_batch: BufferedBatch = BufferedBatch::from_batch(
        batch,
        core.durable.chain_id,
        core.config.ingress(),
        &core.durable.owner_generations,
    )?;
    validate_owner_catchup_overlap(&core.durable, &admitted_batch)?;
    Ok(admitted_batch)
}

/// The batch to put in the buffer; none where it is there already.
fn judge_live(core: &Coordinator, batch: ReactiveInputBatch, observed: Option<u64>) -> (r: Result<
    Option<BufferedBatch>,
    SubscriberError,
>)
    ensures
        match r {
            Err(e) => live_buffered(core@, batch@, observed) == Err::<CoordView, _>(e),
            Ok(None) => live_buffered(core@, batch@, observed) == Ok::<_, SubscriberError>(core@),
            Ok(Some(b)) => live_buffered(core@, batch@, observed) == Ok::<_, SubscriberError>(
                with_buffered(core@, b@),
            ),
        },
{
    let b: BufferedBatch = admit_live_batch(core, batch, observed)?;
    let ghost v = core@;
    assert(v.live_buffer.len() == core.live_buffer@.len());
    assert(b@.records.len() == b.records@.len());
    if let Some(token) = &b.token {
        if b.max_canonical_block.is_none() {
            return Err(
                SubscriberError::Unsupported(
                    "hybrid cannot buffer a tokened live delivery without canonical coverage; a durable live child must co-sequence finality and cursor-only controls with an acknowledgeable canonical batch",
                ),
            );
        }
        let at: usize = find_token(&core.live_buffer, token);
        if at < core.live_buffer.len() {
            assert(v.live_buffer[at as int] == core.live_buffer@[at as int]@);
            if same_buffered_delivery(&core.live_buffer[at], &b) {
                return Ok(None);
            }
            return Err(
                SubscriberError::Provider(
                    "hybrid live source reused one delivery token for different data",
                ),
            );
        }
    }
    let records: usize = core.buffered_live_records.saturating_add(b.records.len());
    let bytes: usize = core.buffered_live_bytes.saturating_add(b.accounted_bytes);
    if core.live_buffer.len() >= core.config.max_buffered_live_batches || records
        > core.config.max_buffered_live_records || bytes > core.config.max_buffered_live_bytes {
        return Err(
            SubscriberError::LiveBufferExceeded {
                batches: core.live_buffer.len().saturating_add(1),
                max_batches: core.config.max_buffered_live_batches,
                records,
                max_records: core.config.max_buffered_live_records,
                bytes,
                max_bytes: core.config.max_buffered_live_bytes,
            },
        );
    }
    Ok(Some(b))
}

impl Coordinator {
    /// Puts a live batch in the buffer. `observed` is the chain that the live
    /// source is on now. A batch that cannot be buffered stops the coordinator
    /// for good.
    pub fn buffer_live(&mut self, batch: ReactiveInputBatch, observed: Option<u64>) -> (r: Result<
        (),
        SubscriberError,
    >)
        ensures
            match r {
                Ok(_) => live_buffered(old(self)@, batch@, observed) == Ok::<_, SubscriberError>(
                    final(self)@,
                ),
                Err(e) => live_buffered(old(self)@, batch@, observed) == Err::<CoordView, _>(e)
                    && poisoned_by(old(self)@, final(self)@, text(e)),
            },
    {
        match judge_live(self, batch, observed) {
            Err(e) => {
                self.poison(&e);
                Err(e)
            },
            Ok(None) => Ok(()),
            Ok(Some(b)) => {
                assert(b@.records.len() == b.records@.len());
                if self.fence.is_none() {
                    if let Some(head) = b.max_canonical_block {
                        self.fence = Some(head.saturating_sub(1));
                    }
                }
                self.buffered_live_records = self.buffered_live_records.saturating_add(
                    b.records.len(),
                );
                self.buffered_live_bytes = self.buffered_live_bytes.saturating_add(
                    b.accounted_bytes,
                );
                let ghost last = b@;
                let ghost before = self.live_buffer@;
                self.live_buffer.push(b);
                assert(buffer_view(self.live_buffer@) =~= buffer_view(before).push(last));
                self.finish_acknowledged_cutover_if_ready();
                Ok(())
            },
        }
    }
}

// ---------------------------------------------------------------------------
// Batches of the historical source
// ---------------------------------------------------------------------------

/// A batch of the historical source as it is admitted, without what was
/// delivered before the gap that it fills, and where the gap then begins.
pub open spec fn historical_admitted(v: CoordView, batch: BatchView, observed: Option<u64>) -> Result<
    (Option<BlockRef>, BufferedView),
    SubscriberError,
> {
    match chain_error(v.durable.chain_id, HybridSource::Historical, observed) {
        Some(e) => Err(e),
        None => match admitted(
            batch,
            v.durable.chain_id,
            v.config.spec_ingress(),
            v.durable.owner_generations,
        ) {
            Err(e) => Err(e),
            Ok(b) => match catchup_error(v.durable, b.records, 0) {
                Some(e) => Err(e),
                None => batch_recovered(v.durable, v.recovery_anchor, b),
            },
        },
    }
}

fn admit_historical_batch(core: &Coordinator, batch: ReactiveInputBatch, observed: Option<u64>) -> (r: Result<
    (Option<BlockRef>, BufferedBatch),
    SubscriberError,
>)
    ensures
        match r {
            Ok((anchor, b)) => historical_admitted(core@, batch@, observed) == Ok::<
                _,
                SubscriberError,
            >((anchor, b@)),
            Err(e) => historical_admitted(core@, batch@, observed) == Err::<
                (Option<BlockRef>, BufferedView),
                _,
            >(e),
        },
{
    core.ensure_source_chain(HybridSource::Historical, observed)?;
    let b: BufferedBatch = BufferedBatch::from_batch(
        batch,
        core.durable.chain_id,
        core.config.ingress(),
        &core.durable.owner_generations,
    )?;
    validate_owner_catchup_overlap(&core.durable, &b)?;
    reconcile_historical_recovery(&core.durable, core.recovery_anchor, b)
}

/// The state once a planned historical batch is seen to reach the fence: the
/// catch-up ends with its acknowledgement.
pub open spec fn cutover_awaited(v: CoordView, b: BufferedView) -> CoordView {
    if v.pending_cutover is None && v.fence is Some && b.max_canonical_block is Some
        && b.max_canonical_block->Some_0 >= v.fence->Some_0 {
        CoordView {
            pending_cutover: Some(
                CutoverView {
                    historical_token: b.token->Some_0,
                    through: b.max_canonical_block->Some_0,
                },
            ),
            ..v
        }
    } else {
        v
    }
}

impl Coordinator {
    /// Admits a batch of the historical source. `observed` is the chain that the
    /// source is on now. A batch that is refused stops the coordinator for good.
    pub fn admit_historical(&mut self, batch: ReactiveInputBatch, observed: Option<u64>) -> (r: Result<
        BufferedBatch,
        SubscriberError,
    >)
        ensures
            match r {
                Ok(b) => {
                    &&& historical_admitted(old(self)@, batch@, observed) == Ok::<
                        _,
                        SubscriberError,
                    >((final(self)@.recovery_anchor, b@))
                    &&& final(self)@ == (CoordView {
                        recovery_anchor: final(self)@.recovery_anchor,
                        ..old(self)@
                    })
                },
                Err(e) => historical_admitted(old(self)@, batch@, observed) == Err::<
                    (Option<BlockRef>, BufferedView),
                    _,
                >(e) && poisoned_by(old(self)@, final(self)@, text(e)),
            },
    {
        match admit_historical_batch(self, batch, observed) {
            Err(e) => {
                self.poison(&e);
                Err(e)
            },
            Ok((anchor, b)) => {
                self.recovery_anchor = anchor;
                Ok(b)
            },
        }
    }

    /// Takes over what the canonical-sequence rules made of an admitted batch of
    /// the historical source. Where it has no place in the canonical chain, the
    /// coordinator stops for good.
    pub fn plan_historical(&mut self, batch: BufferedBatch, outcome: CanonicalOutcome) -> (r: Result<
        BufferedBatch,
        SubscriberError,
    >)
        ensures
            match planned(
                batch@,
                outcome@,
                old(self)@.config.canonical_history_capacity as nat,
            ) {
                Ok(b) => r is Ok && r->Ok_0@ == b && final(self)@ == old(self)@,
                Err(e) => r == Err::<BufferedBatch, _>(e.cause()) && poisoned_by(
                    old(self)@,
                    final(self)@,
                    text(e.cause()),
                ),
            },
    {
        match prepare_canonical_batch(batch, outcome, self.config.canonical_history_capacity) {
            Ok(b) => Ok(b),
            Err(e) => {
                let e: SubscriberError = e.into_subscriber_error();
                self.poison(&e);
                Err(e)
            },
        }
    }

    /// Hands out what is owed of a planned batch of the historical source. A
    /// batch without a token is refused and changes nothing.
    pub fn emit_historical(
        &mut self,
        batch: &BufferedBatch,
        merges: &Vec<MergeOutcome>,
        sequence: &SequenceVerdict,
    ) -> (r: Result<Option<ReactiveInputBatch>, SubscriberError>)
        requires
            merges@.len() == batch.records@.len(),
        ensures
            if batch@.token is None {
                r == Err::<Option<ReactiveInputBatch>, _>(
                    SubscriberError::Provider(
                        "hybrid durable historical delivery is missing its acknowledgement token",
                    ),
                ) && final(self)@ == old(self)@
            } else {
                emitted(
                    cutover_awaited(old(self)@, batch@),
                    final(self)@,
                    HybridSource::Historical,
                    built(
                        cutover_awaited(old(self)@, batch@),
                        HybridSource::Historical,
                        batch@,
                        merges_view(merges@),
                        *sequence,
                    ),
                    r,
                )
            },
    {
        let token: Vec<u8> = match &batch.token {
            Some(token) => copy_bytes(token.as_slice()),
            None => {
                return Err(
                    SubscriberError::Provider(
                        "hybrid durable historical delivery is missing its acknowledgement token",
                    ),
                );
            },
        };
        if self.pending_cutover.is_none() {
            if let (Some(fence), Some(observed)) = (self.fence, batch.max_canonical_block) {
                if observed >= fence {
                    self.pending_cutover = Some(
                        PendingCutover { historical_token: token, through: observed },
                    );
                }
            }
        }
        self.build_output(HybridSource::Historical, batch, merges, sequence)
    }
}

// ---------------------------------------------------------------------------
// Batches of the live source once it delivers
// ---------------------------------------------------------------------------

impl Coordinator {
    /// Admits a batch of the live source. `observed` is the chain that the
    /// source is on now. A batch that is refused stops the coordinator for good.
    pub fn admit_live(&mut self, batch: ReactiveInputBatch, observed: Option<u64>) -> (r: Result<
        BufferedBatch,
        SubscriberError,
    >)
        ensures
            match r {
                Ok(b) => live_admitted(old(self)@, batch@, observed) == Ok::<_, SubscriberError>(b@)
                    && final(self)@ == old(self)@,
                Err(e) => live_admitted(old(self)@, batch@, observed) == Err::<BufferedView, _>(e)
                    && poisoned_by(old(self)@, final(self)@, text(e)),
            },
    {
        match admit_live_batch(self, batch, observed) {
            Err(e) => {
                self.poison(&e);
                Err(e)
            },
            Ok(b) => Ok(b),
        }
    }

    /// Takes over what the canonical-sequence rules made of a batch of the live
    /// source. Where only the historical source can explain it, that source
    /// takes over; where it is wrong, the coordinator stops for good.
    pub fn plan_live(&mut self, batch: BufferedBatch, outcome: CanonicalOutcome) -> (r: Result<
        BufferedBatch,
        SubscriberError,
    >)
        ensures
            match planned(
                batch@,
                outcome@,
                old(self)@.config.canonical_history_capacity as nat,
            ) {
                Ok(b) => r is Ok && r->Ok_0@ == b && final(self)@ == old(self)@,
                Err(CanonicalPlanError::NeedsHistoricalRecovery(e)) => r == Err::<
                    BufferedBatch,
                    _,
                >(e) && final(self)@ == live_lost(old(self)@),
                Err(CanonicalPlanError::Invalid(e)) => r == Err::<BufferedBatch, _>(e)
                    && poisoned_by(old(self)@, final(self)@, text(e)),
            },
    {
        match prepare_canonical_batch(batch, outcome, self.config.canonical_history_capacity) {
            Ok(b) => Ok(b),
            Err(CanonicalPlanError::NeedsHistoricalRecovery(e)) => {
                self.live_source_failed();
                Err(e)
            },
            Err(CanonicalPlanError::Invalid(e)) => {
                self.poison(&e);
                Err(e)
            },
        }
    }

    /// Hands out what is owed of a planned batch of the live source.
    pub fn emit_live(
        &mut self,
        batch: &BufferedBatch,
        merges: &Vec<MergeOutcome>,
        sequence: &SequenceVerdict,
    ) -> (r: Result<Option<ReactiveInputBatch>, SubscriberError>)
        requires
            merges@.len() == batch.records@.len(),
        ensures
            emitted(
                old(self)@,
                final(self)@,
                HybridSource::Live,
                built(old(self)@, HybridSource::Live, batch@, merges_view(merges@), *sequence),
                r,
            ),
    {
        self.build_output(HybridSource::Live, batch, merges, sequence)
    }
}

// ---------------------------------------------------------------------------
// Draining
// ---------------------------------------------------------------------------

/// A difference that stops at zero.
pub open spec fn lessened(a: usize, b: nat) -> usize {
    if b > a {
        0
    } else {
        (a - b) as usize
    }
}

/// The state once the oldest live batch is out of the buffer.
pub open spec fn without_oldest(v: CoordView) -> CoordView {
    CoordView {
        live_buffer: v.live_buffer.skip(1),
        buffered_live_records: lessened(v.buffered_live_records, v.live_buffer[0].records.len()),
        buffered_live_bytes: lessened(
            v.buffered_live_bytes,
            v.live_buffer[0].accounted_bytes as nat,
        ),
        ..v
    }
}

/// The state in which the live source delivers.
pub open spec fn gone_live(v: CoordView) -> CoordView {
    CoordView {
        phase: HybridPhase::Live,
        fence: None,
        drain_through: None,
        acknowledged_historical_through: None,
        ..v
    }
}

impl Coordinator {
    /// Takes the oldest live batch out of the buffer, without what was delivered
    /// before; with an empty buffer the live source delivers from here on. A
    /// batch that contradicts what was delivered stops the coordinator for good.
    pub fn next_buffered_live(&mut self) -> (r: Result<Option<BufferedBatch>, SubscriberError>)
        ensures
            if old(self)@.live_buffer.len() == 0 {
                r == Ok::<Option<BufferedBatch>, SubscriberError>(None) && final(self)@
                    == gone_live(old(self)@)
            } else {
                match batch_drained(
                    old(self)@.durable,
                    old(self)@.drain_through,
                    old(self)@.live_buffer[0],
                ) {
                    Ok(b) => r is Ok && r->Ok_0 is Some && r->Ok_0->Some_0@ == b && final(self)@
                        == without_oldest(old(self)@),
                    Err(e) => r == Err::<Option<BufferedBatch>, _>(e) && poisoned_by(
                        without_oldest(old(self)@),
                        final(self)@,
                        text(e),
                    ),
                }
            },
    {
        let ghost v = self@;
        assert(v.live_buffer.len() == self.live_buffer@.len());
        if self.live_buffer.len() == 0 {
            self.phase = HybridPhase::Live;
            self.fence = None;
            self.drain_through = None;
            self.acknowledged_historical_through = None;
            return Ok(None);
        }
        let ghost before = self.live_buffer@;
        let batch: BufferedBatch = self.live_buffer.remove(0);
        assert(batch@ == v.live_buffer[0]);
        assert(buffer_view(self.live_buffer@) =~= v.live_buffer.skip(1)) by {
            assert forall|i: int| 0 <= i < self.live_buffer@.len() implies buffer_view(
                self.live_buffer@,
            )[i] == v.live_buffer.skip(1)[i] by {
                assert(self.live_buffer@[i] == before[i + 1]);
            }
        }
        assert(batch@.records.len() == batch.records@.len());
        self.buffered_live_records = self.buffered_live_records.saturating_sub(batch.records.len());
        self.buffered_live_bytes = self.buffered_live_bytes.saturating_sub(batch.accounted_bytes);
        assert(self@ == without_oldest(v));
        match drain_batch(&self.durable, self.drain_through, batch) {
            Ok(b) => Ok(Some(b)),
            Err(e) => {
                self.poison(&e);
                Err(e)
            },
        }
    }
}

// ---------------------------------------------------------------------------
// Acknowledgements
// ---------------------------------------------------------------------------

/// What an acknowledgement asks for.
#[derive(Debug, PartialEq, Eq)]
pub enum AckStep {
    /// The delivery was committed before: there is nothing to do.
    Done,
    /// Commit the delivery.
    Commit,
    /// Tell its source, then commit the delivery.
    Forward { source: HybridSource, token: Vec<u8> },
}

/// What an acknowledgement asks for, over sequences.
pub enum AckView {
    Done,
    Commit,
    Forward { source: HybridSource, token: Seq<u8> },
}

impl View for AckStep {
    type V = AckView;

    open spec fn view(&self) -> AckView {
        match self {
            AckStep::Done => AckView::Done,
            AckStep::Commit => AckView::Commit,
            AckStep::Forward { source, token } => AckView::Forward {
                source: *source,
                token: token@,
            },
        }
    }
}

/// Whether a token is that of a commit.
pub open spec fn names_commit(p: UnwrappedView, commit: CommitView) -> bool {
    p.source == commit.source && p.kind == commit.token_kind && p.inner == commit.token_bytes
}

/// What an acknowledgement asks for, or why it is refused: it must name the
/// delivery in flight, or the last one that was committed.
pub open spec fn ack_step(v: CoordView, token: Seq<u8>) -> Result<AckView, SubscriberError> {
    if healthy_error(v) is Some {
        Err(healthy_error(v)->Some_0)
    } else if restoring_error(v) is Some {
        Err(restoring_error(v)->Some_0)
    } else if v.rollback is Some {
        Err(
            SubscriberError::Provider(
                "hybrid lifecycle reconciliation is pending; retry the cancelled lifecycle operation before acknowledgement",
            ),
        )
    } else {
        match unwrapped(token) {
            Err(e) => Err(e),
            Ok(p) => if p.epoch != v.durable.epoch {
                Err(
                    SubscriberError::Provider(
                        "hybrid delivery token belongs to a different coordinator epoch",
                    ),
                )
            } else if v.in_flight is Some && names_commit(p, v.in_flight->Some_0.commit) {
                if p.kind == HybridTokenKind::Forwarded {
                    Ok(AckView::Forward { source: p.source, token: p.inner })
                } else {
                    Ok(AckView::Commit)
                }
            } else if v.durable.last_committed_token == Some(
                TokenView { source: p.source, kind: p.kind, inner: p.inner },
            ) {
                Ok(AckView::Done)
            } else {
                Err(
                    SubscriberError::Provider(
                        "hybrid acknowledgement does not match the in-flight delivery",
                    ),
                )
            },
        }
    }
}

/// Whether mutations take anything back.
pub open spec fn takes_back(mutations: Seq<CanonicalMutation>) -> bool {
    exists|i: int|
        0 <= i < mutations.len() && !((#[trigger] mutations[i]) is Advance)
}

/// The height that the historical source was acknowledged to, once a delivery
/// is committed.
pub open spec fn acknowledged_height(v: CoordView, commit: CommitView) -> Option<u64> {
    if commit.source == HybridSource::Historical && (v.phase == HybridPhase::CatchingUp || v.phase
        == HybridPhase::Recovering) && commit.source_observed_through is Some {
        let through = commit.source_observed_through->Some_0.number;
        match v.acknowledged_historical_through {
            Some(current) => if current > through {
                Some(current)
            } else {
                Some(through)
            },
            None => Some(through),
        }
    } else {
        v.acknowledged_historical_through
    }
}

/// The state once the delivery in flight is committed as `n`, before the phase
/// is looked at.
pub open spec fn settled(v: CoordView, n: CheckpointView) -> CoordView {
    let commit = v.in_flight->Some_0.commit;
    let back = takes_back(commit.canonical);
    CoordView {
        durable: n,
        in_flight: None,
        replay_historical: v.replay_historical && !back,
        replay_live: v.replay_live && !back,
        acknowledged_historical_through: acknowledged_height(v, commit),
        ..v
    }
}

/// Whether the delivery in flight ends the catch-up.
pub open spec fn completes_cutover(v: CoordView) -> bool {
    let commit = v.in_flight->Some_0.commit;
    commit.token_kind == HybridTokenKind::Forwarded && commit.source == HybridSource::Historical
        && v.pending_cutover is Some && v.pending_cutover->Some_0.historical_token
        == commit.token_bytes
}

/// The state once the catch-up ended.
pub open spec fn draining(v: CoordView) -> CoordView {
    CoordView {
        drain_through: Some(v.pending_cutover->Some_0.through),
        pending_cutover: None,
        recovery_anchor: None,
        phase: HybridPhase::DrainingLive,
        acknowledged_historical_through: None,
        ..v
    }
}

/// The state once the delivery in flight is acknowledged, or why it cannot be
/// committed.
pub open spec fn acknowledged(v: CoordView) -> Result<CoordView, SubscriberError> {
    let f = v.in_flight->Some_0;
    match state_after(v.durable, v.config, f.commit, f.sequence) {
        Err(e) => Err(e),
        Ok(n) => {
            let s = settled(v, n);
            let d = if completes_cutover(v) {
                draining(s)
            } else {
                s
            };
            Ok(
                if d.phase == HybridPhase::DrainingLive && d.live_buffer.len() == 0 {
                    gone_live(d)
                } else {
                    d
                },
            )
        },
    }
}

fn any_taken_back(mutations: &Vec<CanonicalMutation>) -> (r: bool)
    ensures
        r == takes_back(mutations@),
{
    let mut i: usize = 0;
    while i < mutations.len()
        invariant
            i <= mutations@.len(),
            forall|j: int| 0 <= j < i ==> (#[trigger] mutations@[j]) is Advance,
        decreases mutations@.len() - i,
    {
        match mutations[i] {
            CanonicalMutation::Advance(_) => {},
            _ => {
                assert(!(mutations@[i as int] is Advance));
                return true;
            },
        }
        i += 1;
    }
    false
}

impl Coordinator {
    /// Says what the acknowledgement of a delivery asks for.
    pub fn begin_acknowledgement(&self, token: &[u8]) -> (r: Result<AckStep, SubscriberError>)
        ensures
            match r {
                Ok(step) => ack_step(self@, token@) == Ok::<_, SubscriberError>(step@),
                Err(e) => ack_step(self@, token@) == Err::<AckView, _>(e),
            },
    {
        self.ensure_healthy()?;
        self.ensure_no_pending_restore()?;
        if self.rollback.is_some() {
            return Err(
                SubscriberError::Provider(
                    "hybrid lifecycle reconciliation is pending; retry the cancelled lifecycle operation before acknowledgement",
                ),
            );
        }
        let parts: UnwrappedToken = unwrap_token(token)?;
        if parts.epoch != self.durable.epoch {
            return Err(
                SubscriberError::Provider(
                    "hybrid delivery token belongs to a different coordinator epoch",
                ),
            );
        }
        if let Some(held) = &self.in_flight {
            if parts.source == held.commit.source && parts.kind == held.commit.token_kind
                && same_bytes(parts.inner.as_slice(), held.commit.token_bytes.as_slice()) {
                return if parts.kind == HybridTokenKind::Forwarded {
                    Ok(AckStep::Forward { source: parts.source, token: parts.inner })
                } else {
                    Ok(AckStep::Commit)
                };
            }
        }
        if let Some(last) = &self.durable.last_committed_token {
            if last.source == parts.source && last.kind == parts.kind && same_bytes(
                last.inner.as_slice(),
                parts.inner.as_slice(),
            ) {
                return Ok(AckStep::Done);
            }
        }
        Err(
            SubscriberError::Provider(
                "hybrid acknowledgement does not match the in-flight delivery",
            ),
        )
    }

    /// Commits the delivery in flight, whose source was told, and ends the
    /// catch-up where this was its last delivery. Where it cannot be committed,
    /// nothing changes.
    pub fn finish_acknowledgement(&mut self) -> (r: Result<(), SubscriberError>)
        requires
            old(self)@.in_flight is Some,
        ensures
            match r {
                Ok(_) => acknowledged(old(self)@) == Ok::<_, SubscriberError>(final(self)@),
                Err(e) => acknowledged(old(self)@) == Err::<CoordView, _>(e) && final(self)@
                    == old(self)@,
            },
    {
        let ghost v = self@;
        let completes: bool;
        let height: Option<u64>;
        let back: bool;
        let next: HybridCheckpointV5;
        match &self.in_flight {
            None => {
                return Ok(());
            },
            Some(held) => {
                let commit: &PendingCoordinatorCommit = &held.commit;
                next = checkpoint_after(&self.durable, &self.config, commit, &held.sequence)?;
                completes = match &self.pending_cutover {
                    Some(pending) => commit.token_kind == HybridTokenKind::Forwarded
                        && commit.source == HybridSource::Historical && same_bytes(
                        pending.historical_token.as_slice(),
                        commit.token_bytes.as_slice(),
                    ),
                    None => false,
                };
                back = any_taken_back(&commit.canonical);
                let waiting: bool = self.phase == HybridPhase::CatchingUp || self.phase
                    == HybridPhase::Recovering;
                height = match commit.source_observed_through {
                    Some(block) if commit.source == HybridSource::Historical && waiting => {
                        match self.acknowledged_historical_through {
                            Some(current) if current > block.number => Some(current),
                            _ => Some(block.number),
                        }
                    },
                    _ => self.acknowledged_historical_through,
                };
            },
        }
        self.durable = next;
        if back {
            self.replay_historical = false;
            self.replay_live = false;
        }
        self.in_flight = None;
        self.acknowledged_historical_through = height;
        assert(self@ == settled(v, next@));
        if completes {
            if let Some(pending) = &self.pending_cutover {
                self.drain_through = Some(pending.through);
            }
            self.pending_cutover = None;
            self.recovery_anchor = None;
            self.phase = HybridPhase::DrainingLive;
            self.acknowledged_historical_through = None;
        }
        assert(self@.live_buffer.len() == self.live_buffer@.len());
        if self.phase == HybridPhase::DrainingLive && self.live_buffer.len() == 0 {
            self.phase = HybridPhase::Live;
            self.fence = None;
            self.drain_through = None;
            self.acknowledged_historical_through = None;
        }
        Ok(())
    }
}

} // verus!
