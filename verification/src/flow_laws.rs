//! When a coordinator asks its sources for what, and how it moves on.
use crate::checkpoint::{CheckpointView, HybridSource, HybridTokenKind, SourceView};
use crate::commit::CommitView;
use crate::cursor_laws::position_of;
use crate::error::SubscriberError;
use crate::filter::state_after;
use crate::flow::{
    ack_step, acknowledged, buffer_judged, cut_over, cutover_awaited, gone_live, live_lost, next,
    recovery_activated, renewed, sequence_of, token_index, without_oldest, AckView, StepView,
};
use crate::ingress::BufferedView;
use crate::model::BlockRef;
use crate::overlap::{same_delivery, same_record};
use crate::records::{InputView, RecordView};
use crate::state::{
    chain_error, reconfigure_error, subscribed, CoordView, HybridPhase, RollbackView,
};
use crate::token::{law_token_round_trip, wrapped};
use crate::words::Epoch;
use vstd::prelude::*;

verus! {

// ---------------------------------------------------------------------------
// Gates
// ---------------------------------------------------------------------------

/// Whether neither a failure nor a restore keeps a coordinator from its work.
pub open spec fn at_work(v: CoordView) -> bool {
    v.poisoned is None && v.pending_restore is None && v.pending_preparation is None
        && v.prepared_position is None
}

/// Whether somebody is interested in something.
pub open spec fn wanted(v: CoordView) -> bool {
    ||| v.base_interests.len() > 0
    ||| exists|i: int| 0 <= i < v.owners.len() && (#[trigger] v.owners[i]).1.len() > 0
}

/// The topology of a coordinator may change exactly while no restore is going on,
/// nothing waits to be delivered or acknowledged, and, after an earlier change,
/// only once the live source delivers again.
pub proof fn law_topology_changes_between_deliveries(v: CoordView)
    ensures
        reconfigure_error(v) is None <==> {
            &&& v.pending_restore is None
            &&& v.pending_preparation is None
            &&& v.prepared_position is None
            &&& v.pending_cutover is None
            &&& v.in_flight is None
            &&& v.live_buffer.len() == 0
            &&& v.durable.lifecycle_generation <= 1 || v.phase == HybridPhase::Live
        },
{
}

/// A source is heard exactly while it is on the chain of the coordinator.
pub proof fn law_source_is_heard_on_its_chain(
    expected: u64,
    source: HybridSource,
    observed: Option<u64>,
)
    ensures
        chain_error(expected, source, observed) is None <==> observed == Some(expected),
        observed is None ==> chain_error(expected, source, observed) == Some(
            SubscriberError::SourceChainUnresolved { source, expected },
        ),
        observed is Some && observed->Some_0 != expected ==> chain_error(expected, source, observed)
            == Some(
            SubscriberError::SourceChainChanged { source, found: observed->Some_0, expected },
        ),
{
}

// ---------------------------------------------------------------------------
// The next step
// ---------------------------------------------------------------------------

/// There is a next step exactly where the coordinator is at work and either owes
/// a restored source an acknowledgement whose token it has, or has no change of
/// topology to take back but one that only needs recovering.
pub proof fn law_next_step_needs_a_settled_topology(v: CoordView, epoch: Epoch)
    ensures
        next(v, epoch) is Ok <==> at_work(v) && if v.replay_historical {
            v.durable.historical_position.delivery_token is Some
        } else if v.replay_live {
            v.durable.live_position.delivery_token is Some
        } else {
            v.rollback is None || v.rollback->Some_0 is Recovery
        },
{
}

/// A restored source is acknowledged before anything else, the historical one
/// first, with the token that it delivered last; and nothing moves.
pub proof fn law_restored_sources_are_acknowledged_first(v: CoordView, epoch: Epoch)
    requires
        next(v, epoch) is Ok,
    ensures
        ({
            let (n, step) = next(v, epoch)->Ok_0;
            &&& step is Acknowledge <==> v.replay_historical || v.replay_live
            &&& step is Acknowledge ==> {
                let source = if v.replay_historical {
                    HybridSource::Historical
                } else {
                    HybridSource::Live
                };
                n == v && step == (StepView::Acknowledge {
                    source,
                    token: position_of(v.durable, source).delivery_token->Some_0,
                })
            }
        }),
{
}

/// A source is asked only where nothing waits to be acknowledged and something
/// is subscribed: the live source alone once it delivers, neither while its
/// buffer is drained, and otherwise the historical source, with the live one
/// exactly while none of its buffered batches waits to be acknowledged.
pub proof fn law_sources_are_asked_by_phase(v: CoordView, epoch: Epoch)
    requires
        next(v, epoch) is Ok,
        !v.replay_historical && !v.replay_live,
    ensures
        ({
            let (n, step) = next(v, epoch)->Ok_0;
            let waiting = exists|i: int|
                0 <= i < n.live_buffer.len() && (#[trigger] n.live_buffer[i]).token is Some;
            let asks = n.in_flight is None && wanted(n);
            let catching = n.phase != HybridPhase::Live && n.phase != HybridPhase::DrainingLive;
            &&& step is Deliver <==> n.in_flight is Some
            &&& step is Deliver ==> step->Deliver_0 == n.in_flight->Some_0.output
            &&& step is Idle <==> n.in_flight is None && !wanted(n)
            &&& step is PollLive <==> asks && n.phase == HybridPhase::Live
            &&& step is DrainLive <==> asks && n.phase == HybridPhase::DrainingLive
            &&& step is PollHistorical <==> asks && catching && waiting
            &&& step is PollBoth <==> asks && catching && !waiting
        }),
{
}

/// A coordinator that has nothing to recover is left as it is by looking for the
/// next step.
pub proof fn law_looking_moves_nothing(v: CoordView, epoch: Epoch)
    requires
        next(v, epoch) is Ok,
        v.rollback is None,
    ensures
        next(v, epoch)->Ok_0.0 == v,
{
}

/// Whether a source lost its cursor, its token and its digest, and nothing else.
pub open spec fn forgot_its_cursor(before: SourceView, after: SourceView) -> bool {
    &&& after.delivery_token is None
    &&& after.checkpoint is None
    &&& after.delivery_digest is None
    &&& after.coverage_head == before.coverage_head
    &&& after.canonical_history == before.canonical_history
}

/// Tokens that start afresh are under the new epoch, are counted from one, and
/// are none that was handed out before: both sources lose their cursors, and what
/// was covered and delivered stays.
pub proof fn law_renewed_tokens_keep_what_is_covered(c: CheckpointView, epoch: Epoch)
    ensures
        ({
            let n = renewed(c, epoch);
            &&& n.epoch == epoch
            &&& n.next_synthetic_token == 1
            &&& n.last_committed_token is None
            &&& forgot_its_cursor(c.historical_position, n.historical_position)
            &&& forgot_its_cursor(c.live_position, n.live_position)
            &&& n.chain_id == c.chain_id
            &&& n.lifecycle_generation == c.lifecycle_generation
            &&& n.lifecycle_intent == c.lifecycle_intent
            &&& n.owner_generations == c.owner_generations
            &&& n.coverage_head == c.coverage_head
            &&& n.safe_head == c.safe_head
            &&& n.finalized_head == c.finalized_head
            &&& n.canonical_history == c.canonical_history
            &&& n.recent_inputs == c.recent_inputs
            &&& n.certified_historical == c.certified_historical
        }),
{
}

/// A recovery that a change of topology left behind begins at the block that it
/// names, with nothing buffered, nothing in flight and nothing certified; what
/// was covered and delivered stays, and so do the interests.
pub proof fn law_recovery_begins_at_its_anchor(v: CoordView, epoch: Epoch, anchor: BlockRef)
    requires
        v.rollback == Some(RollbackView::Recovery { anchor }),
    ensures
        ({
            let n = recovery_activated(v, epoch);
            &&& n.phase == HybridPhase::Recovering
            &&& n.recovery_anchor == Some(anchor)
            &&& n.rollback is None
            &&& n.in_flight is None
            &&& n.pending_cutover is None
            &&& n.fence is None
            &&& n.drain_through is None
            &&& n.acknowledged_historical_through is None
            &&& n.live_buffer.len() == 0
            &&& n.buffered_live_records == 0
            &&& n.buffered_live_bytes == 0
            &&& !n.replay_historical
            &&& !n.replay_live
            &&& n.durable.certified_historical is None
            &&& n.durable.epoch == epoch
            &&& n.durable.recent_inputs == v.durable.recent_inputs
            &&& n.durable.owner_generations == v.durable.owner_generations
            &&& n.durable.lifecycle_intent == v.durable.lifecycle_intent
            &&& n.durable.lifecycle_generation == v.durable.lifecycle_generation
            &&& n.durable.chain_id == v.durable.chain_id
            &&& sequence_of(n.durable) == sequence_of(v.durable)
            &&& forgot_its_cursor(v.durable.historical_position, n.durable.historical_position)
            &&& forgot_its_cursor(v.durable.live_position, n.durable.live_position)
            &&& n.base_interests == v.base_interests
            &&& n.owners == v.owners
            &&& n.config == v.config
            &&& n.poisoned == v.poisoned
            &&& n.pending_restore == v.pending_restore
            &&& n.pending_preparation == v.pending_preparation
            &&& n.prepared_position == v.prepared_position
        }),
{
}

/// Where the live source is lost the historical one recovers from what is
/// covered; nothing that is durable, buffered or in flight is lost.
pub proof fn law_lost_live_source_keeps_its_deliveries(v: CoordView)
    ensures
        ({
            let n = live_lost(v);
            &&& n.phase == HybridPhase::Recovering
            &&& n.recovery_anchor == v.durable.coverage_head
            &&& n.durable == v.durable
            &&& n.live_buffer == v.live_buffer
            &&& n.in_flight == v.in_flight
            &&& n.fence == v.fence
            &&& n.pending_cutover == v.pending_cutover
            &&& n.acknowledged_historical_through == v.acknowledged_historical_through
            &&& CoordView { phase: v.phase, recovery_anchor: v.recovery_anchor, ..n } == v
        }),
{
}

// ---------------------------------------------------------------------------
// The live buffer
// ---------------------------------------------------------------------------

/// Whether two bodies are the same: logs and hashes that are equal. Headers are
/// compared by what they commit to; whole blocks and transactions never are.
pub open spec fn same_body(a: InputView, b: InputView) -> bool {
    match (a, b) {
        (InputView::Log(x), InputView::Log(y)) => x == y,
        (InputView::PendingTxHash(x), InputView::PendingTxHash(y)) => x == y,
        (InputView::BlockHeader(_), InputView::BlockHeader(_)) => true,
        _ => false,
    }
}

/// Records that are one delivery have one context, one reference and, but for
/// headers, one body; being one delivery goes both ways.
pub proof fn law_one_record_has_one_content(a: RecordView, b: RecordView)
    ensures
        same_record(a, b) == same_record(b, a),
        same_record(a, b) ==> {
            &&& a.context == b.context
            &&& a.identity is Ok
            &&& b.identity is Ok
            &&& a.identity->Ok_0.input_ref == b.identity->Ok_0.input_ref
            &&& same_body(a.input, b.input)
        },
        a.identity is Ok && a.input is Log ==> same_record(a, a),
        a.identity is Ok && a.input is PendingTxHash ==> same_record(a, a),
        same_record(a, b) && a.input is BlockHeader ==> crate::header::header_digest(
            a.input->BlockHeader_0,
            usize::MAX,
        ) == crate::header::header_digest(b.input->BlockHeader_0, usize::MAX),
{
}

/// Batches that are one delivery route the same records to the same owners, in
/// the same order, with the same controls, cursor and commitment.
pub proof fn law_one_delivery_has_one_content(a: BufferedView, b: BufferedView)
    ensures
        same_delivery(a, b) <==> {
            &&& a.records.len() == b.records.len()
            &&& forall|i: int|
                0 <= i < a.records.len() ==> {
                    &&& same_record((#[trigger] a.records[i]).record, b.records[i].record)
                    &&& a.records[i].audience == b.records[i].audience
                    &&& a.records[i].scope == b.records[i].scope
                }
            &&& a.controls == b.controls
            &&& a.checkpoint == b.checkpoint
            &&& a.payload_commitment == b.payload_commitment
        },
{
}

proof fn lemma_token_index(buffer: Seq<BufferedView>, token: Seq<u8>, from: int)
    requires
        0 <= from <= buffer.len(),
    ensures
        from <= token_index(buffer, token, from) <= buffer.len(),
        token_index(buffer, token, from) < buffer.len() ==> buffer[token_index(
            buffer,
            token,
            from,
        )].token == Some(token),
        forall|i: int|
            from <= i < token_index(buffer, token, from) ==> (#[trigger] buffer[i]).token != Some(
                token,
            ),
    decreases buffer.len() - from,
{
    if from < buffer.len() && buffer[from].token != Some(token) {
        lemma_token_index(buffer, token, from + 1);
    }
}

/// Whether the live buffer holds a batch with this token.
pub open spec fn buffers(v: CoordView, token: Option<Seq<u8>>) -> bool {
    token is Some && exists|i: int|
        0 <= i < v.live_buffer.len() && (#[trigger] v.live_buffer[i]).token == token
}

/// Whether one more number still keeps to a limit; counting stops at the largest
/// number there is.
pub open spec fn leaves_room(held: usize, more: usize, limit: usize) -> bool {
    held + more <= limit || limit == usize::MAX
}

/// A live batch with a new token, or none, is buffered exactly where it can be
/// sequenced and keeps to all three limits; it then stands last, the others
/// before it as they were, and is counted.
pub proof fn law_new_live_batch_is_buffered_last(v: CoordView, b: BufferedView)
    requires
        !buffers(v, b.token),
        b.records.len() <= usize::MAX,
        v.live_buffer.len() < usize::MAX,
    ensures
        buffer_judged(v, b) is Ok <==> {
            &&& b.token is Some ==> b.max_canonical_block is Some
            &&& v.live_buffer.len() < v.config.max_buffered_live_batches
            &&& leaves_room(
                v.buffered_live_records,
                b.records.len() as usize,
                v.config.max_buffered_live_records,
            )
            &&& leaves_room(
                v.buffered_live_bytes,
                b.accounted_bytes,
                v.config.max_buffered_live_bytes,
            )
        },
        buffer_judged(v, b) is Ok ==> {
            let n = buffer_judged(v, b)->Ok_0;
            &&& n.live_buffer.len() == v.live_buffer.len() + 1
            &&& n.live_buffer.last() == b
            &&& forall|i: int|
                0 <= i < v.live_buffer.len() ==> #[trigger] n.live_buffer[i] == v.live_buffer[i]
            &&& v.buffered_live_records + b.records.len() <= usize::MAX ==> n.buffered_live_records
                == v.buffered_live_records + b.records.len()
            &&& v.buffered_live_bytes + b.accounted_bytes <= usize::MAX ==> n.buffered_live_bytes
                == v.buffered_live_bytes + b.accounted_bytes
            &&& n.durable == v.durable
            &&& n.in_flight == v.in_flight
            &&& n.pending_cutover == v.pending_cutover
        },
{
    lemma_token_index(v.live_buffer, b.token->Some_0, 0);
}

/// A live batch whose token is buffered already moves nothing where it is the
/// same delivery, and is refused where it is another.
pub proof fn law_token_names_one_live_batch(v: CoordView, b: BufferedView, at: int)
    requires
        0 <= at < v.live_buffer.len(),
        b.token is Some,
        b.max_canonical_block is Some,
        v.live_buffer[at].token == b.token,
        forall|i: int| 0 <= i < at ==> (#[trigger] v.live_buffer[i]).token != b.token,
    ensures
        buffer_judged(v, b) == if same_delivery(v.live_buffer[at], b) {
            Ok::<CoordView, SubscriberError>(v)
        } else {
            Err(
                SubscriberError::Provider(
                    "hybrid live source reused one delivery token for different data",
                ),
            )
        },
{
    lemma_token_index(v.live_buffer, b.token->Some_0, 0);
}

/// Buffered batches leave in the order in which they came, and are counted no
/// more once they left; nothing else moves.
pub proof fn law_oldest_batch_leaves_first(v: CoordView)
    requires
        v.live_buffer.len() > 0,
        v.live_buffer[0].records.len() <= v.buffered_live_records,
        v.live_buffer[0].accounted_bytes <= v.buffered_live_bytes,
    ensures
        ({
            let n = without_oldest(v);
            &&& n.live_buffer.len() == v.live_buffer.len() - 1
            &&& forall|i: int|
                0 <= i < n.live_buffer.len() ==> #[trigger] n.live_buffer[i] == v.live_buffer[i + 1]
            &&& n.buffered_live_records + v.live_buffer[0].records.len() == v.buffered_live_records
            &&& n.buffered_live_bytes + v.live_buffer[0].accounted_bytes == v.buffered_live_bytes
            &&& n.durable == v.durable
            &&& n.phase == v.phase
            &&& n.in_flight == v.in_flight
            &&& n.drain_through == v.drain_through
            &&& n.fence == v.fence
        }),
{
}

// ---------------------------------------------------------------------------
// Cutover
// ---------------------------------------------------------------------------

/// The live buffer is drained exactly once the historical source was acknowledged
/// at or above the fence and no page of it is awaited; it is then drained beyond
/// what was acknowledged, and the gap is closed.
pub proof fn law_cutover_comes_with_the_fence(v: CoordView)
    ensures
        ({
            let n = cut_over(v);
            let reached = v.fence is Some && v.acknowledged_historical_through is Some
                && v.fence->Some_0 <= v.acknowledged_historical_through->Some_0;
            let catching = v.phase == HybridPhase::CatchingUp || v.phase == HybridPhase::Recovering;
            &&& reached && catching && v.pending_cutover is None ==> {
                &&& n.phase == HybridPhase::DrainingLive
                &&& n.drain_through == v.acknowledged_historical_through
                &&& n.recovery_anchor is None
                &&& n.acknowledged_historical_through is None
                &&& CoordView {
                    phase: v.phase,
                    drain_through: v.drain_through,
                    recovery_anchor: v.recovery_anchor,
                    acknowledged_historical_through: v.acknowledged_historical_through,
                    ..n
                } == v
            }
            &&& !(reached && catching && v.pending_cutover is None) ==> n == v
        }),
{
}

/// A historical page is awaited for the cutover exactly where it is the first to
/// reach the fence; its token and height are kept, and nothing else moves.
pub proof fn law_page_that_reaches_the_fence_is_awaited(v: CoordView, b: BufferedView)
    requires
        b.token is Some,
    ensures
        ({
            let n = cutover_awaited(v, b);
            let reaches = v.fence is Some && b.max_canonical_block is Some && v.fence->Some_0
                <= b.max_canonical_block->Some_0;
            &&& v.pending_cutover is Some ==> n.pending_cutover == v.pending_cutover
            &&& v.pending_cutover is None && reaches ==> n.pending_cutover is Some
                && Some(n.pending_cutover->Some_0.historical_token) == b.token
                && Some(n.pending_cutover->Some_0.through) == b.max_canonical_block
            &&& v.pending_cutover is None && !reaches ==> n.pending_cutover is None
            &&& CoordView { pending_cutover: v.pending_cutover, ..n } == v
        }),
{
}

/// Once the live source delivers there is no fence and nothing to drain; what is
/// durable, buffered and in flight stays.
pub proof fn law_live_phase_has_no_fence(v: CoordView)
    ensures
        ({
            let n = gone_live(v);
            &&& n.phase == HybridPhase::Live
            &&& n.fence is None
            &&& n.drain_through is None
            &&& n.acknowledged_historical_through is None
            &&& n.durable == v.durable
            &&& n.in_flight == v.in_flight
            &&& n.live_buffer == v.live_buffer
            &&& n.pending_cutover == v.pending_cutover
            &&& n.rollback == v.rollback
            &&& n.recovery_anchor == v.recovery_anchor
            &&& n.poisoned == v.poisoned
        }),
{
}

// ---------------------------------------------------------------------------
// Acknowledgements
// ---------------------------------------------------------------------------

/// An acknowledgement of the delivery in flight is passed on to its source where
/// the source gave the token, and only committed where it did not; one of the
/// delivery that was committed last asks for nothing; any other is refused, and
/// so is every token of another epoch.
pub proof fn law_acknowledgement_names_a_delivery(
    v: CoordView,
    epoch: Epoch,
    source: HybridSource,
    kind: HybridTokenKind,
    inner: Seq<u8>,
)
    requires
        at_work(v),
        v.rollback is None,
    ensures
        ({
            let r = ack_step(v, wrapped(epoch, source, kind, inner));
            let flying = v.in_flight is Some && v.in_flight->Some_0.commit.source == source
                && v.in_flight->Some_0.commit.token_kind == kind
                && v.in_flight->Some_0.commit.token_bytes == inner;
            let last = v.durable.last_committed_token is Some
                && v.durable.last_committed_token->Some_0.source == source
                && v.durable.last_committed_token->Some_0.kind == kind
                && v.durable.last_committed_token->Some_0.inner == inner;
            &&& r is Ok <==> epoch == v.durable.epoch && (flying || last)
            &&& r is Ok && flying && kind == HybridTokenKind::Forwarded ==> r->Ok_0 == (
            AckView::Forward { source, token: inner })
            &&& r is Ok && flying && kind == HybridTokenKind::Synthetic ==> r->Ok_0
                == AckView::Commit
            &&& r is Ok && !flying ==> r->Ok_0 == AckView::Done
        }),
{
    law_token_round_trip(epoch, source, kind, inner);
}

/// Nothing is acknowledged by a coordinator that is not at work, or that has a
/// change of topology to take back.
pub proof fn law_acknowledgement_needs_a_settled_topology(v: CoordView, token: Seq<u8>)
    ensures
        !at_work(v) || v.rollback is Some ==> ack_step(v, token) is Err,
{
}

/// Whether a commit takes blocks back.
pub open spec fn goes_back(commit: CommitView) -> bool {
    exists|i: int|
        0 <= i < commit.canonical.len() && !((#[trigger] commit.canonical[i]) is Advance)
}

/// Acknowledging a delivery commits it and leaves nothing in flight. A source
/// that waits to be acknowledged again still does, unless blocks were taken back.
/// Neither the buffer nor the interests nor the limits change.
pub proof fn law_acknowledging_moves_only_the_phase(v: CoordView)
    requires
        v.in_flight is Some,
        acknowledged(v) is Ok,
    ensures
        ({
            let f = v.in_flight->Some_0;
            let n = acknowledged(v)->Ok_0;
            &&& state_after(v.durable, v.config, f.commit, f.sequence) == Ok::<_, SubscriberError>(
                n.durable,
            )
            &&& n.in_flight is None
            &&& n.replay_historical <==> v.replay_historical && !goes_back(f.commit)
            &&& n.replay_live <==> v.replay_live && !goes_back(f.commit)
            &&& n.live_buffer == v.live_buffer
            &&& n.buffered_live_records == v.buffered_live_records
            &&& n.buffered_live_bytes == v.buffered_live_bytes
            &&& n.rollback == v.rollback
            &&& n.config == v.config
            &&& n.base_interests == v.base_interests
            &&& n.owners == v.owners
            &&& n.poisoned == v.poisoned
            &&& n.pending_restore == v.pending_restore
            &&& n.pending_preparation == v.pending_preparation
            &&& n.prepared_position == v.prepared_position
        }),
{
}

/// Acknowledging the awaited historical page ends the catch-up: the buffer is
/// drained beyond the height of the page, or the live source delivers where the
/// buffer is empty. Acknowledging any other delivery ends only a drain, and only
/// with an empty buffer.
pub proof fn law_acknowledging_the_awaited_page_cuts_over(v: CoordView)
    requires
        v.in_flight is Some,
        acknowledged(v) is Ok,
    ensures
        ({
            let c = v.in_flight->Some_0.commit;
            let n = acknowledged(v)->Ok_0;
            let awaited = v.pending_cutover is Some && c.source == HybridSource::Historical
                && c.token_kind == HybridTokenKind::Forwarded
                && v.pending_cutover->Some_0.historical_token == c.token_bytes;
            let empty = v.live_buffer.len() == 0;
            &&& awaited && !empty ==> n.phase == HybridPhase::DrainingLive && n.drain_through
                == Some(v.pending_cutover->Some_0.through) && n.fence == v.fence
            &&& (awaited || v.phase == HybridPhase::DrainingLive) && empty ==> n.phase
                == HybridPhase::Live && n.fence is None && n.drain_through is None
            &&& awaited ==> n.pending_cutover is None && n.recovery_anchor is None
                && n.acknowledged_historical_through is None
            &&& !awaited ==> n.pending_cutover == v.pending_cutover && n.recovery_anchor
                == v.recovery_anchor
            &&& !awaited && !(v.phase == HybridPhase::DrainingLive && empty) ==> n.phase == v.phase
                && n.fence == v.fence && n.drain_through == v.drain_through
        }),
{
}

/// While the historical source catches up, the height that it was acknowledged
/// to only grows, and reaches what each of its deliveries covered; the live
/// source does not move it.
pub proof fn law_acknowledged_height_only_grows(v: CoordView)
    requires
        v.in_flight is Some,
        acknowledged(v) is Ok,
        acknowledged(v)->Ok_0.phase == HybridPhase::CatchingUp || acknowledged(v)->Ok_0.phase
            == HybridPhase::Recovering,
    ensures
        ({
            let c = v.in_flight->Some_0.commit;
            let before = v.acknowledged_historical_through;
            let after = acknowledged(v)->Ok_0.acknowledged_historical_through;
            let covered = c.source_observed_through;
            &&& c.source == HybridSource::Live || covered is None ==> after == before
            &&& c.source == HybridSource::Historical && covered is Some ==> {
                &&& after is Some
                &&& after->Some_0 >= covered->Some_0.number
                &&& before is Some ==> after->Some_0 >= before->Some_0
                &&& after->Some_0 == covered->Some_0.number || after == before
            }
        }),
{
}

} // verus!
