//! What holds of a coordinator throughout.
use crate::audience::DeliveryScope;
use crate::barrier::{barrier_installed, barrier_prepared};
use crate::checkpoint::{CheckpointView, HybridSource, HybridTokenKind};
use crate::codec::encoded;
use crate::config::{config_error, HybridConfig};
use crate::decode::MAX_CHECKPOINT_PAYLOAD_BYTES;
use crate::delivery::{built, comes_again, outgoing, quiet};
use crate::error::SubscriberError;
use crate::filter::{state_after, MergeView};
use crate::flow::{
    ack_step, acknowledged, below, buffer_judged, completes_cutover, cut_over, cutover_awaited,
    draining, gone_live, live_admitted, live_lost, next, owed_acknowledgement, recovery_activated,
    sequence_next, sequence_of, settled, token_index, with_buffered, without_oldest, AckView,
    StepView,
};
use crate::ingress::{records_height, BatchView, BufferedView};
use crate::intent::{InterestView, OwnerInterestsView};
use crate::lifecycle::{change_committed, change_planned, rollback_for, ChangeVerdicts, ChangeView};
use crate::overlap::{catchup_error, overlap_error};
use crate::records::{canonical_block, RoutedView};
use crate::restore::{preparation_begun, restore_begun, restored, RestoreVerdicts};
use crate::rollback::rollback_due;
use crate::state::{
    healthy_error, poisoned_by, restoring_error, subscribed, CoordView, HybridPhase, InFlightView,
    PositionView,
};
use crate::subscriber::started;
use crate::token::{law_token_round_trip, wrapped};
use crate::validate::SequenceVerdict;
use crate::words::{word_bytes, Epoch};
use vstd::prelude::*;

verus! {

// ---------------------------------------------------------------------------
// The invariant
// ---------------------------------------------------------------------------

/// How many records buffered batches hold.
pub open spec fn buffered_records(buffer: Seq<BufferedView>) -> nat
    decreases buffer.len(),
{
    if buffer.len() == 0 {
        0
    } else {
        buffer[0].records.len() + buffered_records(buffer.skip(1))
    }
}

/// How many bytes buffered batches were charged.
pub open spec fn buffered_bytes(buffer: Seq<BufferedView>) -> nat
    decreases buffer.len(),
{
    if buffer.len() == 0 {
        0
    } else {
        buffer[0].accounted_bytes as nat + buffered_bytes(buffer.skip(1))
    }
}

/// Whether no two buffered batches wait for the same acknowledgement.
pub open spec fn tokens_differ(buffer: Seq<BufferedView>) -> bool {
    forall|i: int, j: int|
        0 <= i < j < buffer.len() && (#[trigger] buffer[i]).token is Some ==> buffer[i].token != (
        #[trigger] buffer[j]).token
}

/// Whether the live buffer is within its limits, its counters are right, and no
/// delivery is in it twice.
pub open spec fn buffer_sound(v: CoordView) -> bool {
    &&& v.buffered_live_records == buffered_records(v.live_buffer)
    &&& v.buffered_live_bytes == buffered_bytes(v.live_buffer)
    &&& v.live_buffer.len() <= v.config.max_buffered_live_batches
    &&& v.buffered_live_records <= v.config.max_buffered_live_records
    &&& v.buffered_live_bytes <= v.config.max_buffered_live_bytes
    &&& tokens_differ(v.live_buffer)
}

/// Whether a delivery in flight can be committed from a state, carries the
/// checkpoint of the state that this leads to, and the token that names it.
#[verifier::opaque]
pub open spec fn flight_sound(
    durable: CheckpointView,
    config: HybridConfig,
    in_flight: Option<InFlightView>,
) -> bool {
    match in_flight {
        None => true,
        Some(f) => {
            let after = state_after(durable, config, f.commit, f.sequence);
            &&& after is Ok
            &&& encoded(after->Ok_0, f.sequence, MAX_CHECKPOINT_PAYLOAD_BYTES) is Ok
            &&& f.output.subscriber_checkpoint == Some(
                encoded(after->Ok_0, f.sequence, MAX_CHECKPOINT_PAYLOAD_BYTES)->Ok_0,
            )
            &&& f.output.delivery_token == Some(
                wrapped(
                    durable.epoch,
                    f.commit.source,
                    f.commit.token_kind,
                    f.commit.token_bytes,
                ),
            )
            &&& f.commit.token_kind == HybridTokenKind::Synthetic ==> durable.next_synthetic_token
                > 0 && f.commit.token_bytes == word_bytes((durable.next_synthetic_token - 1) as u64)
        },
    }
}

/// Whether a coordinator is as its operations leave it.
pub open spec fn sound(v: CoordView) -> bool {
    &&& (v.phase == HybridPhase::Poisoned <==> v.poisoned is Some)
    &&& buffer_sound(v)
    &&& flight_sound(v.durable, v.config, v.in_flight)
    &&& v.pending_cutover is Some ==> v.fence is Some && v.fence->Some_0
        <= v.pending_cutover->Some_0.through && v.phase != HybridPhase::DrainingLive && v.phase
        != HybridPhase::Live
}

/// A new coordinator is sound.
pub proof fn law_start_is_sound(chain_id: u64, config: HybridConfig, epoch: Epoch)
    requires
        config_error(config) is None,
    ensures
        sound(started(chain_id, config, epoch)),
{
    reveal(flight_sound);
}

proof fn lemma_buffered_push(buffer: Seq<BufferedView>, b: BufferedView)
    ensures
        buffered_records(buffer.push(b)) == buffered_records(buffer) + b.records.len(),
        buffered_bytes(buffer.push(b)) == buffered_bytes(buffer) + b.accounted_bytes,
    decreases buffer.len(),
{
    let all = buffer.push(b);
    if buffer.len() == 0 {
        assert(all.skip(1) =~= Seq::<BufferedView>::empty());
        assert(buffered_records(all.skip(1)) == 0 && buffered_bytes(all.skip(1)) == 0);
    } else {
        assert(all.skip(1) =~= buffer.skip(1).push(b));
        lemma_buffered_push(buffer.skip(1), b);
    }
}

proof fn lemma_token_index(buffer: Seq<BufferedView>, token: Seq<u8>, from: int)
    requires
        0 <= from <= buffer.len(),
        token_index(buffer, token, from) >= buffer.len(),
    ensures
        forall|i: int| from <= i < buffer.len() ==> (#[trigger] buffer[i]).token != Some(token),
    decreases buffer.len() - from,
{
    if from < buffer.len() {
        lemma_token_index(buffer, token, from + 1);
    }
}

proof fn lemma_with_buffered(v: CoordView, b: BufferedView)
    requires
        sound(v),
        v.live_buffer.len() < v.config.max_buffered_live_batches,
        v.buffered_live_records + b.records.len() <= v.config.max_buffered_live_records,
        v.buffered_live_bytes + b.accounted_bytes <= v.config.max_buffered_live_bytes,
        b.token is Some ==> forall|i: int|
            0 <= i < v.live_buffer.len() ==> (#[trigger] v.live_buffer[i]).token != b.token,
    ensures
        sound(with_buffered(v, b)),
{
    let n = with_buffered(v, b);
    let all = v.live_buffer.push(b);
    lemma_buffered_push(v.live_buffer, b);
    assert(n.live_buffer == all);
    assert(tokens_differ(all)) by {
        assert forall|i: int, j: int|
            0 <= i < j < all.len() && (#[trigger] all[i]).token is Some implies all[i].token != (
        #[trigger] all[j]).token by {
            if j == v.live_buffer.len() {
                assert(all[i] == v.live_buffer[i]);
            } else {
                assert(all[i] == v.live_buffer[i] && all[j] == v.live_buffer[j]);
            }
        }
    }
}

/// Buffering an admitted live batch keeps the coordinator sound: the buffer
/// never exceeds its limits, and no delivery is buffered twice. (Where a limit
/// is the largest number there is, its counter may stop there.)
pub proof fn law_buffering_keeps_sound(v: CoordView, b: BufferedView)
    requires
        sound(v),
        v.config.max_buffered_live_records < usize::MAX,
        v.config.max_buffered_live_bytes < usize::MAX,
        b.records.len() <= usize::MAX,
    ensures
        match buffer_judged(v, b) {
            Ok(n) => sound(n),
            Err(_) => true,
        },
{
    if buffer_judged(v, b) is Ok {
        if b.token is Some {
            if token_index(v.live_buffer, b.token->Some_0, 0) >= v.live_buffer.len() {
                lemma_token_index(v.live_buffer, b.token->Some_0, 0);
                lemma_with_buffered(v, b);
            }
        } else {
            lemma_with_buffered(v, b);
        }
    }
}

/// Taking the oldest live batch out of the buffer keeps the coordinator sound.
pub proof fn law_draining_keeps_sound(v: CoordView)
    requires
        sound(v),
    ensures
        v.live_buffer.len() > 0 ==> sound(without_oldest(v)),
        v.live_buffer.len() == 0 && v.phase == HybridPhase::DrainingLive ==> sound(gone_live(v)),
{
    if v.live_buffer.len() > 0 {
        let rest = v.live_buffer.skip(1);
        assert(tokens_differ(rest)) by {
            assert forall|i: int, j: int|
                0 <= i < j < rest.len() && (#[trigger] rest[i]).token is Some implies rest[i].token
                != (#[trigger] rest[j]).token by {
                assert(rest[i] == v.live_buffer[i + 1] && rest[j] == v.live_buffer[j + 1]);
            }
        }
    }
}

/// A coordinator that stops for good stays sound.
pub proof fn law_poisoning_keeps_sound(before: CoordView, after: CoordView, reason: Seq<char>)
    requires
        sound(before),
        poisoned_by(before, after, reason),
    ensures
        sound(after),
{
}

/// Losing the live source keeps a healthy coordinator sound.
pub proof fn law_lost_live_keeps_sound(v: CoordView)
    requires
        sound(v),
        v.poisoned is None,
    ensures
        sound(live_lost(v)),
{
}

proof fn lemma_outgoing_token(
    v: CoordView,
    source: HybridSource,
    b: BufferedView,
    merges: Seq<MergeView>,
)
    ensures
        match outgoing(v, source, b, merges) {
            Ok(Some(out)) => {
                &&& out.durable.epoch == v.durable.epoch
                &&& out.commit.source == source
                &&& out.commit.token_kind == HybridTokenKind::Synthetic
                    ==> out.durable.next_synthetic_token > 0 && out.commit.token_bytes
                    == word_bytes((out.durable.next_synthetic_token - 1) as u64)
            },
            _ => true,
        },
{
    reveal(outgoing);
}

proof fn lemma_built_flight(
    v: CoordView,
    source: HybridSource,
    b: BufferedView,
    merges: Seq<MergeView>,
    sequence: SequenceVerdict,
)
    ensures
        match built(v, source, b, merges, sequence) {
            Ok(Some((durable, f))) => flight_sound(durable, v.config, Some(f)),
            _ => true,
        },
{
    reveal(flight_sound);
    lemma_outgoing_token(v, source, b, merges);
}

/// Handing out a delivery keeps the coordinator sound: the delivery can be
/// committed, and carries the checkpoint that committing it leads to.
pub proof fn law_emission_keeps_sound(
    v: CoordView,
    source: HybridSource,
    b: BufferedView,
    merges: Seq<MergeView>,
    sequence: SequenceVerdict,
)
    requires
        sound(v),
        v.in_flight is None,
    ensures
        v.phase == HybridPhase::CatchingUp || v.phase == HybridPhase::Recovering ==> sound(
            cutover_awaited(v, b),
        ),
        match built(v, source, b, merges, sequence) {
            Ok(Some((durable, f))) => sound(
                CoordView { durable, in_flight: Some(f), ..quiet(v, source) },
            ),
            Ok(None) => sound(quiet(v, source)),
            Err(_) => true,
        },
{
    lemma_built_flight(v, source, b, merges, sequence);
}

proof fn lemma_settled_sound(v: CoordView, n: CheckpointView)
    requires
        sound(v),
        v.poisoned is None,
        v.in_flight is Some,
    ensures
        flight_sound(n, v.config, None),
        sound(settled(v, n)),
        completes_cutover(v) ==> sound(draining(settled(v, n))),
{
    reveal(flight_sound);
}

/// A delivery that was handed out can be acknowledged: committing it succeeds,
/// and leads to exactly the state that its checkpoint holds.
pub proof fn law_delivery_can_be_acknowledged(v: CoordView)
    requires
        sound(v),
        v.poisoned is None,
        restoring_error(v) is None,
        v.rollback is None,
        v.in_flight is Some,
    ensures
        ack_step(v, v.in_flight->Some_0.output.delivery_token->Some_0) is Ok,
        !(ack_step(v, v.in_flight->Some_0.output.delivery_token->Some_0)->Ok_0 is Done),
        acknowledged(v) is Ok,
        sound(acknowledged(v)->Ok_0),
        acknowledged(v)->Ok_0.in_flight is None,
        encoded(
            acknowledged(v)->Ok_0.durable,
            v.in_flight->Some_0.sequence,
            MAX_CHECKPOINT_PAYLOAD_BYTES,
        ) == Ok::<_, SubscriberError>(v.in_flight->Some_0.output.subscriber_checkpoint->Some_0),
{
    let f = v.in_flight->Some_0;
    reveal(flight_sound);
    law_token_round_trip(
        v.durable.epoch,
        f.commit.source,
        f.commit.token_kind,
        f.commit.token_bytes,
    );
    lemma_settled_sound(v, state_after(v.durable, v.config, f.commit, f.sequence)->Ok_0);
}

/// Acknowledging a delivery again changes nothing: it was committed last.
pub proof fn law_acknowledgement_is_idempotent(v: CoordView)
    requires
        sound(v),
        v.poisoned is None,
        restoring_error(v) is None,
        v.rollback is None,
        v.in_flight is Some,
    ensures
        acknowledged(v) is Ok,
        ack_step(
            acknowledged(v)->Ok_0,
            v.in_flight->Some_0.output.delivery_token->Some_0,
        ) == Ok::<_, SubscriberError>(AckView::Done),
{
    reveal(flight_sound);
    let f = v.in_flight->Some_0;
    law_token_round_trip(
        v.durable.epoch,
        f.commit.source,
        f.commit.token_kind,
        f.commit.token_bytes,
    );
    let n = acknowledged(v)->Ok_0;
    assert(n.durable.epoch == v.durable.epoch);
}

/// A delivery that was handed out is handed out again, as it was, until it is
/// acknowledged.
pub proof fn law_output_repeats_until_acknowledged(v: CoordView, epoch: Epoch)
    requires
        healthy_error(v) is None,
        restoring_error(v) is None,
        owed_acknowledgement(v) is None,
        v.rollback is None,
        v.in_flight is Some,
    ensures
        next(v, epoch) == Ok::<_, SubscriberError>(
            (v, StepView::Deliver(v.in_flight->Some_0.output)),
        ),
{
}

/// Where nothing is subscribed and nothing waits to be acknowledged, no source
/// is polled.
pub proof fn law_idle_when_nothing_is_subscribed(v: CoordView, epoch: Epoch)
    requires
        healthy_error(v) is None,
        restoring_error(v) is None,
        owed_acknowledgement(v) is None,
        v.rollback is None,
        v.in_flight is None,
        !subscribed(v),
    ensures
        next(v, epoch) == Ok::<_, SubscriberError>((v, StepView::Idle)),
{
}

/// A coordinator that stopped for good refuses everything with its reason.
pub proof fn law_poison_is_final(
    v: CoordView,
    reason: String,
    epoch: Epoch,
    token: Seq<u8>,
    position: PositionView,
    base: Seq<InterestView>,
    owners: Seq<OwnerInterestsView>,
    live_is_durable: bool,
    restore: RestoreVerdicts,
    change: ChangeView,
    chain: Option<u64>,
    verdicts: ChangeVerdicts,
    owner_managed: bool,
)
    requires
        v.poisoned == Some(reason),
    ensures
        ({
            let e = SubscriberError::Poisoned { reason };
            &&& next(v, epoch) == Err::<(CoordView, StepView), _>(e)
            &&& ack_step(v, token) == Err::<AckView, _>(e)
            &&& restore_begun(v, position, live_is_durable, restore, epoch) == Err::<
                CoordView,
                _,
            >(e)
            &&& preparation_begun(v, position, base, owners, live_is_durable, restore) == Err::<
                (CoordView, crate::restore::PrepareView),
                _,
            >(e)
            &&& change_planned(v, change, chain, verdicts, epoch) == Err::<
                Option<crate::lifecycle::ChangePlanView>,
                _,
            >(e)
            &&& rollback_due(v, owner_managed) == Err::<Option<crate::state::RollbackView>, _>(e)
        }),
{
}

/// The live buffer is only drained once the historical source has been
/// acknowledged up to the fence.
pub proof fn law_cutover_needs_acknowledged_coverage(v: CoordView)
    requires
        sound(v),
        v.phase == HybridPhase::CatchingUp || v.phase == HybridPhase::Recovering,
    ensures
        cut_over(v).phase != v.phase ==> v.fence is Some && v.acknowledged_historical_through
            is Some && v.fence->Some_0 <= v.acknowledged_historical_through->Some_0
            && cut_over(v).phase == HybridPhase::DrainingLive && cut_over(v).drain_through
            == v.acknowledged_historical_through,
        v.in_flight is Some && acknowledged(v) is Ok && acknowledged(v)->Ok_0.phase != v.phase ==> {
            &&& v.pending_cutover is Some
            &&& v.fence is Some
            &&& v.fence->Some_0 <= v.pending_cutover->Some_0.through
            &&& v.in_flight->Some_0.commit.source == HybridSource::Historical
            &&& v.in_flight->Some_0.commit.token_bytes
                == v.pending_cutover->Some_0.historical_token
        },
{
}

/// A batch that comes again after a restore is acknowledged and nothing else:
/// it hands out no record and no control, and moves nothing.
pub proof fn law_replay_carries_nothing(
    v: CoordView,
    source: HybridSource,
    b: BufferedView,
    merges: Seq<MergeView>,
    sequence: SequenceVerdict,
)
    requires
        comes_again(v.durable, source, b),
        built(v, source, b, merges, sequence) is Ok,
    ensures
        match built(v, source, b, merges, sequence)->Ok_0 {
            Some((durable, f)) => {
                &&& durable == v.durable
                &&& f.output.deliveries.len() == 0
                &&& f.output.chain_controls.len() == 0
                &&& f.commit.audiences.len() == 0
                &&& f.commit.canonical.len() == 0
                &&& sequence_next(v.durable, source, b) == sequence_of(v.durable)
            },
            None => false,
        },
{
    reveal(outgoing);
}

/// Turning to an idle state keeps the coordinator sound.
pub proof fn law_barrier_keeps_sound(
    v: CoordView,
    epoch: Epoch,
    generation: u64,
    generations: Seq<(Seq<u8>, u64)>,
    intent: crate::checkpoint::IntentView,
    sequence: SequenceVerdict,
)
    requires
        sound(v),
        v.poisoned is None,
        barrier_prepared(v.durable, v.config, epoch, generation, generations, intent, sequence) is Ok,
    ensures
        sound(
            barrier_installed(
                v,
                barrier_prepared(
                    v.durable,
                    v.config,
                    epoch,
                    generation,
                    generations,
                    intent,
                    sequence,
                )->Ok_0,
            ),
        ),
{
    reveal(flight_sound);
}

/// Beginning a recovery keeps the coordinator sound.
pub proof fn law_recovery_keeps_sound(v: CoordView, epoch: Epoch)
    requires
        sound(v),
        v.poisoned is None,
    ensures
        sound(recovery_activated(v, epoch)),
{
    reveal(flight_sound);
}

/// Taking over a change that was planned keeps the coordinator sound.
pub proof fn law_change_keeps_sound(
    v: CoordView,
    change: ChangeView,
    chain: Option<u64>,
    verdicts: ChangeVerdicts,
    planned_epoch: Epoch,
    epoch: Epoch,
)
    requires
        sound(v),
    ensures
        match change_planned(v, change, chain, verdicts, planned_epoch) {
            Ok(Some(plan)) => sound(
                change_committed(
                    CoordView { rollback: Some(rollback_for(v, change, plan.next)), ..v },
                    plan,
                    epoch,
                ),
            ),
            _ => true,
        },
{
    reveal(flight_sound);
}

/// Finishing a restore keeps the coordinator sound.
pub proof fn law_restore_keeps_sound(v: CoordView, live_is_durable: bool)
    requires
        sound(v),
        v.poisoned is None,
        v.in_flight is None,
        v.live_buffer.len() == 0,
        v.pending_restore is Some,
    ensures
        sound(restored(v, live_is_durable)),
{
    reveal(flight_sound);
}

/// The first live batch with a height sets the fence, one below that height;
/// later ones do not move it.
pub proof fn law_first_live_batch_fixes_the_fence(v: CoordView, b: BufferedView)
    ensures
        v.fence is Some ==> with_buffered(v, b).fence == v.fence,
        v.fence is None && b.max_canonical_block is Some ==> with_buffered(v, b).fence == Some(
            below(b.max_canonical_block->Some_0),
        ),
        v.fence is None && b.max_canonical_block is None ==> with_buffered(v, b).fence is None,
{
}

/// A historical page that reaches the fence does not end the catch-up by
/// itself: handing it out leaves the phase as it is.
pub proof fn law_reaching_the_fence_does_not_cut_over(
    v: CoordView,
    b: BufferedView,
    merges: Seq<MergeView>,
    sequence: SequenceVerdict,
)
    ensures
        match built(cutover_awaited(v, b), HybridSource::Historical, b, merges, sequence) {
            Ok(Some((durable, f))) => (CoordView {
                durable,
                in_flight: Some(f),
                ..quiet(cutover_awaited(v, b), HybridSource::Historical)
            }).phase == v.phase,
            _ => true,
        },
{
}

/// What is handed out names the chain of the coordinator and keeps the payload
/// commitment of its source as it was.
pub proof fn law_output_keeps_the_commitment(
    v: CoordView,
    source: HybridSource,
    b: BufferedView,
    merges: Seq<MergeView>,
    sequence: SequenceVerdict,
)
    ensures
        match built(v, source, b, merges, sequence) {
            Ok(Some((_, f))) => f.output.payload_commitment == b.payload_commitment
                && f.output.chain_id == Some(v.durable.chain_id),
            _ => true,
        },
{
}

proof fn lemma_catchup_height(records: Seq<RoutedView>)
    requires
        forall|i: int|
            0 <= i < records.len() ==> (#[trigger] records[i]).scope == DeliveryScope::OwnerCatchup,
    ensures
        records_height(records) is None,
    decreases records.len(),
{
    if records.len() > 0 {
        let front = records.drop_last();
        assert forall|i: int| 0 <= i < front.len() implies (#[trigger] front[i]).scope
            == DeliveryScope::OwnerCatchup by {
            assert(front[i] == records[i]);
        }
        assert(records[records.len() - 1].scope == DeliveryScope::OwnerCatchup);
        lemma_catchup_height(front);
    }
}

/// Records that only catch one owner up never move the canonical head: a batch
/// of nothing else has no height, and each of its records must be at a retained
/// block.
pub proof fn law_owner_catchup_never_advances(v: CoordView, batch: BatchView, observed: Option<u64>)
    requires
        batch.chain_controls.len() == 0,
        forall|i: int|
            0 <= i < batch.deliveries.len() ==> (#[trigger] batch.deliveries[i]).scope
                == DeliveryScope::OwnerCatchup,
    ensures
        match live_admitted(v, batch, observed) {
            Ok(b) => b.max_canonical_block is None && forall|i: int|
                0 <= i < b.records.len() ==> catches_up_at_retained(
                    v.durable,
                    #[trigger] b.records[i],
                ),
            Err(_) => true,
        },
{
    if let Ok(b) = live_admitted(v, batch, observed) {
        lemma_catchup_height(batch.deliveries);
        assert(b.records == batch.deliveries);
        lemma_catchup_retained(v.durable, b.records, 0);
    }
}

/// Whether a record is at a block that is retained.
pub open spec fn catches_up_at_retained(c: CheckpointView, r: RoutedView) -> bool {
    canonical_block(r.record.context) is Some && overlap_error(
        c,
        canonical_block(r.record.context)->Some_0,
    ) is None
}

proof fn lemma_catchup_retained(c: CheckpointView, records: Seq<RoutedView>, from: int)
    requires
        0 <= from <= records.len(),
        catchup_error(c, records, from) is None,
        forall|i: int|
            0 <= i < records.len() ==> (#[trigger] records[i]).scope == DeliveryScope::OwnerCatchup,
    ensures
        forall|i: int|
            from <= i < records.len() ==> catches_up_at_retained(c, #[trigger] records[i]),
    decreases records.len() - from,
{
    if from < records.len() {
        assert(records[from].scope == DeliveryScope::OwnerCatchup);
        lemma_catchup_retained(c, records, from + 1);
    }
}

} // verus!
