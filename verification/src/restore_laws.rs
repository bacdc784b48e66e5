//! What a restore gives back of a delivery.
use crate::checkpoint::{CheckpointView, HybridTokenKind, SourceView, TokenView};
use crate::codec::{decoded, encoded, law_checkpoint_round_trip};
use crate::config::{config_limits_error, HybridConfig};
use crate::decode::MAX_CHECKPOINT_PAYLOAD_BYTES;
use crate::error::SubscriberError;
use crate::filter::state_after;
use crate::flow::acknowledged;
use crate::history::newest;
use crate::intent::is_empty_barrier;
use crate::laws::{flight_sound, sound};
use crate::limits_laws::state_typed;
use crate::model::{merged_block, BlockRef};
use crate::restore::{
    candidate_of, completed_by, normalized_candidate, recent_conflict, restore_candidate,
    restore_room_error, restore_token_error, restored_history, resumed_history, RestoreVerdicts,
};
use crate::state::{CoordView, PositionView};
use crate::token::{law_token_round_trip, wrapped};
use crate::validate::{
    block_at, coverage_error, entries_error, entry_error, histories_error, history_error,
    history_fault, index_of, law_valid_history_ascends, lemma_index_of, source_error, state_error,
    token_error, topology_error, SequenceVerdict,
};
use crate::words::{lemma_word_bytes_join, word_bytes, Epoch};
use vstd::prelude::*;

verus! {

/// The position that a runtime resumes from where its last delivery led to this
/// state, under this token, with these bytes as its checkpoint.
pub open spec fn resume_from(c: CheckpointView, bytes: Seq<u8>) -> PositionView {
    let token = c.last_committed_token->Some_0;
    PositionView {
        chain_id: c.chain_id,
        coverage_head: c.coverage_head->Some_0,
        canonical_history: c.canonical_history,
        delivery_token: Some(wrapped(c.epoch, token.source, token.kind, token.inner)),
        subscriber_checkpoint: Some(bytes),
    }
}

/// Whether the last committed token of a state, where the coordinator made it,
/// is the one before the next.
pub open spec fn synthetic_follows(c: CheckpointView) -> bool {
    c.last_committed_token is Some && c.last_committed_token->Some_0.kind
        == HybridTokenKind::Synthetic ==> c.next_synthetic_token > 0
        && c.last_committed_token->Some_0.inner == word_bytes((c.next_synthetic_token - 1) as u64)
}

/// A state once its live source, which cannot replay, has lost its token and its
/// cursor.
pub open spec fn without_live_cursor(c: CheckpointView) -> CheckpointView {
    let live = SourceView { delivery_token: None, checkpoint: None, ..c.live_position };
    if is_empty_barrier(c) {
        CheckpointView { live_position: live, ..c }
    } else {
        CheckpointView {
            live_position: SourceView { delivery_digest: None, ..live },
            last_committed_token: None,
            ..c
        }
    }
}

proof fn lemma_block_at_self(history: Seq<BlockRef>, head: Option<BlockRef>, i: int)
    requires
        history_fault(history, head) is None,
        0 <= i < history.len(),
    ensures
        block_at(history, history[i].number) == Some(history[i]),
{
    law_valid_history_ascends(history, head);
    lemma_index_of(history, history[i].number, 0);
    let k = index_of(history, history[i].number, 0);
    if k > i {
        assert(history[i].number != history[i].number);
    } else if k < i {
        assert(history[k].number < history[i].number);
    }
}

proof fn lemma_merged_self(b: BlockRef)
    ensures
        merged_block(b, b) == Ok::<_, SubscriberError>(b),
{
}

proof fn lemma_completed_by_self(history: Seq<BlockRef>, head: Option<BlockRef>, from: int)
    requires
        history_fault(history, head) is None,
        0 <= from <= history.len(),
    ensures
        completed_by(history, history, from, history.take(from)) == Ok::<_, SubscriberError>(
            history,
        ),
    decreases history.len() - from,
{
    if from == history.len() {
        assert(history.take(from) =~= history);
    } else {
        lemma_block_at_self(history, head, from);
        lemma_merged_self(history[from]);
        assert(history.take(from).push(history[from]) =~= history.take(from + 1));
        lemma_completed_by_self(history, head, from + 1);
    }
}

proof fn lemma_no_recent_conflict(c: CheckpointView, from: int)
    requires
        0 <= from <= c.recent_inputs.len(),
        entries_error(c, from) is None,
    ensures
        recent_conflict(c.recent_inputs, c.canonical_history, from) is None,
    decreases c.recent_inputs.len() - from,
{
    if from < c.recent_inputs.len() {
        let entry = c.recent_inputs[from];
        assert(entry_error(c, entry) is None);
        assert(coverage_error(c, entry.coverage.block) is None);
        lemma_no_recent_conflict(c, from + 1);
    }
}

proof fn lemma_history_agrees(c: CheckpointView, bytes: Seq<u8>, sequence: SequenceVerdict)
    requires
        state_error(c, sequence) is None,
        c.coverage_head is Some,
    ensures
        resumed_history(resume_from(c, bytes)) == c.canonical_history,
        history_error("runtime resume", c.canonical_history, c.coverage_head) is None,
        completed_by(c.canonical_history, c.canonical_history, 0, Seq::empty()) == Ok::<
            _,
            SubscriberError,
        >(c.canonical_history),
        recent_conflict(c.recent_inputs, c.canonical_history, 0) is None,
{
    reveal(state_error);
    let history = c.canonical_history;
    assert(histories_error(c) is None);
    assert(history_error("coordinator", history, c.coverage_head) is None);
    assert(history_fault(history, c.coverage_head) is None);
    law_valid_history_ascends(history, c.coverage_head);
    assert(history.take(0) =~= Seq::<BlockRef>::empty());
    lemma_completed_by_self(history, c.coverage_head, 0);
    assert(entries_error(c, 0) is None);
    lemma_no_recent_conflict(c, 0);
}

proof fn lemma_token_agrees(c: CheckpointView, bytes: Seq<u8>, sequence: SequenceVerdict)
    requires
        state_error(c, sequence) is None,
        c.last_committed_token is Some,
        synthetic_follows(c),
    ensures
        restore_token_error(c, resume_from(c, bytes).delivery_token) is None,
{
    reveal(state_error);
    let token = c.last_committed_token->Some_0;
    assert(token_error(c) is None);
    law_token_round_trip(c.epoch, token.source, token.kind, token.inner);
    if token.kind == HybridTokenKind::Synthetic {
        lemma_word_bytes_join((c.next_synthetic_token - 1) as u64);
    }
}

proof fn lemma_without_live_cursor_valid(c: CheckpointView, config: HybridConfig, sequence: SequenceVerdict)
    requires
        state_error(c, sequence) is None,
        config_limits_error(config, c, true) is None,
    ensures
        state_error(without_live_cursor(c), sequence) is None,
        config_limits_error(config, without_live_cursor(c), true) is None,
        config_limits_error(config, c, false) is None,
{
    reveal(state_error);
    let n = without_live_cursor(c);
    assert(topology_error(n) == topology_error(c));
    lemma_entries_same(c, n, 0);
    assert(source_error("historical source", n.historical_position, n) == source_error(
        "historical source",
        c.historical_position,
        c,
    ));
    assert(source_error("live source", n.live_position, n) is None);
    assert(token_error(n) is None);
}

proof fn lemma_entries_same(a: CheckpointView, b: CheckpointView, from: int)
    requires
        a.recent_inputs == b.recent_inputs,
        a.chain_id == b.chain_id,
        a.owner_generations == b.owner_generations,
        a.lifecycle_generation == b.lifecycle_generation,
        a.coverage_head == b.coverage_head,
        a.canonical_history == b.canonical_history,
        0 <= from,
    ensures
        entries_error(a, from) == entries_error(b, from),
    decreases a.recent_inputs.len() - from,
{
    if from < a.recent_inputs.len() {
        let entry = a.recent_inputs[from];
        assert forall|i: int| 0 <= i < entry.coverage.owners.len() implies
            crate::validate::bad_coverage(a, #[trigger] entry.coverage.owners[i])
            == crate::validate::bad_coverage(b, entry.coverage.owners[i]) by {}
        assert(entry_error(a, entry) == entry_error(b, entry));
        lemma_entries_same(a, b, from + 1);
    }
}

/// The checkpoint of a valid state, restored from the position that it was
/// handed out with, gives the state back: as it was, where the live source can
/// replay; without its live cursor, and under a new epoch unless the last token
/// was that of an empty topology, where it cannot.
pub proof fn law_restore_gives_back_the_state(
    c: CheckpointView,
    config: HybridConfig,
    sequence: SequenceVerdict,
    bytes: Seq<u8>,
)
    requires
        state_typed(c),
        config_limits_error(config, c, true) is None,
        encoded(c, sequence, MAX_CHECKPOINT_PAYLOAD_BYTES) == Ok::<_, SubscriberError>(bytes),
        c.coverage_head is Some,
        c.last_committed_token is Some,
        synthetic_follows(c),
    ensures
        decoded(bytes, sequence) == Ok::<_, SubscriberError>(c),
        normalized_candidate(
            c.chain_id,
            config,
            resume_from(c, bytes),
            c,
            true,
            sequence,
        ) == Ok::<_, SubscriberError>((c, false)),
        normalized_candidate(
            c.chain_id,
            config,
            resume_from(c, bytes),
            c,
            false,
            sequence,
        ) == Ok::<_, SubscriberError>((without_live_cursor(c), !is_empty_barrier(c))),
{
    let p = resume_from(c, bytes);
    law_checkpoint_round_trip(c, sequence, MAX_CHECKPOINT_PAYLOAD_BYTES);
    assert(state_error(c, sequence) is None);
    lemma_history_agrees(c, bytes, sequence);
    lemma_token_agrees(c, bytes, sequence);
    lemma_without_live_cursor_valid(c, config, sequence);
    lemma_merged_self(c.coverage_head->Some_0);
    assert(newest(c.canonical_history, config.canonical_history_capacity as nat)
        =~= c.canonical_history);
    assert(restored_history(c.chain_id, config, p, c, true) == Ok::<_, SubscriberError>(
        c.canonical_history,
    ));
    assert(restored_history(c.chain_id, config, p, c, false) == Ok::<_, SubscriberError>(
        c.canonical_history,
    ));
    assert(candidate_of(c.chain_id, config, p, c, true) == Ok::<_, SubscriberError>((c, false)));
    assert(candidate_of(c.chain_id, config, p, c, false) == Ok::<_, SubscriberError>(
        (without_live_cursor(c), !is_empty_barrier(c)),
    ));
}

/// A runtime that stored a delivery's checkpoint and token can resume from them:
/// with the topology prepared and room for one more delivery, the restore is
/// admitted, and installs exactly the state that acknowledging the delivery
/// would have led to.
pub proof fn law_restore_resumes_after_the_delivery(
    v: CoordView,
    w: CoordView,
    verdicts: RestoreVerdicts,
    epoch: Epoch,
)
    requires
        sound(v),
        v.in_flight is Some,
        acknowledged(v) is Ok,
        state_typed(acknowledged(v)->Ok_0.durable),
        acknowledged(v)->Ok_0.durable.coverage_head is Some,
        w.durable.chain_id == v.durable.chain_id,
        w.config == v.config,
        verdicts.stored == v.in_flight->Some_0.sequence,
        verdicts.candidate == v.in_flight->Some_0.sequence,
        restore_room_error(acknowledged(v)->Ok_0.durable, w.config, verdicts.probe) is None,
        w.prepared_position == Some(
            resume_from(
                acknowledged(v)->Ok_0.durable,
                v.in_flight->Some_0.output.subscriber_checkpoint->Some_0,
            ),
        ),
        w.durable.lifecycle_intent == acknowledged(v)->Ok_0.durable.lifecycle_intent,
    ensures
        ({
            let n = acknowledged(v)->Ok_0.durable;
            let p = resume_from(n, v.in_flight->Some_0.output.subscriber_checkpoint->Some_0);
            &&& p.delivery_token == v.in_flight->Some_0.output.delivery_token
            &&& restore_candidate(w, p, true, verdicts, epoch) == Ok::<_, SubscriberError>(n)
        }),
{
    reveal(flight_sound);
    let f = v.in_flight->Some_0;
    let n = acknowledged(v)->Ok_0.durable;
    let bytes = f.output.subscriber_checkpoint->Some_0;
    assert(state_after(v.durable, v.config, f.commit, f.sequence) == Ok::<_, SubscriberError>(n));
    lemma_state_after_fields(v.durable, v.config, f.commit, f.sequence);
    law_restore_gives_back_the_state(n, v.config, f.sequence, bytes);
}

proof fn lemma_state_after_fields(
    c: CheckpointView,
    config: HybridConfig,
    commit: crate::commit::CommitView,
    sequence: SequenceVerdict,
)
    ensures
        match state_after(c, config, commit, sequence) {
            Ok(n) => {
                &&& n.chain_id == c.chain_id
                &&& n.epoch == c.epoch
                &&& n.next_synthetic_token == c.next_synthetic_token
                &&& n.last_committed_token == Some(
                    TokenView {
                        source: commit.source,
                        kind: commit.token_kind,
                        inner: commit.token_bytes,
                    },
                )
                &&& config_limits_error(config, n, true) is None
                &&& state_error(n, sequence) is None
            },
            Err(_) => true,
        },
{
}

} // verus!
