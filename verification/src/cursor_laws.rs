//! What an acknowledged delivery leaves behind for its source.
use crate::checkpoint::{CheckpointView, HybridSource, HybridTokenKind, SourceView, TokenView};
use crate::commit::{
    ancestors_of, committed, other_committed, resets, source_advanced, source_committed,
    source_moved, CommitView,
};
use crate::config::HybridConfig;
use crate::delivery::{built, comes_again, outgoing, quiet};
use crate::error::SubscriberError;
use crate::filter::{commit_ids, filtered, state_after, MergeView};
use crate::fit::law_fit_keeps_protected_suffix;
use crate::flow::acknowledged;
use crate::history::{seeded_all, CanonicalMutation};
use crate::identities::distinct;
use crate::ingress::BufferedView;
use crate::restore::{restore_for, source_resume};
use crate::state::{CoordView, PositionView};
use crate::token::{law_token_round_trip, unwrapped, UnwrappedView};
use crate::validate::{block_at, lemma_index_of, SequenceVerdict};
use crate::words::word_bytes;
use vstd::prelude::*;

verus! {

/// The position of a source in a state.
pub open spec fn position_of(c: CheckpointView, source: HybridSource) -> SourceView {
    match source {
        HybridSource::Historical => c.historical_position,
        HybridSource::Live => c.live_position,
    }
}

/// The other source.
pub open spec fn other_of(source: HybridSource) -> HybridSource {
    match source {
        HybridSource::Historical => HybridSource::Live,
        HybridSource::Live => HybridSource::Historical,
    }
}

/// Whether mutations only go forward.
pub open spec fn only_forward(mutations: Seq<CanonicalMutation>) -> bool {
    forall|i: int| 0 <= i < mutations.len() ==> (#[trigger] mutations[i]) is Advance
}

// ---------------------------------------------------------------------------
// Handing out
// ---------------------------------------------------------------------------

/// A delivery is committed for the source that handed it in, with its token, its
/// cursor and its digest as they came. It is handed out under a token that names
/// the source, and what that source is told: its own token, or, where it has
/// none, the next number of the coordinator, which is then used up.
pub proof fn law_delivery_keeps_what_its_source_handed_in(
    v: CoordView,
    source: HybridSource,
    b: BufferedView,
    merges: Seq<MergeView>,
    sequence: SequenceVerdict,
)
    ensures
        match built(v, source, b, merges, sequence) {
            Ok(Some((durable, f))) => {
                &&& f.commit.source == source
                &&& f.commit.source_token == b.token
                &&& f.commit.source_checkpoint == b.checkpoint
                &&& f.commit.source_delivery_digest == b.delivery_digest
                &&& f.sequence == sequence
                &&& b.token is Some ==> f.commit.token_kind == HybridTokenKind::Forwarded
                    && f.commit.token_bytes == b.token->Some_0 && durable == v.durable
                &&& b.token is None ==> f.commit.token_kind == HybridTokenKind::Synthetic
                    && f.commit.token_bytes == word_bytes(v.durable.next_synthetic_token)
                    && durable.next_synthetic_token == v.durable.next_synthetic_token + 1
                    && durable == (CheckpointView {
                    next_synthetic_token: durable.next_synthetic_token,
                    ..v.durable
                })
                &&& f.output.delivery_token is Some
                &&& unwrapped(f.output.delivery_token->Some_0) == Ok::<_, SubscriberError>(
                    UnwrappedView {
                        epoch: v.durable.epoch,
                        source,
                        kind: f.commit.token_kind,
                        inner: f.commit.token_bytes,
                    },
                )
            },
            _ => true,
        },
{
    reveal(outgoing);
    if let Ok(Some((durable, f))) = built(v, source, b, merges, sequence) {
        law_token_round_trip(
            v.durable.epoch,
            source,
            f.commit.token_kind,
            f.commit.token_bytes,
        );
    }
}

/// Whether a batch carries a token that its source had committed last.
pub open spec fn is_repeat(v: CoordView, source: HybridSource, b: BufferedView) -> bool {
    b.token is Some && position_of(v.durable, source).delivery_token == b.token
}

/// A new batch is handed out with all its controls and with what is owed of its
/// records; it leads to the history and the heads that were planned. Nothing is
/// handed out only where nothing is owed, nothing is said of the chain, and no
/// token waits for an acknowledgement.
pub proof fn law_new_batch_is_handed_out_whole(
    v: CoordView,
    source: HybridSource,
    b: BufferedView,
    merges: Seq<MergeView>,
    sequence: SequenceVerdict,
)
    requires
        !is_repeat(v, source, b),
    ensures
        match built(v, source, b, merges, sequence) {
            Ok(Some((_, f))) => {
                &&& filtered(v.durable, b.records, merges) == Ok::<_, SubscriberError>(
                    (f.output.deliveries, f.commit.audiences),
                )
                &&& f.output.chain_controls == b.controls
                &&& f.output.deliveries.len() > 0 || b.controls.len() > 0 || b.token is Some
                &&& f.commit.canonical == b.canonical
                &&& f.commit.next_canonical_history == b.next_canonical_history
                &&& f.commit.next_coverage_head == b.next_coverage_head
                &&& f.commit.next_safe_head == b.next_safe_head
                &&& f.commit.next_finalized_head == b.next_finalized_head
                &&& b.source_progress is Some ==> f.commit.source_progress == b.source_progress
            },
            Ok(None) => {
                &&& filtered(v.durable, b.records, merges) is Ok
                &&& filtered(v.durable, b.records, merges)->Ok_0.0.len() == 0
                &&& b.controls.len() == 0
                &&& b.token is None
            },
            Err(_) => true,
        },
{
    reveal(outgoing);
    assert(!comes_again(v.durable, source, b));
}

/// A batch under the token that its source had committed last is only accepted
/// as a repeat: with the digest that was committed, and once after a restore. It
/// then changes neither history nor heads, and hands out nothing but its token.
pub proof fn law_repeated_batch_moves_nothing(
    v: CoordView,
    source: HybridSource,
    b: BufferedView,
    merges: Seq<MergeView>,
    sequence: SequenceVerdict,
)
    requires
        is_repeat(v, source, b),
    ensures
        match built(v, source, b, merges, sequence) {
            Ok(r) => {
                &&& position_of(v.durable, source).delivery_digest == Some(b.delivery_digest)
                &&& source == HybridSource::Historical ==> v.replay_historical
                &&& source == HybridSource::Live ==> v.replay_live
                &&& r is Some
                &&& r->Some_0.1.output.deliveries.len() == 0
                &&& r->Some_0.1.output.chain_controls.len() == 0
                &&& r->Some_0.1.commit.audiences.len() == 0
                &&& r->Some_0.1.commit.canonical.len() == 0
                &&& r->Some_0.1.commit.next_canonical_history == v.durable.canonical_history
                &&& r->Some_0.1.commit.next_coverage_head == v.durable.coverage_head
                &&& r->Some_0.1.commit.next_safe_head == v.durable.safe_head
                &&& r->Some_0.1.commit.next_finalized_head == v.durable.finalized_head
            },
            Err(_) => true,
        },
        position_of(v.durable, source).delivery_digest != Some(b.delivery_digest) ==> built(
            v,
            source,
            b,
            merges,
            sequence,
        ) is Err,
        !(if source == HybridSource::Historical {
            v.replay_historical
        } else {
            v.replay_live
        }) ==> built(v, source, b, merges, sequence) is Err,
{
    reveal(outgoing);
    assert(comes_again(v.durable, source, b));
}

/// A delivery is observed through the block, of the history that it leads to or
/// its head, at the greatest height that its batch covers; through none where it
/// covers none, or that block is not known.
pub proof fn law_observed_block_is_at_the_covered_height(
    v: CoordView,
    source: HybridSource,
    b: BufferedView,
    merges: Seq<MergeView>,
    sequence: SequenceVerdict,
)
    ensures
        match built(v, source, b, merges, sequence) {
            Ok(Some((_, f))) => {
                let h = f.commit.next_canonical_history;
                let head = f.commit.next_coverage_head;
                let seen = f.commit.source_observed_through;
                &&& seen is Some ==> Some(seen->Some_0.number) == b.max_canonical_block && (
                h.contains(seen->Some_0) || head == seen)
                &&& b.max_canonical_block is Some && (exists|i: int|
                    0 <= i < h.len() && (#[trigger] h[i]).number == b.max_canonical_block->Some_0)
                    ==> seen is Some && h.contains(seen->Some_0)
                &&& b.max_canonical_block is Some && head is Some && head->Some_0.number
                    == b.max_canonical_block->Some_0 ==> seen is Some
            },
            _ => true,
        },
{
    reveal(outgoing);
    if let Ok(Some((_, f))) = built(v, source, b, merges, sequence) {
        if b.max_canonical_block is Some {
            let h = f.commit.next_canonical_history;
            let number = b.max_canonical_block->Some_0;
            lemma_index_of(h, number, 0);
            let at = crate::validate::index_of(h, number, 0);
            if at < h.len() {
                assert(block_at(h, number) == Some(h[at]));
                assert(h.contains(h[at]));
            }
        }
    }
}

// ---------------------------------------------------------------------------
// Committing
// ---------------------------------------------------------------------------

proof fn lemma_moved_keeps_cursor(s: SourceView, mutations: Seq<CanonicalMutation>, capacity: nat)
    ensures
        match source_moved(s, mutations, capacity) {
            Ok(r) => r.delivery_token == s.delivery_token && r.checkpoint == s.checkpoint
                && r.delivery_digest == s.delivery_digest,
            Err(_) => true,
        },
{
}

proof fn lemma_committed_cursor(s: SourceView, commit: CommitView, capacity: nat)
    ensures
        match source_committed(s, commit, capacity) {
            Ok(r) => r.delivery_token == commit.source_token && r.checkpoint
                == commit.source_checkpoint && r.delivery_digest == Some(
                commit.source_delivery_digest,
            ),
            Err(_) => true,
        },
{
    let named = SourceView {
        delivery_token: commit.source_token,
        checkpoint: commit.source_checkpoint,
        delivery_digest: Some(commit.source_delivery_digest),
        ..s
    };
    lemma_moved_keeps_cursor(named, commit.canonical, capacity);
    if let Ok(a) = source_moved(named, commit.canonical, capacity) {
        if let Some(block) = commit.source_progress {
            lemma_moved_keeps_cursor(a, seq![CanonicalMutation::Advance(block)], capacity);
        }
        if let Ok(b) = source_advanced(a, commit.source_progress, false, capacity) {
            if let Some(block) = commit.source_observed_through {
                lemma_moved_keeps_cursor(b, seq![CanonicalMutation::Advance(block)], capacity);
            }
        }
    }
}

proof fn lemma_forward(mutations: Seq<CanonicalMutation>)
    requires
        only_forward(mutations),
    ensures
        ancestors_of(mutations).len() == 0,
        !resets(mutations),
    decreases mutations.len(),
{
    if mutations.len() > 0 {
        let front = mutations.drop_last();
        assert(only_forward(front)) by {
            assert forall|i: int| 0 <= i < front.len() implies (#[trigger] front[i]) is Advance by {
                assert(front[i] == mutations[i]);
            }
        }
        lemma_forward(front);
        assert(mutations[mutations.len() - 1] is Advance);
    }
    if resets(mutations) {
        let i = choose|i: int| 0 <= i < mutations.len() && mutations[i] == CanonicalMutation::Reset;
        assert(mutations[i] is Advance);
    }
}

proof fn lemma_committed_fields(c: CheckpointView, commit: CommitView, capacity: nat)
    requires
        committed(c, commit, capacity) is Ok,
    ensures
        ({
            let n = committed(c, commit, capacity)->Ok_0;
            let mine = position_of(n, commit.source);
            &&& mine.delivery_token == commit.source_token
            &&& mine.checkpoint == commit.source_checkpoint
            &&& mine.delivery_digest == Some(commit.source_delivery_digest)
            &&& only_forward(commit.canonical) ==> position_of(n, other_of(commit.source))
                == position_of(c, other_of(commit.source))
            &&& n.canonical_history == commit.next_canonical_history
            &&& n.coverage_head == commit.next_coverage_head
            &&& n.safe_head == commit.next_safe_head
            &&& n.finalized_head == commit.next_finalized_head
            &&& n.last_committed_token == Some(
                TokenView {
                    source: commit.source,
                    kind: commit.token_kind,
                    inner: commit.token_bytes,
                },
            )
            &&& n.chain_id == c.chain_id
            &&& n.epoch == c.epoch
            &&& n.next_synthetic_token == c.next_synthetic_token
            &&& n.lifecycle_generation == c.lifecycle_generation
            &&& n.owner_generations == c.owner_generations
            &&& n.lifecycle_intent == c.lifecycle_intent
        }),
{
    let mine = c.position(commit.source);
    let other = c.position(
        if commit.source == HybridSource::Live {
            HybridSource::Historical
        } else {
            HybridSource::Live
        },
    );
    let seeded = seeded_all(mine, ancestors_of(commit.canonical), 0, capacity)->Ok_0;
    lemma_committed_cursor(seeded, commit, capacity);
    if only_forward(commit.canonical) {
        lemma_forward(commit.canonical);
        assert(other_committed(other, commit, capacity) == Ok::<_, SubscriberError>(other));
    }
}

proof fn lemma_state_after(
    c: CheckpointView,
    config: HybridConfig,
    commit: CommitView,
    sequence: SequenceVerdict,
)
    requires
        state_after(c, config, commit, sequence) is Ok,
    ensures
        committed(c, commit, config.canonical_history_capacity as nat) is Ok,
        ({
            let n = state_after(c, config, commit, sequence)->Ok_0;
            let d = committed(c, commit, config.canonical_history_capacity as nat)->Ok_0;
            n == (CheckpointView { recent_inputs: n.recent_inputs, ..d })
        }),
{
    let d = committed(c, commit, config.canonical_history_capacity as nat)->Ok_0;
    law_fit_keeps_protected_suffix(
        d,
        distinct(commit_ids(commit.audiences)),
        config.recent_input_capacity as nat,
        config.max_recent_owner_entries as nat,
        sequence,
    );
}

/// Once a delivery is committed, the position of its source holds the token, the
/// cursor and the digest that it came with, and the history and heads are those
/// that it leads to. The lifecycle stays, and so does the position of the other
/// source, unless the delivery takes something back.
pub proof fn law_commit_takes_over_the_cursor(
    c: CheckpointView,
    config: HybridConfig,
    commit: CommitView,
    sequence: SequenceVerdict,
)
    ensures
        match state_after(c, config, commit, sequence) {
            Ok(n) => {
                let mine = position_of(n, commit.source);
                &&& mine.delivery_token == commit.source_token
                &&& mine.checkpoint == commit.source_checkpoint
                &&& mine.delivery_digest == Some(commit.source_delivery_digest)
                &&& only_forward(commit.canonical) ==> position_of(n, other_of(commit.source))
                    == position_of(c, other_of(commit.source))
                &&& n.canonical_history == commit.next_canonical_history
                &&& n.coverage_head == commit.next_coverage_head
                &&& n.safe_head == commit.next_safe_head
                &&& n.finalized_head == commit.next_finalized_head
                &&& n.last_committed_token == Some(
                    TokenView {
                        source: commit.source,
                        kind: commit.token_kind,
                        inner: commit.token_bytes,
                    },
                )
                &&& n.chain_id == c.chain_id
                &&& n.epoch == c.epoch
                &&& n.next_synthetic_token == c.next_synthetic_token
                &&& n.lifecycle_generation == c.lifecycle_generation
                &&& n.owner_generations == c.owner_generations
                &&& n.lifecycle_intent == c.lifecycle_intent
            },
            Err(_) => true,
        },
{
    if state_after(c, config, commit, sequence) is Ok {
        lemma_state_after(c, config, commit, sequence);
        lemma_committed_fields(c, commit, config.canonical_history_capacity as nat);
    }
}

/// Acknowledging changes the durable state to what committing the delivery gives
/// and to nothing else.
pub proof fn law_acknowledging_commits_the_delivery(v: CoordView)
    requires
        v.in_flight is Some,
    ensures
        match acknowledged(v) {
            Ok(n) => state_after(
                v.durable,
                v.config,
                v.in_flight->Some_0.commit,
                v.in_flight->Some_0.sequence,
            ) == Ok::<_, SubscriberError>(n.durable) && n.in_flight is None && n.config == v.config
                && n.live_buffer == v.live_buffer && n.owners == v.owners && n.base_interests
                == v.base_interests && n.rollback == v.rollback,
            Err(e) => state_after(
                v.durable,
                v.config,
                v.in_flight->Some_0.commit,
                v.in_flight->Some_0.sequence,
            ) == Err::<CheckpointView, _>(e),
        },
{
}

// ---------------------------------------------------------------------------
// Resuming
// ---------------------------------------------------------------------------

/// A source that has covered something is told to resume with its token and its
/// cursor, at the head and over the history that it covered; one that has not is
/// told nothing.
pub proof fn law_resume_carries_the_cursor(chain_id: u64, s: SourceView)
    ensures
        source_resume(chain_id, s) is Some <==> s.coverage_head is Some,
        match source_resume(chain_id, s) {
            Some(p) => {
                &&& p.chain_id == chain_id
                &&& p.delivery_token == s.delivery_token
                &&& p.subscriber_checkpoint == s.checkpoint
                &&& Some(p.coverage_head) == s.coverage_head
                &&& s.canonical_history.len() > 0 ==> p.canonical_history == s.canonical_history
                &&& s.canonical_history.len() == 0 ==> p.canonical_history.len() == 1
                    && p.canonical_history[0] == p.coverage_head
            },
            None => true,
        },
{
}

/// A restore tells the historical source, and a live source that can replay, to
/// resume where the restored state says that it stands; a source that is told
/// nothing counts as restored.
pub proof fn law_restore_tells_each_source_where_it_stands(
    chain_id: u64,
    p: PositionView,
    c: CheckpointView,
    live_is_durable: bool,
)
    ensures
        ({
            let r = restore_for(chain_id, p, c, live_is_durable);
            &&& r.position == p
            &&& r.state == c
            &&& r.historical_resume == source_resume(chain_id, c.historical_position)
            &&& r.live_resume == (if live_is_durable {
                source_resume(chain_id, c.live_position)
            } else {
                None
            })
            &&& r.historical_restored <==> r.historical_resume is None
            &&& r.live_restored <==> r.live_resume is None
        }),
{
}

/// The cursor that a source handed in with a delivery comes back to it: once the
/// delivery is acknowledged, a restart from that state tells the source to
/// resume with exactly the token and the cursor that the delivery came with.
pub proof fn law_restart_gives_the_cursor_back(
    v: CoordView,
    source: HybridSource,
    b: BufferedView,
    merges: Seq<MergeView>,
    sequence: SequenceVerdict,
    p: PositionView,
    live_is_durable: bool,
)
    requires
        built(v, source, b, merges, sequence) is Ok,
        built(v, source, b, merges, sequence)->Ok_0 is Some,
        source == HybridSource::Historical || live_is_durable,
    ensures
        ({
            let (durable, f) = built(v, source, b, merges, sequence)->Ok_0->Some_0;
            let waiting = CoordView { durable, in_flight: Some(f), ..quiet(v, source) };
            match acknowledged(waiting) {
                Ok(n) => {
                    let mine = position_of(n.durable, source);
                    let r = restore_for(v.durable.chain_id, p, n.durable, live_is_durable);
                    let resume = if source == HybridSource::Historical {
                        r.historical_resume
                    } else {
                        r.live_resume
                    };
                    &&& mine.delivery_token == b.token
                    &&& mine.checkpoint == b.checkpoint
                    &&& mine.delivery_digest == Some(b.delivery_digest)
                    &&& resume is Some <==> mine.coverage_head is Some
                    &&& resume is Some ==> resume->Some_0.subscriber_checkpoint == b.checkpoint
                        && resume->Some_0.delivery_token == b.token
                },
                Err(_) => true,
            }
        }),
{
    let (durable, f) = built(v, source, b, merges, sequence)->Ok_0->Some_0;
    let waiting = CoordView { durable, in_flight: Some(f), ..quiet(v, source) };
    law_delivery_keeps_what_its_source_handed_in(v, source, b, merges, sequence);
    law_acknowledging_commits_the_delivery(waiting);
    law_commit_takes_over_the_cursor(waiting.durable, waiting.config, f.commit, f.sequence);
}

} // verus!
