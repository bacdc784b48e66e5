//! What counts as covered, what is let in, and what a coordinator starts from.
use crate::audience::DeliveryScope;
use crate::checkpoint::{CertifiedHistoricalCoverage, CheckpointView, HybridSource, SourceView};
use crate::codec::{half_bytes, lemma_half_join};
use crate::commit::{ancestors_of, committed, uncertified, CommitView};
use crate::config::HybridConfig;
use crate::flow::{historical_admitted, live_admitted};
use crate::history::CanonicalMutation;
use crate::ingress::{admitted, BatchView};
use crate::intent::empty_fingerprint;
use crate::model::BlockRef;
use crate::overlap::{batch_recovered, catchup_error, overlap_error};
use crate::records::{canonical_block, RoutedView};
use crate::recovery_laws::{agree, law_accounts_join_where_they_agree};
use crate::state::{CoordView, HybridPhase};
use crate::subscriber::{epoch_seed, started};
use crate::words::{lemma_word_bytes_join, word_bytes, Epoch};
use vstd::prelude::*;

verus! {

// ---------------------------------------------------------------------------
// Certified coverage
// ---------------------------------------------------------------------------

/// Whether a commit takes back a block at this height, or everything.
pub open spec fn takes_back_below(commit: CommitView, height: u64) -> bool {
    exists|i: int|
        0 <= i < commit.canonical.len() && match #[trigger] commit.canonical[i] {
            CanonicalMutation::Advance(_) => false,
            CanonicalMutation::Rewind(ancestor) => ancestor.number < height,
            CanonicalMutation::Reset => true,
        }
}

proof fn lemma_ancestors(s: Seq<CanonicalMutation>, b: BlockRef)
    ensures
        ancestors_of(s).contains(b) <==> s.contains(CanonicalMutation::Rewind(b)),
    decreases s.len(),
{
    if s.len() > 0 {
        let front = s.drop_last();
        lemma_ancestors(front, b);
        assert(s =~= front.push(s.last()));
        if s.contains(CanonicalMutation::Rewind(b)) {
            let i = choose|i: int| 0 <= i < s.len() && s[i] == CanonicalMutation::Rewind(b);
            if i < front.len() {
                assert(front[i] == s[i]);
            }
        }
        if front.contains(CanonicalMutation::Rewind(b)) {
            let i = choose|i: int| 0 <= i < front.len() && front[i] == CanonicalMutation::Rewind(b);
            assert(s[i] == front[i]);
        }
        if let CanonicalMutation::Rewind(ancestor) = s.last() {
            let a = ancestors_of(front);
            assert(ancestors_of(s) == a.push(ancestor));
            if a.contains(b) {
                let i = choose|i: int| 0 <= i < a.len() && a[i] == b;
                assert(a.push(ancestor)[i] == b);
            }
            if a.push(ancestor).contains(b) {
                let i = choose|i: int|
                    0 <= i < a.push(ancestor).len() && a.push(ancestor)[i] == b;
                if i < a.len() {
                    assert(a[i] == b);
                }
            }
            assert(a.push(ancestor)[a.len() as int] == ancestor);
        }
    }
}

proof fn lemma_uncertified(certified: CertifiedHistoricalCoverage, commit: CommitView)
    ensures
        uncertified(Some(certified), commit.canonical) <==> takes_back_below(
            commit,
            certified.through.number,
        ),
{
    let s = commit.canonical;
    let a = ancestors_of(s);
    if takes_back_below(commit, certified.through.number) {
        let i = choose|i: int|
            0 <= i < s.len() && match #[trigger] s[i] {
                CanonicalMutation::Advance(_) => false,
                CanonicalMutation::Rewind(ancestor) => ancestor.number < certified.through.number,
                CanonicalMutation::Reset => true,
            };
        if let CanonicalMutation::Rewind(ancestor) = s[i] {
            lemma_ancestors(s, ancestor);
            assert(a.contains(ancestor));
            let j = choose|j: int| 0 <= j < a.len() && a[j] == ancestor;
            assert(certified.through.number > a[j].number);
        }
    }
    if exists|i: int|
        0 <= i < a.len() && certified.through.number > (#[trigger] a[i]).number {
        let i = choose|i: int|
            0 <= i < a.len() && certified.through.number > (#[trigger] a[i]).number;
        lemma_ancestors(s, a[i]);
        let j = choose|j: int| 0 <= j < s.len() && s[j] == CanonicalMutation::Rewind(a[i]);
        assert(s[j] == CanonicalMutation::Rewind(a[i]));
    }
}

/// Coverage is certified by the historical source alone, as far as it says that
/// it observed, in the lifecycle that the state is in; what was certified before
/// in this lifecycle stays where it reaches further, unless blocks below it were
/// taken back.
pub proof fn law_certificate_is_what_the_historical_source_proved(
    c: CheckpointView,
    commit: CommitView,
    capacity: nat,
)
    requires
        committed(c, commit, capacity) is Ok,
    ensures
        ({
            let n = committed(c, commit, capacity)->Ok_0.certified_historical;
            let known = c.certified_historical->Some_0;
            let kept = c.certified_historical is Some && !takes_back_below(
                commit,
                known.through.number,
            );
            let proved = commit.source == HybridSource::Historical
                && commit.source_observed_through is Some;
            let through = commit.source_observed_through->Some_0;
            let stands = kept && known.lifecycle_generation == c.lifecycle_generation;
            &&& !proved && kept ==> n == c.certified_historical
            &&& !proved && !kept ==> n is None
            &&& proved ==> n is Some && n->Some_0.lifecycle_generation == c.lifecycle_generation
            &&& proved && stands && known.through.number > through.number ==> n->Some_0.through
                == known.through
            &&& proved && stands && known.through.number == through.number ==> agree(
                known.through,
                through,
            ) && n->Some_0.through.number == through.number && n->Some_0.through.hash
                == through.hash
            &&& proved && !(stands && known.through.number >= through.number)
                ==> n->Some_0.through == through
        }),
{
    if c.certified_historical is Some {
        lemma_uncertified(c.certified_historical->Some_0, commit);
        law_accounts_join_where_they_agree(
            c.certified_historical->Some_0.through,
            commit.source_observed_through->Some_0,
        );
    }
}

// ---------------------------------------------------------------------------
// What is let in
// ---------------------------------------------------------------------------

/// A batch may hold as much as the live buffer may, no more owners than are
/// remembered, and no longer a token or a cursor than a source may have.
pub proof fn law_batch_limits_are_those_of_the_configuration(config: HybridConfig)
    ensures
        config.spec_ingress().max_records == config.max_buffered_live_records,
        config.spec_ingress().max_accounted_bytes == config.max_buffered_live_bytes,
        config.spec_ingress().max_delivery_token_bytes == config.max_source_delivery_token_bytes,
        config.spec_ingress().max_checkpoint_bytes == config.max_source_checkpoint_bytes,
        config.spec_ingress().max_projected_owner_associations == config.max_recent_owner_entries,
{
}

/// Whether every record that only catches an owner up is at a retained block.
pub open spec fn catches_up_within(c: CheckpointView, records: Seq<RoutedView>) -> bool {
    forall|i: int|
        0 <= i < records.len() && (#[trigger] records[i]).scope == DeliveryScope::OwnerCatchup
            ==> canonical_block(records[i].record.context) is Some && overlap_error(
            c,
            canonical_block(records[i].record.context)->Some_0,
        ) is None
}

proof fn lemma_catches_up(c: CheckpointView, records: Seq<RoutedView>, from: int)
    requires
        0 <= from <= records.len(),
    ensures
        catchup_error(c, records, from) is None <==> forall|i: int|
            from <= i < records.len() && (#[trigger] records[i]).scope
                == DeliveryScope::OwnerCatchup ==> canonical_block(records[i].record.context)
                is Some && overlap_error(
                c,
                canonical_block(records[i].record.context)->Some_0,
            ) is None,
    decreases records.len() - from,
{
    if from < records.len() {
        lemma_catches_up(c, records, from + 1);
    }
}

/// A batch of the live source is let in exactly where the source is on the chain,
/// the batch can be admitted within the limits, and every record that only
/// catches an owner up is at a retained block; it is then what was admitted.
pub proof fn law_live_batch_is_let_in(v: CoordView, batch: BatchView, observed: Option<u64>)
    ensures
        ({
            let a = admitted(
                batch,
                v.durable.chain_id,
                v.config.spec_ingress(),
                v.durable.owner_generations,
            );
            let r = live_admitted(v, batch, observed);
            &&& r is Ok <==> observed == Some(v.durable.chain_id) && a is Ok && catches_up_within(
                v.durable,
                a->Ok_0.records,
            )
            &&& r is Ok ==> r->Ok_0 == a->Ok_0
        }),
{
    let a = admitted(
        batch,
        v.durable.chain_id,
        v.config.spec_ingress(),
        v.durable.owner_generations,
    );
    if a is Ok {
        lemma_catches_up(v.durable, a->Ok_0.records, 0);
    }
}

/// A batch of the historical source is let in exactly where the source is on the
/// chain, the batch can be admitted within the limits, every record that only
/// catches an owner up is at a retained block, and the gap that is being filled
/// lets it; without a gap it is what was admitted.
pub proof fn law_historical_batch_is_let_in(v: CoordView, batch: BatchView, observed: Option<u64>)
    ensures
        ({
            let a = admitted(
                batch,
                v.durable.chain_id,
                v.config.spec_ingress(),
                v.durable.owner_generations,
            );
            let r = historical_admitted(v, batch, observed);
            let filled = batch_recovered(v.durable, v.recovery_anchor, a->Ok_0);
            &&& r is Ok <==> observed == Some(v.durable.chain_id) && a is Ok && catches_up_within(
                v.durable,
                a->Ok_0.records,
            ) && filled is Ok
            &&& r is Ok ==> r == filled
            &&& r is Ok && v.recovery_anchor is None ==> r->Ok_0.0 is None && r->Ok_0.1 == a->Ok_0
        }),
{
    let a = admitted(
        batch,
        v.durable.chain_id,
        v.config.spec_ingress(),
        v.durable.owner_generations,
    );
    if a is Ok {
        lemma_catches_up(v.durable, a->Ok_0.records, 0);
    }
}

// ---------------------------------------------------------------------------
// Beginnings
// ---------------------------------------------------------------------------

/// Whether nothing is known of a source.
pub open spec fn never_heard(s: SourceView) -> bool {
    &&& s.delivery_token is None
    &&& s.checkpoint is None
    &&& s.coverage_head is None
    &&& s.canonical_history.len() == 0
    &&& s.delivery_digest is None
}

/// A new coordinator has delivered, covered and remembered nothing, is
/// interested in nothing, and is in the first generation, live.
pub proof fn law_coordinator_starts_empty(chain_id: u64, config: HybridConfig, epoch: Epoch)
    ensures
        ({
            let n = started(chain_id, config, epoch);
            &&& n.config == config
            &&& n.durable.chain_id == chain_id
            &&& n.durable.epoch == epoch
            &&& n.durable.next_synthetic_token == 1
            &&& n.durable.lifecycle_generation == 1
            &&& n.durable.owner_generations.len() == 0
            &&& n.durable.lifecycle_intent.base == empty_fingerprint()
            &&& n.durable.lifecycle_intent.owners.len() == 0
            &&& n.durable.recent_inputs.len() == 0
            &&& n.durable.canonical_history.len() == 0
            &&& n.durable.coverage_head is None
            &&& n.durable.safe_head is None
            &&& n.durable.finalized_head is None
            &&& n.durable.certified_historical is None
            &&& n.durable.last_committed_token is None
            &&& never_heard(n.durable.historical_position)
            &&& never_heard(n.durable.live_position)
            &&& n.phase == HybridPhase::Live
            &&& n.base_interests.len() == 0
            &&& n.owners.len() == 0
            &&& n.live_buffer.len() == 0
            &&& n.buffered_live_records == 0
            &&& n.buffered_live_bytes == 0
            &&& n.in_flight is None
            &&& n.rollback is None
            &&& n.fence is None
            &&& n.drain_through is None
            &&& n.pending_cutover is None
            &&& n.acknowledged_historical_through is None
            &&& n.recovery_anchor is None
            &&& n.pending_restore is None
            &&& n.pending_preparation is None
            &&& n.prepared_position is None
            &&& n.poisoned is None
            &&& !n.replay_historical
            &&& !n.replay_live
        }),
{
}

/// Two epochs come from the same seed only where the time, the process and the
/// number are the same.
pub proof fn law_seed_tells_time_process_and_number(
    now: u128,
    process: u32,
    nonce: u64,
    later: u128,
    other: u32,
    next: u64,
)
    requires
        epoch_seed(now, process, nonce) == epoch_seed(later, other, next),
    ensures
        now == later,
        process == other,
        nonce == next,
{
    let (a, b) = (word_bytes((now >> 64) as u64), word_bytes((later >> 64) as u64));
    let (c, d) = (word_bytes(now as u64), word_bytes(later as u64));
    let (e, f) = (half_bytes(process), half_bytes(other));
    let (g, h) = (word_bytes(nonce), word_bytes(next));
    let s = epoch_seed(now, process, nonce);
    assert(a =~= s.take(8) && b =~= epoch_seed(later, other, next).take(8));
    assert(c =~= s.subrange(8, 16) && d =~= epoch_seed(later, other, next).subrange(8, 16));
    assert(e =~= s.subrange(16, 20) && f =~= epoch_seed(later, other, next).subrange(16, 20));
    assert(g =~= s.subrange(20, 28) && h =~= epoch_seed(later, other, next).subrange(20, 28));
    lemma_word_bytes_join((now >> 64) as u64);
    lemma_word_bytes_join((later >> 64) as u64);
    lemma_word_bytes_join(now as u64);
    lemma_word_bytes_join(later as u64);
    lemma_word_bytes_join(nonce);
    lemma_word_bytes_join(next);
    lemma_half_join(process);
    lemma_half_join(other);
    assert(now == later) by (bit_vector)
        requires
            (now >> 64) as u64 == (later >> 64) as u64,
            now as u64 == later as u64,
    ;
}

} // verus!
