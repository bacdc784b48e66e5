//! What holds of every state that is accepted, and of no other.
use crate::chain_laws::lemma_block_in;
use crate::checkpoint::{CheckpointView, HybridSource, HybridTokenKind, RecentView, SourceView};
use crate::config::{
    config_error, config_limits_error, HYBRID_MAX_CANONICAL_HISTORY, HYBRID_MAX_RECENT_INPUTS,
    HYBRID_MAX_RECENT_OWNER_ENTRIES, HYBRID_MAX_SOURCE_CHECKPOINT_BYTES,
    HYBRID_MAX_SOURCE_DELIVERY_TOKEN_BYTES, HybridConfig,
};
use crate::cursor_laws::position_of;
use crate::history::ascending;
use crate::identities::identities;
use crate::intent::empty_fingerprint;
use crate::limits_laws::owner_total;
use crate::model::{BlockRef, InputRef, ReactiveInputKind};
use crate::owners::{keys_of, lookup};
use crate::recovery_laws::{agree, law_accounts_join_where_they_agree};
use crate::subscriber::{combined, start_error, SourceProfile, SubscriberCapabilities};
use crate::validate::{
    bad_coverage, bad_generation, block_at, certified_error, conflict, entries_error, entry_error,
    histories_error, history_error, law_valid_history_ascends, link_fault, links_fault,
    source_error, state_error, token_error, topology_error, SequenceVerdict,
};
use vstd::prelude::*;

verus! {

// ---------------------------------------------------------------------------
// Histories
// ---------------------------------------------------------------------------

/// Whether neighbours in a history fit: the later one is higher, and where it
/// follows directly and names a parent, it names the earlier one.
pub open spec fn links_fit(history: Seq<BlockRef>) -> bool {
    forall|i: int|
        0 < i < history.len() ==> {
            &&& (#[trigger] history[i]).number > history[i - 1].number
            &&& history[i].number == history[i - 1].number + 1 && history[i].parent_hash is Some
                ==> history[i].parent_hash->Some_0 == history[i - 1].hash
        }
}

/// Whether a history fits its head: both are there or neither is, neighbours
/// fit, and the last block is the head.
pub open spec fn history_fits(history: Seq<BlockRef>, head: Option<BlockRef>) -> bool {
    &&& head is Some <==> history.len() > 0
    &&& links_fit(history)
    &&& history.len() > 0 ==> agree(history.last(), head->Some_0)
}

proof fn lemma_links(history: Seq<BlockRef>, i: int)
    requires
        1 <= i,
    ensures
        links_fault(history, i) is None <==> forall|j: int|
            i <= j < history.len() ==> link_fault(history, j) is None && (
            #[trigger] history[j]).number > history[j - 1].number,
    decreases history.len() - i,
{
    if i < history.len() && link_fault(history, i) is None {
        lemma_links(history, i + 1);
    }
}

/// A history is accepted exactly where it fits its head.
pub proof fn law_accepted_history_fits_its_head(
    label: &'static str,
    history: Seq<BlockRef>,
    head: Option<BlockRef>,
)
    ensures
        history_error(label, history, head) is None <==> history_fits(history, head),
{
    lemma_links(history, 1);
    if history.len() > 0 && head is Some {
        law_accounts_join_where_they_agree(history.last(), head->Some_0);
    }
    assert(links_fault(history, 1) is None <==> links_fit(history)) by {
        if links_fit(history) {
            assert forall|j: int| 1 <= j < history.len() implies link_fault(history, j) is None && (
            #[trigger] history[j]).number > history[j - 1].number by {}
        }
        if links_fault(history, 1) is None {
            assert forall|j: int| 0 < j < history.len() implies (#[trigger] history[j]).number
                > history[j - 1].number && (history[j].number == history[j - 1].number + 1
                && history[j].parent_hash is Some ==> history[j].parent_hash->Some_0 == history[j
                - 1].hash) by {
                assert(link_fault(history, j) is None);
            }
        }
    }
}

/// Whether a history says nothing else of the height of a block.
pub open spec fn nothing_else_at(history: Seq<BlockRef>, block: BlockRef) -> bool {
    forall|i: int|
        0 <= i < history.len() && (#[trigger] history[i]).number == block.number ==> agree(
            history[i],
            block,
        )
}

proof fn lemma_nothing_else(history: Seq<BlockRef>, block: BlockRef)
    requires
        ascending(history),
    ensures
        conflict(block_at(history, block.number), block) is None <==> nothing_else_at(
            history,
            block,
        ),
{
    lemma_block_in(history, block.number);
    let i = crate::validate::index_of(history, block.number, 0);
    if i < history.len() {
        law_accounts_join_where_they_agree(history[i], block);
    }
}

// ---------------------------------------------------------------------------
// The parts of a state
// ---------------------------------------------------------------------------

/// Whether the counters and the topology of a state fit together.
pub open spec fn topology_fits(c: CheckpointView) -> bool {
    &&& c.next_synthetic_token > 0
    &&& c.lifecycle_generation > 0
    &&& c.lifecycle_intent.owners.len() > 0 ==> c.lifecycle_intent.base == empty_fingerprint()
    &&& forall|i: int|
        0 <= i < c.owner_generations.len() ==> 0 < (#[trigger] c.owner_generations[i]).1
            <= c.lifecycle_generation
    &&& keys_of(c.owner_generations) == keys_of(c.lifecycle_intent.owners)
    &&& forall|i: int, j: int|
        0 <= i < j < c.recent_inputs.len() ==> (#[trigger] c.recent_inputs[i]).identity != (
        #[trigger] c.recent_inputs[j]).identity
}

/// Whether a recent input fits the state that holds it.
pub open spec fn entry_fits_state(c: CheckpointView, e: RecentView) -> bool {
    &&& match e.identity.input_ref {
        InputRef::Log { chain_id, .. } => chain_id == Some(c.chain_id),
        InputRef::PendingTx { chain_id, .. } => chain_id == Some(c.chain_id),
        InputRef::Block { chain_id, .. } => chain_id == Some(c.chain_id),
    }
    &&& e.coverage.witness is Some
    &&& e.coverage.witness->Some_0.chain_id == c.chain_id
    &&& forall|i: int|
        0 <= i < e.coverage.owners.len() ==> {
            &&& 0 < (#[trigger] e.coverage.owners[i]).1 <= c.lifecycle_generation
            &&& lookup(c.owner_generations, e.coverage.owners[i].0) is Some
            &&& e.coverage.owners[i].1 <= lookup(
                c.owner_generations,
                e.coverage.owners[i].0,
            )->Some_0
        }
    &&& witness_fits(e)
    &&& e.coverage.block is Some ==> c.coverage_head is Some && e.coverage.block->Some_0.number
        <= c.coverage_head->Some_0.number && nothing_else_at(
        c.canonical_history,
        e.coverage.block->Some_0,
    )
}

/// Whether the witness of a recent input fits its identity: a log or header is
/// settled in a block, a removed log is taken back, a pending hash is in none;
/// and no block that is named twice differs.
pub open spec fn witness_fits(e: RecentView) -> bool {
    let w = e.coverage.witness->Some_0;
    &&& match e.identity.kind {
        ReactiveInputKind::CanonicalLog | ReactiveInputKind::BlockHeader => w.block is Some && !(
        w.lifecycle is Pending) && !(w.lifecycle is Reorg),
        ReactiveInputKind::ReorgSignalLog => w.lifecycle is Reorg,
        ReactiveInputKind::PendingTxHash => w.lifecycle is Pending && w.block is None,
        ReactiveInputKind::FullBlock | ReactiveInputKind::PendingTx => false,
    }
    &&& e.coverage.block is Some && w.block is Some ==> agree(
        e.coverage.block->Some_0,
        w.block->Some_0,
    )
    &&& match e.identity.input_ref {
        InputRef::Log { block_hash, .. } => w.block is Some ==> w.block->Some_0.hash == block_hash,
        InputRef::Block { hash, number, .. } => w.block is Some && w.block->Some_0.hash == hash
            && w.block->Some_0.number == number,
        InputRef::PendingTx { .. } => true,
    }
}

/// Whether the certified coverage of a state fits it: it is of this lifecycle,
/// and neither above nor besides what is covered.
pub open spec fn certificate_fits(c: CheckpointView) -> bool {
    c.certified_historical is Some ==> {
        let p = c.certified_historical->Some_0;
        &&& p.lifecycle_generation == c.lifecycle_generation
        &&& below_head(p.through, c.coverage_head)
        &&& below_head(p.through, c.historical_position.coverage_head)
        &&& nothing_else_at(c.historical_position.canonical_history, p.through)
    }
}

/// Whether a block is at or below a head, and is the head where it is at it.
pub open spec fn below_head(block: BlockRef, head: Option<BlockRef>) -> bool {
    &&& head is Some
    &&& block.number <= head->Some_0.number
    &&& block.number == head->Some_0.number ==> agree(block, head->Some_0)
}

/// Whether the position of a source fits the state: a token comes with a digest
/// and a coverage, and what is covered is neither above nor besides what the
/// coordinator covers.
pub open spec fn source_fits(c: CheckpointView, s: SourceView) -> bool {
    &&& s.delivery_token is Some ==> s.delivery_digest is Some && s.coverage_head is Some
    &&& s.coverage_head is Some ==> c.coverage_head is Some && s.coverage_head->Some_0.number
        <= c.coverage_head->Some_0.number && nothing_else_at(
        c.canonical_history,
        s.coverage_head->Some_0,
    )
}

/// Whether the last committed token fits the position of its source.
pub open spec fn token_fits(c: CheckpointView) -> bool {
    c.last_committed_token is Some ==> {
        let t = c.last_committed_token->Some_0;
        let s = position_of(c, t.source);
        &&& t.inner.len() > 0
        &&& s.delivery_digest is Some
        &&& t.kind == HybridTokenKind::Forwarded ==> s.delivery_token == Some(t.inner)
        &&& t.kind == HybridTokenKind::Synthetic ==> s.delivery_token is None
    }
}

proof fn lemma_topology(c: CheckpointView)
    ensures
        topology_error(c) is None <==> topology_fits(c),
{
    let ids = identities(c.recent_inputs);
    if topology_fits(c) {
        assert forall|i: int, j: int| 0 <= i < ids.len() && 0 <= j < ids.len() && i != j implies
            ids[i] != ids[j] by {
            if i < j {
                assert(c.recent_inputs[i].identity != c.recent_inputs[j].identity);
            } else {
                assert(c.recent_inputs[j].identity != c.recent_inputs[i].identity);
            }
        }
        assert forall|i: int| 0 <= i < c.owner_generations.len() implies !bad_generation(
            (#[trigger] c.owner_generations[i]).1,
            c.lifecycle_generation,
        ) by {}
    }
    if topology_error(c) is None {
        assert forall|i: int, j: int| 0 <= i < j < c.recent_inputs.len() implies (
        #[trigger] c.recent_inputs[i]).identity != (#[trigger] c.recent_inputs[j]).identity by {
            assert(ids[i] != ids[j]);
        }
        assert forall|i: int| 0 <= i < c.owner_generations.len() implies 0 < (
        #[trigger] c.owner_generations[i]).1 <= c.lifecycle_generation by {
            assert(!bad_generation(c.owner_generations[i].1, c.lifecycle_generation));
        }
    }
}

proof fn lemma_entry(c: CheckpointView, e: RecentView)
    requires
        ascending(c.canonical_history),
    ensures
        entry_error(c, e) is None <==> entry_fits_state(c, e),
{
    if e.coverage.witness is Some {
        let w = e.coverage.witness->Some_0;
        if e.coverage.block is Some && w.block is Some {
            law_accounts_join_where_they_agree(e.coverage.block->Some_0, w.block->Some_0);
        }
    }
    if e.coverage.block is Some {
        lemma_nothing_else(c.canonical_history, e.coverage.block->Some_0);
    }
    let owners = e.coverage.owners;
    assert forall|i: int| 0 <= i < owners.len() implies (bad_coverage(c, #[trigger] owners[i])
        <==> !(0 < owners[i].1 <= c.lifecycle_generation && lookup(
        c.owner_generations,
        owners[i].0,
    ) is Some && owners[i].1 <= lookup(c.owner_generations, owners[i].0)->Some_0)) by {}
}

proof fn lemma_entries(c: CheckpointView, from: int)
    requires
        ascending(c.canonical_history),
        0 <= from <= c.recent_inputs.len(),
    ensures
        entries_error(c, from) is None <==> forall|i: int|
            from <= i < c.recent_inputs.len() ==> entry_fits_state(c, #[trigger] c.recent_inputs[i]),
    decreases c.recent_inputs.len() - from,
{
    if from < c.recent_inputs.len() {
        lemma_entry(c, c.recent_inputs[from]);
        lemma_entries(c, from + 1);
    }
}

/// A state is accepted exactly where all its parts fit: its topology, every
/// recent input, the three histories, the certified coverage, both sources and
/// the last token; and the rules of the chain accept its history and heads.
pub proof fn law_accepted_state_fits_in_all_parts(c: CheckpointView, sequence: SequenceVerdict)
    ensures
        state_error(c, sequence) is None <==> {
            &&& topology_fits(c)
            &&& forall|i: int|
                0 <= i < c.recent_inputs.len() ==> entry_fits_state(c, #[trigger] c.recent_inputs[i])
            &&& history_fits(c.canonical_history, c.coverage_head)
            &&& history_fits(
                c.historical_position.canonical_history,
                c.historical_position.coverage_head,
            )
            &&& history_fits(c.live_position.canonical_history, c.live_position.coverage_head)
            &&& sequence is Ok
            &&& certificate_fits(c)
            &&& source_fits(c, c.historical_position)
            &&& source_fits(c, c.live_position)
            &&& token_fits(c)
        },
{
    reveal(state_error);
    lemma_topology(c);
    let (h, l) = (c.historical_position, c.live_position);
    law_accepted_history_fits_its_head("coordinator", c.canonical_history, c.coverage_head);
    law_accepted_history_fits_its_head("historical source", h.canonical_history, h.coverage_head);
    law_accepted_history_fits_its_head("live source", l.canonical_history, l.coverage_head);
    if histories_error(c) is None {
        law_valid_history_ascends(c.canonical_history, c.coverage_head);
        law_valid_history_ascends(h.canonical_history, h.coverage_head);
        lemma_entries(c, 0);
        lemma_rest(c);
    }
}

proof fn lemma_rest(c: CheckpointView)
    requires
        ascending(c.canonical_history),
        ascending(c.historical_position.canonical_history),
    ensures
        certified_error(c) is None <==> certificate_fits(c),
        source_error("historical source", c.historical_position, c) is None <==> source_fits(
            c,
            c.historical_position,
        ),
        source_error("live source", c.live_position, c) is None <==> source_fits(
            c,
            c.live_position,
        ),
        token_error(c) is None <==> token_fits(c),
{
    if c.certified_historical is Some {
        let p = c.certified_historical->Some_0;
        lemma_nothing_else(c.historical_position.canonical_history, p.through);
        if c.coverage_head is Some {
            law_accounts_join_where_they_agree(p.through, c.coverage_head->Some_0);
        }
        if c.historical_position.coverage_head is Some {
            law_accounts_join_where_they_agree(
                p.through,
                c.historical_position.coverage_head->Some_0,
            );
        }
    }
    if c.historical_position.coverage_head is Some {
        lemma_nothing_else(c.canonical_history, c.historical_position.coverage_head->Some_0);
    }
    if c.live_position.coverage_head is Some {
        lemma_nothing_else(c.canonical_history, c.live_position.coverage_head->Some_0);
    }
}

// ---------------------------------------------------------------------------
// Limits of a configuration
// ---------------------------------------------------------------------------

/// Whether the token and the cursor of a source are no longer than configured.
pub open spec fn cursor_fits(config: HybridConfig, s: SourceView) -> bool {
    &&& s.delivery_token is Some ==> s.delivery_token->Some_0.len()
        <= config.max_source_delivery_token_bytes
    &&& s.checkpoint is Some ==> s.checkpoint->Some_0.len() <= config.max_source_checkpoint_bytes
}

/// How many owners recent inputs name from `from` on.
pub open spec fn owners_named(s: Seq<RecentView>, from: int) -> nat
    decreases s.len() - from,
{
    if from < 0 || from >= s.len() {
        0
    } else {
        s[from].coverage.owners.len() + owners_named(s, from + 1)
    }
}

proof fn lemma_owners_named(s: Seq<RecentView>, from: int)
    requires
        0 <= from,
    ensures
        owner_total(s, from) == owners_named(s, from),
    decreases s.len() - from,
{
    if from < s.len() {
        lemma_owners_named(s, from + 1);
    }
}

/// A state keeps to a configuration exactly where its journal and its three
/// histories are no longer than configured, its inputs name no more owners, and
/// the tokens and cursors that are kept are no longer.
pub proof fn law_state_keeps_to_its_configuration(
    config: HybridConfig,
    c: CheckpointView,
    retain_live: bool,
)
    ensures
        config_limits_error(config, c, retain_live) is None <==> {
            &&& c.recent_inputs.len() <= config.recent_input_capacity
            &&& owners_named(c.recent_inputs, 0) <= config.max_recent_owner_entries
            &&& c.canonical_history.len() <= config.canonical_history_capacity
            &&& c.historical_position.canonical_history.len() <= config.canonical_history_capacity
            &&& c.live_position.canonical_history.len() <= config.canonical_history_capacity
            &&& cursor_fits(config, c.historical_position)
            &&& retain_live ==> cursor_fits(config, c.live_position)
            &&& match c.last_committed_token {
                Some(t) => t.kind == HybridTokenKind::Forwarded && (t.source
                    == HybridSource::Historical || retain_live) ==> t.inner.len()
                    <= config.max_source_delivery_token_bytes,
                None => true,
            }
        },
{
    lemma_owners_named(c.recent_inputs, 0);
}

/// A configuration is accepted exactly where no limit is zero, and none is
/// beyond what a checkpoint can hold.
pub proof fn law_configuration_has_no_zero_limit(config: HybridConfig)
    ensures
        config_error(config) is None <==> {
            &&& config.max_buffered_live_batches > 0
            &&& config.max_buffered_live_records > 0
            &&& config.max_buffered_live_bytes > 0
            &&& 0 < config.max_source_delivery_token_bytes <= HYBRID_MAX_SOURCE_DELIVERY_TOKEN_BYTES
            &&& 0 < config.max_source_checkpoint_bytes <= HYBRID_MAX_SOURCE_CHECKPOINT_BYTES
            &&& 0 < config.recent_input_capacity <= HYBRID_MAX_RECENT_INPUTS
            &&& 0 < config.max_recent_owner_entries <= HYBRID_MAX_RECENT_OWNER_ENTRIES
            &&& 0 < config.canonical_history_capacity <= HYBRID_MAX_CANONICAL_HISTORY
        },
        config_error(config) is Some ==> config_error(config)->Some_0 is InvalidConfig,
{
}

// ---------------------------------------------------------------------------
// Sources
// ---------------------------------------------------------------------------

/// A coordinator starts exactly where its configuration is accepted, the
/// historical source names its chain and can deliver history, replay and mark
/// what it covered, and the live source can deliver live, on no other chain.
pub proof fn law_coordinator_starts_with_fit_sources(
    config: HybridConfig,
    historical: SourceProfile,
    live: SourceProfile,
)
    ensures
        start_error(config, historical, live) is None <==> {
            &&& config_error(config) is None
            &&& historical.chain_id is Some
            &&& live.chain_id is None || live.chain_id == historical.chain_id
            &&& historical.capabilities.historical_backfill
            &&& historical.capabilities.durable_replay
            &&& historical.capabilities.barriers
            &&& live.capabilities.live
        },
        start_error(config, historical, live) is Some ==> start_error(
            config,
            historical,
            live,
        )->Some_0 is InvalidConfig,
{
}

/// What two sources can do together is no more than one of them can do, for
/// what one of them is for, and than both can do otherwise.
pub proof fn law_together_they_promise_no_more(
    historical: SubscriberCapabilities,
    live: SubscriberCapabilities,
)
    ensures
        ({
            let r = combined(historical, live);
            &&& r.historical_backfill == historical.historical_backfill
            &&& r.durable_replay == historical.durable_replay
            &&& r.barriers == historical.barriers
            &&& r.live == live.live
            &&& r.logs <==> historical.logs && live.logs
            &&& r.pending_transaction_hashes <==> historical.pending_transaction_hashes
                && live.pending_transaction_hashes
            &&& r.owner_scoped_delivery <==> historical.owner_scoped_delivery
                && live.owner_scoped_delivery
            &&& r.dynamic_interests <==> historical.dynamic_interests && live.dynamic_interests
            &&& r.explicit_reorgs <==> historical.explicit_reorgs && live.explicit_reorgs
            &&& r.finality_updates <==> historical.finality_updates && live.finality_updates
            &&& !r.block_headers
            &&& !r.full_blocks
            &&& !r.pending_transactions
        }),
{
}

} // verus!
