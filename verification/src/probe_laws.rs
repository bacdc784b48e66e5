//! The deliveries that are simulated to see whether there is room.
use crate::audience::AudienceView;
use crate::capacity::{
    fresh_identity, maximum_commit, probe_limits, room_error, variant_encoded, CapacityProbeLimits,
    ProbeVerdicts,
};
use crate::checkpoint::{CheckpointView, HybridSource, HybridTokenKind, RecentView, SourceView};
use crate::commit::{entry_index, lemma_entry_index};
use crate::config::{config_error, config_limits_error, HYBRID_MAX_CANONICAL_HISTORY, HybridConfig};
use crate::history::CanonicalMutation;
use crate::intent::empty_fingerprint;
use crate::model::{BlockRef, InputRef};
use crate::owners::keys_of;
use crate::probe::{
    block_hashes, coverage_blocks, fresh_hash, identity_hashes, known_hashes, linked_blocks,
    merged_at, opt_seq, probe_blocks, saturated_history, saturated_state, sequence_hash,
    state_blocks, suffix_blocks, terminal_block, witness_blocks,
};
use crate::recovery_laws::law_accounts_join_where_they_agree;
use crate::validity_laws::{law_state_keeps_to_its_configuration, links_fit};
use crate::words::B256;
use vstd::prelude::*;

verus! {

// ---------------------------------------------------------------------------
// The saturated state
// ---------------------------------------------------------------------------

/// The simulated history is as long as the configuration allows, each block
/// follows the one before it, nothing is left out of a block, and only one height
/// is left above the last.
pub proof fn law_simulated_history_is_full_and_linked(capacity: usize)
    requires
        0 < capacity <= HYBRID_MAX_CANONICAL_HISTORY,
    ensures
        ({
            let h = saturated_history(capacity);
            &&& h.len() == capacity
            &&& links_fit(h)
            &&& h.last().number == u64::MAX - 1
            &&& forall|i: int|
                0 <= i < h.len() ==> (#[trigger] h[i]).parent_hash is Some && h[i].timestamp == Some(
                    u64::MAX,
                )
            &&& forall|i: int|
                0 < i < h.len() ==> (#[trigger] h[i]).number == h[i - 1].number + 1
                    && h[i].parent_hash == Some(h[i - 1].hash)
            &&& forall|i: int, j: int|
                0 <= i < j < h.len() ==> (#[trigger] h[i]).hash != (#[trigger] h[j]).hash
        }),
{
    let h = saturated_history(capacity);
    assert forall|i: int, j: int| 0 <= i < j < h.len() implies (#[trigger] h[i]).hash != (
    #[trigger] h[j]).hash by {
        assert(h[i].hash.w3 == i && h[j].hash.w3 == j);
    }
}

/// Whether a source has a full history and cursors as long as they may be.
pub open spec fn saturated_to(s: SourceView, config: HybridConfig) -> bool {
    &&& s.delivery_token is Some
    &&& s.delivery_token->Some_0.len() == config.max_source_delivery_token_bytes
    &&& s.checkpoint is Some
    &&& s.checkpoint->Some_0.len() == config.max_source_checkpoint_bytes
    &&& s.canonical_history.len() == config.canonical_history_capacity
    &&& s.coverage_head == Some(s.canonical_history.last())
    &&& s.delivery_digest is Some
}

/// The state that room is sought on top of has the topology of the candidate,
/// and all else as long as the configuration allows and no longer; no input is
/// remembered in it.
pub proof fn law_saturated_state_fills_the_configuration(
    candidate: CheckpointView,
    config: HybridConfig,
)
    requires
        config_error(config) is None,
    ensures
        saturated_state(candidate, config) is Ok,
        ({
            let n = saturated_state(candidate, config)->Ok_0;
            &&& n.chain_id == candidate.chain_id
            &&& n.epoch == candidate.epoch
            &&& n.lifecycle_generation == candidate.lifecycle_generation
            &&& n.owner_generations == candidate.owner_generations
            &&& n.lifecycle_intent == candidate.lifecycle_intent
            &&& n.recent_inputs.len() == 0
            &&& n.next_synthetic_token == u64::MAX
            &&& n.last_committed_token is None
            &&& n.canonical_history.len() == config.canonical_history_capacity
            &&& n.coverage_head == Some(n.canonical_history.last())
            &&& n.safe_head == n.coverage_head
            &&& n.finalized_head == n.coverage_head
            &&& n.certified_historical is Some
            &&& n.certified_historical->Some_0.through == n.canonical_history.last()
            &&& n.certified_historical->Some_0.lifecycle_generation
                == candidate.lifecycle_generation
            &&& saturated_to(n.historical_position, config)
            &&& saturated_to(n.live_position, config)
            &&& config_limits_error(config, n, true) is None
        }),
{
    let n = saturated_state(candidate, config)->Ok_0;
    law_simulated_history_is_full_and_linked(config.canonical_history_capacity);
    law_state_keeps_to_its_configuration(config, n, true);
}

// ---------------------------------------------------------------------------
// Hashes that are not in use
// ---------------------------------------------------------------------------

proof fn lemma_fresh_hash(known: Seq<B256>, fill: u8, from: int)
    requires
        0 <= from,
    ensures
        fresh_hash(known, fill, from) is Ok ==> !known.contains(
            fresh_hash(known, fill, from)->Ok_0,
        ),
        fresh_hash(known, fill, from) is Err ==> forall|i: int|
            from <= i <= known.len() ==> known.contains(#[trigger] sequence_hash(fill, i as u64)),
    decreases known.len() + 1 - from,
{
    if from <= known.len() && known.contains(sequence_hash(fill, from as u64)) {
        lemma_fresh_hash(known, fill, from + 1);
    }
}

/// A hash that is made up is none that is in use.
pub proof fn law_made_up_hash_is_not_in_use(known: Seq<B256>, fill: u8)
    ensures
        fresh_hash(known, fill, 0) is Ok ==> !known.contains(fresh_hash(known, fill, 0)->Ok_0),
        fresh_hash(known, fill, 0) is Err ==> forall|i: int|
            0 <= i <= known.len() ==> known.contains(#[trigger] sequence_hash(fill, i as u64)),
{
    lemma_fresh_hash(known, fill, 0);
}

proof fn lemma_fresh_identity(
    entries: Seq<RecentView>,
    chain_id: u64,
    block_hash: B256,
    from: int,
)
    requires
        0 <= from,
        fresh_identity(entries, chain_id, block_hash, from) is Ok,
    ensures
        ({
            let id = fresh_identity(entries, chain_id, block_hash, from)->Ok_0;
            &&& forall|i: int| 0 <= i < entries.len() ==> (#[trigger] entries[i]).identity != id
            &&& id.kind is CanonicalLog
            &&& id.input_ref is Log
            &&& id.input_ref->Log_chain_id == Some(chain_id)
            &&& id.input_ref->block_hash == block_hash
        }),
    decreases entries.len() + 1 - from,
{
    let id = crate::capacity::probe_identity(chain_id, block_hash, from as u64);
    if from <= entries.len() {
        lemma_entry_index(entries, id, 0);
        if entry_index(entries, id, 0) < entries.len() {
            lemma_fresh_identity(entries, chain_id, block_hash, from + 1);
        }
    }
}

/// Whether a state speaks of a block, in a history, a head, its certificate or a
/// remembered input.
pub open spec fn speaks_of(c: CheckpointView, b: BlockRef) -> bool {
    ||| c.canonical_history.contains(b)
    ||| c.historical_position.canonical_history.contains(b)
    ||| c.live_position.canonical_history.contains(b)
    ||| c.coverage_head == Some(b)
    ||| c.historical_position.coverage_head == Some(b)
    ||| c.live_position.coverage_head == Some(b)
    ||| c.safe_head == Some(b)
    ||| c.finalized_head == Some(b)
    ||| c.certified_historical is Some && c.certified_historical->Some_0.through == b
    ||| exists|i: int|
        0 <= i < c.recent_inputs.len() && (#[trigger] c.recent_inputs[i]).coverage.block == Some(b)
    ||| exists|i: int|
        0 <= i < c.recent_inputs.len() && (#[trigger] c.recent_inputs[i]).coverage.witness is Some
            && c.recent_inputs[i].coverage.witness->Some_0.block == Some(b)
}

proof fn lemma_in_either<T>(a: Seq<T>, b: Seq<T>, x: T)
    requires
        a.contains(x) || b.contains(x),
    ensures
        (a + b).contains(x),
{
    if a.contains(x) {
        let i = choose|i: int| 0 <= i < a.len() && a[i] == x;
        assert((a + b)[i] == x);
    } else {
        let i = choose|i: int| 0 <= i < b.len() && b[i] == x;
        assert((a + b)[a.len() + i] == x);
    }
}

proof fn lemma_in_opt<T>(x: T)
    ensures
        opt_seq(Some(x)).contains(x),
{
    assert(opt_seq(Some(x))[0] == x);
}

proof fn lemma_coverage_blocks(s: Seq<RecentView>, i: int)
    requires
        0 <= i < s.len(),
    ensures
        s[i].coverage.block is Some ==> coverage_blocks(s).contains(s[i].coverage.block->Some_0),
        s[i].coverage.witness is Some && s[i].coverage.witness->Some_0.block is Some
            ==> witness_blocks(s).contains(s[i].coverage.witness->Some_0.block->Some_0),
    decreases s.len(),
{
    let front = s.drop_last();
    let last = s.last();
    let seen = match last.coverage.witness {
        Some(w) => w.block,
        None => None,
    };
    if i < front.len() {
        lemma_coverage_blocks(front, i);
        assert(front[i] == s[i]);
        if s[i].coverage.block is Some {
            let b = s[i].coverage.block->Some_0;
            lemma_in_either(coverage_blocks(front), opt_seq(last.coverage.block), b);
        }
        if s[i].coverage.witness is Some && s[i].coverage.witness->Some_0.block is Some {
            let b = s[i].coverage.witness->Some_0.block->Some_0;
            lemma_in_either(witness_blocks(front), opt_seq(seen), b);
        }
    } else {
        if last.coverage.block is Some {
            let b = last.coverage.block->Some_0;
            lemma_in_opt(b);
            lemma_in_either(coverage_blocks(front), opt_seq(last.coverage.block), b);
        }
        if seen is Some {
            lemma_in_opt(seen->Some_0);
            lemma_in_either(witness_blocks(front), opt_seq(seen), seen->Some_0);
        }
    }
}

proof fn lemma_identity_hashes(s: Seq<RecentView>, i: int)
    requires
        0 <= i < s.len(),
    ensures
        s[i].identity.input_ref is Log ==> identity_hashes(s).contains(
            s[i].identity.input_ref->block_hash,
        ),
        s[i].identity.input_ref is Block ==> identity_hashes(s).contains(
            s[i].identity.input_ref->Block_hash,
        ),
    decreases s.len(),
{
    let front = s.drop_last();
    let named = match s.last().identity.input_ref {
        InputRef::Log { block_hash, .. } => seq![block_hash],
        InputRef::Block { hash, .. } => seq![hash],
        InputRef::PendingTx { .. } => Seq::empty(),
    };
    if i < front.len() {
        lemma_identity_hashes(front, i);
        assert(front[i] == s[i]);
    }
    if s[i].identity.input_ref is Log {
        let h = s[i].identity.input_ref->block_hash;
        if i == front.len() {
            assert(named[0] == h);
        }
        lemma_in_either(identity_hashes(front), named, h);
    }
    if s[i].identity.input_ref is Block {
        let h = s[i].identity.input_ref->Block_hash;
        if i == front.len() {
            assert(named[0] == h);
        }
        lemma_in_either(identity_hashes(front), named, h);
    }
}

proof fn lemma_state_blocks(c: CheckpointView, b: BlockRef)
    requires
        speaks_of(c, b),
    ensures
        state_blocks(c).contains(b),
{
    let recent = c.recent_inputs;
    if exists|i: int|
        0 <= i < recent.len() && (#[trigger] recent[i]).coverage.block == Some(b) {
        let i = choose|i: int|
            0 <= i < recent.len() && (#[trigger] recent[i]).coverage.block == Some(b);
        lemma_coverage_blocks(recent, i);
    }
    if exists|i: int|
        0 <= i < recent.len() && (#[trigger] recent[i]).coverage.witness is Some
            && recent[i].coverage.witness->Some_0.block == Some(b) {
        let i = choose|i: int|
            0 <= i < recent.len() && (#[trigger] recent[i]).coverage.witness is Some
                && recent[i].coverage.witness->Some_0.block == Some(b);
        lemma_coverage_blocks(recent, i);
    }
    lemma_in_opt(b);
    let certified = match c.certified_historical {
        Some(x) => Some(x.through),
        None => None,
    };
    let p1 = c.canonical_history + c.historical_position.canonical_history;
    let p2 = p1 + c.live_position.canonical_history;
    let p3 = p2 + opt_seq(c.coverage_head);
    let p4 = p3 + opt_seq(c.historical_position.coverage_head);
    let p5 = p4 + opt_seq(c.live_position.coverage_head);
    let p6 = p5 + opt_seq(c.safe_head);
    let p7 = p6 + opt_seq(c.finalized_head);
    let p8 = p7 + opt_seq(certified);
    let p9 = p8 + coverage_blocks(recent);
    if c.canonical_history.contains(b) || c.historical_position.canonical_history.contains(b) {
        lemma_in_either(c.canonical_history, c.historical_position.canonical_history, b);
    }
    if p1.contains(b) || c.live_position.canonical_history.contains(b) {
        lemma_in_either(p1, c.live_position.canonical_history, b);
    }
    if p2.contains(b) || c.coverage_head == Some(b) {
        lemma_in_either(p2, opt_seq(c.coverage_head), b);
    }
    if p3.contains(b) || c.historical_position.coverage_head == Some(b) {
        lemma_in_either(p3, opt_seq(c.historical_position.coverage_head), b);
    }
    if p4.contains(b) || c.live_position.coverage_head == Some(b) {
        lemma_in_either(p4, opt_seq(c.live_position.coverage_head), b);
    }
    if p5.contains(b) || c.safe_head == Some(b) {
        lemma_in_either(p5, opt_seq(c.safe_head), b);
    }
    if p6.contains(b) || c.finalized_head == Some(b) {
        lemma_in_either(p6, opt_seq(c.finalized_head), b);
    }
    if p7.contains(b) || certified == Some(b) {
        lemma_in_either(p7, opt_seq(certified), b);
    }
    if p8.contains(b) || coverage_blocks(recent).contains(b) {
        lemma_in_either(p8, coverage_blocks(recent), b);
    }
    lemma_in_either(p9, witness_blocks(recent), b);
}

/// Every block that a state speaks of, and every block that a remembered input
/// is named by, counts as in use.
pub proof fn law_every_block_of_a_state_is_in_use(c: CheckpointView, b: BlockRef, i: int)
    ensures
        speaks_of(c, b) ==> known_hashes(c).contains(b.hash),
        0 <= i < c.recent_inputs.len() && c.recent_inputs[i].identity.input_ref is Log
            ==> known_hashes(c).contains(c.recent_inputs[i].identity.input_ref->block_hash),
        0 <= i < c.recent_inputs.len() && c.recent_inputs[i].identity.input_ref is Block
            ==> known_hashes(c).contains(c.recent_inputs[i].identity.input_ref->Block_hash),
{
    let all = state_blocks(c);
    let named = identity_hashes(c.recent_inputs);
    if speaks_of(c, b) {
        lemma_state_blocks(c, b);
        let k = choose|k: int| 0 <= k < all.len() && all[k] == b;
        assert(block_hashes(all)[k] == b.hash);
        lemma_in_either(block_hashes(all), named, b.hash);
    }
    if 0 <= i < c.recent_inputs.len() {
        lemma_identity_hashes(c.recent_inputs, i);
        let r = c.recent_inputs[i].identity.input_ref;
        if r is Log {
            lemma_in_either(block_hashes(all), named, r->block_hash);
        }
        if r is Block {
            lemma_in_either(block_hashes(all), named, r->Block_hash);
        }
    }
}

// ---------------------------------------------------------------------------
// The blocks of the largest delivery
// ---------------------------------------------------------------------------

/// Whether blocks follow one another from a height and a parent on, with nothing
/// left out of them and hashes that are not in use.
pub open spec fn new_blocks(s: Seq<BlockRef>, known: Seq<B256>, number: u64, parent: B256) -> bool {
    &&& forall|i: int|
        0 <= i < s.len() ==> {
            &&& (#[trigger] s[i]).number == number + i
            &&& s[i].parent_hash == Some(
                if i == 0 {
                    parent
                } else {
                    s[i - 1].hash
                },
            )
            &&& s[i].timestamp == Some(u64::MAX)
            &&& !known.contains(s[i].hash)
        }
    &&& forall|i: int, j: int|
        0 <= i < j < s.len() ==> (#[trigger] s[i]).hash != (#[trigger] s[j]).hash
}

proof fn lemma_linked(known: Seq<B256>, number: u64, parent: B256, count: nat)
    requires
        number + count <= u64::MAX + 1,
        linked_blocks(known, number, parent, count) is Ok,
    ensures
        linked_blocks(known, number, parent, count)->Ok_0.len() == count,
        new_blocks(linked_blocks(known, number, parent, count)->Ok_0, known, number, parent),
    decreases count,
{
    let s = linked_blocks(known, number, parent, count)->Ok_0;
    if count > 0 {
        let hash = fresh_hash(known, 0xd1, 0)->Ok_0;
        lemma_fresh_hash(known, 0xd1, 0);
        let more = known.push(hash);
        assert(more[known.len() as int] == hash);
        if count == 1 {
            assert(s.len() == 1);
        } else {
            lemma_linked(more, (number + 1) as u64, hash, (count - 1) as nat);
        }
        let rest = linked_blocks(more, (number + 1) as u64, hash, (count - 1) as nat)->Ok_0;
        assert(forall|i: int| 0 < i < s.len() ==> #[trigger] s[i] == rest[i - 1]);
        assert forall|i: int| 0 <= i < s.len() implies !known.contains(
            (#[trigger] s[i]).hash,
        ) by {
            if i > 0 {
                assert(!more.contains(rest[i - 1].hash));
                if known.contains(s[i].hash) {
                    let k = choose|k: int| 0 <= k < known.len() && known[k] == s[i].hash;
                    assert(more[k] == s[i].hash);
                }
            }
        }
        assert forall|i: int, j: int| 0 <= i < j < s.len() implies (#[trigger] s[i]).hash != (
        #[trigger] s[j]).hash by {
            assert(!more.contains(rest[j - 1].hash));
            if i > 0 {
                assert(rest[i - 1].hash != rest[j - 1].hash);
            }
        }
    }
}

/// The largest delivery advances by blocks that are new, linked and up to the
/// highest height; they follow what was delivered before where nothing lies
/// between.
pub proof fn law_largest_delivery_ends_at_the_highest_block(
    known: Seq<B256>,
    prior: Option<BlockRef>,
    count: usize,
)
    requires
        suffix_blocks(known, prior, count) is Ok,
        count <= u64::MAX,
    ensures
        ({
            let s = suffix_blocks(known, prior, count)->Ok_0;
            let first = (u64::MAX - (count - 1)) as u64;
            &&& count > 0
            &&& s.len() == count
            &&& s.last().number == u64::MAX
            &&& exists|parent: B256|
                {
                    &&& #[trigger] new_blocks(s, known, first, parent)
                    &&& prior is Some && prior->Some_0.number + 1 == first ==> parent
                        == prior->Some_0.hash
                    &&& !(prior is Some && prior->Some_0.number + 1 == first) ==> !known.contains(
                        parent,
                    )
                }
        }),
{
    let s = suffix_blocks(known, prior, count)->Ok_0;
    let first = (u64::MAX - (count - 1)) as u64;
    if prior is Some && prior->Some_0.number + 1 == first {
        lemma_linked(known, first, prior->Some_0.hash, count as nat);
        assert(new_blocks(s, known, first, prior->Some_0.hash));
    } else {
        let parent = fresh_hash(known, 0xd2, 0)->Ok_0;
        let more = known.push(parent);
        lemma_fresh_hash(known, 0xd2, 0);
        lemma_linked(more, first, parent, count as nat);
        assert forall|i: int| 0 <= i < s.len() implies !known.contains((#[trigger] s[i]).hash) by {
            assert(!more.contains(s[i].hash));
            if known.contains(s[i].hash) {
                let k = choose|k: int| 0 <= k < known.len() && known[k] == s[i].hash;
                assert(more[k] == s[i].hash);
            }
        }
        assert(new_blocks(s, known, first, parent));
    }
    assert(s[s.len() - 1].number == first + (s.len() - 1));
}

proof fn lemma_merged_at(blocks: Seq<BlockRef>, number: u64, block: BlockRef, from: int)
    requires
        0 <= from,
        merged_at(blocks, number, block, from) is Ok,
    ensures
        ({
            let m = merged_at(blocks, number, block, from)->Ok_0;
            &&& m.number == block.number
            &&& m.hash == block.hash
            &&& block.parent_hash is Some ==> m.parent_hash == block.parent_hash
            &&& block.timestamp is Some ==> m.timestamp == block.timestamp
            &&& forall|i: int|
                from <= i < blocks.len() && (#[trigger] blocks[i]).number == number
                    ==> blocks[i].hash == block.hash
        }),
    decreases blocks.len() - from,
{
    if from < blocks.len() {
        if blocks[from].number != number {
            lemma_merged_at(blocks, number, block, from + 1);
        } else {
            law_accounts_join_where_they_agree(block, blocks[from]);
            lemma_merged_at(
                blocks,
                number,
                crate::model::merged_block(block, blocks[from])->Ok_0,
                from + 1,
            );
        }
    }
}

/// At the highest height the largest delivery is in the head itself, with
/// nothing left out of it; what is known of the head stays.
pub proof fn law_highest_head_is_completed(c: CheckpointView, head: BlockRef)
    requires
        terminal_block(c, head) is Ok,
    ensures
        ({
            let b = terminal_block(c, head)->Ok_0;
            &&& b.number == head.number
            &&& b.hash == head.hash
            &&& b.parent_hash is Some
            &&& b.timestamp is Some
            &&& head.parent_hash is Some ==> b.parent_hash == head.parent_hash
            &&& head.timestamp is Some ==> b.timestamp == head.timestamp
        }),
{
    lemma_merged_at(state_blocks(c), head.number, head, 0);
}

/// The largest delivery is of one record, new to the journal, to everyone that is
/// subscribed, in the first of its blocks; its token and cursor are as long as
/// they may be, and it moves every head to the last of its blocks.
pub proof fn law_largest_delivery_fills_its_limits(
    c: CheckpointView,
    source: HybridSource,
    maximum_advances: usize,
    limits: CapacityProbeLimits,
)
    requires
        maximum_commit(c, source, maximum_advances, limits) is Ok,
    ensures
        ({
            let m = maximum_commit(c, source, maximum_advances, limits)->Ok_0;
            let blocks = probe_blocks(c, maximum_advances)->Ok_0;
            let a = m.audiences[0];
            &&& blocks.len() > 0
            &&& m.source == source
            &&& m.audiences.len() == 1
            &&& forall|i: int|
                0 <= i < c.recent_inputs.len() ==> (#[trigger] c.recent_inputs[i]).identity
                    != a.identity
            &&& a.block == Some(blocks[0])
            &&& a.witness.block == Some(blocks[0])
            &&& a.witness.chain_id == c.chain_id
            &&& a.audience == if c.lifecycle_intent.base != empty_fingerprint() {
                AudienceView::All
            } else {
                AudienceView::Owners(keys_of(c.owner_generations))
            }
            &&& m.canonical.len() == blocks.len()
            &&& forall|i: int|
                0 <= i < blocks.len() ==> #[trigger] m.canonical[i] == CanonicalMutation::Advance(
                    blocks[i],
                )
            &&& m.source_token is Some
            &&& m.source_token->Some_0.len() == limits.max_delivery_token_bytes
            &&& m.token_bytes == m.source_token->Some_0
            &&& m.token_kind == HybridTokenKind::Forwarded
            &&& m.source_checkpoint is Some
            &&& m.source_checkpoint->Some_0.len() == limits.max_checkpoint_bytes
            &&& m.source_progress == Some(blocks.last())
            &&& m.source_observed_through == Some(blocks.last())
            &&& m.next_safe_head == Some(blocks.last())
            &&& m.next_finalized_head == Some(blocks.last())
        }),
{
    let blocks = probe_blocks(c, maximum_advances)->Ok_0;
    lemma_fresh_identity(c.recent_inputs, c.chain_id, blocks[0].hash, 0);
}

/// The simulated deliveries are held to the limits that the configuration has.
pub proof fn law_simulation_takes_its_limits_from_the_configuration(config: HybridConfig)
    ensures
        probe_limits(config).history_capacity == config.canonical_history_capacity,
        probe_limits(config).max_delivery_token_bytes == config.max_source_delivery_token_bytes,
        probe_limits(config).max_checkpoint_bytes == config.max_source_checkpoint_bytes,
{
}

/// There is room exactly where the largest delivery of either source, with a
/// token of either kind, can be written.
pub proof fn law_room_is_for_every_source_and_token(
    candidate: CheckpointView,
    config: HybridConfig,
    context: &'static str,
    verdicts: ProbeVerdicts,
)
    ensures
        room_error(candidate, config, context, verdicts) is None <==> forall|
            source: HybridSource,
            kind: HybridTokenKind,
        |
            #[trigger] variant_encoded(candidate, config, source, kind, verdicts) is Ok,
        room_error(candidate, config, context, verdicts) is Some ==> room_error(
            candidate,
            config,
            context,
            verdicts,
        )->Some_0 is NoRoomForDelivery,
{
    let (h, l) = (HybridSource::Historical, HybridSource::Live);
    let (f, s) = (HybridTokenKind::Forwarded, HybridTokenKind::Synthetic);
    let hf = variant_encoded(candidate, config, h, f, verdicts) is Ok;
    let hs = variant_encoded(candidate, config, h, s, verdicts) is Ok;
    let lf = variant_encoded(candidate, config, l, f, verdicts) is Ok;
    let ls = variant_encoded(candidate, config, l, s, verdicts) is Ok;
    assert(room_error(candidate, config, context, verdicts) is None <==> hf && hs && lf && ls);
}

} // verus!
