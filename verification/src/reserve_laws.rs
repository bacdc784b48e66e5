//! A topology that passed its preflight has room for every delivery of one
//! record.
use crate::audience::{coverage_with, lemma_owners_covered, no_coverage, requested_owners};
use crate::capacity::{
    advances, delivered, fresh_identity, maximum_commit, probe_audience, probe_identity,
    probe_limits, probe_start, reserved, reserved_source, room_error, variant_encoded,
    variant_error, ProbeVerdicts,
};
use crate::checkpoint::{CheckpointView, HybridSource, HybridTokenKind, RecentView, SourceView};
use crate::codec::encoded;
use crate::commit::{
    ancestors_of, committed, covered, entry_index, resets, source_advanced, source_committed,
    source_moved, survivors, touched, touched_all, uncertified, AudienceCommitView, CommitView,
};
use crate::config::{config_error, config_limits_error, cursor_error, HybridConfig};
use crate::decode::MAX_CHECKPOINT_PAYLOAD_BYTES;
use crate::error::SubscriberError;
use crate::fit::{
    fits, fitted, fitting_drop, law_fit_keeps_protected_suffix, lemma_owner_total_skip, owner_drop,
};
use crate::history::{
    advanced, by_height, enriched, insert_block, moved, moved_all, newest, CanonicalMutation, Trail,
};
use crate::limits::limits_error;
use crate::limits_laws::{map_typed, owner_total, state_typed};
use crate::model::{handler_bytes, merged_block, BlockRef};
use crate::owners::{
    has_key, keys_of, lemma_lookup, lemma_normalized, lookup, normalized, sorted_keys,
};
use crate::probe::{linked_blocks, probe_blocks, saturated_history, suffix_blocks};
use crate::room_laws::{
    all_full, bytes_within, entry_within, full, held_by, law_smaller_states_fit, lemma_string_len,
    source_within, state_within, submap, widest_identity, widest_witness,
};
use crate::validate::{
    bad_coverage, certified_error, entries_error, entry_error, index_of,
    law_dropping_recent_keeps_valid, lemma_index_of, state_error, token_error, SequenceVerdict,
};
use crate::wire::enc_checkpoint;
use crate::words::word_bytes;
use vstd::prelude::*;

verus! {

// ---------------------------------------------------------------------------
// Full histories stay full
// ---------------------------------------------------------------------------

/// A history of `capacity` full blocks, and a full head.
pub open spec fn full_trail(t: Trail, capacity: nat) -> bool {
    t.history.len() == capacity && all_full(t.history) && t.head is Some && full(t.head->Some_0)
}

proof fn lemma_insert_full(s: Seq<BlockRef>, b: BlockRef)
    requires
        all_full(s),
        full(b),
    ensures
        all_full(insert_block(s, b)),
        insert_block(s, b).len() == s.len() + 1,
    decreases s.len(),
{
    let t = insert_block(s, b);
    if s.len() == 0 || s.last().number <= b.number {
        assert forall|i: int| 0 <= i < t.len() implies full(#[trigger] t[i]) by {
            if i < s.len() {
                assert(t[i] == s[i]);
            }
        }
    } else {
        let front = s.drop_last();
        assert forall|i: int| 0 <= i < front.len() implies full(#[trigger] front[i]) by {
            assert(front[i] == s[i]);
        }
        lemma_insert_full(front, b);
        let mid = insert_block(front, b);
        assert forall|i: int| 0 <= i < t.len() implies full(#[trigger] t[i]) by {
            if i < mid.len() {
                assert(t[i] == mid[i]);
            } else {
                assert(t[i] == s[s.len() - 1]);
            }
        }
    }
}

proof fn lemma_by_height_full(s: Seq<BlockRef>)
    requires
        all_full(s),
    ensures
        all_full(by_height(s)),
        by_height(s).len() == s.len(),
    decreases s.len(),
{
    if s.len() > 0 {
        let front = s.drop_last();
        assert forall|i: int| 0 <= i < front.len() implies full(#[trigger] front[i]) by {
            assert(front[i] == s[i]);
        }
        lemma_by_height_full(front);
        assert(full(s[s.len() - 1]));
        lemma_insert_full(by_height(front), s.last());
    }
}

proof fn lemma_enriched_full(history: Seq<BlockRef>, b: BlockRef)
    requires
        all_full(history),
        full(b),
        enriched(history, b) is Ok,
    ensures
        all_full(enriched(history, b)->Ok_0),
        enriched(history, b)->Ok_0.len() == history.len(),
{
    lemma_index_of(history, b.number, 0);
    let i = index_of(history, b.number, 0);
    let n = enriched(history, b)->Ok_0;
    if i < history.len() {
        assert(full(history[i]));
        assert forall|k: int| 0 <= k < n.len() implies full(#[trigger] n[k]) by {
            if k != i {
                assert(n[k] == history[k]);
            }
        }
    }
}

proof fn lemma_moved_full(t: Trail, b: BlockRef, capacity: nat)
    requires
        full_trail(t, capacity),
        full(b),
        moved(t, CanonicalMutation::Advance(b), capacity) is Ok,
    ensures
        full_trail(moved(t, CanonicalMutation::Advance(b), capacity)->Ok_0, capacity),
{
    let head = t.head->Some_0;
    if b.number < head.number {
        lemma_enriched_full(t.history, b);
    } else if b.number == head.number {
        let m = merged_block(head, b)->Ok_0;
        assert(full(m));
        lemma_enriched_full(t.history, m);
    } else {
        let n = advanced(t, b)->Ok_0;
        if crate::validate::block_at(t.history, b.number) is Some {
            lemma_enriched_full(t.history, b);
        } else {
            let more = t.history.push(b);
            assert forall|i: int| 0 <= i < more.len() implies full(#[trigger] more[i]) by {
                if i < t.history.len() {
                    assert(more[i] == t.history[i]);
                }
            }
            lemma_by_height_full(more);
        }
        let kept = newest(n.history, capacity);
        assert forall|i: int| 0 <= i < kept.len() implies full(#[trigger] kept[i]) by {
            assert(full(n.history[i + (n.history.len() - kept.len())]));
        }
    }
}

proof fn lemma_moved_one(t: Trail, b: BlockRef, capacity: nat)
    requires
        full_trail(t, capacity),
        full(b),
        moved_all(t, seq![CanonicalMutation::Advance(b)], 0, capacity) is Ok,
    ensures
        full_trail(
            moved_all(t, seq![CanonicalMutation::Advance(b)], 0, capacity)->Ok_0,
            capacity,
        ),
{
    let one = seq![CanonicalMutation::Advance(b)];
    assert(one[0] == CanonicalMutation::Advance(b));
    let n = moved(t, CanonicalMutation::Advance(b), capacity);
    assert(n is Ok);
    assert(moved_all(n->Ok_0, one, 1, capacity) == Ok::<_, SubscriberError>(n->Ok_0));
    lemma_moved_full(t, b, capacity);
}

/// The trail of a position.
pub open spec fn trail_of(s: SourceView) -> Trail {
    Trail { history: s.canonical_history, head: s.coverage_head }
}

proof fn lemma_source_advanced_full(s: SourceView, b: BlockRef, at: bool, capacity: nat)
    requires
        full_trail(trail_of(s), capacity),
        full(b),
        source_advanced(s, Some(b), at, capacity) is Ok,
    ensures
        full_trail(trail_of(source_advanced(s, Some(b), at, capacity)->Ok_0), capacity),
        source_advanced(s, Some(b), at, capacity)->Ok_0.delivery_token == s.delivery_token,
        source_advanced(s, Some(b), at, capacity)->Ok_0.checkpoint == s.checkpoint,
        source_advanced(s, Some(b), at, capacity)->Ok_0.delivery_digest == s.delivery_digest,
{
    let one = seq![CanonicalMutation::Advance(b)];
    if moved_all(trail_of(s), one, 0, capacity) is Ok {
        lemma_moved_one(trail_of(s), b, capacity);
    }
}

// ---------------------------------------------------------------------------
// The simulated delivery
// ---------------------------------------------------------------------------

proof fn lemma_saturated_full(capacity: usize)
    requires
        0 < capacity <= 65_536,
    ensures
        all_full(saturated_history(capacity)),
        saturated_history(capacity).len() == capacity,
        full(saturated_history(capacity).last()),
{
    let h = saturated_history(capacity);
    assert forall|i: int| 0 <= i < h.len() implies full(#[trigger] h[i]) by {
        assert(h[i].number == (u64::MAX - capacity + i) as u64);
    }
    assert(full(h[h.len() - 1]));
}

/// The block of the simulated delivery is full, and alone.
proof fn lemma_probe_block(c: CheckpointView)
    requires
        c.coverage_head is Some,
        c.coverage_head->Some_0.number == u64::MAX - 1,
        probe_blocks(c, 1) is Ok,
    ensures
        probe_blocks(c, 1)->Ok_0.len() == 1,
        full(probe_blocks(c, 1)->Ok_0[0]),
{
    let head = c.coverage_head->Some_0;
    let known = crate::probe::known_hashes(c);
    let blocks = probe_blocks(c, 1)->Ok_0;
    assert(suffix_blocks(known, Some(head), 1) == Ok::<_, SubscriberError>(blocks));
    assert(linked_blocks(known, u64::MAX, head.hash, 1) == Ok::<_, SubscriberError>(blocks));
    let hash = crate::probe::fresh_hash(known, 0xd1, 0)->Ok_0;
    assert(linked_blocks(known.push(hash), (u64::MAX + 1) as u64, hash, 0) == Ok::<
        _,
        SubscriberError,
    >(Seq::<BlockRef>::empty()));
}

/// Whether a position is filled to the configured limits.
pub open spec fn filled(s: SourceView, config: HybridConfig, silent: bool) -> bool {
    &&& full_trail(trail_of(s), config.canonical_history_capacity as nat)
    &&& s.delivery_digest is Some
    &&& s.checkpoint is Some
    &&& s.checkpoint->Some_0.len() == config.max_source_checkpoint_bytes
    &&& s.checkpoint->Some_0[0] >= 0x80
    &&& !silent ==> s.delivery_token is Some && s.delivery_token->Some_0.len()
        == config.max_source_delivery_token_bytes && s.delivery_token->Some_0[0] >= 0x80
}

proof fn lemma_reserved_filled(
    s: SourceView,
    config: HybridConfig,
    token_fill: u8,
    checkpoint_fill: u8,
    commits: bool,
    b: BlockRef,
)
    requires
        full_trail(trail_of(s), config.canonical_history_capacity as nat),
        config.max_source_delivery_token_bytes > 0,
        config.max_source_checkpoint_bytes > 0,
        token_fill >= 0x80,
        checkpoint_fill >= 0x80,
        full(b),
        reserved_source(s, config, token_fill, checkpoint_fill, commits, b) is Ok,
    ensures
        filled(
            reserved_source(s, config, token_fill, checkpoint_fill, commits, b)->Ok_0,
            config,
            false,
        ),
{
    if !commits {
        lemma_moved_one(trail_of(s), b, config.canonical_history_capacity as nat);
    }
}

proof fn lemma_committed_filled(
    s: SourceView,
    commit: CommitView,
    config: HybridConfig,
    tip: BlockRef,
)
    requires
        full_trail(trail_of(s), config.canonical_history_capacity as nat),
        full(tip),
        commit.canonical == seq![CanonicalMutation::Advance(tip)],
        commit.source_progress == Some(tip),
        commit.source_observed_through == Some(tip),
        commit.source_checkpoint is Some,
        commit.source_checkpoint->Some_0.len() == config.max_source_checkpoint_bytes,
        config.max_source_checkpoint_bytes > 0,
        commit.source_checkpoint->Some_0[0] >= 0x80,
        commit.source_token is Some ==> commit.source_token->Some_0.len()
            == config.max_source_delivery_token_bytes && commit.source_token->Some_0[0] >= 0x80,
        source_committed(s, commit, config.canonical_history_capacity as nat) is Ok,
    ensures
        filled(
            source_committed(s, commit, config.canonical_history_capacity as nat)->Ok_0,
            config,
            commit.source_token is None,
        ),
        source_committed(
            s,
            commit,
            config.canonical_history_capacity as nat,
        )->Ok_0.delivery_token == commit.source_token,
{
    let capacity = config.canonical_history_capacity as nat;
    let named = SourceView {
        delivery_token: commit.source_token,
        checkpoint: commit.source_checkpoint,
        delivery_digest: Some(commit.source_delivery_digest),
        ..s
    };
    lemma_moved_one(trail_of(named), tip, capacity);
    let one = source_moved(named, commit.canonical, capacity)->Ok_0;
    lemma_source_advanced_full(one, tip, false, capacity);
    let two = source_advanced(one, Some(tip), false, capacity)->Ok_0;
    lemma_source_advanced_full(two, tip, true, capacity);
}

/// The audience of the simulated record is everyone that is registered.
proof fn lemma_probe_owners(c: CheckpointView)
    requires
        sorted_keys(c.owner_generations),
    ensures
        submap(
            c.owner_generations,
            coverage_with(no_coverage(), probe_audience(c), c.owner_generations).owners,
        ),
{
    let g = c.owner_generations;
    let audience = probe_audience(c);
    let ids = requested_owners(audience, g);
    let owners = coverage_with(no_coverage(), audience, g).owners;
    lemma_owners_covered(no_coverage().owners, ids, g);
    let keys = keys_of(g);
    lemma_normalized(keys);
    assert forall|i: int| 0 <= i < g.len() implies held_by(#[trigger] g[i], owners) by {
        let k = g[i].0;
        assert(keys[i] == k);
        assert(keys.contains(k));
        assert(normalized(keys).contains(k));
        assert(ids.contains(k));
        lemma_lookup(g, k);
        assert(lookup(g, k) == Some(g[i].1));
        assert(lookup(owners, k) == Some(g[i].1));
        lemma_lookup(owners, k);
        assert(has_key(owners, k));
        let x = choose|x: int| 0 <= x < owners.len() && #[trigger] owners[x].0 == k;
        assert(owners[x].1 == g[i].1);
    }
}

proof fn lemma_one_touched(a: AudienceCommitView, generations: Seq<(Seq<u8>, u64)>)
    requires
        touched_all(Seq::empty(), seq![a], 0, generations) is Ok,
    ensures
        ({
            let n = touched_all(Seq::empty(), seq![a], 0, generations)->Ok_0;
            &&& n.len() == 1
            &&& n[0].identity == a.identity
            &&& n[0].coverage.block == a.block
            &&& n[0].coverage.witness == Some(a.witness)
            &&& n[0].coverage.owners == coverage_with(
                no_coverage(),
                a.audience,
                generations,
            ).owners
        }),
{
    let none = Seq::<RecentView>::empty();
    let list = seq![a];
    assert(list[0] == a);
    assert(entry_index(none, a.identity, 0) == 0);
    let one = touched(none, a, generations);
    assert(one is Ok);
    assert(touched_all(one->Ok_0, list, 1, generations) == Ok::<_, SubscriberError>(one->Ok_0));
    let coverage = covered(no_coverage(), a, generations)->Ok_0;
    assert(one->Ok_0 == none.push(RecentView { identity: a.identity, coverage }));
}

/// Whether a state is as full as a delivery from `source`, with a token of this
/// kind, can make it.
#[verifier::opaque]
pub open spec fn brimful(
    n: CheckpointView,
    candidate: CheckpointView,
    config: HybridConfig,
    source: HybridSource,
    kind: HybridTokenKind,
) -> bool {
    let capacity = config.canonical_history_capacity as nat;
    let silent = kind == HybridTokenKind::Synthetic;
    &&& n.chain_id == candidate.chain_id
    &&& n.next_synthetic_token == u64::MAX
    &&& n.lifecycle_generation == candidate.lifecycle_generation
    &&& n.owner_generations == candidate.owner_generations
    &&& n.lifecycle_intent == candidate.lifecycle_intent
    &&& full_trail(Trail { history: n.canonical_history, head: n.coverage_head }, capacity)
    &&& n.safe_head is Some && full(n.safe_head->Some_0)
    &&& n.finalized_head is Some && full(n.finalized_head->Some_0)
    &&& n.certified_historical is Some
    &&& n.certified_historical->Some_0.lifecycle_generation == candidate.lifecycle_generation
    &&& full(n.certified_historical->Some_0.through)
    &&& filled(n.historical_position, config, silent && source == HybridSource::Historical)
    &&& filled(n.live_position, config, silent && source == HybridSource::Live)
    &&& n.last_committed_token is Some
    &&& !silent ==> n.last_committed_token->Some_0.inner.len()
        == config.max_source_delivery_token_bytes && n.last_committed_token->Some_0.inner[0] >= 0x80
    &&& silent ==> n.last_committed_token->Some_0.inner == word_bytes((u64::MAX - 1) as u64)
    &&& n.recent_inputs.len() == 1
    &&& widest_identity(n.recent_inputs[0].identity, candidate.chain_id)
    &&& n.recent_inputs[0].coverage.block is Some
    &&& full(n.recent_inputs[0].coverage.block->Some_0)
    &&& n.recent_inputs[0].coverage.witness is Some
    &&& widest_witness(n.recent_inputs[0].coverage.witness->Some_0, candidate.chain_id)
    &&& submap(candidate.owner_generations, n.recent_inputs[0].coverage.owners)
}

/// The simulated commit over a saturated state.
spec fn simulated_commit(
    c: CheckpointView,
    config: HybridConfig,
    source: HybridSource,
    kind: HybridTokenKind,
) -> CommitView {
    let commit = maximum_commit(c, source, 1, probe_limits(config))->Ok_0;
    if kind == HybridTokenKind::Synthetic {
        CommitView {
            source_token: None,
            token_kind: HybridTokenKind::Synthetic,
            token_bytes: word_bytes(c.next_synthetic_token),
            ..commit
        }
    } else {
        commit
    }
}

/// The parts of the simulated commit.
proof fn lemma_simulated_commit(
    candidate: CheckpointView,
    config: HybridConfig,
    source: HybridSource,
    kind: HybridTokenKind,
)
    requires
        config_error(config) is None,
        probe_start(candidate, config, kind) is Ok,
        maximum_commit(
            probe_start(candidate, config, kind)->Ok_0,
            source,
            1,
            probe_limits(config),
        ) is Ok,
    ensures
        ({
            let c = probe_start(candidate, config, kind)->Ok_0;
            let commit = simulated_commit(c, config, source, kind);
            let tip = commit.next_safe_head->Some_0;
            let capacity = config.canonical_history_capacity as nat;
            &&& full(tip)
            &&& commit.source == source
            &&& commit.token_kind == kind
            &&& commit.canonical == seq![CanonicalMutation::Advance(tip)]
            &&& commit.next_safe_head == Some(tip)
            &&& commit.next_finalized_head == Some(tip)
            &&& commit.source_progress == Some(tip)
            &&& commit.source_observed_through == Some(tip)
            &&& commit.source_checkpoint is Some
            &&& commit.source_checkpoint->Some_0.len() == config.max_source_checkpoint_bytes
            &&& commit.source_checkpoint->Some_0[0] >= 0x80
            &&& commit.source_token is None <==> kind == HybridTokenKind::Synthetic
            &&& commit.source_token is Some ==> commit.source_token->Some_0.len()
                == config.max_source_delivery_token_bytes && commit.source_token->Some_0[0] >= 0x80
                && commit.token_bytes == commit.source_token->Some_0
            &&& commit.source_token is None ==> commit.token_bytes == word_bytes(
                (u64::MAX - 1) as u64,
            )
            &&& full_trail(
                Trail { history: commit.next_canonical_history, head: commit.next_coverage_head },
                capacity,
            )
            &&& commit.audiences.len() == 1
            &&& widest_identity(commit.audiences[0].identity, candidate.chain_id)
            &&& commit.audiences[0].audience == probe_audience(c)
            &&& commit.audiences[0].block == Some(tip)
            &&& widest_witness(commit.audiences[0].witness, candidate.chain_id)
        }),
{
    let c = probe_start(candidate, config, kind)->Ok_0;
    let capacity = config.canonical_history_capacity;
    lemma_saturated_full(capacity);
    let history = saturated_history(capacity);
    assert(c.coverage_head == Some(history.last()));
    assert(history.last() == history[history.len() - 1]);
    assert(c.coverage_head->Some_0.number == u64::MAX - 1);
    let blocks = probe_blocks(c, 1)->Ok_0;
    lemma_probe_block(c);
    let tip = blocks[0];
    assert(blocks.last() == tip);
    assert(advances(blocks) =~= seq![CanonicalMutation::Advance(tip)]);
    lemma_moved_one(
        Trail { history: c.canonical_history, head: c.coverage_head },
        tip,
        capacity as nat,
    );
    assert(entry_index(
        c.recent_inputs,
        probe_identity(c.chain_id, tip.hash, 0),
        0,
    ) >= c.recent_inputs.len());
    assert(fresh_identity(c.recent_inputs, c.chain_id, tip.hash, 0) == Ok::<_, SubscriberError>(
        probe_identity(c.chain_id, tip.hash, 0),
    ));
}

/// The state that the simulated commit is applied to.
spec fn simulated_start(
    candidate: CheckpointView,
    config: HybridConfig,
    kind: HybridTokenKind,
) -> CheckpointView {
    CheckpointView {
        next_synthetic_token: u64::MAX,
        ..probe_start(candidate, config, kind)->Ok_0
    }
}

proof fn lemma_variant_delivered(
    candidate: CheckpointView,
    config: HybridConfig,
    source: HybridSource,
    kind: HybridTokenKind,
    verdicts: ProbeVerdicts,
)
    requires
        variant_encoded(candidate, config, source, kind, verdicts) is Ok,
    ensures
        probe_start(candidate, config, kind) is Ok,
        maximum_commit(
            probe_start(candidate, config, kind)->Ok_0,
            source,
            1,
            probe_limits(config),
        ) is Ok,
        delivered(
            simulated_start(candidate, config, kind),
            simulated_commit(probe_start(candidate, config, kind)->Ok_0, config, source, kind),
            config,
            verdicts.after,
        ) is Ok,
{
    reveal(variant_encoded);
    let c = probe_start(candidate, config, kind)->Ok_0;
    if kind != HybridTokenKind::Synthetic {
        assert(simulated_start(candidate, config, kind) == c);
    }
}

proof fn lemma_delivered_parts(
    c: CheckpointView,
    commit: CommitView,
    config: HybridConfig,
    after: SequenceVerdict,
) -> (n: CheckpointView)
    requires
        delivered(c, commit, config, after) is Ok,
    ensures
        commit.next_coverage_head is Some,
        reserved(c, config, commit.source, commit.next_coverage_head->Some_0) is Ok,
        committed(
            reserved(c, config, commit.source, commit.next_coverage_head->Some_0)->Ok_0,
            commit,
            config.canonical_history_capacity as nat,
        ) is Ok,
        fitted(
            committed(
                reserved(c, config, commit.source, commit.next_coverage_head->Some_0)->Ok_0,
                commit,
                config.canonical_history_capacity as nat,
            )->Ok_0,
            1,
            config.recent_input_capacity as nat,
            config.max_recent_owner_entries as nat,
            after,
        ) == Ok::<_, SubscriberError>(n),
        limits_error(n) is None,
        enc_checkpoint(n).len() <= MAX_CHECKPOINT_PAYLOAD_BYTES,
{
    let r = reserved(c, config, commit.source, commit.next_coverage_head->Some_0)->Ok_0;
    let d = committed(r, commit, config.canonical_history_capacity as nat)->Ok_0;
    fitted(
        d,
        1,
        config.recent_input_capacity as nat,
        config.max_recent_owner_entries as nat,
        after,
    )->Ok_0
}

/// A state with one recent input is not made smaller to fit.
proof fn lemma_fitted_one(
    d: CheckpointView,
    config: HybridConfig,
    after: SequenceVerdict,
    n: CheckpointView,
)
    requires
        d.recent_inputs.len() == 1,
        fitted(
            d,
            1,
            config.recent_input_capacity as nat,
            config.max_recent_owner_entries as nat,
            after,
        ) == Ok::<_, SubscriberError>(n),
    ensures
        n == d,
{
    law_fit_keeps_protected_suffix(
        d,
        1,
        config.recent_input_capacity as nat,
        config.max_recent_owner_entries as nat,
        after,
    );
    let dropped = choose|x: int|
        0 <= x <= d.recent_inputs.len() - 1 && n == #[trigger] d.drop_recent(x);
    assert(dropped == 0);
    assert(d.recent_inputs.skip(0) =~= d.recent_inputs);
}

/// The positions of the state that the simulated commit is applied to.
proof fn lemma_start_filled(
    candidate: CheckpointView,
    config: HybridConfig,
    source: HybridSource,
    kind: HybridTokenKind,
    head: BlockRef,
)
    requires
        config_error(config) is None,
        probe_start(candidate, config, kind) is Ok,
        full(head),
        reserved(simulated_start(candidate, config, kind), config, source, head) is Ok,
    ensures
        ({
            let r = reserved(simulated_start(candidate, config, kind), config, source, head)->Ok_0;
            &&& filled(r.historical_position, config, false)
            &&& filled(r.live_position, config, false)
            &&& r.recent_inputs.len() == 0
            &&& r.chain_id == candidate.chain_id
            &&& r.next_synthetic_token == u64::MAX
            &&& r.lifecycle_generation == candidate.lifecycle_generation
            &&& r.owner_generations == candidate.owner_generations
            &&& r.lifecycle_intent == candidate.lifecycle_intent
            &&& r.certified_historical is Some
            &&& r.certified_historical->Some_0.lifecycle_generation
                == candidate.lifecycle_generation
            &&& full(r.certified_historical->Some_0.through)
        }),
{
    let start = simulated_start(candidate, config, kind);
    lemma_saturated_full(config.canonical_history_capacity);
    lemma_reserved_filled(
        start.historical_position,
        config,
        0xe1,
        0xe2,
        source == HybridSource::Historical,
        head,
    );
    lemma_reserved_filled(
        start.live_position,
        config,
        0x81,
        0x82,
        source == HybridSource::Live,
        head,
    );
}

/// A simulated delivery that can be written leaves a state that is as full as
/// can be.
proof fn lemma_probe_result(
    candidate: CheckpointView,
    config: HybridConfig,
    source: HybridSource,
    kind: HybridTokenKind,
    verdicts: ProbeVerdicts,
) -> (n: CheckpointView)
    requires
        config_error(config) is None,
        sorted_keys(candidate.owner_generations),
        variant_encoded(candidate, config, source, kind, verdicts) is Ok,
    ensures
        brimful(n, candidate, config, source, kind),
        n.owner_generations == candidate.owner_generations,
        n.lifecycle_intent == candidate.lifecycle_intent,
        n.recent_inputs.len() == 1,
        limits_error(n) is None,
        enc_checkpoint(n).len() <= MAX_CHECKPOINT_PAYLOAD_BYTES,
        n.recent_inputs[0].coverage.owners == coverage_with(
            no_coverage(),
            probe_audience(candidate),
            candidate.owner_generations,
        ).owners,
{
    reveal(brimful);
    lemma_variant_delivered(candidate, config, source, kind, verdicts);
    lemma_simulated_commit(candidate, config, source, kind);
    let c = probe_start(candidate, config, kind)->Ok_0;
    let start = simulated_start(candidate, config, kind);
    let commit = simulated_commit(c, config, source, kind);
    let tip = commit.next_safe_head->Some_0;
    let n = lemma_delivered_parts(start, commit, config, verdicts.after);
    let head = commit.next_coverage_head->Some_0;
    lemma_start_filled(candidate, config, source, kind, head);
    let r = reserved(start, config, source, head)->Ok_0;
    lemma_committed_shape(r, commit, config, tip);
    let d = committed(r, commit, config.canonical_history_capacity as nat)->Ok_0;
    lemma_fitted_one(d, config, verdicts.after, n);
    assert(probe_audience(c) == probe_audience(candidate));
    lemma_probe_owners(candidate);
    lemma_committed_fields(r, commit, config.canonical_history_capacity as nat);
    n
}

/// The fields that a commit sets or keeps as they are.
proof fn lemma_committed_fields(r: CheckpointView, commit: CommitView, capacity: nat)
    requires
        committed(r, commit, capacity) is Ok,
    ensures
        ({
            let d = committed(r, commit, capacity)->Ok_0;
            &&& d.chain_id == r.chain_id
            &&& d.next_synthetic_token == r.next_synthetic_token
            &&& d.lifecycle_generation == r.lifecycle_generation
            &&& d.owner_generations == r.owner_generations
            &&& d.lifecycle_intent == r.lifecycle_intent
            &&& d.canonical_history == commit.next_canonical_history
            &&& d.coverage_head == commit.next_coverage_head
            &&& d.safe_head == commit.next_safe_head
            &&& d.finalized_head == commit.next_finalized_head
            &&& d.last_committed_token is Some
            &&& d.last_committed_token->Some_0.inner == commit.token_bytes
        }),
{
}

/// What the simulated commit leaves of a state whose positions are filled.
proof fn lemma_committed_shape(
    r: CheckpointView,
    commit: CommitView,
    config: HybridConfig,
    tip: BlockRef,
)
    requires
        config_error(config) is None,
        committed(r, commit, config.canonical_history_capacity as nat) is Ok,
        full(tip),
        commit.canonical == seq![CanonicalMutation::Advance(tip)],
        commit.source_progress == Some(tip),
        commit.source_observed_through == Some(tip),
        commit.source_checkpoint is Some,
        commit.source_checkpoint->Some_0.len() == config.max_source_checkpoint_bytes,
        commit.source_checkpoint->Some_0[0] >= 0x80,
        commit.source_token is Some ==> commit.source_token->Some_0.len()
            == config.max_source_delivery_token_bytes && commit.source_token->Some_0[0] >= 0x80,
        filled(r.historical_position, config, false),
        filled(r.live_position, config, false),
        r.recent_inputs.len() == 0,
        r.certified_historical is Some,
        r.certified_historical->Some_0.lifecycle_generation == r.lifecycle_generation,
        full(r.certified_historical->Some_0.through),
        commit.audiences.len() == 1,
    ensures
        ({
            let d = committed(r, commit, config.canonical_history_capacity as nat)->Ok_0;
            let a = commit.audiences[0];
            &&& filled(
                d.historical_position,
                config,
                commit.source_token is None && commit.source == HybridSource::Historical,
            )
            &&& filled(
                d.live_position,
                config,
                commit.source_token is None && commit.source == HybridSource::Live,
            )
            &&& d.certified_historical is Some
            &&& d.certified_historical->Some_0.lifecycle_generation == r.lifecycle_generation
            &&& full(d.certified_historical->Some_0.through)
            &&& d.recent_inputs.len() == 1
            &&& d.recent_inputs[0].identity == a.identity
            &&& d.recent_inputs[0].coverage.block == a.block
            &&& d.recent_inputs[0].coverage.witness == Some(a.witness)
            &&& d.recent_inputs[0].coverage.owners == coverage_with(
                no_coverage(),
                a.audience,
                r.owner_generations,
            ).owners
        }),
{
    let none = Seq::<CanonicalMutation>::empty();
    assert(commit.canonical.drop_last() =~= none);
    assert(commit.canonical.last() == CanonicalMutation::Advance(tip));
    assert(ancestors_of(none) == Seq::<BlockRef>::empty());
    assert(ancestors_of(commit.canonical) == Seq::<BlockRef>::empty());
    assert(!resets(commit.canonical)) by {
        if commit.canonical.contains(CanonicalMutation::Reset) {
            let i = choose|i: int|
                0 <= i < commit.canonical.len() && commit.canonical[i] == CanonicalMutation::Reset;
            assert(commit.canonical[0] == CanonicalMutation::Advance(tip));
        }
    }
    assert(!uncertified(r.certified_historical, commit.canonical));
    let mine = r.position(commit.source);
    lemma_committed_filled(mine, commit, config, tip);
    assert(r.recent_inputs =~= Seq::<RecentView>::empty());
    assert(survivors(r.recent_inputs, commit.canonical) == Seq::<RecentView>::empty());
    assert(commit.audiences =~= seq![commit.audiences[0]]);
    lemma_one_touched(commit.audiences[0], r.owner_generations);
}

// ---------------------------------------------------------------------------
// Real deliveries
// ---------------------------------------------------------------------------

proof fn lemma_position_within(
    a: SourceView,
    b: SourceView,
    config: HybridConfig,
    label: &'static str,
    silent: bool,
)
    requires
        config_error(config) is None,
        cursor_error(config, label, a) is None,
        a.canonical_history.len() <= config.canonical_history_capacity,
        silent ==> a.delivery_token is None,
        filled(b, config, silent),
    ensures
        source_within(a, b),
{
    if let Some(token) = a.delivery_token {
        lemma_string_len(token, b.delivery_token->Some_0);
    }
    if let Some(checkpoint) = a.checkpoint {
        lemma_string_len(checkpoint, b.checkpoint->Some_0);
    }
}

proof fn lemma_valid_entry_within(
    n: CheckpointView,
    full_state: CheckpointView,
    candidate: CheckpointView,
    sequence: SequenceVerdict,
)
    requires
        state_typed(n),
        state_error(n, sequence) is None,
        n.recent_inputs.len() == 1,
        n.recent_inputs[0].identity.compatible(),
        n.chain_id == candidate.chain_id,
        n.owner_generations == candidate.owner_generations,
        sorted_keys(candidate.owner_generations),
        full_state.recent_inputs.len() == 1,
        widest_identity(full_state.recent_inputs[0].identity, candidate.chain_id),
        full_state.recent_inputs[0].coverage.block is Some,
        full(full_state.recent_inputs[0].coverage.block->Some_0),
        full_state.recent_inputs[0].coverage.witness is Some,
        widest_witness(
            full_state.recent_inputs[0].coverage.witness->Some_0,
            candidate.chain_id,
        ),
        submap(candidate.owner_generations, full_state.recent_inputs[0].coverage.owners),
    ensures
        entry_within(n.recent_inputs[0], full_state.recent_inputs[0], n.chain_id),
{
    reveal(state_error);
    let a = n.recent_inputs[0];
    let b = full_state.recent_inputs[0];
    let g = candidate.owner_generations;
    assert(entries_error(n, 0) is None);
    assert(entry_error(n, a) is None);
    let owners = a.coverage.owners;
    assert forall|i: int| 0 <= i < owners.len() implies held_by(
        #[trigger] owners[i],
        b.coverage.owners,
    ) by {
        assert(!bad_coverage(n, owners[i]));
        let k = owners[i].0;
        lemma_lookup(g, k);
        assert(has_key(g, k));
        let x = choose|x: int| 0 <= x < g.len() && #[trigger] g[x].0 == k;
        assert(owners[i].1 <= g[x].1);
        assert(held_by(g[x], b.coverage.owners));
        let y = choose|y: int|
            0 <= y < b.coverage.owners.len() && g[x].0 == (#[trigger] b.coverage.owners[y]).0
                && g[x].1 <= b.coverage.owners[y].1;
        assert(b.coverage.owners[y].0 == k);
    }
}

/// The owners of the simulated record are handlers in order.
proof fn lemma_probe_owners_typed(c: CheckpointView)
    requires
        map_typed(c.owner_generations),
    ensures
        map_typed(coverage_with(no_coverage(), probe_audience(c), c.owner_generations).owners),
{
    let g = c.owner_generations;
    let audience = probe_audience(c);
    let ids = requested_owners(audience, g);
    let owners = coverage_with(no_coverage(), audience, g).owners;
    let keys = keys_of(g);
    lemma_normalized(keys);
    lemma_owners_covered(no_coverage().owners, ids, g);
    assert forall|i: int| 0 <= i < owners.len() implies handler_bytes((#[trigger] owners[i]).0) by {
        let k = owners[i].0;
        lemma_lookup(owners, k);
        assert(lookup(owners, k) is Some);
        assert(lookup(no_coverage().owners, k) is None);
        assert(ids.contains(k));
        assert(keys.contains(k)) by {
            if audience is Owners {
                assert(normalized(keys).contains(k));
            }
        }
        let x = choose|x: int| 0 <= x < keys.len() && keys[x] == k;
        assert(handler_bytes(g[x].0));
    }
}

proof fn lemma_eight_bytes(x: Seq<u8>, y: Seq<u8>)
    requires
        x.len() == 8,
        y.len() == 8,
    ensures
        bytes_within(Some(x), Some(y)),
{
}

proof fn lemma_brimful_typed(b: CheckpointView, candidate: CheckpointView)
    requires
        state_typed(candidate),
        b.owner_generations == candidate.owner_generations,
        b.lifecycle_intent == candidate.lifecycle_intent,
        b.recent_inputs.len() == 1,
        b.recent_inputs[0].coverage.owners == coverage_with(
            no_coverage(),
            probe_audience(candidate),
            candidate.owner_generations,
        ).owners,
    ensures
        state_typed(b),
{
    lemma_probe_owners_typed(candidate);
}

proof fn lemma_room_covers(
    candidate: CheckpointView,
    config: HybridConfig,
    context: &'static str,
    verdicts: ProbeVerdicts,
    source: HybridSource,
    kind: HybridTokenKind,
)
    requires
        room_error(candidate, config, context, verdicts) is None,
    ensures
        variant_encoded(candidate, config, source, kind, verdicts) is Ok,
{
    assert(variant_error(candidate, config, source, kind, context, verdicts) is None);
}

/// A valid state within the configured limits is within a brimful one.
proof fn lemma_within_brimful(
    n: CheckpointView,
    b: CheckpointView,
    candidate: CheckpointView,
    config: HybridConfig,
    sequence: SequenceVerdict,
)
    requires
        config_error(config) is None,
        sorted_keys(candidate.owner_generations),
        state_typed(n),
        n.chain_id == candidate.chain_id,
        n.lifecycle_generation == candidate.lifecycle_generation,
        n.owner_generations == candidate.owner_generations,
        n.lifecycle_intent == candidate.lifecycle_intent,
        state_error(n, sequence) is None,
        config_limits_error(config, n, true) is None,
        n.recent_inputs.len() <= 1,
        n.recent_inputs.len() == 1 ==> n.recent_inputs[0].identity.compatible(),
        n.last_committed_token is Some,
        n.last_committed_token->Some_0.kind == HybridTokenKind::Synthetic
            ==> n.last_committed_token->Some_0.inner.len() == 8,
        brimful(
            b,
            candidate,
            config,
            n.last_committed_token->Some_0.source,
            n.last_committed_token->Some_0.kind,
        ),
    ensures
        state_within(n, b),
{
    reveal(brimful);
    let token = n.last_committed_token->Some_0;
    let source = token.source;
    let silent = token.kind == HybridTokenKind::Synthetic;
    assert(token_error(n) is None && certified_error(n) is None) by {
        reveal(state_error);
    }
    lemma_position_within(
        n.historical_position,
        b.historical_position,
        config,
        "historical",
        silent && source == HybridSource::Historical,
    );
    lemma_position_within(
        n.live_position,
        b.live_position,
        config,
        "live",
        silent && source == HybridSource::Live,
    );
    if silent {
        lemma_eight_bytes(token.inner, b.last_committed_token->Some_0.inner);
    } else {
        lemma_string_len(token.inner, b.last_committed_token->Some_0.inner);
    }
    if n.recent_inputs.len() == 1 {
        lemma_valid_entry_within(n, b, candidate, sequence);
    }
}

/// A topology that passed its preflight has room: every valid state under it
/// that keeps to the configured limits, with at most one recent input, can be
/// written, however its blocks, cursors and histories turn out.
pub proof fn law_preflight_leaves_room(
    candidate: CheckpointView,
    config: HybridConfig,
    context: &'static str,
    verdicts: ProbeVerdicts,
    n: CheckpointView,
    sequence: SequenceVerdict,
)
    requires
        config_error(config) is None,
        state_typed(candidate),
        room_error(candidate, config, context, verdicts) is None,
        state_typed(n),
        n.chain_id == candidate.chain_id,
        n.lifecycle_generation == candidate.lifecycle_generation,
        n.owner_generations == candidate.owner_generations,
        n.lifecycle_intent == candidate.lifecycle_intent,
        state_error(n, sequence) is None,
        config_limits_error(config, n, true) is None,
        n.recent_inputs.len() <= 1,
        n.recent_inputs.len() == 1 ==> n.recent_inputs[0].identity.compatible(),
        n.last_committed_token is Some,
        n.last_committed_token->Some_0.kind == HybridTokenKind::Synthetic
            ==> n.last_committed_token->Some_0.inner.len() == 8,
    ensures
        limits_error(n) is None,
        enc_checkpoint(n).len() <= MAX_CHECKPOINT_PAYLOAD_BYTES,
        encoded(n, sequence, MAX_CHECKPOINT_PAYLOAD_BYTES) is Ok,
{
    let token = n.last_committed_token->Some_0;
    lemma_room_covers(candidate, config, context, verdicts, token.source, token.kind);
    let b = lemma_probe_result(candidate, config, token.source, token.kind, verdicts);
    lemma_brimful_typed(b, candidate);
    lemma_within_brimful(n, b, candidate, config, sequence);
    law_smaller_states_fit(n, b);
}

proof fn lemma_owner_drop_within(s: Seq<RecentView>, from: int, max: nat, most: int)
    requires
        0 <= from <= most <= s.len(),
        owner_total(s, most) <= max,
    ensures
        from <= owner_drop(s, from, max) <= most,
    decreases most - from,
{
    if from < most && owner_total(s, from) > max {
        lemma_owner_drop_within(s, from + 1, max, most);
    }
}

proof fn lemma_fitting_drop_fits(c: CheckpointView, from: int, most: int)
    requires
        from <= most,
        fits(c, most),
    ensures
        from <= fitting_drop(c, from, most) <= most,
        fits(c, fitting_drop(c, from, most)),
    decreases most - from,
{
    if from < most && !fits(c, from) {
        lemma_fitting_drop_fits(c, from + 1, most);
    }
}

/// A topology that passed its preflight never fails a delivery of one record
/// for want of room: whatever was remembered before is forgotten as far as it
/// must be, and what is left can be written.
pub proof fn law_one_record_always_fits(
    candidate: CheckpointView,
    config: HybridConfig,
    context: &'static str,
    verdicts: ProbeVerdicts,
    c: CheckpointView,
    sequence: SequenceVerdict,
)
    requires
        config_error(config) is None,
        state_typed(candidate),
        room_error(candidate, config, context, verdicts) is None,
        state_typed(c),
        c.chain_id == candidate.chain_id,
        c.lifecycle_generation == candidate.lifecycle_generation,
        c.owner_generations == candidate.owner_generations,
        c.lifecycle_intent == candidate.lifecycle_intent,
        state_error(c, sequence) is None,
        c.recent_inputs.len() > 0,
        config_limits_error(config, c.drop_recent(c.recent_inputs.len() - 1), true) is None,
        c.recent_inputs.last().identity.compatible(),
        c.last_committed_token is Some,
        c.last_committed_token->Some_0.kind == HybridTokenKind::Synthetic
            ==> c.last_committed_token->Some_0.inner.len() == 8,
        owner_total(c.recent_inputs, 0) <= usize::MAX,
    ensures
        fitted(
            c,
            1,
            config.recent_input_capacity as nat,
            config.max_recent_owner_entries as nat,
            sequence,
        ) is Ok,
{
    let count = c.recent_inputs.len();
    let most = count - 1;
    let one = c.drop_recent(most);
    assert(one.recent_inputs =~= seq![c.recent_inputs.last()]);
    assert(state_typed(one)) by {
        assert(map_typed(c.recent_inputs[most].coverage.owners));
    }
    law_dropping_recent_keeps_valid(c, sequence, most);
    law_preflight_leaves_room(candidate, config, context, verdicts, one, sequence);
    assert(fits(c, most));
    lemma_owner_total_skip(c.recent_inputs, most, 0);
    assert(owner_total(c.recent_inputs, most) <= config.max_recent_owner_entries);
    let over = if count > config.recent_input_capacity {
        count - config.recent_input_capacity
    } else {
        0
    };
    lemma_owner_drop_within(
        c.recent_inputs,
        over,
        config.max_recent_owner_entries as nat,
        most,
    );
    let required = owner_drop(c.recent_inputs, over, config.max_recent_owner_entries as nat);
    lemma_fitting_drop_fits(c, required, most);
    law_dropping_recent_keeps_valid(c, sequence, fitting_drop(c, required, most));
}

} // verus!
