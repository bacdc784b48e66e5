//! Whether a topology leaves room for one more delivery in a checkpoint.
//!
//! A coordinator that is about to change what is subscribed first simulates the
//! largest delivery that may follow. Only if that delivery can be committed,
//! fitted and written is the change admitted.
use crate::audience::{AudienceView, DeliveryAudience, RecordWitness, WitnessLifecycle};
use crate::checkpoint::{
    copy_blocks, recent_view, CheckpointView, HybridCheckpointV5, HybridSource, HybridTokenKind,
    RecentView, SourcePosition, SourceView, StoredRecentInput,
};
use crate::codec::{encode_hybrid_checkpoint, encoded};
use crate::commit::{
    apply_commit_to_checkpoint, audiences_view, committed, entry_index, find_entry, source_moved,
    AudienceCommit, AudienceCommitView, CommitView, PendingCoordinatorCommit,
};
use crate::config::{config_limits_error, validate_checkpoint_config_limits, HybridConfig};
use crate::decode::MAX_CHECKPOINT_PAYLOAD_BYTES;
use crate::error::SubscriberError;
use crate::fit::{fit_checkpoint_to_durable_limits, fitted};
use crate::history::{apply_canonical_mutations_to, moved_all, CanonicalMutation, Trail};
use crate::intent::{empty_fingerprint, empty_interest_fingerprint};
use crate::model::{copy_bytes, BlockRef, InputRef, ReactiveInputIdentity, ReactiveInputKind};
use crate::owners::keys_of;
use crate::probe::{
    capacity_probe_bytes, capacity_probe_sequence_hash, fill_bytes, fill_hash,
    maximum_canonical_log_probe_blocks, probe_blocks, saturated_capacity_probe_state,
    saturated_state, sequence_hash,
};
use crate::validate::{state_error, validate_checkpoint_state, SequenceVerdict};
use crate::words::{push_word, word_bytes, B256};
use vstd::prelude::*;

verus! {

/// The limits that the simulated delivery fills.
#[derive(Clone, Copy, Debug, PartialEq, Eq, Structural)]
pub struct CapacityProbeLimits {
    pub history_capacity: usize,
    pub max_delivery_token_bytes: usize,
    pub max_checkpoint_bytes: usize,
}

/// What the canonical-sequence rules say of the simulated state before and
/// after the simulated delivery.
#[derive(Debug, PartialEq, Eq)]
pub struct ProbeVerdicts {
    pub before: SequenceVerdict,
    pub after: SequenceVerdict,
}

/// The identity of the simulated record at one place of a sequence.
pub open spec fn probe_identity(chain_id: u64, block_hash: B256, sequence: u64) -> ReactiveInputIdentity {
    ReactiveInputIdentity {
        input_ref: InputRef::Log {
            chain_id: Some(chain_id),
            block_hash,
            transaction_hash: sequence_hash(0xff, sequence),
            log_index: u64::MAX,
        },
        kind: ReactiveInputKind::CanonicalLog,
    }
}

/// The first simulated identity, from place `from` on, that is not in the
/// journal.
pub open spec fn fresh_identity(
    entries: Seq<RecentView>,
    chain_id: u64,
    block_hash: B256,
    from: int,
) -> Result<ReactiveInputIdentity, SubscriberError>
    decreases entries.len() + 1 - from,
{
    if from < 0 || from > entries.len() {
        Err(
            SubscriberError::Provider(
                "hybrid could not construct a unique durable capacity-probe identity",
            ),
        )
    } else if entry_index(entries, probe_identity(chain_id, block_hash, from as u64), 0)
        >= entries.len() {
        Ok(probe_identity(chain_id, block_hash, from as u64))
    } else {
        fresh_identity(entries, chain_id, block_hash, from + 1)
    }
}

fn unique_probe_identity(entries: &Vec<StoredRecentInput>, chain_id: u64, block_hash: B256) -> (r:
    Result<ReactiveInputIdentity, SubscriberError>)
    ensures
        r == fresh_identity(recent_view(entries@), chain_id, block_hash, 0),
{
    let ghost all = recent_view(entries@);
    let count: usize = entries.len();
    let mut sequence: usize = 0;
    loop
        invariant
            sequence <= count,
            count == entries@.len(),
            all == recent_view(entries@),
            fresh_identity(all, chain_id, block_hash, 0) == fresh_identity(
                all,
                chain_id,
                block_hash,
                sequence as int,
            ),
        decreases count - sequence,
    {
        let identity = ReactiveInputIdentity {
            input_ref: InputRef::Log {
                chain_id: Some(chain_id),
                block_hash,
                transaction_hash: capacity_probe_sequence_hash(0xff, sequence as u64),
                log_index: u64::MAX,
            },
            kind: ReactiveInputKind::CanonicalLog,
        };
        if find_entry(entries.as_slice(), &identity) >= count {
            return Ok(identity);
        }
        if sequence == count {
            assert(fresh_identity(all, chain_id, block_hash, count + 1) is Err);
            return Err(
                SubscriberError::Provider(
                    "hybrid could not construct a unique durable capacity-probe identity",
                ),
            );
        }
        sequence += 1;
    }
}

/// Who the simulated record is for: everyone that is subscribed.
pub open spec fn probe_audience(c: CheckpointView) -> AudienceView {
    if c.lifecycle_intent.base != empty_fingerprint() {
        AudienceView::All
    } else {
        AudienceView::Owners(keys_of(c.owner_generations))
    }
}

/// The witness of the simulated record.
pub open spec fn probe_witness(chain_id: u64, block: BlockRef) -> RecordWitness {
    RecordWitness {
        payload_digest: fill_hash(0xff),
        chain_id,
        lifecycle: WitnessLifecycle::Finalized,
        block: Some(block),
        transaction_index: Some(u64::MAX),
        log_index: Some(u64::MAX),
        log_block_timestamp: Some(u64::MAX),
    }
}

/// The commit of the largest delivery over a given canonical transition.
pub open spec fn transition_commit(
    c: CheckpointView,
    source: HybridSource,
    canonical: Seq<CanonicalMutation>,
    record_block: BlockRef,
    tip: BlockRef,
    limits: CapacityProbeLimits,
) -> Result<CommitView, SubscriberError> {
    match moved_all(
        Trail { history: c.canonical_history, head: c.coverage_head },
        canonical,
        0,
        limits.history_capacity as nat,
    ) {
        Err(e) => Err(e),
        Ok(t) => match fresh_identity(c.recent_inputs, c.chain_id, record_block.hash, 0) {
            Err(e) => Err(e),
            Ok(identity) => {
                let token = fill_bytes(
                    limits.max_delivery_token_bytes as nat,
                    if source == HybridSource::Historical { 0x91 } else { 0xa1 },
                );
                let checkpoint = fill_bytes(
                    limits.max_checkpoint_bytes as nat,
                    if source == HybridSource::Historical { 0x92 } else { 0xa2 },
                );
                Ok(
                    CommitView {
                        audiences: seq![
                            AudienceCommitView {
                                identity,
                                audience: probe_audience(c),
                                block: Some(record_block),
                                witness: probe_witness(c.chain_id, record_block),
                            },
                        ],
                        canonical,
                        source,
                        source_token: Some(token),
                        source_checkpoint: Some(checkpoint),
                        source_progress: Some(tip),
                        source_observed_through: Some(tip),
                        token_kind: HybridTokenKind::Forwarded,
                        token_bytes: token,
                        source_delivery_digest: fill_hash(0xfe),
                        next_safe_head: Some(tip),
                        next_finalized_head: Some(tip),
                        next_canonical_history: t.history,
                        next_coverage_head: t.head,
                    },
                )
            },
        },
    }
}

/// The commit of the largest delivery over a given canonical transition.
pub fn maximum_canonical_log_commit_for_transition(
    state: &HybridCheckpointV5,
    source: HybridSource,
    canonical: Vec<CanonicalMutation>,
    record_block: BlockRef,
    coverage_tip: BlockRef,
    limits: CapacityProbeLimits,
) -> (r: Result<PendingCoordinatorCommit, SubscriberError>)
    ensures
        match r {
            Ok(commit) => transition_commit(
                state@,
                source,
                canonical@,
                record_block,
                coverage_tip,
                limits,
            ) == Ok::<_, SubscriberError>(commit@),
            Err(e) => transition_commit(
                state@,
                source,
                canonical@,
                record_block,
                coverage_tip,
                limits,
            ) == Err::<CommitView, _>(e),
        },
{
    let mut next_canonical_history: Vec<BlockRef> = copy_blocks(state.canonical_history.as_slice());
    let mut next_coverage_head: Option<BlockRef> = state.coverage_head;
    apply_canonical_mutations_to(
        &mut next_canonical_history,
        &mut next_coverage_head,
        canonical.as_slice(),
        limits.history_capacity,
    )?;
    let identity: ReactiveInputIdentity = unique_probe_identity(
        &state.recent_inputs,
        state.chain_id,
        record_block.hash,
    )?;
    let audience: DeliveryAudience = if state.lifecycle_intent.base
        != empty_interest_fingerprint() {
        DeliveryAudience::All
    } else {
        DeliveryAudience::Owners(state.owner_generations.owners())
    };
    let (token_fill, checkpoint_fill): (u8, u8) = match source {
        HybridSource::Historical => (0x91, 0x92),
        HybridSource::Live => (0xa1, 0xa2),
    };
    let source_token: Vec<u8> = capacity_probe_bytes(limits.max_delivery_token_bytes, token_fill);
    let source_checkpoint: Vec<u8> = capacity_probe_bytes(
        limits.max_checkpoint_bytes,
        checkpoint_fill,
    );
    let token_bytes: Vec<u8> = copy_bytes(source_token.as_slice());
    let only = AudienceCommit {
        identity,
        audience,
        block: Some(record_block),
        witness: RecordWitness {
            payload_digest: B256::repeat_byte(0xff),
            chain_id: state.chain_id,
            lifecycle: WitnessLifecycle::Finalized,
            block: Some(record_block),
            transaction_index: Some(u64::MAX),
            log_index: Some(u64::MAX),
            log_block_timestamp: Some(u64::MAX),
        },
    };
    let ghost seen = only@;
    let audiences: Vec<AudienceCommit> = vec![only];
    assert(audiences_view(audiences@) =~= seq![seen]);
    Ok(
        PendingCoordinatorCommit {
            audiences,
            canonical,
            source,
            source_token: Some(source_token),
            source_checkpoint: Some(source_checkpoint),
            source_progress: Some(coverage_tip),
            source_observed_through: Some(coverage_tip),
            token_kind: HybridTokenKind::Forwarded,
            token_bytes,
            source_delivery_digest: B256::repeat_byte(0xfe),
            next_safe_head: Some(coverage_tip),
            next_finalized_head: Some(coverage_tip),
            next_canonical_history,
            next_coverage_head,
        },
    )
}

/// Advances over blocks, one by one.
pub open spec fn advances(blocks: Seq<BlockRef>) -> Seq<CanonicalMutation> {
    Seq::new(blocks.len(), |i: int| CanonicalMutation::Advance(blocks[i]))
}

/// The commit of the largest delivery that advances by at most
/// `maximum_advances` blocks.
pub open spec fn maximum_commit(
    c: CheckpointView,
    source: HybridSource,
    maximum_advances: usize,
    limits: CapacityProbeLimits,
) -> Result<CommitView, SubscriberError> {
    match probe_blocks(c, maximum_advances) {
        Err(e) => Err(e),
        Ok(blocks) => if blocks.len() == 0 {
            Err(
                SubscriberError::Provider(
                    "hybrid maximum canonical-log capacity probe produced no record block",
                ),
            )
        } else {
            transition_commit(c, source, advances(blocks), blocks[0], blocks.last(), limits)
        },
    }
}

/// The commit of the largest delivery that advances by at most
/// `maximum_advances` blocks.
pub fn maximum_canonical_log_commit(
    state: &HybridCheckpointV5,
    source: HybridSource,
    maximum_advances: usize,
    limits: CapacityProbeLimits,
) -> (r: Result<PendingCoordinatorCommit, SubscriberError>)
    ensures
        match r {
            Ok(commit) => maximum_commit(state@, source, maximum_advances, limits) == Ok::<
                _,
                SubscriberError,
            >(commit@),
            Err(e) => maximum_commit(state@, source, maximum_advances, limits) == Err::<
                CommitView,
                _,
            >(e),
        },
{
    let blocks: Vec<BlockRef> = maximum_canonical_log_probe_blocks(state, maximum_advances)?;
    if blocks.len() == 0 {
        return Err(
            SubscriberError::Provider(
                "hybrid maximum canonical-log capacity probe produced no record block",
            ),
        );
    }
    let record_block: BlockRef = blocks[0];
    let coverage_tip: BlockRef = blocks[blocks.len() - 1];
    let mut canonical: Vec<CanonicalMutation> = Vec::with_capacity(blocks.len());
    let mut i: usize = 0;
    while i < blocks.len()
        invariant
            i <= blocks@.len(),
            canonical@ =~= advances(blocks@).take(i as int),
        decreases blocks@.len() - i,
    {
        canonical.push(CanonicalMutation::Advance(blocks[i]));
        i += 1;
    }
    assert(advances(blocks@).take(i as int) =~= advances(blocks@));
    maximum_canonical_log_commit_for_transition(
        state,
        source,
        canonical,
        record_block,
        coverage_tip,
        limits,
    )
}

/// A source position with cursors at their configured length; where it is not
/// the one that commits, it has also seen `block`.
pub open spec fn reserved_source(
    p: SourceView,
    config: HybridConfig,
    token_fill: u8,
    checkpoint_fill: u8,
    commits: bool,
    block: BlockRef,
) -> Result<SourceView, SubscriberError> {
    let filled = SourceView {
        delivery_token: Some(fill_bytes(config.max_source_delivery_token_bytes as nat, token_fill)),
        checkpoint: Some(fill_bytes(config.max_source_checkpoint_bytes as nat, checkpoint_fill)),
        ..p
    };
    match (if commits {
        Ok(filled)
    } else {
        source_moved(
            filled,
            seq![CanonicalMutation::Advance(block)],
            config.canonical_history_capacity as nat,
        )
    }) {
        Err(e) => Err(e),
        Ok(s) => Ok(SourceView { delivery_digest: Some(fill_hash(token_fill)), ..s }),
    }
}

/// A state with the cursors of both sources at their configured length.
pub open spec fn reserved(
    c: CheckpointView,
    config: HybridConfig,
    committing: HybridSource,
    block: BlockRef,
) -> Result<CheckpointView, SubscriberError> {
    match reserved_source(
        c.historical_position,
        config,
        0xe1,
        0xe2,
        committing == HybridSource::Historical,
        block,
    ) {
        Err(e) => Err(e),
        Ok(historical_position) => match reserved_source(
            c.live_position,
            config,
            0x81,
            0x82,
            committing == HybridSource::Live,
            block,
        ) {
            Err(e) => Err(e),
            Ok(live_position) => Ok(CheckpointView { historical_position, live_position, ..c }),
        },
    }
}

fn reserve_source(
    position: &mut SourcePosition,
    config: &HybridConfig,
    token_fill: u8,
    checkpoint_fill: u8,
    commits: bool,
    block: BlockRef,
) -> (r: Result<(), SubscriberError>)
    ensures
        match r {
            Ok(_) => reserved_source(
                old(position)@,
                *config,
                token_fill,
                checkpoint_fill,
                commits,
                block,
            ) == Ok::<_, SubscriberError>(final(position)@),
            Err(e) => reserved_source(
                old(position)@,
                *config,
                token_fill,
                checkpoint_fill,
                commits,
                block,
            ) == Err::<SourceView, _>(e),
        },
{
    position.delivery_token =
    Some(capacity_probe_bytes(config.max_source_delivery_token_bytes, token_fill));
    position.checkpoint =
    Some(capacity_probe_bytes(config.max_source_checkpoint_bytes, checkpoint_fill));
    if !commits {
        let step: Vec<CanonicalMutation> = vec![CanonicalMutation::Advance(block)];
        assert(step@ =~= seq![CanonicalMutation::Advance(block)]);
        apply_canonical_mutations_to(
            &mut position.canonical_history,
            &mut position.coverage_head,
            step.as_slice(),
            config.canonical_history_capacity,
        )?;
    }
    position.delivery_digest = Some(B256::repeat_byte(token_fill));
    Ok(())
}

/// Brings the cursors of both sources to their configured length.
pub fn reserve_maximum_source_cursors(
    state: &mut HybridCheckpointV5,
    config: &HybridConfig,
    committing_source: HybridSource,
    block: BlockRef,
) -> (r: Result<(), SubscriberError>)
    ensures
        match r {
            Ok(_) => reserved(old(state)@, *config, committing_source, block) == Ok::<
                _,
                SubscriberError,
            >(final(state)@),
            Err(e) => reserved(old(state)@, *config, committing_source, block) == Err::<
                CheckpointView,
                _,
            >(e) && final(state)@ == old(state)@,
        },
{
    let mut historical: SourcePosition = state.historical_position.duplicate();
    let mut live: SourcePosition = state.live_position.duplicate();
    reserve_source(
        &mut historical,
        config,
        0xe1,
        0xe2,
        committing_source == HybridSource::Historical,
        block,
    )?;
    reserve_source(
        &mut live,
        config,
        0x81,
        0x82,
        committing_source == HybridSource::Live,
        block,
    )?;
    state.historical_position = historical;
    state.live_position = live;
    Ok(())
}

/// The limits of a configuration that the simulated delivery fills.
pub open spec fn probe_limits(config: HybridConfig) -> CapacityProbeLimits {
    CapacityProbeLimits {
        history_capacity: config.canonical_history_capacity,
        max_delivery_token_bytes: config.max_source_delivery_token_bytes,
        max_checkpoint_bytes: config.max_source_checkpoint_bytes,
    }
}

fn limits_of(config: &HybridConfig) -> (r: CapacityProbeLimits)
    ensures
        r == probe_limits(*config),
{
    CapacityProbeLimits {
        history_capacity: config.canonical_history_capacity,
        max_delivery_token_bytes: config.max_source_delivery_token_bytes,
        max_checkpoint_bytes: config.max_source_checkpoint_bytes,
    }
}

/// The bytes of a simulated state once a simulated delivery is committed,
/// fitted and written.
pub open spec fn delivered(
    c: CheckpointView,
    commit: CommitView,
    config: HybridConfig,
    after: SequenceVerdict,
) -> Result<Seq<u8>, SubscriberError> {
    match commit.next_coverage_head { None => Err(
        SubscriberError::Provider(
            "hybrid saturated canonical-log capacity probe did not advance coverage",
        ),
    ), Some(block) =>
    match reserved(c, config, commit.source, block) { Err(e) => Err(e), Ok(c) =>
    match committed(c, commit, config.canonical_history_capacity as nat) { Err(e) => Err(e), Ok(c) =>
    match fitted(
        c,
        1,
        config.recent_input_capacity as nat,
        config.max_recent_owner_entries as nat,
        after,
    ) { Err(e) => Err(e), Ok(c) =>
    match config_limits_error(config, c, true) { Some(e) => Err(e), None =>
    match state_error(c, after) { Some(e) => Err(e), None =>
    encoded(c, after, MAX_CHECKPOINT_PAYLOAD_BYTES) } } } } } }
}

fn deliver(
    state: HybridCheckpointV5,
    commit: &PendingCoordinatorCommit,
    config: &HybridConfig,
    after: &SequenceVerdict,
) -> (r: Result<Vec<u8>, SubscriberError>)
    ensures
        match r {
            Ok(bytes) => delivered(state@, commit@, *config, *after) == Ok::<_, SubscriberError>(
                bytes@,
            ),
            Err(e) => delivered(state@, commit@, *config, *after) == Err::<Seq<u8>, _>(e),
        },
{
    let mut simulated = state;
    let block: BlockRef = match commit.next_coverage_head {
        Some(block) => block,
        None => {
            return Err(
                SubscriberError::Provider(
                    "hybrid saturated canonical-log capacity probe did not advance coverage",
                ),
            );
        },
    };
    reserve_maximum_source_cursors(&mut simulated, config, commit.source, block)?;
    apply_commit_to_checkpoint(&mut simulated, commit, config.canonical_history_capacity)?;
    fit_checkpoint_to_durable_limits(
        &mut simulated,
        1,
        config.recent_input_capacity,
        config.max_recent_owner_entries,
        after,
    )?;
    validate_checkpoint_config_limits(config, &simulated)?;
    validate_checkpoint_state(&simulated, after)?;
    encode_hybrid_checkpoint(&simulated, after)
}

/// The saturated state of a candidate before a delivery of this kind.
pub open spec fn probe_start(candidate: CheckpointView, config: HybridConfig, kind: HybridTokenKind) -> Result<
    CheckpointView,
    SubscriberError,
> {
    match saturated_state(candidate, config) {
        Err(e) => Err(e),
        Ok(c) => Ok(
            if kind == HybridTokenKind::Synthetic {
                CheckpointView { next_synthetic_token: (u64::MAX - 1) as u64, ..c }
            } else {
                c
            },
        ),
    }
}

/// The bytes of a candidate once the largest delivery from `source`, with a
/// token of this kind, is committed on top of its saturated state.
#[verifier::opaque]
pub open spec fn variant_encoded(
    candidate: CheckpointView,
    config: HybridConfig,
    source: HybridSource,
    kind: HybridTokenKind,
    verdicts: ProbeVerdicts,
) -> Result<Seq<u8>, SubscriberError> {
    match probe_start(candidate, config, kind) { Err(e) => Err(e), Ok(c) =>
    match config_limits_error(config, c, true) { Some(e) => Err(e), None =>
    match state_error(c, verdicts.before) { Some(e) => Err(e), None =>
    match maximum_commit(c, source, 1, probe_limits(config)) { Err(e) => Err(e), Ok(commit) =>
    if kind == HybridTokenKind::Synthetic {
        delivered(
            CheckpointView { next_synthetic_token: u64::MAX, ..c },
            CommitView {
                source_token: None,
                token_kind: HybridTokenKind::Synthetic,
                token_bytes: word_bytes(c.next_synthetic_token),
                ..commit
            },
            config,
            verdicts.after,
        )
    } else {
        delivered(c, commit, config, verdicts.after)
    } } } } }
}

/// Commits the largest delivery from `source`, with a token of this kind, on
/// top of the saturated state of a candidate, and writes the result.
pub fn encode_maximum_canonical_log_delivery_variant(
    config: &HybridConfig,
    candidate: &HybridCheckpointV5,
    source: HybridSource,
    kind: HybridTokenKind,
    verdicts: &ProbeVerdicts,
) -> (r: Result<Vec<u8>, SubscriberError>)
    ensures
        match r {
            Ok(bytes) => variant_encoded(candidate@, *config, source, kind, *verdicts) == Ok::<
                _,
                SubscriberError,
            >(bytes@),
            Err(e) => variant_encoded(candidate@, *config, source, kind, *verdicts) == Err::<
                Seq<u8>,
                _,
            >(e),
        },
{
    reveal(variant_encoded);
    let mut simulated: HybridCheckpointV5 = saturated_capacity_probe_state(candidate, config)?;
    if kind == HybridTokenKind::Synthetic {
        simulated.next_synthetic_token = u64::MAX - 1;
    }
    validate_checkpoint_config_limits(config, &simulated)?;
    validate_checkpoint_state(&simulated, &verdicts.before)?;
    let mut commit: PendingCoordinatorCommit = maximum_canonical_log_commit(
        &simulated,
        source,
        1,
        limits_of(config),
    )?;
    proof {
        assert(commit@.source == source);
    }
    if kind == HybridTokenKind::Synthetic {
        let mut token: Vec<u8> = Vec::new();
        push_word(&mut token, simulated.next_synthetic_token);
        assert(token@ =~= word_bytes(simulated.next_synthetic_token));
        simulated.next_synthetic_token = u64::MAX;
        commit.source_token = None;
        commit.token_kind = HybridTokenKind::Synthetic;
        commit.token_bytes = token;
    }
    deliver(simulated, &commit, config, &verdicts.after)
}

/// Commits the largest delivery from `source`, with a token that it gave, on
/// top of the saturated state of a candidate, and writes the result.
pub fn encode_maximum_canonical_log_delivery(
    config: &HybridConfig,
    candidate: &HybridCheckpointV5,
    source: HybridSource,
    verdicts: &ProbeVerdicts,
) -> (r: Result<Vec<u8>, SubscriberError>)
    ensures
        match r {
            Ok(bytes) => variant_encoded(
                candidate@,
                *config,
                source,
                HybridTokenKind::Forwarded,
                *verdicts,
            ) == Ok::<_, SubscriberError>(bytes@),
            Err(e) => variant_encoded(
                candidate@,
                *config,
                source,
                HybridTokenKind::Forwarded,
                *verdicts,
            ) == Err::<Seq<u8>, _>(e),
        },
{
    encode_maximum_canonical_log_delivery_variant(
        config,
        candidate,
        source,
        HybridTokenKind::Forwarded,
        verdicts,
    )
}

/// Commits a delivery of at most `maximum_advances` blocks from `source` on top
/// of a candidate as it stands, and writes the result.
pub fn encode_canonical_log_delivery_capacity_probe(
    config: &HybridConfig,
    candidate: &HybridCheckpointV5,
    source: HybridSource,
    maximum_advances: usize,
    after: &SequenceVerdict,
) -> (r: Result<Vec<u8>, SubscriberError>)
    ensures
        match maximum_commit(candidate@, source, maximum_advances, probe_limits(*config)) {
            Err(x) => r == Err::<Vec<u8>, _>(x),
            Ok(commit) => match r {
                Ok(bytes) => delivered(candidate@, commit, *config, *after) == Ok::<
                    _,
                    SubscriberError,
                >(bytes@),
                Err(e) => delivered(candidate@, commit, *config, *after) == Err::<Seq<u8>, _>(e),
            },
        },
{
    let commit: PendingCoordinatorCommit = maximum_canonical_log_commit(
        candidate,
        source,
        maximum_advances,
        limits_of(config),
    )?;
    deliver(candidate.duplicate(), &commit, config, after)
}

/// The text for a source in an error.
pub open spec fn source_text(source: HybridSource) -> &'static str {
    if source == HybridSource::Historical {
        "historical"
    } else {
        "live"
    }
}

/// The text for a token kind in an error.
pub open spec fn kind_text(kind: HybridTokenKind) -> &'static str {
    if kind == HybridTokenKind::Forwarded {
        "forwarded-token"
    } else {
        "synthetic-token"
    }
}

/// The error of one simulated delivery.
pub open spec fn variant_error(
    candidate: CheckpointView,
    config: HybridConfig,
    source: HybridSource,
    kind: HybridTokenKind,
    context: &'static str,
    verdicts: ProbeVerdicts,
) -> Option<SubscriberError> {
    match variant_encoded(candidate, config, source, kind, verdicts) {
        Ok(_) => None,
        Err(cause) => Some(
            SubscriberError::NoRoomForDelivery {
                context,
                kind: kind_text(kind),
                origin: source_text(source),
                cause: Box::new(cause),
            },
        ),
    }
}

/// The first error of the four deliveries that may follow a candidate; none
/// where there is room for each of them.
pub open spec fn room_error(
    candidate: CheckpointView,
    config: HybridConfig,
    context: &'static str,
    verdicts: ProbeVerdicts,
) -> Option<SubscriberError> {
    let hf = variant_error(
        candidate,
        config,
        HybridSource::Historical,
        HybridTokenKind::Forwarded,
        context,
        verdicts,
    );
    let hs = variant_error(
        candidate,
        config,
        HybridSource::Historical,
        HybridTokenKind::Synthetic,
        context,
        verdicts,
    );
    let lf = variant_error(
        candidate,
        config,
        HybridSource::Live,
        HybridTokenKind::Forwarded,
        context,
        verdicts,
    );
    let ls = variant_error(
        candidate,
        config,
        HybridSource::Live,
        HybridTokenKind::Synthetic,
        context,
        verdicts,
    );
    if hf is Some {
        hf
    } else if hs is Some {
        hs
    } else if lf is Some {
        lf
    } else {
        ls
    }
}

fn check_variant(
    config: &HybridConfig,
    candidate: &HybridCheckpointV5,
    source: HybridSource,
    kind: HybridTokenKind,
    context: &'static str,
    verdicts: &ProbeVerdicts,
) -> (r: Result<(), SubscriberError>)
    ensures
        match r {
            Ok(_) => variant_error(candidate@, *config, source, kind, context, *verdicts) is None,
            Err(e) => variant_error(candidate@, *config, source, kind, context, *verdicts) == Some(
                e,
            ),
        },
{
    match encode_maximum_canonical_log_delivery_variant(config, candidate, source, kind, verdicts) {
        Ok(_) => Ok(()),
        Err(cause) => Err(
            SubscriberError::NoRoomForDelivery {
                context,
                kind: match kind {
                    HybridTokenKind::Forwarded => "forwarded-token",
                    HybridTokenKind::Synthetic => "synthetic-token",
                },
                origin: match source {
                    HybridSource::Historical => "historical",
                    HybridSource::Live => "live",
                },
                cause: Box::new(cause),
            },
        ),
    }
}

/// Refuses a candidate that leaves no room for the largest delivery that may
/// follow, from either source and with either kind of token.
pub fn preflight_maximum_canonical_log_delivery(
    config: &HybridConfig,
    candidate: &HybridCheckpointV5,
    context: &'static str,
    verdicts: &ProbeVerdicts,
) -> (r: Result<(), SubscriberError>)
    ensures
        match r {
            Ok(_) => room_error(candidate@, *config, context, *verdicts) is None,
            Err(e) => room_error(candidate@, *config, context, *verdicts) == Some(e),
        },
{
    check_variant(
        config,
        candidate,
        HybridSource::Historical,
        HybridTokenKind::Forwarded,
        context,
        verdicts,
    )?;
    check_variant(
        config,
        candidate,
        HybridSource::Historical,
        HybridTokenKind::Synthetic,
        context,
        verdicts,
    )?;
    check_variant(
        config,
        candidate,
        HybridSource::Live,
        HybridTokenKind::Forwarded,
        context,
        verdicts,
    )?;
    check_variant(
        config,
        candidate,
        HybridSource::Live,
        HybridTokenKind::Synthetic,
        context,
        verdicts,
    )
}

} // verus!
