//! The durable state of the coordinator, and restoring it.
use hybrid_events::audience::{AudienceCoverage, RecordWitness, WitnessLifecycle};
use hybrid_events::capacity::{
    encode_canonical_log_delivery_capacity_probe, encode_maximum_canonical_log_delivery,
    encode_maximum_canonical_log_delivery_variant, preflight_maximum_canonical_log_delivery, ProbeVerdicts,
};
use hybrid_events::checkpoint::{
    CertifiedHistoricalCoverage, HybridCheckpointV5, HybridTokenKind, LifecycleIntent, SourcePosition,
    StoredCommittedToken, StoredRecentInput,
};
use hybrid_events::codec::{
    checkpoint_payload_len_after_dropping_recent, decode_hybrid_checkpoint, encode_hybrid_checkpoint,
    encode_hybrid_checkpoint_v5_with_limit,
};
use hybrid_events::commit::{apply_commit_to_checkpoint, PendingCoordinatorCommit};
use hybrid_events::config::{
    maximum_admitted_canonical_advances, maximum_ingress_control_count, HYBRID_MAX_CANONICAL_HISTORY,
    HYBRID_MAX_SOURCE_CHECKPOINT_BYTES,
};
use hybrid_events::decode::MAX_CHECKPOINT_PAYLOAD_BYTES;
use hybrid_events::fit::fit_checkpoint_to_durable_limits;
use hybrid_events::flow::NextStep;
use hybrid_events::header::{header_body_digest, MAX_HEADER_CANONICALIZATION_BYTES};
use hybrid_events::ingress::BufferedBatch;
use hybrid_events::intent::{
    empty_interest_fingerprint, interest_fingerprint, lifecycle_intent, OwnerInterests, PortableInterest,
};
use hybrid_events::lifecycle::{ChangeVerdicts, TopologyChange};
use hybrid_events::model::{BlockRef, HandlerId, InputRef, ReactiveInputIdentity, ReactiveInputKind};
use hybrid_events::owners::OwnerMap;
use hybrid_events::plan::{prepare_canonical_batch, CanonicalOutcome, CanonicalPlanError};
use hybrid_events::probe::{
    maximum_canonical_log_probe_block, saturated_capacity_probe_history, saturated_capacity_probe_state,
};
use hybrid_events::records::{
    record_witness, ChainStatus, InputSource, LogBody, ReactiveContext, ReactiveInput, ReactiveInputRecord,
};
use hybrid_events::restore::{PrepareStep, RestoreStep, RestoreVerdicts};
use hybrid_events::state::SubscriberResumePosition;
use hybrid_events::steps::{ChangeEvent, ChangeStep};
use hybrid_events::subscriber::{SourceProfile, SubscriberCapabilities};
use hybrid_events::token::{unwrap_token, wrap_token};
use hybrid_events::validate::{validate_checkpoint_state, SequenceVerdict};
use hybrid_events::words::{Epoch, B256};
use hybrid_events::{HybridConfig, HybridPhase, HybridSource, HybridSubscriber, SubscriberError};

const CHECKPOINT_MAGIC: &[u8; 8] = b"EFCHYCP\0";
const CHECKPOINT_VERSION: u16 = 5;

/// The canonical-sequence rules accept everything here.
fn fine() -> SequenceVerdict {
    Ok(())
}

fn fine_probe() -> ProbeVerdicts {
    ProbeVerdicts { before: fine(), after: fine() }
}

fn fine_restore() -> RestoreVerdicts {
    RestoreVerdicts { stored: fine(), candidate: fine(), probe: fine_probe() }
}

fn fine_change() -> ChangeVerdicts {
    ChangeVerdicts { probe: fine_probe(), current: fine() }
}

fn epoch(fill: u8) -> Epoch {
    Epoch::from_slice(&[fill; 16])
}

fn hash(fill: u8) -> B256 {
    B256::repeat_byte(fill)
}

fn id(name: &str) -> HandlerId {
    HandlerId::try_new(name.to_string()).expect("non-empty handler id")
}

fn generations(entries: &[(&HandlerId, u64)]) -> OwnerMap<u64> {
    let mut map = OwnerMap::new();
    for (owner, generation) in entries {
        map.insert(owner.duplicate(), *generation);
    }
    map
}

fn digests(entries: &[(&HandlerId, B256)]) -> OwnerMap<B256> {
    let mut map = OwnerMap::new();
    for (owner, digest) in entries {
        map.insert(owner.duplicate(), *digest);
    }
    map
}

fn encode(state: &HybridCheckpointV5) -> Result<Vec<u8>, SubscriberError> {
    encode_hybrid_checkpoint(state, &fine())
}

fn decode(bytes: &[u8]) -> Result<HybridCheckpointV5, SubscriberError> {
    decode_hybrid_checkpoint(bytes, &fine())
}

/// A source that counts what is asked of it.
#[derive(Debug)]
struct RestoreCountingSource {
    historical: bool,
    durable: bool,
    polls: usize,
    mutations: usize,
}

impl RestoreCountingSource {
    fn new(historical: bool, durable: bool) -> Self {
        RestoreCountingSource { historical, durable, polls: 0, mutations: 0 }
    }

    fn profile(&self) -> SourceProfile {
        SourceProfile {
            chain_id: Some(1),
            capabilities: SubscriberCapabilities {
                historical_backfill: self.historical,
                live: !self.historical,
                durable_replay: self.durable,
                barriers: true,
                logs: true,
                pending_transaction_hashes: false,
                owner_scoped_delivery: true,
                dynamic_interests: true,
                explicit_reorgs: false,
                finality_updates: false,
                block_headers: false,
                full_blocks: false,
                pending_transactions: false,
            },
        }
    }
}

type Hybrid = HybridSubscriber<RestoreCountingSource, RestoreCountingSource>;

fn hybrid_with(live_durable: bool, config: HybridConfig) -> Hybrid {
    let history = RestoreCountingSource::new(true, true);
    let live = RestoreCountingSource::new(false, live_durable);
    let profiles = (history.profile(), live.profile());
    HybridSubscriber::new(history, live, config, &profiles.0, &profiles.1, epoch(0x77))
        .expect("coordinator")
}

fn prepare(
    hybrid: &mut Hybrid,
    position: &SubscriberResumePosition,
    base: &Vec<PortableInterest>,
    owners: &Vec<OwnerInterests>,
) -> Result<(), SubscriberError> {
    let durable = hybrid.live.durable;
    let step = if owners.is_empty() {
        hybrid.prepare_restore_base_lifecycle(position, base, durable, &fine_restore())?
    } else {
        hybrid.prepare_restore_lifecycle(position, base, owners, durable, &fine_restore())?
    };
    match step {
        PrepareStep::Done => return Ok(()),
        PrepareStep::InstallBase(_) | PrepareStep::InstallOwners(_) => {
            hybrid.live.mutations += 1;
            hybrid.core.topology_installed();
        }
        PrepareStep::Finish => {}
    }
    hybrid.core.finish_preparation(base, Some(1))
}

fn restore(hybrid: &mut Hybrid, position: &SubscriberResumePosition) -> Result<(), SubscriberError> {
    let durable = hybrid.live.durable;
    hybrid.core.begin_restore(position, durable, &fine_restore(), epoch(0x78))?;
    loop {
        match hybrid.core.restore_step() {
            RestoreStep::Historical(_) => hybrid.core.source_restored(HybridSource::Historical),
            RestoreStep::Live(_) => hybrid.core.source_restored(HybridSource::Live),
            RestoreStep::Finish => {
                return hybrid.core.finish_restore(Some(1), Some(1), durable);
            }
        }
    }
}

fn change(hybrid: &mut Hybrid, change: TopologyChange) -> Result<(), SubscriberError> {
    let plan = hybrid.core.plan_change(change, Some(1), &fine_change(), epoch(0x79))?;
    let Some(plan) = plan else {
        return Ok(());
    };
    let mut event = ChangeEvent::Planned;
    loop {
        event = match plan.change_step(&hybrid.core, event) {
            ChangeStep::MakeLive(_) => {
                hybrid.live.mutations += 1;
                ChangeEvent::LiveMade { chain: Some(1) }
            }
            ChangeStep::MakeHistorical(_) => {
                hybrid.historical.mutations += 1;
                ChangeEvent::HistoricalMade
            }
            ChangeStep::Commit => break,
            step => panic!("unexpected step {step:?}"),
        };
    }
    hybrid.core.commit_change(plan, epoch(0x7a));
    Ok(())
}

fn checkpoint() -> HybridCheckpointV5 {
    HybridCheckpointV5 {
        chain_id: 1,
        epoch: epoch(9),
        next_synthetic_token: 7,
        lifecycle_generation: 3,
        owner_generations: OwnerMap::new(),
        lifecycle_intent: lifecycle_intent(&Vec::new(), &Vec::new()).expect("empty lifecycle"),
        recent_inputs: Vec::new(),
        canonical_history: Vec::new(),
        coverage_head: None,
        safe_head: None,
        finalized_head: None,
        certified_historical: None,
        historical_position: SourcePosition::new(),
        live_position: SourcePosition::new(),
        last_committed_token: None,
    }
}

fn golden_block(number: u64, block_hash: u8, parent_hash: u8) -> BlockRef {
    BlockRef {
        number,
        hash: hash(block_hash),
        parent_hash: Some(hash(parent_hash)),
        timestamp: Some(number.saturating_mul(12)),
    }
}

fn golden_identity(input_ref: InputRef, kind: ReactiveInputKind) -> ReactiveInputIdentity {
    ReactiveInputIdentity::try_from_parts(input_ref, kind)
        .expect("golden identity must pair a compatible reference and representation")
}

fn golden_witness(
    payload: u8,
    lifecycle: WitnessLifecycle,
    block: Option<BlockRef>,
    transaction_index: Option<u64>,
    log_index: Option<u64>,
    log_block_timestamp: Option<u64>,
) -> RecordWitness {
    RecordWitness {
        payload_digest: hash(payload),
        chain_id: 1,
        lifecycle,
        block,
        transaction_index,
        log_index,
        log_block_timestamp,
    }
}

fn golden_log(block_hash: B256, transaction: u8, log_index: u64, kind: ReactiveInputKind) -> ReactiveInputIdentity {
    golden_identity(
        InputRef::Log {
            chain_id: Some(1),
            block_hash,
            transaction_hash: hash(transaction),
            log_index,
        },
        kind,
    )
}

fn fully_populated_checkpoint(
    committed_source: HybridSource,
    committed_kind: HybridTokenKind,
) -> HybridCheckpointV5 {
    let block_100 = golden_block(100, 0x64, 0x63);
    let block_101 = golden_block(101, 0x65, 0x64);
    let block_102 = golden_block(102, 0x66, 0x65);
    let owner_alpha = id("owner-alpha");
    let owner_beta = id("owner-beta");
    let recent_inputs = vec![
        StoredRecentInput {
            identity: golden_log(block_102.hash, 0xc1, 7, ReactiveInputKind::CanonicalLog),
            coverage: AudienceCoverage {
                base: true,
                owners: OwnerMap::new(),
                block: Some(block_102),
                witness: Some(golden_witness(
                    0x11,
                    WitnessLifecycle::Included,
                    Some(block_102),
                    Some(2),
                    Some(7),
                    Some(1_224),
                )),
            },
        },
        StoredRecentInput {
            identity: golden_log(block_100.hash, 0xc2, 8, ReactiveInputKind::CanonicalLog),
            coverage: AudienceCoverage {
                base: false,
                owners: generations(&[(&owner_alpha, 2)]),
                block: Some(block_100),
                witness: Some(golden_witness(
                    0x22,
                    WitnessLifecycle::Finalized,
                    Some(block_100),
                    Some(3),
                    Some(8),
                    None,
                )),
            },
        },
        StoredRecentInput {
            identity: golden_identity(
                InputRef::Block { chain_id: Some(1), hash: block_101.hash, number: block_101.number },
                ReactiveInputKind::BlockHeader,
            ),
            coverage: AudienceCoverage {
                base: true,
                owners: generations(&[(&owner_alpha, 2), (&owner_beta, 3)]),
                block: Some(block_101),
                witness: Some(golden_witness(
                    0x33,
                    WitnessLifecycle::Safe,
                    Some(block_101),
                    None,
                    None,
                    None,
                )),
            },
        },
        StoredRecentInput {
            identity: golden_log(block_101.hash, 0xc4, 9, ReactiveInputKind::ReorgSignalLog),
            coverage: AudienceCoverage {
                base: false,
                owners: generations(&[(&owner_beta, 3)]),
                block: Some(block_101),
                witness: Some(golden_witness(
                    0x44,
                    WitnessLifecycle::Reorg,
                    Some(block_101),
                    Some(4),
                    Some(9),
                    Some(1_212),
                )),
            },
        },
        StoredRecentInput {
            identity: golden_identity(
                InputRef::PendingTx { chain_id: Some(1), hash: hash(0xd5) },
                ReactiveInputKind::PendingTxHash,
            ),
            coverage: AudienceCoverage {
                base: false,
                owners: OwnerMap::new(),
                block: None,
                witness: Some(golden_witness(0x55, WitnessLifecycle::Pending, None, None, None, None)),
            },
        },
    ];
    let historical_token = vec![0xf1, 0xf2, 0xf3];
    let live_token = vec![0xe1, 0xe2, 0xe3, 0xe4];
    let mut historical_position = SourcePosition {
        delivery_token: Some(historical_token.clone()),
        checkpoint: Some(vec![0xa0, 0xa1, 0xa2]),
        coverage_head: Some(block_102),
        canonical_history: vec![block_100, block_101, block_102],
        delivery_digest: Some(hash(0xa5)),
    };
    let mut live_position = SourcePosition {
        delivery_token: Some(live_token.clone()),
        checkpoint: Some(vec![0xb0, 0xb1]),
        coverage_head: Some(block_101),
        canonical_history: vec![block_100, block_101],
        delivery_digest: Some(hash(0xb5)),
    };
    let historical = committed_source == HybridSource::Historical;
    let committed_inner = match (historical, committed_kind) {
        (true, HybridTokenKind::Forwarded) => historical_token,
        (false, HybridTokenKind::Forwarded) => live_token,
        (true, HybridTokenKind::Synthetic) => {
            historical_position.delivery_token = None;
            5_u64.to_be_bytes().to_vec()
        }
        (false, HybridTokenKind::Synthetic) => {
            live_position.delivery_token = None;
            6_u64.to_be_bytes().to_vec()
        }
    };
    HybridCheckpointV5 {
        chain_id: 1,
        epoch: epoch(0x9a),
        next_synthetic_token: 7,
        lifecycle_generation: 3,
        owner_generations: generations(&[(&owner_alpha, 2), (&owner_beta, 3)]),
        lifecycle_intent: LifecycleIntent {
            base: empty_interest_fingerprint(),
            owners: digests(&[(&owner_alpha, hash(0xa1)), (&owner_beta, hash(0xb2))]),
        },
        recent_inputs,
        canonical_history: vec![block_100, block_101, block_102],
        coverage_head: Some(block_102),
        safe_head: Some(block_101),
        finalized_head: Some(block_100),
        certified_historical: Some(CertifiedHistoricalCoverage {
            lifecycle_generation: 3,
            through: block_102,
        }),
        historical_position,
        live_position,
        last_committed_token: Some(StoredCommittedToken {
            source: committed_source,
            kind: committed_kind,
            inner: committed_inner,
        }),
    }
}

fn restore_test_interest() -> PortableInterest {
    PortableInterest::Log { addresses: vec![vec![0xaa; 20]], topics: Vec::new() }
}

fn one_interest() -> Vec<PortableInterest> {
    vec![restore_test_interest()]
}

/// A populated state whose base interest is the test interest.
fn base_state() -> HybridCheckpointV5 {
    let mut state = fully_populated_checkpoint(HybridSource::Historical, HybridTokenKind::Forwarded);
    state.owner_generations = OwnerMap::new();
    state.lifecycle_intent = LifecycleIntent {
        base: interest_fingerprint(&one_interest()).expect("base fingerprint"),
        owners: OwnerMap::new(),
    };
    state.recent_inputs.clear();
    state
}

fn restore_position_for(state: &HybridCheckpointV5) -> SubscriberResumePosition {
    let committed = state
        .last_committed_token
        .as_ref()
        .expect("restore fixture carries a committed token");
    SubscriberResumePosition {
        chain_id: state.chain_id,
        coverage_head: state.coverage_head.expect("restore fixture carries coverage"),
        canonical_history: state.canonical_history.clone(),
        delivery_token: Some(wrap_token(
            state.epoch,
            committed.source,
            committed.kind,
            &committed.inner,
        )),
        subscriber_checkpoint: Some(encode(state).expect("encode restore fixture")),
    }
}

fn fits_payload(state: &HybridCheckpointV5) -> bool {
    checkpoint_payload_len_after_dropping_recent(state, 0).expect("measure checkpoint fixture")
        <= MAX_CHECKPOINT_PAYLOAD_BYTES
}

fn fill_opaque_checkpoint_to_v5_limit(state: &mut HybridCheckpointV5) {
    let mut low = 0usize;
    let mut high = MAX_CHECKPOINT_PAYLOAD_BYTES + 1;
    while low + 1 < high {
        let middle = low + (high - low) / 2;
        state.historical_position.checkpoint = Some(vec![0x7a; middle]);
        if fits_payload(state) {
            low = middle;
        } else {
            high = middle;
        }
    }
    state.historical_position.checkpoint = Some(vec![0x7a; low]);
    encode(state).expect("near-limit checkpoint remains valid");
}

fn fill_ephemeral_live_checkpoint_to_v5_limit(state: &mut HybridCheckpointV5) {
    let mut low = 0usize;
    let mut high = MAX_CHECKPOINT_PAYLOAD_BYTES + 1;
    while low + 1 < high {
        let middle = low + (high - low) / 2;
        state.live_position.checkpoint = Some(vec![0x6c; middle]);
        if fits_payload(state) {
            low = middle;
        } else {
            high = middle;
        }
    }
    state.live_position.checkpoint = Some(vec![0x6c; low]);
    encode(state).expect("near-limit live checkpoint remains valid");
}

/// The largest length of both source checkpoints with which a state fits.
fn largest_pair(state: &mut HybridCheckpointV5, historical: u8, live: u8) -> usize {
    let mut low = 1usize;
    let mut high = MAX_CHECKPOINT_PAYLOAD_BYTES / 2;
    while low + 1 < high {
        let middle = low + (high - low) / 2;
        state.historical_position.checkpoint = Some(vec![historical; middle]);
        state.live_position.checkpoint = Some(vec![live; middle]);
        if fits_payload(state) {
            low = middle;
        } else {
            high = middle;
        }
    }
    low
}

fn maximum_opaque_checkpoint_config() -> HybridConfig {
    let mut config = HybridConfig::default();
    config.max_source_checkpoint_bytes = HYBRID_MAX_SOURCE_CHECKPOINT_BYTES;
    config
}

fn cursor_config(token: usize, checkpoint: usize, history: usize) -> HybridConfig {
    let mut config = HybridConfig::default();
    config.max_source_delivery_token_bytes = token;
    config.max_source_checkpoint_bytes = checkpoint;
    config.canonical_history_capacity = history;
    config
}

fn test_record(number: u64, block: BlockRef, transaction: u8) -> ReactiveInputRecord {
    let identity = golden_log(block.hash, transaction, number, ReactiveInputKind::CanonicalLog);
    ReactiveInputRecord {
        input: ReactiveInput::Log(LogBody {
            address: vec![0xaa; 20],
            topics: vec![hash(0xbb)],
            data: Vec::new(),
            block_hash: block.hash,
            block_number: block.number,
            transaction_hash: hash(transaction),
            transaction_index: 0,
            log_index: number,
            removed: false,
            block_timestamp: None,
        }),
        context: ReactiveContext {
            chain_id: Some(1),
            source: InputSource::Backfill,
            chain_status: ChainStatus::Included { block, confirmations: 0 },
            block: Some(block),
            transaction_index: Some(0),
            log_index: Some(number),
        },
        identity: Ok(identity),
        payload_deduplicable: true,
    }
}

fn stored_recent_input(block_number: u64, owners: OwnerMap<u64>) -> StoredRecentInput {
    let block = BlockRef {
        number: block_number,
        hash: hash(block_number as u8),
        parent_hash: None,
        timestamp: None,
    };
    let record = test_record(block_number, block, block_number.wrapping_add(1) as u8);
    let witness = record_witness(&record, 1).expect("test witness");
    StoredRecentInput {
        identity: record.identity.expect("valid test identity"),
        coverage: AudienceCoverage { base: false, owners, block: Some(block), witness: Some(witness) },
    }
}

/// A batch with nothing in it, as it is before it is planned.
fn unplanned() -> BufferedBatch {
    BufferedBatch {
        records: Vec::new(),
        controls: Vec::new(),
        token: None,
        checkpoint: None,
        payload_commitment: None,
        max_canonical_block: None,
        source_progress: None,
        accounted_bytes: 256,
        delivery_digest: B256::zero(),
        canonical: Vec::new(),
        next_safe_head: None,
        next_finalized_head: None,
        next_canonical_history: Vec::new(),
        next_coverage_head: None,
    }
}

#[test]
fn every_structured_incomplete_rollback_requests_historical_recovery() {
    for kind in ["Explicit", "Removed", "ImplicitParent", "MissingReplacement"] {
        let reason = format!("incomplete {kind} rollback to 99, oldest retained 100");
        let classified =
            prepare_canonical_batch(unplanned(), CanonicalOutcome::NeedsHistory(reason), 4);
        assert!(matches!(classified, Err(CanonicalPlanError::NeedsHistoricalRecovery(_))));
    }
}

#[test]
fn intrinsically_invalid_canonical_input_remains_fatal() {
    let classified = prepare_canonical_batch(
        unplanned(),
        CanonicalOutcome::Refused("contradictory test input".to_string()),
        4,
    );
    assert!(matches!(classified, Err(CanonicalPlanError::Invalid(_))));
}

#[test]
fn token_envelope_round_trips_source_and_opaque_bytes() {
    for source in [HybridSource::Historical, HybridSource::Live] {
        for kind in [HybridTokenKind::Forwarded, HybridTokenKind::Synthetic] {
            let wrapped = wrap_token(epoch(7), source, kind, &[0, 1, 2, 255]);
            let parts = unwrap_token(&wrapped).expect("decode token");
            assert_eq!(parts.epoch, epoch(7));
            assert_eq!(parts.source, source);
            assert_eq!(parts.kind, kind);
            assert_eq!(parts.inner, vec![0, 1, 2, 255]);
        }
    }
}

#[test]
fn header_witness_is_stable_across_object_field_order() {
    let (left, left_len) =
        header_body_digest(br#"{"beta":2,"alpha":1}"#, 1_024).expect("left witness");
    let (right, right_len) =
        header_body_digest(br#"{"alpha":1,"beta":2}"#, 1_024).expect("right witness");
    let (changed, _) =
        header_body_digest(br#"{"alpha":1,"beta":3}"#, 1_024).expect("changed witness");

    assert_eq!(left, right);
    assert_eq!(left_len, right_len);
    assert_ne!(left, changed);
}

#[test]
fn header_canonicalization_scratch_has_an_independent_hard_cap() {
    let oversized = format!("\"{}\"", "x".repeat(MAX_HEADER_CANONICALIZATION_BYTES + 1));
    let error = header_body_digest(oversized.as_bytes(), usize::MAX)
        .expect_err("canonicalization scratch must remain bounded");
    assert!(error.message().contains("serialized block header exceeds"));
    assert!(error.message().contains(&MAX_HEADER_CANONICALIZATION_BYTES.to_string()));
}

#[test]
fn checkpoint_rejects_corruption_truncation_and_unknown_versions() {
    let encoded = encode(&checkpoint()).expect("encode checkpoint");
    assert_eq!(decode(&encoded).expect("decode checkpoint").next_synthetic_token, 7);

    let mut corrupt = encoded.clone();
    *corrupt.last_mut().expect("payload") ^= 1;
    assert!(decode(&corrupt).expect_err("checksum mismatch").message().contains("checksum"));

    assert!(decode(&encoded[..encoded.len() - 1])
        .expect_err("truncated checkpoint")
        .message()
        .contains("payload length"));

    let mut future = encoded;
    let mut legacy = future.clone();
    legacy[8..10].copy_from_slice(&4_u16.to_be_bytes());
    let legacy_error = decode(&legacy).expect_err("legacy checkpoint");
    assert!(
        legacy_error.message().contains("version 4")
            && legacy_error.message().contains("resynchronization")
    );

    future[8..10].copy_from_slice(&(CHECKPOINT_VERSION + 1).to_be_bytes());
    assert!(decode(&future)
        .expect_err("future checkpoint")
        .message()
        .contains("unsupported hybrid checkpoint version"));

    let mut semantically_invalid = checkpoint();
    semantically_invalid.next_synthetic_token = 0;
    assert!(encode(&semantically_invalid)
        .expect_err("zero synthetic sequence")
        .message()
        .contains("synthetic token sequence"));

    let mut trailing = encode(&checkpoint()).expect("encode checkpoint");
    let payload_start = 18;
    trailing.push(0xff);
    let payload_len = trailing.len() - payload_start;
    trailing[10..14].copy_from_slice(&(payload_len as u32).to_be_bytes());
    let checksum = crc32fast::hash(&trailing[payload_start..]);
    trailing[14..18].copy_from_slice(&checksum.to_be_bytes());
    assert!(decode(&trailing).expect_err("trailing payload").message().contains("trailing bytes"));

    let mut oversized = vec![0_u8; 18 + MAX_CHECKPOINT_PAYLOAD_BYTES + 1];
    oversized[..8].copy_from_slice(CHECKPOINT_MAGIC);
    oversized[8..10].copy_from_slice(&CHECKPOINT_VERSION.to_be_bytes());
    oversized[10..14].copy_from_slice(&((MAX_CHECKPOINT_PAYLOAD_BYTES + 1) as u32).to_be_bytes());
    assert!(decode(&oversized).expect_err("oversized checkpoint").message().contains("oversized"));
}

#[test]
fn checkpoint_encoding_stops_at_the_bound_before_materializing_oversized_payload() {
    const TEST_LIMIT: usize = 64;
    let state = checkpoint();
    let error = encode_hybrid_checkpoint_v5_with_limit(&state, &fine(), TEST_LIMIT)
        .expect_err("bounded production encoder must fail closed");
    assert!(error.message().contains("exceeds 64 bytes"));
}

#[test]
fn dense_owner_fanout_evicts_oldest_witnesses_but_protects_the_current_delivery() {
    let owner_a = id("owner-a");
    let owner_b = id("owner-b");
    let owners = generations(&[(&owner_a, 3), (&owner_b, 3)]);
    let mut state = checkpoint();
    state.owner_generations = owners.duplicate();
    state.lifecycle_intent.owners = digests(&[(&owner_a, hash(0x11)), (&owner_b, hash(0x22))]);
    state.recent_inputs = (0..3)
        .map(|block| stored_recent_input(block, owners.duplicate()))
        .collect();
    let head = BlockRef { number: 2, hash: hash(2), parent_hash: None, timestamp: None };
    state.canonical_history.push(head);
    state.coverage_head = Some(head);

    fit_checkpoint_to_durable_limits(&mut state, 1, 10, 2, &fine())
        .expect("newest two-owner witness fits");
    assert_eq!(state.recent_inputs.len(), 1);
    assert_eq!(state.recent_inputs[0].coverage.block.as_ref().unwrap().number, 2);

    let error = fit_checkpoint_to_durable_limits(&mut state, 1, 10, 1, &fine())
        .expect_err("protected fanout cannot be silently discarded");
    assert!(error.message().contains("protected recent witnesses"));
}

#[test]
fn saturated_capacity_preflight_encodes_the_real_maximum_commit_for_each_source() {
    let config = cursor_config(19, 23, 4);
    let mut state = checkpoint();
    state.lifecycle_intent.base = hash(0x41);
    let head = golden_block(100, 0x64, 0x63);
    state.canonical_history = vec![head];
    state.coverage_head = Some(head);
    state.historical_position.canonical_history = vec![head];
    state.historical_position.coverage_head = Some(head);
    state.live_position.canonical_history = vec![head];
    state.live_position.coverage_head = Some(head);

    preflight_maximum_canonical_log_delivery(&config, &state, "test checkpoint", &fine_probe())
        .expect("both eligible source commits fit");

    for source in [HybridSource::Historical, HybridSource::Live] {
        let encoded = encode_maximum_canonical_log_delivery(&config, &state, source, &fine_probe())
            .expect("the exact simulated commit encodes");
        let committed = decode(&encoded).expect("the saturated simulated commit decodes");
        assert_eq!(committed.chain_id, state.chain_id);
        assert_eq!(committed.epoch, state.epoch);
        assert_eq!(committed.next_synthetic_token, u64::MAX);
        assert_eq!(committed.lifecycle_generation, state.lifecycle_generation);
        assert_eq!(committed.owner_generations, state.owner_generations);
        assert_eq!(committed.lifecycle_intent, state.lifecycle_intent);
        assert_eq!(committed.canonical_history.len(), config.canonical_history_capacity);
        let block = committed.coverage_head.expect("maximum commit advances coverage");
        assert_eq!(block.number, u64::MAX);
        assert!(block.parent_hash.is_some());
        assert_eq!(block.timestamp, Some(u64::MAX));
        let record_block = block;
        assert_eq!(committed.canonical_history.first().unwrap().number, u64::MAX - 3);
        for pair in committed.canonical_history.windows(2) {
            assert_eq!(pair[1].number, pair[0].number + 1);
            assert_eq!(pair[1].parent_hash, Some(pair[0].hash));
        }
        assert!(committed
            .canonical_history
            .iter()
            .all(|retained| retained.timestamp == Some(u64::MAX)));
        assert_eq!(committed.safe_head, Some(block));
        assert_eq!(committed.finalized_head, Some(block));

        for position in [&committed.historical_position, &committed.live_position] {
            assert_eq!(
                position.delivery_token.as_ref().expect("reserved delivery token").len(),
                config.max_source_delivery_token_bytes
            );
            assert_eq!(
                position.checkpoint.as_ref().expect("reserved child checkpoint").len(),
                config.max_source_checkpoint_bytes
            );
            assert!(position.delivery_digest.is_some());
        }
        let source_position = position_of(&committed, source);
        let other_position = position_of(&committed, other_source(source));
        assert_eq!(source_position.coverage_head, Some(block));
        assert_eq!(source_position.canonical_history, committed.canonical_history);
        assert_eq!(other_position.coverage_head, Some(block));
        assert_eq!(other_position.canonical_history, committed.canonical_history);
        let last = committed.last_committed_token.as_ref().expect("forwarded last-commit proof");
        assert_eq!(last.source, source);
        assert_eq!(last.kind, HybridTokenKind::Forwarded);
        assert_eq!(
            last.inner,
            source_position.delivery_token.clone().expect("matching source token")
        );
        assert_eq!(
            committed.certified_historical,
            if source == HybridSource::Historical {
                Some(CertifiedHistoricalCoverage {
                    lifecycle_generation: state.lifecycle_generation,
                    through: block,
                })
            } else {
                Some(CertifiedHistoricalCoverage {
                    lifecycle_generation: state.lifecycle_generation,
                    through: committed.canonical_history[config.canonical_history_capacity - 2],
                })
            }
        );

        assert_eq!(committed.recent_inputs.len(), 1);
        let recent = committed.recent_inputs.last().expect("protected canonical-log witness");
        assert!(recent.coverage.base);
        assert!(recent.coverage.owners.is_empty());
        assert_eq!(recent.coverage.block, Some(record_block));
        match recent.identity.input_ref {
            InputRef::Log { chain_id, block_hash, log_index, .. } => {
                assert_eq!(chain_id, Some(state.chain_id));
                assert_eq!(block_hash, record_block.hash);
                assert_eq!(log_index, u64::MAX);
            }
            _ => panic!("maximum probe must use a canonical-log identity"),
        }
        assert_eq!(recent.identity.kind, ReactiveInputKind::CanonicalLog);
        let witness = recent.coverage.witness.as_ref().expect("complete maximum witness");
        assert_eq!(witness.lifecycle, WitnessLifecycle::Finalized);
        assert_eq!(witness.block, Some(record_block));
        assert_eq!(witness.transaction_index, Some(u64::MAX));
        assert_eq!(witness.log_index, Some(u64::MAX));
        assert_eq!(witness.log_block_timestamp, Some(u64::MAX));
    }
}

fn position_of(state: &HybridCheckpointV5, source: HybridSource) -> &SourcePosition {
    if source == HybridSource::Historical {
        &state.historical_position
    } else {
        &state.live_position
    }
}

fn other_source(source: HybridSource) -> HybridSource {
    if source == HybridSource::Historical {
        HybridSource::Live
    } else {
        HybridSource::Historical
    }
}

fn one_high_byte(bytes: &Option<Vec<u8>>) -> bool {
    bytes.as_ref().is_some_and(|bytes| bytes.len() == 1 && bytes[0] >= 0x80)
}

#[test]
fn saturated_capacity_preflight_covers_synthetic_and_single_byte_rlp_boundaries() {
    let config = cursor_config(1, 1, 3);
    let mut state = checkpoint();
    state.lifecycle_intent.base = hash(0x41);

    let high_byte_state =
        saturated_capacity_probe_state(&state, &config).expect("saturated cursor state");
    let mut low_byte_state = high_byte_state.duplicate();
    low_byte_state.historical_position.delivery_token = Some(vec![0x71]);
    low_byte_state.historical_position.checkpoint = Some(vec![0x72]);
    let high_byte_len = checkpoint_payload_len_after_dropping_recent(&high_byte_state, 0)
        .expect("measure high-byte RLP payload");
    let low_byte_len = checkpoint_payload_len_after_dropping_recent(&low_byte_state, 0)
        .expect("measure low-byte RLP payload");
    assert!(
        high_byte_len >= low_byte_len + 2,
        "two one-byte opaque vectors at or above 0x80 need RLP prefixes"
    );

    preflight_maximum_canonical_log_delivery(
        &config,
        &state,
        "single-byte test checkpoint",
        &fine_probe(),
    )
    .expect("all four source/token-kind probes fit");

    for source in [HybridSource::Historical, HybridSource::Live] {
        for kind in [HybridTokenKind::Forwarded, HybridTokenKind::Synthetic] {
            let encoded = encode_maximum_canonical_log_delivery_variant(
                &config,
                &state,
                source,
                kind,
                &fine_probe(),
            )
            .expect("saturated source/token-kind simulation encodes");
            let committed =
                decode(&encoded).expect("decode saturated source/token-kind simulation");
            assert_eq!(committed.next_synthetic_token, u64::MAX);
            assert_eq!(committed.canonical_history.len(), config.canonical_history_capacity);
            for position in [&committed.historical_position, &committed.live_position] {
                assert_eq!(position.canonical_history, committed.canonical_history);
                assert!(one_high_byte(&position.checkpoint));
            }

            let committing = position_of(&committed, source);
            let other = position_of(&committed, other_source(source));
            assert!(one_high_byte(&other.delivery_token));
            let last = committed.last_committed_token.as_ref().expect("last-commit proof");
            assert_eq!(last.source, source);
            assert_eq!(last.kind, kind);
            match kind {
                HybridTokenKind::Forwarded => {
                    assert!(one_high_byte(&committing.delivery_token));
                    assert_eq!(last.inner.len(), 1);
                }
                HybridTokenKind::Synthetic => {
                    assert!(committing.delivery_token.is_none());
                    assert_eq!(last.inner, (u64::MAX - 1).to_be_bytes());
                    assert_eq!(last.inner.len(), 8);
                }
            }
        }
    }
}

#[test]
fn maximum_capacity_probe_reserves_every_admitted_canonical_history_entry() {
    let mut config = cursor_config(19, 23, 3);
    config.max_buffered_live_bytes = 1_024;
    let mut state = checkpoint();
    state.lifecycle_intent.base = hash(0x41);
    let head = golden_block(100, 0x64, 0x63);
    state.canonical_history = vec![head];
    state.coverage_head = Some(head);

    for source in [HybridSource::Historical, HybridSource::Live] {
        let encoded = encode_maximum_canonical_log_delivery(&config, &state, source, &fine_probe())
            .expect("maximum admitted canonical sequence encodes");
        let committed = decode(&encoded).expect("maximum canonical sequence decodes");
        assert_eq!(committed.canonical_history.len(), config.canonical_history_capacity);
        let source_position = position_of(&committed, source);
        assert_eq!(source_position.canonical_history.len(), config.canonical_history_capacity);
        for pair in committed.canonical_history.windows(2) {
            assert_eq!(pair[1].number, pair[0].number + 1);
            assert_eq!(pair[1].parent_hash, Some(pair[0].hash));
        }
        assert!(committed
            .canonical_history
            .iter()
            .all(|block| block.timestamp == Some(u64::MAX)));
    }
}

#[test]
fn capacity_probe_uses_the_same_derived_control_ceiling_as_ingress() {
    assert_eq!(maximum_ingress_control_count(255), 0);
    assert_eq!(maximum_ingress_control_count(256), 0);
    assert_eq!(maximum_ingress_control_count(511), 0);
    assert_eq!(maximum_ingress_control_count(512), 1);
    assert_eq!(maximum_ingress_control_count(1_024), 3);

    let mut config = HybridConfig::default();
    config.max_buffered_live_bytes = 1_024;
    config.canonical_history_capacity = 8;
    assert_eq!(maximum_admitted_canonical_advances(&config), 4);
    config.canonical_history_capacity = 3;
    assert_eq!(maximum_admitted_canonical_advances(&config), 3);
}

#[test]
fn maximum_capacity_probe_handles_sparse_adjacent_and_terminal_heights() {
    let sparse_head = golden_block(100, 0x64, 0x63);
    let mut sparse = checkpoint();
    sparse.canonical_history = vec![sparse_head];
    sparse.coverage_head = Some(sparse_head);
    let sparse_probe = maximum_canonical_log_probe_block(&sparse).expect("construct sparse probe");
    assert_eq!(sparse_probe.number, u64::MAX);
    assert_ne!(sparse_probe.parent_hash, Some(sparse_head.hash));

    let adjacent_head = golden_block(u64::MAX - 1, 0x71, 0x70);
    let mut adjacent = checkpoint();
    adjacent.canonical_history = vec![adjacent_head];
    adjacent.coverage_head = Some(adjacent_head);
    let adjacent_probe =
        maximum_canonical_log_probe_block(&adjacent).expect("construct adjacent probe");
    assert_eq!(adjacent_probe.number, u64::MAX);
    assert_eq!(adjacent_probe.parent_hash, Some(adjacent_head.hash));

    let terminal_head =
        BlockRef { number: u64::MAX, hash: hash(0x81), parent_hash: None, timestamp: None };
    let mut terminal = checkpoint();
    terminal.canonical_history = vec![terminal_head];
    terminal.coverage_head = Some(terminal_head);
    let terminal_probe =
        maximum_canonical_log_probe_block(&terminal).expect("enrich terminal probe");
    assert_eq!(terminal_probe.number, u64::MAX);
    assert_eq!(terminal_probe.hash, terminal_head.hash);
    assert!(terminal_probe.parent_hash.is_some());
    assert_eq!(terminal_probe.timestamp, Some(u64::MAX));
}

#[test]
fn saturated_capacity_probe_subsumes_divergent_source_histories_for_both_sources() {
    let config = cursor_config(7, 11, 3);
    let coordinator_oldest = golden_block(0, 0x01, 0x00);
    let coordinator_tip = golden_block(u64::MAX, 0xf1, 0xf0);
    let historical_tip = golden_block(u64::MAX - 1, 0xe1, 0xe0);
    let live_history = vec![
        golden_block(0, 0x11, 0x10),
        golden_block(1, 0x12, 0x11),
        golden_block(2, 0x13, 0x12),
    ];
    let mut state = checkpoint();
    state.lifecycle_intent.base = hash(0x41);
    state.canonical_history = vec![coordinator_oldest, coordinator_tip];
    state.coverage_head = Some(coordinator_tip);
    state.historical_position.canonical_history = vec![historical_tip];
    state.historical_position.coverage_head = Some(historical_tip);
    state.live_position.canonical_history = live_history.clone();
    state.live_position.coverage_head = live_history.last().copied();
    validate_checkpoint_state(&state, &fine()).expect("divergent source candidate is valid");

    for source in [HybridSource::Historical, HybridSource::Live] {
        let encoded = encode_maximum_canonical_log_delivery(&config, &state, source, &fine_probe())
            .expect("saturated simulation succeeds");
        let committed = decode(&encoded).expect("decode saturated simulation");
        let head = committed.coverage_head.expect("saturated head");
        assert_eq!(head.number, u64::MAX);
        for position in [&committed.historical_position, &committed.live_position] {
            assert_eq!(position.canonical_history, committed.canonical_history);
            assert_eq!(position.coverage_head, Some(head));
        }
        assert_eq!(committed.canonical_history.len(), config.canonical_history_capacity);
    }
}

#[test]
fn saturated_history_builder_populates_the_wire_maximum_in_one_pass() {
    let history = saturated_capacity_probe_history(HYBRID_MAX_CANONICAL_HISTORY);
    assert_eq!(history.len(), HYBRID_MAX_CANONICAL_HISTORY);
    assert_eq!(
        history.first().expect("first saturated block").number,
        u64::MAX - HYBRID_MAX_CANONICAL_HISTORY as u64
    );
    assert_eq!(history.last().expect("last saturated block").number, u64::MAX - 1);
    assert_eq!(
        history
            .iter()
            .map(|block| block.hash.to_vec())
            .collect::<std::collections::HashSet<_>>()
            .len(),
        HYBRID_MAX_CANONICAL_HISTORY
    );
    assert!(history
        .iter()
        .all(|block| { block.parent_hash.is_some() && block.timestamp == Some(u64::MAX) }));
    assert!(history.windows(2).all(|pair| {
        pair[1].number == pair[0].number + 1 && pair[1].parent_hash == Some(pair[0].hash)
    }));
}

#[test]
fn maximum_owner_capacity_commit_persists_exact_installed_fanout() {
    let mut config = HybridConfig::default();
    config.max_source_delivery_token_bytes = 7;
    config.max_source_checkpoint_bytes = 11;
    let owner_a = id("capacity-owner-a");
    let owner_b = id("capacity-owner-b");
    let mut state = checkpoint();
    state.owner_generations = generations(&[(&owner_a, 3), (&owner_b, 2)]);
    state.lifecycle_intent.owners =
        digests(&[(&owner_a, hash(0xa1)), (&owner_b, empty_interest_fingerprint())]);

    let encoded = encode_maximum_canonical_log_delivery(
        &config,
        &state,
        HybridSource::Historical,
        &fine_probe(),
    )
    .expect("maximum owner-fanout commit encodes");
    let committed = decode(&encoded).expect("decode maximum owner fanout");
    let coverage = &committed.recent_inputs.last().expect("protected owner witness").coverage;

    assert!(!coverage.base);
    assert_eq!(coverage.owners, state.owner_generations);
}

#[test]
fn checkpoint_rejects_mixed_base_and_owner_topology() {
    assert_eq!(
        empty_interest_fingerprint(),
        interest_fingerprint(&Vec::new()).expect("empty fingerprint")
    );
    let mut mixed = checkpoint();
    let owner = id("mixed-owner");
    mixed.lifecycle_intent.base = hash(0x41);
    mixed.lifecycle_intent.owners.insert(owner.duplicate(), hash(0x42));
    mixed.owner_generations.insert(owner, 3);
    let error = encode(&mixed).expect_err("mixed topology cannot be encoded atomically");
    assert!(error.message().contains("base/unowned"));
    assert!(error.message().contains("owner-managed"));
}

#[test]
fn checkpoint_v5_encoding_has_a_stable_golden_digest() {
    let encoded = encode(&checkpoint()).expect("encode checkpoint");
    assert_eq!(&encoded[..8], CHECKPOINT_MAGIC);
    assert_eq!(&encoded[8..10], &CHECKPOINT_VERSION.to_be_bytes());
    assert_eq!(
        alloy_primitives::keccak256(&encoded).as_slice(),
        &[
            0x48, 0xc8, 0x96, 0x5b, 0x9d, 0x19, 0x8b, 0xf8, 0xe4, 0x8a, 0x32, 0xe0, 0x22, 0xa9,
            0x0f, 0x17, 0x39, 0x7a, 0xae, 0xcd, 0xb9, 0x97, 0x71, 0x80, 0x9c, 0x60, 0xb3, 0x7b,
            0x22, 0x18, 0x53, 0x86,
        ]
    );
}

#[test]
fn fully_populated_v5_checkpoints_match_permanent_wire_fixtures() {
    let cases = [
        (
            "forwarded historical",
            fully_populated_checkpoint(HybridSource::Historical, HybridTokenKind::Forwarded),
        ),
        (
            "synthetic live",
            fully_populated_checkpoint(HybridSource::Live, HybridTokenKind::Synthetic),
        ),
    ];

    for (label, expected_state) in cases {
        let encoded = encode(&expected_state)
            .unwrap_or_else(|error| panic!("encode {label} checkpoint: {}", error.message()));
        let decoded = decode(&encoded)
            .unwrap_or_else(|error| panic!("decode {label} checkpoint: {}", error.message()));
        assert_eq!(decoded, expected_state, "{label} decoded state");
        assert_eq!(
            encode(&decoded)
                .unwrap_or_else(|error| panic!("re-encode {label} checkpoint: {}", error.message())),
            encoded,
            "{label} byte-for-byte re-encoding"
        );
    }
}

#[test]
fn active_base_restore_rejects_a_checkpoint_without_one_record_headroom_before_mutation() {
    let mut state = base_state();
    fill_opaque_checkpoint_to_v5_limit(&mut state);
    let position = restore_position_for(&state);
    let mut hybrid = hybrid_with(false, maximum_opaque_checkpoint_config());

    let error = prepare(&mut hybrid, &position, &one_interest(), &Vec::new())
        .expect_err("one protected base witness cannot fit");

    assert!(
        error.message().contains("cannot retain one protected delivery witness"),
        "unexpected capacity error: {}",
        error.message()
    );
    assert_eq!(hybrid.historical().mutations, 0);
    assert_eq!(hybrid.live().mutations, 0);
    assert_eq!(
        decode(position.subscriber_checkpoint.as_ref().expect("checkpoint"))
            .expect("decode unchanged checkpoint")
            .recent_inputs,
        state.recent_inputs
    );
}

fn append_legacy_pending_capacity_probe(state: &mut HybridCheckpointV5, base: bool) {
    let mut bytes = [0x52; 32];
    bytes[24..].copy_from_slice(&0_u64.to_be_bytes());
    state.recent_inputs.push(StoredRecentInput {
        identity: golden_identity(
            InputRef::PendingTx { chain_id: Some(1), hash: B256::from_slice(&bytes) },
            ReactiveInputKind::PendingTxHash,
        ),
        coverage: AudienceCoverage {
            base,
            owners: OwnerMap::new(),
            block: None,
            witness: Some(golden_witness(0x52, WitnessLifecycle::Pending, None, None, None, None)),
        },
    });
}

#[test]
fn active_restore_rejects_when_only_the_legacy_pending_probe_would_fit() {
    let mut state = base_state();
    fill_opaque_checkpoint_to_v5_limit(&mut state);
    let opaque =
        state.historical_position.checkpoint.as_mut().expect("opaque historical checkpoint");
    opaque.truncate(opaque.len().saturating_sub(512));
    encode(&state).expect("legacy-probe-only fixture remains valid");
    let mut legacy_simulation = state.duplicate();
    append_legacy_pending_capacity_probe(&mut legacy_simulation, true);
    fit_checkpoint_to_durable_limits(
        &mut legacy_simulation,
        1,
        HybridConfig::default().recent_input_capacity,
        HybridConfig::default().max_recent_owner_entries,
        &fine(),
    )
    .expect("the legacy tiny pending probe fits this fixture");
    encode(&legacy_simulation).expect("the legacy tiny pending probe encodes");
    let position = restore_position_for(&state);
    let mut hybrid = hybrid_with(false, maximum_opaque_checkpoint_config());

    let error = prepare(&mut hybrid, &position, &one_interest(), &Vec::new()).expect_err(
        "the real maximum canonical-log commit must not inherit the legacy tiny-probe result",
    );

    assert!(
        error.message().contains("maximum canonical-log delivery"),
        "unexpected capacity error: {}",
        error.message()
    );
    assert_eq!(hybrid.historical().mutations, 0);
    assert_eq!(hybrid.live().mutations, 0);
}

/// A position with one-byte cursors at these blocks.
fn short_position(fill: u8, history: &[BlockRef]) -> SourcePosition {
    SourcePosition {
        delivery_token: Some(vec![fill]),
        checkpoint: Some(vec![fill + 1]),
        delivery_digest: Some(hash(fill + 2)),
        coverage_head: history.last().copied(),
        canonical_history: history.to_vec(),
    }
}

#[test]
fn active_restore_rejects_when_one_advance_fits_but_admitted_history_does_not() {
    let head = golden_block(100, 0x64, 0x63);
    let mut state = checkpoint();
    state.lifecycle_intent = LifecycleIntent {
        base: interest_fingerprint(&one_interest()).expect("base fingerprint"),
        owners: OwnerMap::new(),
    };
    state.canonical_history = vec![head];
    state.coverage_head = Some(head);
    state.safe_head = Some(head);
    state.finalized_head = Some(head);
    state.certified_historical = Some(CertifiedHistoricalCoverage {
        lifecycle_generation: state.lifecycle_generation,
        through: head,
    });
    state.historical_position = short_position(0x11, &[head]);
    state.live_position = short_position(0x21, &[head]);
    state.last_committed_token = Some(StoredCommittedToken {
        source: HybridSource::Historical,
        kind: HybridTokenKind::Forwarded,
        inner: vec![0x11],
    });

    let mut one_advance_config = cursor_config(1, 1, 3);
    one_advance_config.max_buffered_live_bytes = 1_024;
    let encoded = encode_canonical_log_delivery_capacity_probe(
        &one_advance_config,
        &state,
        HybridSource::Historical,
        1,
        &fine(),
    )
    .expect("legacy one-advance simulation fits");
    let mut one_advance = decode(&encoded).expect("decode one-advance simulation");
    assert_eq!(one_advance.canonical_history.len(), 2);

    let low = largest_pair(&mut one_advance, 0x92, 0x82);
    one_advance.historical_position.checkpoint = Some(vec![0x92; low]);
    one_advance.live_position.checkpoint = Some(vec![0x82; low]);
    encode(&one_advance).expect("legacy one-advance checkpoint fits exactly below the bound");

    state.historical_position.checkpoint = Some(vec![0x12; low]);
    state.live_position.checkpoint = Some(vec![0x22; low]);
    let position = restore_position_for(&state);
    let mut config = cursor_config(1, low, 3);
    config.max_buffered_live_bytes = 1_024;
    let mut hybrid = hybrid_with(true, config);

    let error = prepare(&mut hybrid, &position, &one_interest(), &Vec::new())
        .expect_err("the full admitted history must be reserved before child mutation");

    assert!(
        error.message().contains("maximum canonical-log delivery"),
        "unexpected capacity error: {}",
        error.message()
    );
    assert_eq!(hybrid.historical().mutations, 0);
    assert_eq!(hybrid.live().mutations, 0);
}

#[test]
fn terminal_restore_reserves_reorg_replacement_history_before_child_mutation() {
    let ancestor = golden_block(u64::MAX - 3, 0x91, 0x90);
    let old_tip = golden_block(u64::MAX, 0x94, 0x93);
    let mut state = checkpoint();
    state.lifecycle_intent = LifecycleIntent {
        base: interest_fingerprint(&one_interest()).expect("base fingerprint"),
        owners: OwnerMap::new(),
    };
    state.canonical_history = vec![ancestor, old_tip];
    state.coverage_head = Some(old_tip);
    state.safe_head = Some(ancestor);
    state.finalized_head = Some(ancestor);
    state.certified_historical = Some(CertifiedHistoricalCoverage {
        lifecycle_generation: state.lifecycle_generation,
        through: ancestor,
    });
    state.historical_position = short_position(0x11, &[ancestor, old_tip]);
    state.live_position = short_position(0x21, &[ancestor, old_tip]);
    state.last_committed_token = Some(StoredCommittedToken {
        source: HybridSource::Historical,
        kind: HybridTokenKind::Forwarded,
        inner: vec![0x11],
    });

    // The derived ceiling admits one reorganization and two progress controls.
    let mut terminal_config = cursor_config(1, 1, 4);
    terminal_config.max_buffered_live_bytes = 1_024;
    let encoded = encode_maximum_canonical_log_delivery(
        &terminal_config,
        &state,
        HybridSource::Historical,
        &fine_probe(),
    )
    .expect("terminal same-height enrichment fits");
    let mut terminal_enrichment = decode(&encoded).expect("decode terminal enrichment");
    assert_eq!(
        terminal_enrichment.canonical_history.len(),
        terminal_config.canonical_history_capacity
    );

    let low = largest_pair(&mut terminal_enrichment, 0x92, 0x82);
    terminal_enrichment.historical_position.checkpoint = Some(vec![0x92; low]);
    terminal_enrichment.live_position.checkpoint = Some(vec![0x82; low]);
    encode(&terminal_enrichment).expect("terminal enrichment fits exactly below the bound");

    state.historical_position.checkpoint = Some(vec![0x12; low]);
    state.live_position.checkpoint = Some(vec![0x22; low]);
    let position = restore_position_for(&state);
    let mut config = cursor_config(1, low, 4);
    config.max_buffered_live_bytes = 1_024;
    let mut hybrid = hybrid_with(true, config);

    let error = prepare(&mut hybrid, &position, &one_interest(), &Vec::new())
        .expect_err("terminal reorg replacement must be reserved before child mutation");

    assert!(
        error.message().contains("maximum canonical-log delivery"),
        "unexpected terminal reorg capacity error: {}",
        error.message()
    );
    assert_eq!(hybrid.historical().mutations, 0);
    assert_eq!(hybrid.live().mutations, 0);
}

#[test]
fn synthetic_capacity_boundary_rejects_restore_before_child_mutation() {
    let mut state = base_state();
    state.historical_position.delivery_token = Some(vec![0xe1]);
    state.historical_position.checkpoint = Some(vec![0xe2]);
    state.live_position.delivery_token = Some(vec![0x81]);
    state.live_position.checkpoint = Some(vec![0x82]);
    state.last_committed_token = Some(StoredCommittedToken {
        source: HybridSource::Historical,
        kind: HybridTokenKind::Forwarded,
        inner: vec![0xe1],
    });
    validate_checkpoint_state(&state, &fine()).expect("single-byte restore candidate is valid");

    let sizing_config = cursor_config(1, 1, 3);
    let encoded = encode_maximum_canonical_log_delivery_variant(
        &sizing_config,
        &state,
        HybridSource::Historical,
        HybridTokenKind::Forwarded,
        &fine_probe(),
    )
    .expect("one-byte forwarded probe initially fits");
    let mut forwarded = decode(&encoded).expect("decode forwarded capacity probe");

    let low = largest_pair(&mut forwarded, 0xe2, 0x82);
    drop(forwarded);

    let boundary_config = cursor_config(1, low, 3);
    encode_maximum_canonical_log_delivery_variant(
        &boundary_config,
        &state,
        HybridSource::Historical,
        HybridTokenKind::Forwarded,
        &fine_probe(),
    )
    .expect("maximum forwarded-token state still fits");
    encode_maximum_canonical_log_delivery_variant(
        &boundary_config,
        &state,
        HybridSource::Historical,
        HybridTokenKind::Synthetic,
        &fine_probe(),
    )
    .expect_err("larger synthetic-token state alone must exceed the envelope");

    let position = restore_position_for(&state);
    let mut hybrid = hybrid_with(true, boundary_config);
    let error = prepare(&mut hybrid, &position, &one_interest(), &Vec::new())
        .expect_err("synthetic-token headroom must be proven before child mutation");

    assert!(
        error.message().contains("synthetic-token"),
        "unexpected synthetic capacity error: {}",
        error.message()
    );
    assert_eq!(hybrid.historical().mutations, 0);
    assert_eq!(hybrid.live().mutations, 0);
}

fn owner_topology(owner: &HandlerId, interests: Vec<PortableInterest>) -> Vec<OwnerInterests> {
    vec![OwnerInterests { owner: owner.duplicate(), interests }]
}

#[test]
fn owner_restore_rejects_a_checkpoint_without_one_record_headroom_before_mutation() {
    let owner = id("near-limit-owner");
    let mut state = fully_populated_checkpoint(HybridSource::Historical, HybridTokenKind::Forwarded);
    state.owner_generations = generations(&[(&owner, state.lifecycle_generation)]);
    state.lifecycle_intent = LifecycleIntent {
        base: empty_interest_fingerprint(),
        owners: digests(&[(
            &owner,
            interest_fingerprint(&one_interest()).expect("owner fingerprint"),
        )]),
    };
    state.recent_inputs.clear();
    fill_opaque_checkpoint_to_v5_limit(&mut state);
    let position = restore_position_for(&state);
    let mut hybrid = hybrid_with(false, maximum_opaque_checkpoint_config());

    let error = prepare(
        &mut hybrid,
        &position,
        &Vec::new(),
        &owner_topology(&owner, one_interest()),
    )
    .expect_err("one protected owner witness cannot fit");

    assert!(
        error.message().contains("cannot retain one protected delivery witness"),
        "unexpected capacity error: {}",
        error.message()
    );
    assert_eq!(hybrid.historical().mutations, 0);
    assert_eq!(hybrid.live().mutations, 0);
    assert_eq!(
        decode(position.subscriber_checkpoint.as_ref().expect("checkpoint"))
            .expect("decode unchanged checkpoint")
            .recent_inputs,
        state.recent_inputs
    );
}

#[test]
fn restore_preflight_accounts_for_runtime_history_growth_before_live_mutation() {
    let mut state = base_state();
    state.canonical_history = vec![state.coverage_head.expect("fixture coverage")];
    fill_opaque_checkpoint_to_v5_limit(&mut state);
    let opaque =
        state.historical_position.checkpoint.as_mut().expect("opaque historical checkpoint");
    opaque.truncate(opaque.len().saturating_sub(4_096));
    encode(&state).expect("short-history fixture remains valid");

    let mut position = restore_position_for(&state);
    position.canonical_history = (0..=102_u64)
        .map(|number| {
            let mut block = golden_block(number, number as u8, number.saturating_sub(1) as u8);
            if number == 0 {
                block.parent_hash = None;
            }
            block
        })
        .collect();
    let mut hybrid = hybrid_with(false, maximum_opaque_checkpoint_config());

    let error = prepare(&mut hybrid, &position, &one_interest(), &Vec::new())
        .expect_err("installed runtime history must leave one-record durable headroom");

    assert!(
        error.message().contains("protected delivery witness"),
        "unexpected capacity error: {}",
        error.message()
    );
    assert_eq!(hybrid.historical().mutations, 0);
    assert_eq!(hybrid.live().mutations, 0);
}

#[test]
fn restore_preflight_discards_only_an_ephemeral_live_cursor_before_capacity_proof() {
    let mut state = base_state();
    fill_ephemeral_live_checkpoint_to_v5_limit(&mut state);
    let position = restore_position_for(&state);
    let mut hybrid = hybrid_with(false, HybridConfig::default());

    prepare(&mut hybrid, &position, &one_interest(), &Vec::new())
        .expect("discarded ephemeral cursor leaves delivery headroom");
    restore(&mut hybrid, &position).expect("restore normalized candidate");

    let restored = &hybrid.core.durable;
    assert!(restored.live_position.delivery_token.is_none());
    assert!(restored.live_position.checkpoint.is_none());
    assert!(restored.live_position.delivery_digest.is_none());
    assert_eq!(hybrid.historical().mutations, 0);
    assert_eq!(hybrid.live().mutations, 1);
}

#[test]
fn restore_rejects_an_oversized_historical_cursor_before_child_mutation() {
    let mut state = base_state();
    state.historical_position.delivery_token = Some(vec![0x51; 33]);
    state.last_committed_token = Some(StoredCommittedToken {
        source: HybridSource::Historical,
        kind: HybridTokenKind::Forwarded,
        inner: vec![0x51; 33],
    });
    let position = restore_position_for(&state);
    let mut config = HybridConfig::default();
    config.max_source_delivery_token_bytes = 32;
    let mut hybrid = hybrid_with(false, config);

    let error = prepare(&mut hybrid, &position, &one_interest(), &Vec::new())
        .expect_err("oversized historical token must fail pure restore validation");

    assert!(error.message().contains("opaque cursor bound"));
    assert_eq!(hybrid.historical().mutations, 0);
    assert_eq!(hybrid.live().mutations, 0);
}

#[test]
fn restore_rejects_an_oversized_durable_live_cursor_before_child_mutation() {
    let mut state = base_state();
    state.live_position.checkpoint = Some(vec![0x61; 33]);
    let position = restore_position_for(&state);
    let mut config = HybridConfig::default();
    config.max_source_checkpoint_bytes = 32;
    let mut hybrid = hybrid_with(true, config);

    let error = prepare(&mut hybrid, &position, &one_interest(), &Vec::new())
        .expect_err("oversized durable-live checkpoint must fail pure restore validation");

    assert!(error.message().contains("opaque cursor bound"));
    assert_eq!(hybrid.historical().mutations, 0);
    assert_eq!(hybrid.live().mutations, 0);
}

#[test]
fn restore_capacity_simulation_never_evicts_installed_recent_witnesses() {
    let owner = id("preserved-owner");
    let mut state = fully_populated_checkpoint(HybridSource::Historical, HybridTokenKind::Forwarded);
    state.owner_generations = generations(&[(&owner, state.lifecycle_generation)]);
    state.lifecycle_intent = LifecycleIntent {
        base: empty_interest_fingerprint(),
        owners: digests(&[(
            &owner,
            interest_fingerprint(&one_interest()).expect("owner fingerprint"),
        )]),
    };
    for entry in &mut state.recent_inputs {
        entry.coverage.base = false;
        entry.coverage.owners = generations(&[(&owner, state.lifecycle_generation)]);
    }
    let position = restore_position_for(&state);
    let mut hybrid = hybrid_with(false, HybridConfig::default());

    prepare(&mut hybrid, &position, &Vec::new(), &owner_topology(&owner, one_interest()))
        .expect("prepare owner restore");
    restore(&mut hybrid, &position).expect("install prepared restore");

    assert_eq!(hybrid.core.durable.recent_inputs, state.recent_inputs);
    assert_eq!(hybrid.live().mutations, 1);
}

#[test]
fn near_limit_restored_effective_empty_owner_topology_does_not_poll_sources() {
    let owner = id("restored-empty-owner");
    let mut state = fully_populated_checkpoint(HybridSource::Historical, HybridTokenKind::Forwarded);
    state.owner_generations = generations(&[(&owner, state.lifecycle_generation)]);
    state.lifecycle_intent = LifecycleIntent {
        base: empty_interest_fingerprint(),
        owners: digests(&[(&owner, empty_interest_fingerprint())]),
    };
    state.recent_inputs.clear();
    fill_opaque_checkpoint_to_v5_limit(&mut state);
    let position = SubscriberResumePosition {
        chain_id: state.chain_id,
        coverage_head: state.coverage_head.expect("golden coverage"),
        canonical_history: state.canonical_history.clone(),
        delivery_token: Some(wrap_token(
            state.epoch,
            HybridSource::Historical,
            HybridTokenKind::Forwarded,
            &[0xf1, 0xf2, 0xf3],
        )),
        subscriber_checkpoint: Some(encode(&state).expect("encode empty-owner checkpoint")),
    };
    let mut hybrid = hybrid_with(false, maximum_opaque_checkpoint_config());

    prepare(&mut hybrid, &position, &Vec::new(), &owner_topology(&owner, Vec::new()))
        .expect("prepare empty owner topology");
    restore(&mut hybrid, &position).expect("restore empty owner topology");
    let delivered = loop {
        match hybrid.core.next_step(epoch(0x7b)).expect("poll restored topology") {
            NextStep::Acknowledge { source, .. } => hybrid.core.replay_acknowledged(source),
            NextStep::Deliver(batch) => break Some(batch),
            NextStep::Idle => break None,
            NextStep::DrainLive => panic!("there is nothing to drain"),
            NextStep::PollLive => hybrid.live.polls += 1,
            NextStep::PollHistorical => hybrid.historical.polls += 1,
            NextStep::PollBoth => {
                hybrid.historical.polls += 1;
                hybrid.live.polls += 1;
            }
        }
    };

    assert!(delivered.is_none());
    assert_eq!(hybrid.historical().polls, 0);
    assert_eq!(hybrid.live().polls, 0);
    assert_eq!(hybrid.phase(), HybridPhase::Live);

    let historical_before = hybrid.historical().mutations;
    let live_before = hybrid.live().mutations;
    let error = change(
        &mut hybrid,
        TopologyChange::Add(OwnerInterests {
            owner: id("activated-after-empty-restore"),
            interests: one_interest(),
        }),
    )
    .expect_err("activation must re-prove exact preserved checkpoint headroom");
    assert!(
        error.message().contains("one protected delivery witness"),
        "unexpected activation capacity error: {}",
        error.message()
    );
    assert_eq!(hybrid.historical().mutations, historical_before);
    assert_eq!(hybrid.live().mutations, live_before);
}

#[test]
fn base_destructive_and_incremental_capacity_failures_precede_child_mutation() {
    let mut hybrid = hybrid_with(false, maximum_opaque_checkpoint_config());
    let error = change(&mut hybrid, TopologyChange::Base(one_interest()))
        .expect_err("effective-empty base activation must preflight maximum cursor reserve");

    assert!(
        error.message().contains("maximum canonical-log delivery"),
        "unexpected base preflight error: {}",
        error.message()
    );
    assert_eq!(hybrid.historical().mutations, 0);
    assert_eq!(hybrid.live().mutations, 0);
    assert!(hybrid.core.base_interests.is_empty());

    for destructive in [true, false] {
        let mut hybrid = hybrid_with(false, maximum_opaque_checkpoint_config());
        let owner = id(if destructive {
            "destructive-capacity-owner"
        } else {
            "incremental-capacity-owner"
        });
        let entry = OwnerInterests { owner, interests: one_interest() };

        let error = if destructive {
            change(&mut hybrid, TopologyChange::Replace(vec![entry]))
                .expect_err("destructive replacement must preflight maximum cursor reserve")
        } else {
            change(&mut hybrid, TopologyChange::Add(entry))
                .expect_err("incremental change must preflight maximum cursor reserve")
        };

        assert!(
            error.message().contains("maximum canonical-log delivery"),
            "unexpected topology preflight error: {}",
            error.message()
        );
        assert_eq!(hybrid.historical().mutations, 0);
        assert_eq!(hybrid.live().mutations, 0);
        assert!(hybrid.core.owners.is_empty());
    }
}

#[test]
fn empty_owner_topology_still_requires_restore_preparation() {
    let intent = LifecycleIntent {
        base: empty_interest_fingerprint(),
        owners: digests(&[(&id("empty-owner"), empty_interest_fingerprint())]),
    };

    assert!(!intent.has_active_interests());
    assert!(intent.requires_restore_preparation());
}

#[test]
fn older_historical_page_cannot_regress_certified_coverage() {
    let mut state = fully_populated_checkpoint(HybridSource::Historical, HybridTokenKind::Forwarded);
    let higher = state.certified_historical.expect("fixture carries higher historical proof");
    let lower = state.canonical_history[1];
    let commit = PendingCoordinatorCommit {
        audiences: Vec::new(),
        canonical: Vec::new(),
        source: HybridSource::Historical,
        source_token: Some(vec![0x11]),
        source_checkpoint: Some(vec![0x22]),
        source_progress: Some(lower),
        source_observed_through: Some(lower),
        token_kind: HybridTokenKind::Forwarded,
        token_bytes: vec![0x11],
        source_delivery_digest: hash(0x33),
        next_safe_head: state.safe_head,
        next_finalized_head: state.finalized_head,
        next_canonical_history: state.canonical_history.clone(),
        next_coverage_head: state.coverage_head,
    };

    apply_commit_to_checkpoint(&mut state, &commit, 32).expect("apply older page");
    let encoded = encode(&state).expect("persist monotonic proof");
    let restored = decode(&encoded).expect("restore monotonic proof");

    assert_eq!(restored.certified_historical, Some(higher));
}

#[test]
fn same_height_historical_proof_merges_compatible_metadata() {
    let mut state = fully_populated_checkpoint(HybridSource::Historical, HybridTokenKind::Forwarded);
    let through = state.coverage_head.expect("fixture coverage");
    state.certified_historical = Some(CertifiedHistoricalCoverage {
        lifecycle_generation: state.lifecycle_generation,
        through: BlockRef { parent_hash: None, timestamp: None, ..through },
    });
    let commit = PendingCoordinatorCommit {
        audiences: Vec::new(),
        canonical: Vec::new(),
        source: HybridSource::Historical,
        source_token: Some(vec![0x12]),
        source_checkpoint: Some(vec![0x23]),
        source_progress: Some(through),
        source_observed_through: Some(through),
        token_kind: HybridTokenKind::Forwarded,
        token_bytes: vec![0x12],
        source_delivery_digest: hash(0x34),
        next_safe_head: state.safe_head,
        next_finalized_head: state.finalized_head,
        next_canonical_history: state.canonical_history.clone(),
        next_coverage_head: state.coverage_head,
    };

    apply_commit_to_checkpoint(&mut state, &commit, 32).expect("merge proof metadata");

    assert_eq!(
        state.certified_historical,
        Some(CertifiedHistoricalCoverage {
            lifecycle_generation: state.lifecycle_generation,
            through,
        })
    );
    encode(&state).expect("merged proof remains durably valid");
}

#[test]
fn same_height_historical_proof_rejects_conflicting_metadata() {
    let partial = BlockRef { number: 10, hash: hash(0xaa), parent_hash: None, timestamp: None };
    let certified = BlockRef { timestamp: Some(100), ..partial };
    let conflicting = BlockRef { timestamp: Some(101), ..partial };
    let mut state = checkpoint();
    state.canonical_history = vec![partial];
    state.coverage_head = Some(partial);
    let mut historical_position = SourcePosition::new();
    historical_position.coverage_head = Some(partial);
    historical_position.canonical_history = vec![partial];
    state.historical_position = historical_position;
    state.certified_historical = Some(CertifiedHistoricalCoverage {
        lifecycle_generation: state.lifecycle_generation,
        through: certified,
    });
    validate_checkpoint_state(&state, &fine()).expect("partial checkpoint is valid");
    let commit = PendingCoordinatorCommit {
        audiences: Vec::new(),
        canonical: Vec::new(),
        source: HybridSource::Historical,
        source_token: None,
        source_checkpoint: None,
        source_progress: Some(conflicting),
        source_observed_through: Some(conflicting),
        token_kind: HybridTokenKind::Synthetic,
        token_bytes: 1_u64.to_be_bytes().to_vec(),
        source_delivery_digest: hash(0x35),
        next_safe_head: None,
        next_finalized_head: None,
        next_canonical_history: vec![conflicting],
        next_coverage_head: Some(conflicting),
    };

    let error = apply_commit_to_checkpoint(&mut state, &commit, 32)
        .expect_err("conflicting proof metadata must fail closed");

    assert!(error.message().contains("timestamp conflicts"));
}

#[test]
fn default_recent_window_fits_the_durable_checkpoint_envelope_for_one_owner() {
    let config = HybridConfig::default();
    let owner = id("representative-owner");
    let mut state = checkpoint();
    state.owner_generations.insert(owner.duplicate(), 3);
    state.lifecycle_intent.owners.insert(
        owner.duplicate(),
        interest_fingerprint(&Vec::new()).expect("empty owner interests"),
    );
    state.recent_inputs = (0..config.recent_input_capacity)
        .map(|index| {
            let block = BlockRef {
                number: index as u64,
                hash: hash(index as u8),
                parent_hash: None,
                timestamp: None,
            };
            let record = test_record(index as u64, block, index.wrapping_add(1) as u8);
            let witness = record_witness(&record, 1).expect("test witness");
            StoredRecentInput {
                identity: record.identity.expect("valid test identity"),
                coverage: AudienceCoverage {
                    base: false,
                    owners: generations(&[(&owner, 3)]),
                    block: Some(block),
                    witness: Some(witness),
                },
            }
        })
        .collect();
    let head = BlockRef {
        number: config.recent_input_capacity.saturating_sub(1) as u64,
        hash: hash(config.recent_input_capacity.saturating_sub(1) as u8),
        parent_hash: None,
        timestamp: None,
    };
    state.canonical_history.push(head);
    state.coverage_head = Some(head);

    let encoded = encode(&state).expect("default journal must remain checkpointable");
    decode(&encoded).expect("the bounded decoder must accept every default-sized encoded journal");
}
