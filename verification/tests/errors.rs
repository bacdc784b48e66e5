//! One input for each way in which something is refused.
use alloy_rlp::{Encodable, Header};
use hybrid_events::audience::{
    validate_handler_ids, validate_routing, AudienceCoverage, DeliveryAudience, DeliveryScope, RecordWitness,
    WitnessLifecycle,
};
use hybrid_events::checkpoint::{
    CertifiedHistoricalCoverage, HybridCheckpointV5, HybridTokenKind, LifecycleIntent, SourcePosition,
    StoredCommittedToken, StoredRecentInput,
};
use hybrid_events::codec::{decode_hybrid_checkpoint, encode_hybrid_checkpoint, CHECKPOINT_ENVELOPE_BYTES};
use hybrid_events::config::{validate_checkpoint_config_limits, HybridIngressLimits};
use hybrid_events::decode::{
    MAX_CANONICAL_HISTORY, MAX_CHECKPOINT_PAYLOAD_BYTES, MAX_HANDLER_ID_BYTES, MAX_OWNER_ENTRIES, MAX_RECENT_INPUTS,
};
use hybrid_events::error::{HistoryFault, SourceFault};
use hybrid_events::fit::fit_checkpoint_to_durable_limits;
use hybrid_events::history::{apply_canonical_mutations_to, CanonicalMutation};
use hybrid_events::ingress::{preflight_ingress_routing, BufferedBatch, ReactiveInputBatch};
use hybrid_events::intent::{empty_interest_fingerprint, lifecycle_intent, OwnerInterests};
use hybrid_events::model::{
    compatible_block_ref, BlockRef, HandlerId, InputRef, ReactiveInputIdentity, ReactiveInputKind,
};
use hybrid_events::overlap::{validate_overlap_block, validate_owner_catchup_overlap, validate_reorg_ancestor};
use hybrid_events::owners::OwnerMap;
use hybrid_events::records::{
    validated_record, ChainControl, ChainStatus, InputSource, LogBody, ReactiveContext, ReactiveInput,
    ReactiveInputRecord, RoutedRecord,
};
use hybrid_events::restore::validate_restore_position_preflight;
use hybrid_events::rlp::RlpError;
use hybrid_events::state::{Coordinator, SubscriberResumePosition};
use hybrid_events::subscriber::{SourceProfile, SubscriberCapabilities};
use hybrid_events::token::wrap_token;
use hybrid_events::validate::{
    validate_checkpoint_history, validate_checkpoint_state, validate_source_against_coordinator,
};
use hybrid_events::words::{Epoch, B256};
use hybrid_events::{HybridConfig, HybridSource, SubscriberError};

fn hash(fill: u8) -> B256 {
    B256::repeat_byte(fill)
}

fn id(name: &str) -> HandlerId {
    HandlerId::try_new(name.to_string()).expect("non-empty handler id")
}

fn block(number: u64) -> BlockRef {
    BlockRef {
        number,
        hash: hash(number as u8),
        parent_hash: Some(hash(number.wrapping_sub(1) as u8)),
        timestamp: Some(number * 12),
    }
}

fn checkpoint() -> HybridCheckpointV5 {
    HybridCheckpointV5 {
        chain_id: 1,
        epoch: Epoch::from_slice(&[9; 16]),
        next_synthetic_token: 7,
        lifecycle_generation: 3,
        owner_generations: OwnerMap::new(),
        lifecycle_intent: LifecycleIntent { base: empty_interest_fingerprint(), owners: OwnerMap::new() },
        recent_inputs: Vec::new(),
        canonical_history: Vec::new(),
        coverage_head: None,
        safe_head: None,
        finalized_head: None,
        certified_historical: None,
        historical_position: SourcePosition::new(),
        live_position: SourcePosition::new(),
        last_committed_token: None,
    }
}

/// A state that covers these blocks.
fn covering(history: &[BlockRef]) -> HybridCheckpointV5 {
    let mut state = checkpoint();
    state.canonical_history = history.to_vec();
    state.coverage_head = history.last().copied();
    state
}

fn encode_error(state: &HybridCheckpointV5) -> SubscriberError {
    encode_hybrid_checkpoint(state, &Ok(())).expect_err("refused")
}

// -- Bytes of a checkpoint ----------------------------------------------------

fn string(bytes: &[u8]) -> Vec<u8> {
    let mut out = Vec::new();
    bytes.encode(&mut out);
    out
}

fn number(value: u64) -> Vec<u8> {
    let mut out = Vec::new();
    value.encode(&mut out);
    out
}

fn list(items: &[Vec<u8>]) -> Vec<u8> {
    let payload = items.concat();
    let mut out = Vec::new();
    Header { list: true, payload_length: payload.len() }.encode(&mut out);
    out.extend_from_slice(&payload);
    out
}

/// Reads a checkpoint in which one field was replaced.
fn decode_with(index: usize, item: Vec<u8>) -> SubscriberError {
    let encoded = encode_hybrid_checkpoint(&checkpoint(), &Ok(())).expect("encode");
    let mut rest = &encoded[CHECKPOINT_ENVELOPE_BYTES..];
    Header::decode(&mut rest).expect("list");
    let mut fields = Vec::new();
    while !rest.is_empty() {
        let start = rest;
        let header = Header::decode(&mut rest).expect("item");
        rest = &rest[header.payload_length..];
        fields.push(start[..start.len() - rest.len()].to_vec());
    }
    assert_eq!(fields.len(), 15);
    fields[index] = item;
    let payload = list(&fields);
    let mut bytes = b"EFCHYCP\0".to_vec();
    bytes.extend_from_slice(&5_u16.to_be_bytes());
    bytes.extend_from_slice(&(payload.len() as u32).to_be_bytes());
    bytes.extend_from_slice(&crc32fast::hash(&payload).to_be_bytes());
    bytes.extend_from_slice(&payload);
    decode_hybrid_checkpoint(&bytes, &Ok(())).expect_err("refused")
}

#[test]
fn an_integer_must_be_an_item_of_its_kind() {
    assert!(matches!(
        decode_with(0, list(&[])),
        SubscriberError::Rlp { error: RlpError::UnexpectedList, .. }
    ));
    assert!(matches!(
        decode_with(0, vec![0x00]),
        SubscriberError::Rlp { error: RlpError::LeadingZero, .. }
    ));
    assert!(matches!(
        decode_with(1, string(&[1; 15])),
        SubscriberError::Rlp { error: RlpError::UnexpectedLength, .. }
    ));
}

#[test]
fn an_owner_id_must_be_a_short_text() {
    let generations = |bytes: &[u8]| list(&[list(&[string(bytes), number(1)])]);
    assert!(matches!(decode_with(4, generations(&[0xff, 0xfe])), SubscriberError::NotUtf8 { .. }));
    assert!(matches!(decode_with(4, generations(&[])), SubscriberError::EmptyHandlerId { .. }));
    assert!(matches!(
        decode_with(4, generations(&[b'x'; MAX_HANDLER_ID_BYTES + 1])),
        SubscriberError::TooManyBytes { max: MAX_HANDLER_ID_BYTES, .. }
    ));
}

#[test]
fn a_tag_must_be_known() {
    let token = list(&[list(&[number(9), number(1), string(&[1])])]);
    assert_eq!(
        decode_with(14, token),
        SubscriberError::UnknownTag { what: "source tag", tag: 9 }
    );
}

#[test]
fn an_identity_must_pair_a_reference_with_its_representation() {
    let reference = list(&[
        number(1),
        list(&[number(1)]),
        string(&[1; 32]),
        string(&[2; 32]),
        number(0),
    ]);
    let identity = list(&[reference, number(3)]);
    let coverage = list(&[number(1), list(&[]), list(&[]), list(&[])]);
    let recent = list(&[list(&[identity, coverage])]);
    assert_eq!(decode_with(6, recent), SubscriberError::IncompatibleIdentity);
}

// -- Limits of a checkpoint ---------------------------------------------------

fn pending(sequence: u64) -> StoredRecentInput {
    let mut bytes = [0; 32];
    bytes[..8].copy_from_slice(&sequence.to_be_bytes());
    StoredRecentInput {
        identity: ReactiveInputIdentity::try_from_parts(
            InputRef::PendingTx { chain_id: Some(1), hash: B256::from_slice(&bytes) },
            ReactiveInputKind::PendingTxHash,
        )
        .expect("identity"),
        coverage: AudienceCoverage {
            base: true,
            owners: OwnerMap::new(),
            block: None,
            witness: Some(RecordWitness {
                payload_digest: hash(1),
                chain_id: 1,
                lifecycle: WitnessLifecycle::Pending,
                block: None,
                transaction_index: None,
                log_index: None,
                log_block_timestamp: None,
            }),
        },
    }
}

#[test]
fn a_checkpoint_holds_so_many_recent_inputs() {
    let mut state = checkpoint();
    state.recent_inputs = (0..=MAX_RECENT_INPUTS as u64).map(pending).collect();
    assert_eq!(encode_error(&state), SubscriberError::RecentInputsExceeded { max: MAX_RECENT_INPUTS });
}

#[test]
fn a_checkpoint_holds_so_many_blocks() {
    let history: Vec<BlockRef> = (0..=MAX_CANONICAL_HISTORY as u64)
        .map(|number| BlockRef { number, hash: hash(1), parent_hash: None, timestamp: None })
        .collect();
    let error = encode_error(&covering(&history));
    assert!(matches!(error, SubscriberError::HistoryTooLong { max: MAX_CANONICAL_HISTORY, .. }), "{error:?}");
}

#[test]
fn a_checkpoint_holds_so_many_owners() {
    let mut state = checkpoint();
    for number in 0..=MAX_OWNER_ENTRIES {
        let name = format!("owner-{number:08}");
        state.owner_generations.insert(id(&name), 1);
        state.lifecycle_intent.owners.insert(id(&name), hash(1));
    }
    assert_eq!(encode_error(&state), SubscriberError::OwnerEntriesExceeded { max: MAX_OWNER_ENTRIES });
}

#[test]
fn a_protected_witness_must_fit() {
    let mut state = covering(&[block(1)]);
    state.recent_inputs = vec![pending(1)];
    for position in [&mut state.historical_position, &mut state.live_position] {
        position.checkpoint = Some(vec![1; MAX_CHECKPOINT_PAYLOAD_BYTES / 2 + 1]);
    }
    let error = fit_checkpoint_to_durable_limits(&mut state, 1, 8, 8, &Ok(())).expect_err("too large");
    assert!(matches!(error, SubscriberError::ProtectedSuffixTooLarge { .. }), "{error:?}");
    assert_eq!(
        fit_checkpoint_to_durable_limits(&mut state, 2, 8, 8, &Ok(())),
        Err(SubscriberError::Provider("hybrid current delivery has an invalid protected witness suffix"))
    );
}

// -- Routing and ingress ------------------------------------------------------

fn record(at: BlockRef, chain: Option<u64>) -> ReactiveInputRecord {
    let input_ref = InputRef::Log {
        chain_id: chain,
        block_hash: at.hash,
        transaction_hash: hash(0xc0),
        log_index: 1,
    };
    ReactiveInputRecord {
        input: ReactiveInput::Log(LogBody {
            address: vec![0xaa; 20],
            topics: vec![hash(0xbb)],
            data: vec![1, 2, 3],
            block_hash: at.hash,
            block_number: at.number,
            transaction_hash: hash(0xc0),
            transaction_index: 0,
            log_index: 1,
            removed: false,
            block_timestamp: None,
        }),
        context: ReactiveContext {
            chain_id: chain,
            source: InputSource::Backfill,
            chain_status: ChainStatus::Included { block: at, confirmations: 0 },
            block: Some(at),
            transaction_index: Some(0),
            log_index: Some(1),
        },
        identity: Ok(ReactiveInputIdentity::try_from_parts(input_ref, ReactiveInputKind::CanonicalLog)
            .expect("identity")),
        payload_deduplicable: true,
    }
}

fn routed(audience: DeliveryAudience, scope: DeliveryScope) -> RoutedRecord {
    RoutedRecord { record: record(block(100), Some(1)), audience, scope }
}

fn batch(deliveries: Vec<RoutedRecord>) -> ReactiveInputBatch {
    ReactiveInputBatch {
        chain_id: Some(1),
        deliveries,
        chain_controls: Vec::new(),
        delivery_token: None,
        subscriber_checkpoint: None,
        payload_commitment: None,
    }
}

#[test]
fn an_audience_must_name_registered_owners_once() {
    assert!(matches!(
        validate_routing(&DeliveryAudience::Owners(Vec::new()), DeliveryScope::Canonical),
        Err(SubscriberError::EmptyOwners { label: "owner audience" })
    ));
    assert!(matches!(
        validate_routing(&DeliveryAudience::Owners(vec![id("a"), id("a")]), DeliveryScope::Canonical),
        Err(SubscriberError::DuplicateOwner { label: "owner audience" })
    ));
    assert!(validate_routing(&DeliveryAudience::AllExcept(vec![id("a"), id("a")]), DeliveryScope::Canonical)
        .is_err());
    assert_eq!(
        validate_routing(&DeliveryAudience::All, DeliveryScope::OwnerCatchup),
        Err(SubscriberError::Provider(
            "hybrid owner-catchup delivery requires a non-empty exact owner audience"
        ))
    );
    assert_eq!(
        validate_handler_ids(&[id("a"), id(&"x".repeat(MAX_HANDLER_ID_BYTES + 1))]),
        Err(SubscriberError::HandlerIdTooLong {
            owner: format!("\"{}\"", "x".repeat(MAX_HANDLER_ID_BYTES + 1))
        })
    );
    let odd = format!("a\"b\n{}", "x".repeat(MAX_HANDLER_ID_BYTES));
    assert_eq!(
        validate_handler_ids(&[id(&odd)]).expect_err("too long").message(),
        format!("hybrid handler id {odd:?} exceeds the durable v5 limit of 4096 bytes")
    );
    let long = OwnerInterests { owner: id(&"x".repeat(MAX_HANDLER_ID_BYTES + 1)), interests: Vec::new() };
    assert_eq!(
        lifecycle_intent(&Vec::new(), &vec![long]),
        Err(SubscriberError::HandlerIdTooLong {
            owner: format!("\"{}\"", "x".repeat(MAX_HANDLER_ID_BYTES + 1))
        })
    );

    let mut registered = OwnerMap::new();
    registered.insert(id("a"), 1);
    let listed = |names: &[&str]| {
        routed(
            DeliveryAudience::Owners(names.iter().map(|name| id(name)).collect()),
            DeliveryScope::Canonical,
        )
    };
    assert_eq!(
        preflight_ingress_routing(&vec![listed(&["a", "b"])], &registered, 1),
        Err(SubscriberError::ExplicitOwnersExceeded { count: 2, max: 1 })
    );
    assert_eq!(
        preflight_ingress_routing(&vec![listed(&["a"]), listed(&["a"])], &registered, 1),
        Err(SubscriberError::ProjectedOwnersExceeded { count: 2, max: 1 })
    );
    let unknown = preflight_ingress_routing(&vec![listed(&["a"]), listed(&["a", "b"])], &registered, 9)
        .expect_err("unknown");
    assert_eq!(unknown, SubscriberError::UnknownOwner { owner: "\"b\"".to_string() });
    assert_eq!(
        unknown.message(),
        "hybrid source routed a delivery through unknown owner \"b\""
    );
    assert_eq!(preflight_ingress_routing(&vec![listed(&["a"])], &registered, 1), Ok(()));
}

#[test]
fn a_batch_is_bounded_in_every_part() {
    let limits = || HybridIngressLimits {
        max_records: 1,
        max_accounted_bytes: 2_048,
        max_delivery_token_bytes: 2,
        max_checkpoint_bytes: 2,
        max_projected_owner_associations: 4,
    };
    let take = |batch: ReactiveInputBatch, limits: HybridIngressLimits| {
        BufferedBatch::from_batch(batch, 1, limits, &OwnerMap::new())
    };
    let one = || vec![routed(DeliveryAudience::All, DeliveryScope::Canonical)];
    assert!(take(batch(one()), limits()).is_ok());

    let error = take(batch(Vec::new()), limits()).expect_err("empty");
    assert!(error.message().contains("empty child batch"));

    let mut long = batch(one());
    long.delivery_token = Some(vec![1; 3]);
    assert_eq!(take(long, limits()), Err(SubscriberError::IngressToken { length: 3, max: 2 }));

    let mut long = batch(one());
    long.subscriber_checkpoint = Some(vec![1; 3]);
    assert_eq!(take(long, limits()), Err(SubscriberError::IngressCheckpoint { length: 3, max: 2 }));

    let mut two = one();
    two.extend(one());
    assert_eq!(take(batch(two), limits()), Err(SubscriberError::IngressRecords { count: 2, max: 1 }));

    let mut many = batch(one());
    many.chain_controls =
        (0..8).map(|number| ChainControl::CanonicalProgress(block(number))).collect();
    assert_eq!(take(many, limits()), Err(SubscriberError::IngressControls { count: 8, max: 7 }));

    let mut small = limits();
    small.max_accounted_bytes = 300;
    assert!(matches!(
        take(batch(one()), small),
        Err(SubscriberError::IngressBytes { max: 300, .. })
    ));

    let mut whole = one();
    whole[0].record.input = ReactiveInput::FullBlock;
    assert!(matches!(take(batch(whole), limits()), Err(SubscriberError::Unsupported(_))));

    let mut header = one();
    header[0].record.input = ReactiveInput::BlockHeader(b"{}".to_vec());
    assert!(matches!(take(batch(header), limits()), Err(SubscriberError::Unsupported(_))));
}

#[test]
fn a_record_must_be_of_the_chain() {
    assert_eq!(
        validated_record(&record(block(1), Some(2)), 1),
        Err(SubscriberError::RecordChain { named: Some(2), expected: 1 })
    );
    assert_eq!(
        validated_record(&record(block(1), None), 1).expect_err("no chain").message(),
        "hybrid source record has chain None; expected 1"
    );
    let mut unknown = record(block(1), Some(1));
    unknown.identity = Err("log without a position".to_string());
    assert_eq!(
        validated_record(&unknown, 1),
        Err(SubscriberError::Reported("log without a position".to_string()))
    );
}

// -- Blocks and histories -----------------------------------------------------

#[test]
fn two_accounts_of_a_block_must_agree() {
    let mut other = block(1);
    other.hash = hash(0xee);
    assert_eq!(compatible_block_ref(&block(1), &other), Err(SubscriberError::BlockConflict { number: 1 }));
    let mut other = block(1);
    other.timestamp = Some(1);
    assert_eq!(
        compatible_block_ref(&block(1), &other),
        Err(SubscriberError::MetadataConflict { label: "timestamp", number: 1 })
    );
    other.timestamp = None;
    assert_eq!(compatible_block_ref(&other, &block(1)), Ok(block(1)));
}

#[test]
fn a_history_ascends_to_its_head() {
    let fault = |history: &[BlockRef], head: Option<BlockRef>| {
        match validate_checkpoint_history("test", history, &head) {
            Err(SubscriberError::History { label: "test", fault }) => fault,
            other => panic!("expected a fault, got {other:?}"),
        }
    };
    assert_eq!(fault(&[], Some(block(1))), HistoryFault::CoverageWithoutHistory);
    assert_eq!(fault(&[block(1)], None), HistoryFault::HistoryWithoutCoverage);
    assert_eq!(fault(&[block(2), block(1)], Some(block(1))), HistoryFault::NotAscending);
    let mut orphan = block(2);
    orphan.parent_hash = Some(hash(0xee));
    assert_eq!(fault(&[block(1), orphan], Some(orphan)), HistoryFault::ParentMismatch { number: 2 });
    assert_eq!(fault(&[block(1)], Some(block(2))), HistoryFault::EndsElsewhere);

    let mut proof = covering(&[block(1)]);
    proof.certified_historical =
        Some(CertifiedHistoricalCoverage { lifecycle_generation: 3, through: block(2) });
    assert_eq!(
        encode_error(&proof),
        SubscriberError::History { label: "coordinator", fault: HistoryFault::ProofAhead }
    );
    let mut proof = covering(&[block(1)]);
    proof.certified_historical =
        Some(CertifiedHistoricalCoverage { lifecycle_generation: 3, through: block(1) });
    assert_eq!(
        encode_error(&proof),
        SubscriberError::History { label: "historical source", fault: HistoryFault::ProofWithoutHead }
    );
}

#[test]
fn a_position_stands_under_the_coordinator() {
    let problem = |position: SourcePosition, state: &HybridCheckpointV5| {
        match validate_source_against_coordinator("test", &position, state) {
            Err(SubscriberError::Source { label: "test", problem }) => problem,
            other => panic!("expected a fault, got {other:?}"),
        }
    };
    let with = |token: bool, digest: bool, head: Option<BlockRef>| {
        let mut position = SourcePosition::new();
        position.delivery_token = if token { Some(vec![1]) } else { None };
        position.delivery_digest = if digest { Some(hash(1)) } else { None };
        position.coverage_head = head;
        position
    };
    assert_eq!(problem(with(true, false, None), &checkpoint()), SourceFault::TokenWithoutDigest);
    assert_eq!(problem(with(true, true, None), &checkpoint()), SourceFault::TokenWithoutCoverage);
    assert_eq!(
        problem(with(false, false, Some(block(1))), &checkpoint()),
        SourceFault::CoverageWithoutCoordinator
    );
    assert_eq!(
        problem(with(false, false, Some(block(2))), &covering(&[block(1)])),
        SourceFault::AheadOfCoordinator
    );

    let mut config = HybridConfig::default();
    config.max_source_delivery_token_bytes = 1;
    config.max_source_checkpoint_bytes = 1;
    let mut state = checkpoint();
    state.live_position.checkpoint = Some(vec![1, 2]);
    assert_eq!(
        validate_checkpoint_config_limits(&config, &state),
        Err(SubscriberError::Source { label: "live", problem: SourceFault::CheckpointTooLong })
    );
    state.historical_position.delivery_token = Some(vec![1, 2]);
    assert_eq!(
        validate_checkpoint_config_limits(&config, &state),
        Err(SubscriberError::Source { label: "historical", problem: SourceFault::TokenTooLong })
    );
}

#[test]
fn a_mutation_must_follow_what_is_retained() {
    let refused = |mutation: CanonicalMutation| {
        let mut history = vec![block(5), block(6)];
        let mut head = Some(block(6));
        let before = (history.clone(), head);
        let error = apply_canonical_mutations_to(&mut history, &mut head, &[mutation], 4)
            .expect_err("refused");
        assert_eq!((history, head), before);
        error
    };
    assert_eq!(
        refused(CanonicalMutation::Rewind(block(4))),
        SubscriberError::AncestorTooOld { number: 4 }
    );
    let mut other = block(5);
    other.hash = hash(0xee);
    assert_eq!(
        refused(CanonicalMutation::Rewind(other)),
        SubscriberError::AncestorMismatch { number: 5 }
    );
    assert_eq!(
        refused(CanonicalMutation::Advance(block(3))),
        SubscriberError::OutsideHistory { number: 3 }
    );
    let mut orphan = block(7);
    orphan.parent_hash = Some(hash(0xee));
    assert_eq!(
        refused(CanonicalMutation::Advance(orphan)),
        SubscriberError::ParentMismatch { number: 7 }
    );
    let mut history = vec![block(5), block(6)];
    let mut head = Some(block(6));
    apply_canonical_mutations_to(
        &mut history,
        &mut head,
        &[CanonicalMutation::Rewind(block(5)), CanonicalMutation::Advance(block(6))],
        4,
    )
    .expect("follows");
    assert_eq!((history, head), (vec![block(5), block(6)], Some(block(6))));
}

#[test]
fn an_overlap_must_be_retained() {
    let state = covering(&[block(100), block(101)]);
    assert_eq!(validate_overlap_block(&state, &block(100)), Ok(()));
    assert_eq!(
        validate_overlap_block(&state, &block(99)),
        Err(SubscriberError::OverlapOutside { number: 99 })
    );
    let mut other = block(100);
    other.hash = hash(0xee);
    assert_eq!(
        validate_overlap_block(&state, &other),
        Err(SubscriberError::OverlapConflict { number: 100 })
    );

    let limits = HybridConfig::default().ingress();
    let mut owners = OwnerMap::new();
    owners.insert(id("a"), 1);
    let mut catchup = routed(DeliveryAudience::Owners(vec![id("a")]), DeliveryScope::OwnerCatchup);
    catchup.record = record(block(99), Some(1));
    let admitted = BufferedBatch::from_batch(batch(vec![catchup]), 1, limits, &owners).expect("admit");
    assert_eq!(
        validate_owner_catchup_overlap(&state, &admitted),
        Err(SubscriberError::OwnerCatchupOverlap {
            number: 99,
            cause: Box::new(SubscriberError::OverlapOutside { number: 99 }),
        })
    );
    assert_eq!(admitted.max_canonical_block, None);

    assert_eq!(
        validate_reorg_ancestor(&state, &other),
        Err(SubscriberError::RecoveryAncestorConflict { number: 100 })
    );
    assert_eq!(
        validate_reorg_ancestor(&state, &block(99)),
        Err(SubscriberError::RecoveryAncestorTooOld { number: 99 })
    );
    assert_eq!(validate_reorg_ancestor(&state, &block(101)), Ok(()));
}

// -- Restoring ----------------------------------------------------------------

#[test]
fn a_runtime_must_have_retained_the_blocks_of_recent_inputs() {
    let mut state = covering(&[block(102)]);
    let at = block(101);
    let mut recent = pending(1);
    recent.identity = ReactiveInputIdentity::try_from_parts(
        InputRef::Log {
            chain_id: Some(1),
            block_hash: at.hash,
            transaction_hash: hash(2),
            log_index: 1,
        },
        ReactiveInputKind::CanonicalLog,
    )
    .expect("identity");
    recent.coverage.block = Some(at);
    recent.coverage.witness = Some(RecordWitness {
        payload_digest: hash(1),
        chain_id: 1,
        lifecycle: WitnessLifecycle::Included,
        block: Some(at),
        transaction_index: Some(0),
        log_index: Some(1),
        log_block_timestamp: None,
    });
    state.recent_inputs = vec![recent];
    state.historical_position.delivery_token = Some(vec![5]);
    state.historical_position.delivery_digest = Some(hash(5));
    state.historical_position.coverage_head = Some(block(102));
    state.historical_position.canonical_history = vec![block(102)];
    state.last_committed_token = Some(StoredCommittedToken {
        source: HybridSource::Historical,
        kind: HybridTokenKind::Forwarded,
        inner: vec![5],
    });
    validate_checkpoint_state(&state, &Ok(())).expect("valid");
    let mut position = SubscriberResumePosition {
        chain_id: 1,
        coverage_head: block(102),
        canonical_history: vec![block(101), block(102)],
        delivery_token: Some(wrap_token(
            state.epoch,
            HybridSource::Historical,
            HybridTokenKind::Forwarded,
            &[5],
        )),
        subscriber_checkpoint: None,
    };
    let config = HybridConfig::default();
    assert_eq!(
        validate_restore_position_preflight(1, &config, &position, &state, true),
        Ok(vec![block(101), block(102)])
    );
    position.canonical_history[0].timestamp = Some(1);
    assert_eq!(
        validate_restore_position_preflight(1, &config, &position, &state, true),
        Err(SubscriberError::RuntimeCoverageConflict { number: 101 })
    );
}

#[test]
fn a_replay_needs_the_token_that_it_repeats() {
    let capabilities = SubscriberCapabilities {
        historical_backfill: true,
        live: true,
        durable_replay: true,
        barriers: true,
        logs: true,
        pending_transaction_hashes: false,
        owner_scoped_delivery: false,
        dynamic_interests: false,
        explicit_reorgs: false,
        finality_updates: false,
        block_headers: false,
        full_blocks: false,
        pending_transactions: false,
    };
    let profile = SourceProfile { chain_id: Some(1), capabilities };
    let mut core = Coordinator::start(
        HybridConfig::default(),
        &profile,
        &profile,
        Epoch::from_slice(&[1; 16]),
    )
    .expect("start");
    core.replay_live = true;
    let error = core.next_step(Epoch::from_slice(&[2; 16])).expect_err("no token");
    assert_eq!(error, SubscriberError::MissingReplayToken { source: HybridSource::Live });
    assert_eq!(
        error.message(),
        "hybrid restored Live acknowledgement is missing its child token"
    );
}
