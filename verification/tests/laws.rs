//! The laws of the library on concrete values.
use hybrid_events::audience::{
    apply_audience_coverage, merge_audience, merge_scope, merge_witness, merge_witness_lifecycle, residual_audience,
    AudienceCoverage, DeliveryAudience, DeliveryScope, RecordWitness, WitnessLifecycle,
};
use hybrid_events::capacity::{preflight_maximum_canonical_log_delivery, ProbeVerdicts};
use hybrid_events::checkpoint::{
    CertifiedHistoricalCoverage, HybridCheckpointV5, HybridTokenKind, LifecycleIntent, SourcePosition,
    StoredCommittedToken, StoredRecentInput,
};
use hybrid_events::codec::{decode_hybrid_checkpoint, encode_hybrid_checkpoint};
use hybrid_events::commit::{apply_commit_to_checkpoint, AudienceCommit, PendingCoordinatorCommit};
use hybrid_events::config::validate_config;
use hybrid_events::fit::fit_checkpoint_to_durable_limits;
use hybrid_events::header::header_body_digest;
use hybrid_events::history::{apply_canonical_mutations_to, CanonicalMutation};
use hybrid_events::intent::{
    empty_interest_fingerprint, empty_lifecycle_barrier_id, interest_fingerprint, BlockMode, PortableInterest,
};
use hybrid_events::model::{compatible_block_ref, BlockRef, HandlerId, InputRef, ReactiveInputIdentity, ReactiveInputKind};
use hybrid_events::owners::OwnerMap;
use hybrid_events::token::unwrap_token;
use hybrid_events::transcript::CanonicalHasher;
use hybrid_events::words::{Epoch, B256};
use hybrid_events::{HybridConfig, HybridSource, SubscriberError};

fn hash(fill: u8) -> B256 {
    B256::repeat_byte(fill)
}

fn id(name: &str) -> HandlerId {
    HandlerId::try_new(name.to_string()).expect("non-empty handler id")
}

fn ids(names: &[&str]) -> Vec<HandlerId> {
    names.iter().map(|name| id(name)).collect()
}

fn block(number: u64) -> BlockRef {
    BlockRef {
        number,
        hash: hash(number as u8),
        parent_hash: Some(hash(number.wrapping_sub(1) as u8)),
        timestamp: Some(number * 12),
    }
}

fn bare(number: u64) -> BlockRef {
    BlockRef { number, hash: hash(number as u8), parent_hash: None, timestamp: None }
}

fn witness(lifecycle: WitnessLifecycle, block: Option<BlockRef>) -> RecordWitness {
    RecordWitness {
        payload_digest: hash(0x11),
        chain_id: 1,
        lifecycle,
        block,
        transaction_index: Some(1),
        log_index: None,
        log_block_timestamp: None,
    }
}

fn identity(at: u64, log_index: u64) -> ReactiveInputIdentity {
    ReactiveInputIdentity::try_from_parts(
        InputRef::Log {
            chain_id: Some(1),
            block_hash: block(at).hash,
            transaction_hash: hash(0xc0),
            log_index,
        },
        ReactiveInputKind::CanonicalLog,
    )
    .expect("identity")
}

fn recent(at: u64, log_index: u64) -> StoredRecentInput {
    StoredRecentInput {
        identity: identity(at, log_index),
        coverage: AudienceCoverage {
            base: true,
            owners: OwnerMap::new(),
            block: Some(block(at)),
            witness: Some(witness(WitnessLifecycle::Included, Some(block(at)))),
        },
    }
}

/// A state that covers 100 to 102, with a base interest.
fn state() -> HybridCheckpointV5 {
    let history = vec![block(100), block(101), block(102)];
    let position = |token: u8| SourcePosition {
        delivery_token: Some(vec![token]),
        checkpoint: Some(vec![token, token]),
        coverage_head: Some(block(102)),
        canonical_history: vec![block(100), block(101), block(102)],
        delivery_digest: Some(hash(token)),
    };
    HybridCheckpointV5 {
        chain_id: 1,
        epoch: Epoch::from_slice(&[9; 16]),
        next_synthetic_token: 7,
        lifecycle_generation: 3,
        owner_generations: OwnerMap::new(),
        lifecycle_intent: LifecycleIntent { base: hash(0x41), owners: OwnerMap::new() },
        recent_inputs: vec![recent(100, 1), recent(101, 1), recent(102, 1)],
        canonical_history: history,
        coverage_head: Some(block(102)),
        safe_head: Some(block(101)),
        finalized_head: Some(block(100)),
        certified_historical: Some(CertifiedHistoricalCoverage {
            lifecycle_generation: 3,
            through: block(102),
        }),
        historical_position: position(0x91),
        live_position: position(0xa1),
        last_committed_token: Some(StoredCommittedToken {
            source: HybridSource::Live,
            kind: HybridTokenKind::Forwarded,
            inner: vec![0xa1],
        }),
    }
}

fn commit(state: &HybridCheckpointV5, canonical: Vec<CanonicalMutation>, next: Vec<BlockRef>) -> PendingCoordinatorCommit {
    PendingCoordinatorCommit {
        audiences: Vec::new(),
        canonical,
        source: HybridSource::Live,
        source_token: Some(vec![0xa2]),
        source_checkpoint: None,
        source_progress: next.last().copied(),
        source_observed_through: None,
        token_kind: HybridTokenKind::Forwarded,
        token_bytes: vec![0xa2],
        source_delivery_digest: hash(0xa2),
        next_safe_head: state.safe_head,
        next_finalized_head: state.finalized_head,
        next_coverage_head: next.last().copied(),
        next_canonical_history: next,
    }
}

#[test]
fn a_merged_audience_is_the_union() {
    let merged = |mut left: DeliveryAudience, right: DeliveryAudience| {
        merge_audience(&mut left, &right);
        left
    };
    assert_eq!(
        merged(DeliveryAudience::Owners(ids(&["b"])), DeliveryAudience::Owners(ids(&["c", "a"]))),
        DeliveryAudience::Owners(ids(&["a", "b", "c"]))
    );
    assert_eq!(
        merged(DeliveryAudience::AllExcept(ids(&["a", "b"])), DeliveryAudience::Owners(ids(&["b"]))),
        DeliveryAudience::AllExcept(ids(&["a"]))
    );
    assert_eq!(
        merged(
            DeliveryAudience::AllExcept(ids(&["a", "b"])),
            DeliveryAudience::AllExcept(ids(&["c", "b"]))
        ),
        DeliveryAudience::AllExcept(ids(&["b"]))
    );
    assert_eq!(
        merged(DeliveryAudience::Owners(ids(&["a"])), DeliveryAudience::All),
        DeliveryAudience::All
    );
    let mut scope = DeliveryScope::OwnerCatchup;
    merge_scope(&mut scope, DeliveryScope::CanonicalProgress);
    assert_eq!(scope, DeliveryScope::CanonicalProgress);
    merge_scope(&mut scope, DeliveryScope::Canonical);
    assert_eq!(scope, DeliveryScope::Canonical);
}

#[test]
fn a_merged_lifecycle_is_the_more_settled_one() {
    assert_eq!(
        merge_witness_lifecycle(WitnessLifecycle::Included, WitnessLifecycle::Finalized),
        Ok(WitnessLifecycle::Finalized)
    );
    assert_eq!(
        merge_witness_lifecycle(WitnessLifecycle::Safe, WitnessLifecycle::Included),
        Ok(WitnessLifecycle::Safe)
    );
    assert!(merge_witness_lifecycle(WitnessLifecycle::Pending, WitnessLifecycle::Included).is_err());
}

#[test]
fn a_merged_witness_absorbs_both() {
    let left = witness(WitnessLifecycle::Included, Some(bare(5)));
    let mut right = witness(WitnessLifecycle::Safe, Some(block(5)));
    right.log_block_timestamp = Some(60);
    let merged = merge_witness(&left, &right).expect("compatible");
    assert_eq!(merged.block, Some(block(5)));
    assert_eq!(merged.log_block_timestamp, Some(60));
    assert_eq!(merged.lifecycle, WitnessLifecycle::Safe);
    assert_eq!(merge_witness(&merged, &left), Ok(merged));
    assert_eq!(merge_witness(&merged, &right), Ok(merged));
    let mut other = left;
    other.payload_digest = hash(0x12);
    assert!(merge_witness(&left, &other).is_err());
}

#[test]
fn two_accounts_of_a_block_complete_each_other() {
    let mut left = bare(5);
    left.timestamp = Some(60);
    let mut right = bare(5);
    right.parent_hash = Some(hash(4));
    let joined = compatible_block_ref(&left, &right).expect("compatible");
    assert_eq!(joined, block(5));
    assert_eq!(compatible_block_ref(&right, &left), Ok(joined));
    assert_eq!(compatible_block_ref(&joined, &left), Ok(joined));
}

#[test]
fn what_is_owed_is_what_nobody_has_had() {
    let mut generations = OwnerMap::new();
    generations.insert(id("a"), 2);
    generations.insert(id("b"), 3);
    let mut coverage = AudienceCoverage::new();
    // An older generation does not count.
    coverage.owners.insert(id("a"), 1);
    coverage.owners.insert(id("b"), 3);
    assert_eq!(
        residual_audience(&coverage, &DeliveryAudience::Owners(ids(&["b", "a"])), &generations),
        Some(DeliveryAudience::Owners(ids(&["a"])))
    );
    assert_eq!(
        residual_audience(&coverage, &DeliveryAudience::All, &generations),
        Some(DeliveryAudience::AllExcept(ids(&["b"])))
    );
    let left = residual_audience(&coverage, &DeliveryAudience::All, &generations).expect("owed");
    apply_audience_coverage(&mut coverage, &left, &generations);
    assert_eq!(residual_audience(&coverage, &DeliveryAudience::All, &generations), None);
    assert_eq!(
        residual_audience(&coverage, &DeliveryAudience::Owners(ids(&["a"])), &generations),
        None
    );
    assert!(coverage.base);
}

#[test]
fn mutations_keep_a_bounded_ascending_history() {
    let mut history = vec![block(1), block(2), block(3)];
    let mut head = Some(block(3));
    apply_canonical_mutations_to(
        &mut history,
        &mut head,
        &[CanonicalMutation::Advance(block(4)), CanonicalMutation::Advance(block(5))],
        3,
    )
    .expect("advance");
    assert_eq!(history, vec![block(3), block(4), block(5)]);
    assert_eq!(head, Some(block(5)));
    // A block below the head completes what is known, and moves nothing.
    apply_canonical_mutations_to(&mut history, &mut head, &[CanonicalMutation::Advance(bare(4))], 3)
        .expect("complete");
    assert_eq!(history, vec![block(3), block(4), block(5)]);
    assert_eq!(head, Some(block(5)));
    apply_canonical_mutations_to(&mut history, &mut head, &[CanonicalMutation::Rewind(block(4))], 3)
        .expect("rewind");
    assert_eq!(history, vec![block(3), block(4)]);
    assert_eq!(head, Some(block(4)));
    apply_canonical_mutations_to(&mut history, &mut head, &[CanonicalMutation::Reset], 3).expect("reset");
    assert_eq!((history, head), (Vec::new(), None));
}

#[test]
fn a_reorganization_revokes_the_certificate_and_forgets_inputs() {
    let mut after = state();
    let next = vec![block(100), block(101)];
    let step = commit(&after, vec![CanonicalMutation::Rewind(block(101))], next);
    apply_commit_to_checkpoint(&mut after, &step, 8).expect("commit");
    assert_eq!(after.certified_historical, None);
    let kept: Vec<ReactiveInputIdentity> = after.recent_inputs.iter().map(|entry| entry.identity).collect();
    assert_eq!(kept, vec![identity(100, 1), identity(101, 1)]);
    // The other source goes back too, and loses its cursor.
    assert_eq!(after.historical_position.coverage_head, Some(block(101)));
    assert_eq!(after.historical_position.delivery_token, None);
    assert_eq!(after.live_position.delivery_token, Some(vec![0xa2]));
    assert_eq!(after.last_committed_token.as_ref().expect("token").inner, vec![0xa2]);
}

#[test]
fn a_committed_input_stands_last_and_once() {
    let mut after = state();
    let mut step = commit(&after, Vec::new(), vec![block(100), block(101), block(102)]);
    for log_index in [1, 1] {
        step.audiences.push(AudienceCommit {
            identity: identity(100, log_index),
            audience: DeliveryAudience::All,
            block: Some(block(100)),
            witness: witness(WitnessLifecycle::Finalized, Some(block(100))),
        });
    }
    apply_commit_to_checkpoint(&mut after, &step, 8).expect("commit");
    let order: Vec<ReactiveInputIdentity> = after.recent_inputs.iter().map(|entry| entry.identity).collect();
    assert_eq!(order, vec![identity(101, 1), identity(102, 1), identity(100, 1)]);
    let coverage = &after.recent_inputs[2].coverage;
    assert_eq!(coverage.witness.expect("witness").lifecycle, WitnessLifecycle::Finalized);
    // Fitting forgets the oldest first, and never the newest.
    fit_checkpoint_to_durable_limits(&mut after, 1, 2, 8, &Ok(())).expect("fit");
    let order: Vec<ReactiveInputIdentity> = after.recent_inputs.iter().map(|entry| entry.identity).collect();
    assert_eq!(order, vec![identity(102, 1), identity(100, 1)]);
    let before = after.duplicate();
    fit_checkpoint_to_durable_limits(&mut after, 1, 2, 8, &Ok(())).expect("fits already");
    assert_eq!(after, before);
}

#[test]
fn an_identity_that_occurs_twice_is_collapsed() {
    let mut after = state();
    // The last account of an identity stands where it occurred first.
    let mut again = recent(101, 1);
    again.coverage.base = false;
    after.recent_inputs.push(again);
    let step = commit(&after, Vec::new(), vec![block(100), block(101), block(102)]);
    apply_commit_to_checkpoint(&mut after, &step, 8).expect("commit");
    let order: Vec<ReactiveInputIdentity> = after.recent_inputs.iter().map(|entry| entry.identity).collect();
    assert_eq!(order, vec![identity(100, 1), identity(101, 1), identity(102, 1)]);
    let bases: Vec<bool> = after.recent_inputs.iter().map(|entry| entry.coverage.base).collect();
    assert_eq!(bases, vec![true, false, true]);
}

#[test]
fn what_cannot_be_committed_or_fitted_changes_nothing() {
    let mut after = state();
    let mut step = commit(&after, Vec::new(), vec![block(100), block(101), block(102)]);
    step.source_progress = Some(BlockRef { parent_hash: Some(hash(0x77)), ..block(103) });
    step.audiences.push(AudienceCommit {
        identity: identity(100, 1),
        audience: DeliveryAudience::All,
        block: Some(block(100)),
        witness: witness(WitnessLifecycle::Finalized, Some(block(100))),
    });
    apply_commit_to_checkpoint(&mut after, &step, 8).expect_err("another parent");
    assert_eq!(after, state());
    // Nothing may be forgotten, but only two inputs may be kept.
    fit_checkpoint_to_durable_limits(&mut after, 3, 2, 8, &Ok(())).expect_err("protected");
    assert_eq!(after, state());
    fit_checkpoint_to_durable_limits(&mut after, 4, 8, 8, &Ok(())).expect_err("too many protected");
    assert_eq!(after, state());
}

#[test]
fn a_limit_of_zero_is_refused() {
    let refused = |change: &dyn Fn(&mut HybridConfig)| {
        let mut config = HybridConfig::default();
        change(&mut config);
        matches!(validate_config(&config), Err(SubscriberError::InvalidConfig(_)))
    };
    assert!(!refused(&|_| {}));
    assert!(refused(&|config| config.max_buffered_live_batches = 0));
    assert!(refused(&|config| config.max_buffered_live_records = 0));
    assert!(refused(&|config| config.max_buffered_live_bytes = 0));
    assert!(refused(&|config| config.max_source_delivery_token_bytes = 0));
    assert!(refused(&|config| config.max_source_checkpoint_bytes = 0));
    assert!(refused(&|config| config.recent_input_capacity = 0));
    assert!(refused(&|config| config.max_recent_owner_entries = 0));
    assert!(refused(&|config| config.canonical_history_capacity = 0));
    let mut config = HybridConfig::default();
    config.max_recent_owner_entries = 0;
    assert_eq!(
        validate_config(&config),
        Err(SubscriberError::InvalidConfig("hybrid recent owner-entry budget must be non-zero"))
    );
}

#[test]
fn a_header_is_digested_with_its_texts_escaped() {
    let json = br#"{"z":"a\u0001\b\t\n\u000b\f\r\u001f\"\\\/\u007f\u00e9","k\"":[1.50,-0,1e3,true,false,null]}"#;
    let canonical =
        "{\"k\\\"\":[1.5,-0.0,1000.0,true,false,null],\"z\":\"a\\u0001\\b\\t\\n\\u000b\\f\\r\\u001f\\\"\\\\/\u{7f}\u{e9}\"}";
    let mut bytes = b"EFCHY-HEADER-CANONICAL-JSON-V1".to_vec();
    bytes.extend_from_slice(canonical.as_bytes());
    let digest = alloy_primitives::keccak256(&bytes);
    let (found, length) = header_body_digest(json, 1_024).expect("digest");
    assert_eq!(found.to_vec(), digest.to_vec());
    assert_eq!(length, canonical.len());
    let error = header_body_digest(b"{", 1_024).expect_err("not JSON");
    assert!(matches!(error, SubscriberError::HeaderNotJson { .. }));
    assert_eq!(
        error.message(),
        "failed to canonicalize exact hybrid block-header witness: EOF while parsing an object at line 1 column 1"
    );
}

#[test]
fn a_state_is_read_back_as_it_was_written() {
    let bytes = encode_hybrid_checkpoint(&state(), &Ok(())).expect("encode");
    let again = decode_hybrid_checkpoint(&bytes, &Ok(())).expect("decode");
    assert_eq!(again, state());
    assert_eq!(encode_hybrid_checkpoint(&again, &Ok(())), Ok(bytes));
}

#[test]
fn a_topology_that_passed_has_room_for_a_delivery() {
    let verdicts = || ProbeVerdicts { before: Ok(()), after: Ok(()) };
    let mut config = HybridConfig::default();
    config.canonical_history_capacity = 4;
    // The longest cursors, but for a page, with which the preflight passes.
    let mut low = 1;
    let mut high = 16_777_216;
    while low + 4_096 < high {
        let middle = low + (high - low) / 2;
        config.max_source_checkpoint_bytes = middle;
        match preflight_maximum_canonical_log_delivery(&config, &state(), "test", &verdicts()) {
            Ok(()) => low = middle,
            Err(SubscriberError::NoRoomForDelivery { .. }) => high = middle,
            Err(error) => panic!("unexpected error {error:?}"),
        }
    }
    // A state with cursors of that length, full histories and one input fits.
    let mut full = state();
    full.recent_inputs = vec![recent(102, 1)];
    let token = vec![0xff; config.max_source_delivery_token_bytes];
    full.historical_position.delivery_token = Some(token.clone());
    full.live_position.delivery_token = Some(token.clone());
    full.last_committed_token = Some(StoredCommittedToken {
        source: HybridSource::Live,
        kind: HybridTokenKind::Forwarded,
        inner: token,
    });
    full.historical_position.checkpoint = Some(vec![0xff; low]);
    full.live_position.checkpoint = Some(vec![0xff; low]);
    assert!(encode_hybrid_checkpoint(&full, &Ok(())).is_ok());
    // The bound is not far off: cursors that are a little longer do not.
    full.historical_position.checkpoint = Some(vec![0xff; low + 8_192]);
    full.live_position.checkpoint = Some(vec![0xff; low + 8_192]);
    assert!(encode_hybrid_checkpoint(&full, &Ok(())).is_err());
}

#[test]
fn a_fingerprint_does_not_depend_on_the_order_of_interests() {
    let logs = |fill: u8| PortableInterest::Log { addresses: vec![vec![fill; 20]], topics: Vec::new() };
    let blocks = || PortableInterest::Block { mode: Some(BlockMode::Header) };
    let one = interest_fingerprint(&vec![logs(1), blocks(), logs(2)]).expect("fingerprint");
    assert_eq!(interest_fingerprint(&vec![logs(2), logs(1), blocks()]), Ok(one));
    assert_ne!(interest_fingerprint(&vec![logs(1), blocks()]), Ok(one));
    assert_eq!(interest_fingerprint(&Vec::new()), Ok(empty_interest_fingerprint()));
    assert!(interest_fingerprint(&vec![PortableInterest::Missing]).is_err());
}

#[test]
fn a_barrier_is_that_of_its_lifecycle() {
    let one = empty_lifecycle_barrier_id(&state());
    assert_eq!(one.len(), 32);
    let mut later = state();
    later.lifecycle_generation += 1;
    assert_ne!(empty_lifecycle_barrier_id(&later), one);
    let mut renewed = state();
    renewed.epoch = Epoch::from_slice(&[8; 16]);
    assert_ne!(empty_lifecycle_barrier_id(&renewed), one);
    let mut elsewhere = state();
    elsewhere.canonical_history = Vec::new();
    assert_eq!(empty_lifecycle_barrier_id(&elsewhere), one);
}

#[test]
fn field_order_does_not_matter_at_any_depth() {
    let digest = |json: &[u8]| header_body_digest(json, 1_024).expect("digest");
    let one = digest(br#"{"a":{"x":1,"y":[true,null]},"b":"q\"uote"}"#);
    assert_eq!(digest(br#"{ "b" : "q\"uote", "a" : {"y":[true, null],"x":1} }"#), one);
    assert_ne!(digest(br#"{"a":{"x":1,"y":[null,true]},"b":"q\"uote"}"#), one);
    assert!(header_body_digest(b"{", 1_024).is_err());
    let text = br#"{"a":{"x":1,"y":[true,null]},"b":"q\"uote"}"#;
    assert_eq!(one.1, text.len());
    assert!(header_body_digest(text, text.len() - 1).is_err());
}

#[test]
fn a_token_has_one_form() {
    let mut token = b"EFCHYB2\0".to_vec();
    token.extend_from_slice(&[7; 16]);
    token.extend_from_slice(&[2, 1, 0xaa]);
    let parts = unwrap_token(&token).expect("token");
    assert_eq!(parts.source, HybridSource::Live);
    assert_eq!(parts.kind, HybridTokenKind::Forwarded);
    assert_eq!(parts.inner, vec![0xaa]);
    token[24] = 3;
    assert_eq!(
        unwrap_token(&token),
        Err(SubscriberError::Provider("invalid hybrid delivery-token source"))
    );
    token[24] = 1;
    token[25] = 0;
    assert_eq!(
        unwrap_token(&token),
        Err(SubscriberError::Provider("invalid hybrid delivery-token kind"))
    );
}

#[test]
fn optional_parts_are_framed() {
    let digest = |write: &dyn Fn(&mut CanonicalHasher)| {
        let mut hasher = CanonicalHasher::new(b"laws");
        write(&mut hasher);
        hasher.finish()
    };
    let absent = digest(&|hasher| hasher.option_block_ref(&None));
    let present = digest(&|hasher| hasher.option_block_ref(&Some(bare(0))));
    let known = digest(&|hasher| hasher.option_block_ref(&Some(block(0))));
    assert_ne!(absent, present);
    assert_ne!(present, known);
    assert_ne!(
        digest(&|hasher| hasher.option_hash(&None)),
        digest(&|hasher| hasher.option_hash(&Some(B256::zero())))
    );
    assert_ne!(
        digest(&|hasher| hasher.handler_id(&id("ab"))),
        digest(&|hasher| hasher.handler_id(&id("abc")))
    );
}
