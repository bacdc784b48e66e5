//! The bytes of a checkpoint.
use alloy_rlp::{Encodable, Header};
use hybrid_events::checkpoint::{HybridCheckpointV5, LifecycleIntent, SourcePosition};
use hybrid_events::codec::{
    decode_envelope, decode_hybrid_checkpoint_v5, encode_hybrid_checkpoint_v5, CHECKPOINT_ENVELOPE_BYTES,
};
use hybrid_events::decode::{
    count_items, DecodeBudget, MAX_DECODE_HEAP_BYTES, MAX_HANDLER_ID_BYTES, MAX_RECENT_INPUTS,
};
use hybrid_events::intent::empty_interest_fingerprint;
use hybrid_events::model::HandlerId;
use hybrid_events::owners::OwnerMap;
use hybrid_events::words::{Epoch, B256};
use hybrid_events::SubscriberError;

fn encode(state: &HybridCheckpointV5) -> Result<Vec<u8>, SubscriberError> {
    encode_hybrid_checkpoint_v5(state, &Ok(()))
}

fn decode(bytes: &[u8]) -> Result<HybridCheckpointV5, SubscriberError> {
    decode_hybrid_checkpoint_v5(bytes, &Ok(()))
}

fn checkpoint() -> HybridCheckpointV5 {
    HybridCheckpointV5 {
        chain_id: 1,
        epoch: Epoch::from_slice(&[9; 16]),
        next_synthetic_token: 7,
        lifecycle_generation: 3,
        owner_generations: OwnerMap::new(),
        lifecycle_intent: LifecycleIntent {
            base: empty_interest_fingerprint(),
            owners: OwnerMap::new(),
        },
        recent_inputs: Vec::new(),
        canonical_history: Vec::new(),
        coverage_head: None,
        safe_head: None,
        finalized_head: None,
        certified_historical: None,
        historical_position: SourcePosition::new(),
        live_position: SourcePosition::new(),
        last_committed_token: None,
    }
}

fn envelope(payload: &[u8]) -> Vec<u8> {
    let mut encoded = vec![0; CHECKPOINT_ENVELOPE_BYTES];
    encoded.extend_from_slice(payload);
    encoded[..8].copy_from_slice(b"EFCHYCP\0");
    encoded[8..10].copy_from_slice(&5_u16.to_be_bytes());
    encoded[10..14].copy_from_slice(&(payload.len() as u32).to_be_bytes());
    encoded[14..18].copy_from_slice(&crc32fast::hash(payload).to_be_bytes());
    encoded
}

fn rewrite_top_level_payload(encoded: &[u8], rewrite: impl FnOnce(&[u8]) -> Vec<u8>) -> Vec<u8> {
    let payload = &encoded[CHECKPOINT_ENVELOPE_BYTES..];
    let mut fields = payload;
    let header = Header::decode(&mut fields).expect("valid top-level RLP list");
    assert!(header.list);
    assert_eq!(header.payload_length, fields.len());
    let fields = rewrite(fields);
    let mut rewritten = Vec::new();
    Header { list: true, payload_length: fields.len() }.encode(&mut rewritten);
    rewritten.extend_from_slice(&fields);
    envelope(&rewritten)
}

fn id(name: &str) -> HandlerId {
    HandlerId::try_new(name.to_string()).expect("non-empty handler id")
}

fn owner_checkpoint() -> HybridCheckpointV5 {
    let mut state = checkpoint();
    for name in ["owner-a", "owner-b"] {
        state.owner_generations.insert(id(name), 3);
        state.lifecycle_intent.owners.insert(id(name), B256::repeat_byte(0x42));
    }
    state
}

#[test]
fn canonical_v5_bytes_round_trip_exactly() {
    let encoded = encode(&owner_checkpoint()).expect("encode v5");
    let decoded = decode(&encoded).expect("decode v5");
    let reencoded = encode(&decoded).expect("re-encode v5");
    assert_eq!(reencoded, encoded);
    assert_eq!(decoded, owner_checkpoint());
}

#[test]
fn non_canonical_rlp_integer_is_rejected() {
    let encoded = encode(&checkpoint()).expect("encode v5");
    let malformed = rewrite_top_level_payload(&encoded, |fields| {
        assert_eq!(fields[0], 1, "fixture chain id uses one canonical byte");
        let mut rewritten = vec![0x81, 0x01];
        rewritten.extend_from_slice(&fields[1..]);
        rewritten
    });
    let error = decode(&malformed).expect_err("non-canonical integer");
    assert!(error.message().contains("canonical"), "{}", error.message());
}

#[test]
fn top_level_trailing_field_is_rejected() {
    let encoded = encode(&checkpoint()).expect("encode v5");
    let malformed = rewrite_top_level_payload(&encoded, |fields| {
        let mut rewritten = fields.to_vec();
        rewritten.push(0x80);
        rewritten
    });
    let error = decode(&malformed).expect_err("trailing list field");
    assert!(error.message().contains("trailing list fields"), "{}", error.message());
}

#[test]
fn owner_maps_must_be_strictly_sorted_and_unique() {
    let encoded = encode(&owner_checkpoint()).expect("encode owners");
    let first = encoded
        .windows(b"owner-a".len())
        .position(|window| window == b"owner-a")
        .expect("first owner");
    let second = encoded
        .windows(b"owner-b".len())
        .position(|window| window == b"owner-b")
        .expect("second owner");
    assert!(first < second);

    let mut unsorted = encoded.clone();
    unsorted[first + b"owner-a".len() - 1] = b'b';
    unsorted[second + b"owner-b".len() - 1] = b'a';
    let checksum = crc32fast::hash(&unsorted[CHECKPOINT_ENVELOPE_BYTES..]);
    unsorted[14..18].copy_from_slice(&checksum.to_be_bytes());
    let error = decode(&unsorted).expect_err("unsorted owner map");
    assert!(error.message().contains("strictly sorted"), "{}", error.message());

    let mut duplicate = encoded;
    duplicate[second + b"owner-b".len() - 1] = b'a';
    let checksum = crc32fast::hash(&duplicate[CHECKPOINT_ENVELOPE_BYTES..]);
    duplicate[14..18].copy_from_slice(&checksum.to_be_bytes());
    let error = decode(&duplicate).expect_err("duplicate owner map");
    assert!(error.message().contains("strictly sorted"), "{}", error.message());
}

#[test]
fn count_handler_and_heap_limits_fail_closed() {
    let too_many_items = vec![0x80; MAX_RECENT_INPUTS + 1];
    assert!(count_items(&too_many_items, MAX_RECENT_INPUTS, "test entries")
        .expect_err("count limit")
        .message()
        .contains("exceeds"));

    let mut oversized_handler = checkpoint();
    let owner = id(&"x".repeat(MAX_HANDLER_ID_BYTES + 1));
    oversized_handler.owner_generations.insert(owner.duplicate(), 3);
    oversized_handler.lifecycle_intent.owners.insert(owner, B256::repeat_byte(0x11));
    assert!(encode(&oversized_handler).expect_err("handler limit").message().contains("handler id"));

    let mut budget = DecodeBudget::new();
    assert!(budget
        .claim_heap_bytes(MAX_DECODE_HEAP_BYTES + 1)
        .expect_err("heap limit")
        .message()
        .contains("heap budget"));
}

/// A panic would end the test.
#[test]
fn corrupt_and_truncated_corpus_never_panics() {
    let encoded = encode(&owner_checkpoint()).expect("encode corpus seed");
    for end in 0..encoded.len() {
        assert!(decode(&encoded[..end]).is_err(), "a truncation to {end} bytes is refused");
    }
    for index in 0..encoded.len() {
        let mut corrupt = encoded.clone();
        corrupt[index] ^= 0x5a;
        assert!(decode(&corrupt).is_err(), "a corrupt byte {index} is refused");
    }

    let mut seed = 0x9e37_79b9_u32;
    for len in 0..256usize {
        let mut payload = Vec::with_capacity(len);
        for _ in 0..len {
            seed = seed.wrapping_mul(1_664_525).wrapping_add(1_013_904_223);
            payload.push((seed >> 24) as u8);
        }
        let candidate = envelope(&payload);
        assert!(decode(&candidate).is_err(), "corpus of length {len} is refused");
    }
}

/// The envelope is magic, version, length and checksum, then the payload.
#[test]
fn an_envelope_gives_its_payload_back() {
    let encoded = encode(&owner_checkpoint()).expect("encode v5");
    let payload = decode_envelope(&encoded).expect("open envelope");
    assert_eq!(payload, &encoded[CHECKPOINT_ENVELOPE_BYTES..]);
    assert_eq!(envelope(payload), encoded);
    let error = decode_envelope(b"EFCHY").expect_err("too short");
    assert!(error.message().contains("not a hybrid coordinator checkpoint"), "{}", error.message());
}
