//! Digests of transcripts.
use hybrid_events::transcript::CanonicalHasher;

#[test]
fn framing_separates_ambiguous_concatenations() {
    let mut left = CanonicalHasher::new(b"test-v1");
    left.sequence_len(2);
    left.bytes(b"a");
    left.bytes(b"bc");

    let mut right = CanonicalHasher::new(b"test-v1");
    right.sequence_len(2);
    right.bytes(b"ab");
    right.bytes(b"c");

    assert_ne!(left.finish(), right.finish());
}

#[test]
fn domains_and_option_presence_are_committed() {
    let mut none = CanonicalHasher::new(b"left-v1");
    none.option_u64(None);

    let mut zero = CanonicalHasher::new(b"left-v1");
    zero.option_u64(Some(0));

    let mut other_domain = CanonicalHasher::new(b"right-v1");
    other_domain.option_u64(None);

    let none = none.finish();
    assert_ne!(none, zero.finish());
    assert_ne!(none, other_domain.finish());
}

/// The digest is Keccak-256 of the framed bytes.
#[test]
fn a_transcript_is_hashed_as_it_is_framed() {
    let mut hasher = CanonicalHasher::new(b"d");
    hasher.bool(true);
    hasher.u64(0x0102_0304_0506_0708);
    hasher.bytes(b"xy");

    let mut framed = b"EFCHY-CANONICAL-TRANSCRIPT\0".to_vec();
    framed.extend_from_slice(&1_u64.to_be_bytes());
    framed.push(b'd');
    framed.push(1);
    framed.extend_from_slice(&[1, 2, 3, 4, 5, 6, 7, 8]);
    framed.extend_from_slice(&2_u64.to_be_bytes());
    framed.extend_from_slice(b"xy");
    assert_eq!(
        hasher.finish().to_vec(),
        alloy_primitives::keccak256(&framed).as_slice().to_vec()
    );
}
