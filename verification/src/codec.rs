//! Durable checkpoints as bytes: an envelope with a magic, a version, a length
//! and a checksum around a canonical payload.
use crate::checkpoint::{CheckpointView, HybridCheckpointV5};
use crate::decode::{
    decode_checkpoint_payload, no_budget, p_checkpoint, Cursor, DecodeBudget,
    MAX_CHECKPOINT_PAYLOAD_BYTES,
};
use crate::encode::put_checkpoint;
use crate::error::SubscriberError;
use crate::limits::{limits_error, validate_codec_limits};
use crate::limits_laws::{law_limits_are_wire_limits, lemma_ok_is_typed, state_typed};
use crate::validate::{first, state_error, validate_checkpoint_state, SequenceVerdict};
use crate::wire::{capped, enc_checkpoint, payload_length};
use crate::wire_laws::{law_payload_is_canonical, law_payload_round_trip};
use vstd::prelude::*;
use vstd::slice::slice_subrange;

verus! {

/// The number of bytes in front of a payload: magic, version, length and
/// checksum.
pub const CHECKPOINT_ENVELOPE_BYTES: usize = 18;

/// The CRC-32 checksum of some bytes.
pub uninterp spec fn crc32_checksum(bytes: Seq<u8>) -> u32;

/// `crc32fast::hash`: the CRC-32 checksum of the bytes, a function of the bytes
/// alone.
#[verifier::external_body]
fn crc32(bytes: &[u8]) -> (r: u32)
    ensures
        r == crc32_checksum(bytes@),
{
    crc32fast::hash(bytes)
}

/// The four bytes of `x`, most significant first.
pub open spec fn half_bytes(x: u32) -> Seq<u8> {
    seq![(x >> 24) as u8, (x >> 16) as u8, (x >> 8) as u8, x as u8]
}

/// The number whose bytes, most significant first, stand at `at`.
pub open spec fn half_at(s: Seq<u8>, at: int) -> u32 {
    (s[at] as u32) << 24 | (s[at + 1] as u32) << 16 | (s[at + 2] as u32) << 8 | (s[at + 3] as u32)
}

/// Splitting a number into bytes and joining them again gives the number back.
pub proof fn lemma_half_join(x: u32)
    ensures
        half_at(half_bytes(x), 0) == x,
{
    assert(((x >> 24) as u8 as u32) << 24 | ((x >> 16) as u8 as u32) << 16 | ((x >> 8) as u8 as u32)
        << 8 | (x as u8 as u32) == x) by (bit_vector);
}

proof fn lemma_half_split(s: Seq<u8>, at: int)
    requires
        0 <= at,
        at + 4 <= s.len(),
    ensures
        half_bytes(half_at(s, at)) =~= s.subrange(at, at + 4),
{
    let (a, b, c, d) = (s[at], s[at + 1], s[at + 2], s[at + 3]);
    let x = half_at(s, at);
    assert((x >> 24) as u8 == a && (x >> 16) as u8 == b && (x >> 8) as u8 == c && x as u8 == d)
        by (bit_vector)
        requires
            x == (a as u32) << 24 | (b as u32) << 16 | (c as u32) << 8 | (d as u32),
    ;
}

fn read_half(bytes: &[u8], at: usize) -> (r: u32)
    requires
        at + 4 <= bytes@.len(),
    ensures
        r == half_at(bytes@, at as int),
{
    (bytes[at] as u32) << 24 | (bytes[at + 1] as u32) << 16 | (bytes[at + 2] as u32) << 8 | (
    bytes[at + 3] as u32)
}

pub(crate) fn push_half(out: &mut Vec<u8>, x: u32)
    ensures
        final(out)@ == old(out)@ + half_bytes(x),
{
    out.push((x >> 24) as u8);
    out.push((x >> 16) as u8);
    out.push((x >> 8) as u8);
    out.push(x as u8);
    assert(out@ =~= old(out)@ + half_bytes(x));
}

/// The bytes that a checkpoint starts with: `EFCHYCP` and a zero byte.
pub open spec fn checkpoint_magic() -> Seq<u8> {
    seq![0x45u8, 0x46, 0x43, 0x48, 0x59, 0x43, 0x50, 0x00]
}

/// A payload in its envelope.
pub open spec fn enveloped(payload: Seq<u8>) -> Seq<u8> {
    checkpoint_magic() + seq![0u8, 5u8] + half_bytes(payload.len() as u32) + half_bytes(
        crc32_checksum(payload),
    ) + payload
}

/// The two bytes of a version at 8.
pub open spec fn version_at(s: Seq<u8>) -> u16 {
    (s[8] as u16) << 8 | (s[9] as u16)
}

/// What taking a payload out of its envelope gives.
pub open spec fn opened(bytes: Seq<u8>) -> Result<Seq<u8>, SubscriberError> {
    if bytes.len() < CHECKPOINT_ENVELOPE_BYTES || bytes.take(8) != checkpoint_magic() {
        Err(
            SubscriberError::Provider(
                "subscriber checkpoint is not a hybrid coordinator checkpoint",
            ),
        )
    } else if version_at(bytes) == 4 {
        Err(
            SubscriberError::Provider(
                "hybrid checkpoint version 4 used the unpublished bincode format; discard it and perform an authoritative resynchronization",
            ),
        )
    } else if version_at(bytes) != 5 {
        Err(SubscriberError::UnsupportedVersion { version: version_at(bytes) })
    } else if half_at(bytes, 10) > MAX_CHECKPOINT_PAYLOAD_BYTES || bytes.len()
        != CHECKPOINT_ENVELOPE_BYTES + half_at(bytes, 10) {
        Err(
            SubscriberError::Provider("hybrid checkpoint has an invalid or oversized payload length"),
        )
    } else if crc32_checksum(bytes.skip(18)) != half_at(bytes, 14) {
        Err(SubscriberError::Provider("hybrid checkpoint checksum mismatch"))
    } else {
        Ok(bytes.skip(18))
    }
}

/// Takes a payload out of its envelope.
pub fn decode_envelope(bytes: &[u8]) -> (r: Result<&[u8], SubscriberError>)
    ensures
        match r {
            Ok(payload) => opened(bytes@) == Ok::<_, SubscriberError>(payload@),
            Err(e) => opened(bytes@) == Err::<Seq<u8>, _>(e),
        },
{
    let magic: bool = bytes.len() >= CHECKPOINT_ENVELOPE_BYTES && bytes[0] == 0x45 && bytes[1]
        == 0x46 && bytes[2] == 0x43 && bytes[3] == 0x48 && bytes[4] == 0x59 && bytes[5] == 0x43
        && bytes[6] == 0x50 && bytes[7] == 0x00;
    proof {
        if magic {
            assert(bytes@.take(8) =~= checkpoint_magic());
        } else if bytes@.len() >= CHECKPOINT_ENVELOPE_BYTES && bytes@.take(8)
            == checkpoint_magic() {
            let m = checkpoint_magic();
            assert forall|i: int| 0 <= i < 8 implies bytes@[i] == m[i] by {
                assert(bytes@.take(8)[i] == m[i]);
            }
            assert(bytes@[0] == m[0] && bytes@[1] == m[1] && bytes@[2] == m[2] && bytes@[3] == m[3]
                && bytes@[4] == m[4] && bytes@[5] == m[5] && bytes@[6] == m[6] && bytes@[7]
                == m[7]);
        }
    }
    if !magic {
        return Err(
            SubscriberError::Provider(
                "subscriber checkpoint is not a hybrid coordinator checkpoint",
            ),
        );
    }
    let version: u16 = (bytes[8] as u16) << 8 | (bytes[9] as u16);
    if version == 4 {
        return Err(
            SubscriberError::Provider(
                "hybrid checkpoint version 4 used the unpublished bincode format; discard it and perform an authoritative resynchronization",
            ),
        );
    }
    if version != 5 {
        return Err(SubscriberError::UnsupportedVersion { version });
    }
    let payload_len: u32 = read_half(bytes, 10);
    let length: usize = payload_len as usize;
    if length > MAX_CHECKPOINT_PAYLOAD_BYTES || bytes.len() - CHECKPOINT_ENVELOPE_BYTES != length {
        return Err(
            SubscriberError::Provider("hybrid checkpoint has an invalid or oversized payload length"),
        );
    }
    let expected: u32 = read_half(bytes, 14);
    let payload: &[u8] = slice_subrange(bytes, CHECKPOINT_ENVELOPE_BYTES, bytes.len());
    assert(payload@ =~= bytes@.skip(18));
    if crc32(payload) != expected {
        return Err(SubscriberError::Provider("hybrid checkpoint checksum mismatch"));
    }
    Ok(payload)
}

/// What comes of writing a state whose payload may have at most `limit` bytes.
pub open spec fn encoded(
    c: CheckpointView,
    sequence: SequenceVerdict,
    limit: usize,
) -> Result<Seq<u8>, SubscriberError> {
    let most = if limit <= MAX_CHECKPOINT_PAYLOAD_BYTES {
        limit
    } else {
        MAX_CHECKPOINT_PAYLOAD_BYTES
    };
    match first(state_error(c, sequence), limits_error(c)) {
        Some(e) => Err(e),
        None => if enc_checkpoint(c).len() > most {
            Err(SubscriberError::PayloadTooLarge { limit: most })
        } else {
            Ok(enveloped(enc_checkpoint(c)))
        },
    }
}

/// What comes of reading a state.
pub open spec fn decoded(bytes: Seq<u8>, sequence: SequenceVerdict) -> Result<
    CheckpointView,
    SubscriberError,
> {
    match opened(bytes) {
        Err(e) => Err(e),
        Ok(payload) => match p_checkpoint(Cursor { s: payload, b: no_budget() }) {
            Err(e) => Err(e),
            Ok((c, end)) => match state_error(c, sequence) {
                Some(e) => Err(e),
                None => if end.s.len() > 0 {
                    Err(
                        SubscriberError::Provider(
                            "hybrid checkpoint payload contains trailing bytes",
                        ),
                    )
                } else {
                    Ok(c)
                },
            },
        },
    }
}

/// Refuses a state that breaks a rule or that could not be written and read
/// back.
pub fn validate_hybrid_checkpoint_v5_state(
    state: &HybridCheckpointV5,
    sequence: &SequenceVerdict,
) -> (r: Result<(), SubscriberError>)
    ensures
        match r {
            Ok(_) => first(state_error(state@, *sequence), limits_error(state@)) is None,
            Err(e) => first(state_error(state@, *sequence), limits_error(state@)) == Some(e),
        },
{
    validate_checkpoint_state(state, sequence)?;
    assert(state@.drop_recent(0).recent_inputs =~= state@.recent_inputs);
    assert(state@.drop_recent(0) == state@);
    validate_codec_limits(state, 0)
}

/// Refuses a state that could not be written and read back without its oldest
/// `dropped` recent inputs.
pub fn validate_hybrid_checkpoint_v5_limits_after_dropping_recent(
    state: &HybridCheckpointV5,
    dropped: usize,
) -> (r: Result<(), SubscriberError>)
    ensures
        match r {
            Ok(_) => dropped <= state@.recent_inputs.len() && limits_error(
                state@.drop_recent(dropped as int),
            ) is None,
            Err(e) => if dropped <= state@.recent_inputs.len() {
                limits_error(state@.drop_recent(dropped as int)) == Some(e)
            } else {
                e == SubscriberError::Provider(
                    "hybrid checkpoint recent-input drop exceeds journal length",
                )
            },
        },
{
    if dropped > state.recent_inputs.len() {
        return Err(
            SubscriberError::Provider("hybrid checkpoint recent-input drop exceeds journal length"),
        );
    }
    validate_codec_limits(state, dropped)
}

/// The exact payload length of a state without its oldest `dropped` recent
/// inputs, as far as a machine length can tell it.
pub fn checkpoint_payload_len_after_dropping_recent(
    state: &HybridCheckpointV5,
    dropped: usize,
) -> (r: Result<usize, SubscriberError>)
    ensures
        match r {
            Ok(n) => dropped <= state@.recent_inputs.len() && n == capped(
                enc_checkpoint(state@.drop_recent(dropped as int)).len(),
            ),
            Err(e) => dropped > state@.recent_inputs.len() && e == SubscriberError::Provider(
                "hybrid checkpoint recent-input drop exceeds journal length",
            ),
        },
{
    if dropped > state.recent_inputs.len() {
        return Err(
            SubscriberError::Provider("hybrid checkpoint recent-input drop exceeds journal length"),
        );
    }
    Ok(payload_length(state, dropped))
}

/// Writes a state whose payload may have at most `payload_limit` bytes.
pub fn encode_hybrid_checkpoint_v5_with_limit(
    state: &HybridCheckpointV5,
    sequence: &SequenceVerdict,
    payload_limit: usize,
) -> (r: Result<Vec<u8>, SubscriberError>)
    ensures
        match r {
            Ok(bytes) => encoded(state@, *sequence, payload_limit) == Ok::<_, SubscriberError>(
                bytes@,
            ),
            Err(e) => encoded(state@, *sequence, payload_limit) == Err::<Seq<u8>, _>(e),
        },
{
    validate_hybrid_checkpoint_v5_state(state, sequence)?;
    assert(state@.drop_recent(0).recent_inputs =~= state@.recent_inputs);
    assert(state@.drop_recent(0) == state@);
    let payload_len: usize = payload_length(state, 0);
    let limit: usize = if payload_limit <= MAX_CHECKPOINT_PAYLOAD_BYTES {
        payload_limit
    } else {
        MAX_CHECKPOINT_PAYLOAD_BYTES
    };
    if payload_len > limit {
        return Err(SubscriberError::PayloadTooLarge { limit });
    }
    let mut payload: Vec<u8> = Vec::with_capacity(payload_len);
    put_checkpoint(&mut payload, state);
    assert(payload@ =~= enc_checkpoint(state@));
    let checksum: u32 = crc32(payload.as_slice());
    let mut out: Vec<u8> = vec![0x45, 0x46, 0x43, 0x48, 0x59, 0x43, 0x50, 0x00, 0, 5];
    assert(out@ =~= checkpoint_magic() + seq![0u8, 5u8]);
    push_half(&mut out, payload_len as u32);
    push_half(&mut out, checksum);
    out.append(&mut payload);
    assert(out@ =~= enveloped(enc_checkpoint(state@)));
    Ok(out)
}

/// Writes a state.
pub fn encode_hybrid_checkpoint_v5(state: &HybridCheckpointV5, sequence: &SequenceVerdict) -> (r:
    Result<Vec<u8>, SubscriberError>)
    ensures
        match r {
            Ok(bytes) => encoded(state@, *sequence, MAX_CHECKPOINT_PAYLOAD_BYTES) == Ok::<
                _,
                SubscriberError,
            >(bytes@),
            Err(e) => encoded(state@, *sequence, MAX_CHECKPOINT_PAYLOAD_BYTES) == Err::<
                Seq<u8>,
                _,
            >(e),
        },
{
    encode_hybrid_checkpoint_v5_with_limit(state, sequence, MAX_CHECKPOINT_PAYLOAD_BYTES)
}

/// A state that was read but not yet validated, and whether bytes followed it.
#[derive(Debug, PartialEq, Eq)]
pub struct DecodedCheckpoint {
    pub state: HybridCheckpointV5,
    pub trailing: bool,
}

/// Reads the envelope and the payload of a checkpoint, under fixed allocation
/// limits, without validating what the state says.
pub fn decode_checkpoint_structure(bytes: &[u8]) -> (r: Result<DecodedCheckpoint, SubscriberError>)
    ensures
        match r {
            Ok(d) => opened(bytes@) is Ok && p_checkpoint(
                Cursor { s: opened(bytes@)->Ok_0, b: no_budget() },
            ) is Ok && ({
                let (c, end) = p_checkpoint(
                    Cursor { s: opened(bytes@)->Ok_0, b: no_budget() },
                )->Ok_0;
                d.state@ == c && d.trailing == (end.s.len() > 0)
            }),
            Err(e) => match opened(bytes@) {
                Err(x) => e == x,
                Ok(payload) => p_checkpoint(Cursor { s: payload, b: no_budget() }) == Err::<
                    (CheckpointView, Cursor),
                    _,
                >(e),
            },
        },
{
    let payload: &[u8] = decode_envelope(bytes)?;
    let mut budget = DecodeBudget::new();
    let (state, rest) = decode_checkpoint_payload(payload, &mut budget)?;
    Ok(DecodedCheckpoint { state, trailing: rest.len() > 0 })
}

impl DecodedCheckpoint {
    /// The state, if it is valid and nothing followed it.
    pub fn accept(self, sequence: &SequenceVerdict) -> (r: Result<
        HybridCheckpointV5,
        SubscriberError,
    >)
        ensures
            match r {
                Ok(state) => state@ == self.state@ && state_error(self.state@, *sequence) is None
                    && !self.trailing,
                Err(e) => match state_error(self.state@, *sequence) {
                    Some(x) => e == x,
                    None => self.trailing && e == SubscriberError::Provider(
                        "hybrid checkpoint payload contains trailing bytes",
                    ),
                },
            },
    {
        validate_checkpoint_state(&self.state, sequence)?;
        if self.trailing {
            return Err(
                SubscriberError::Provider("hybrid checkpoint payload contains trailing bytes"),
            );
        }
        Ok(self.state)
    }
}

/// Reads a state, given what the canonical-sequence rules say of it.
pub fn decode_hybrid_checkpoint_v5(bytes: &[u8], sequence: &SequenceVerdict) -> (r: Result<
    HybridCheckpointV5,
    SubscriberError,
>)
    ensures
        match r {
            Ok(state) => decoded(bytes@, *sequence) == Ok::<_, SubscriberError>(state@),
            Err(e) => decoded(bytes@, *sequence) == Err::<CheckpointView, _>(e),
        },
{
    let structure: DecodedCheckpoint = decode_checkpoint_structure(bytes)?;
    structure.accept(sequence)
}

/// Writes a state.
pub fn encode_hybrid_checkpoint(state: &HybridCheckpointV5, sequence: &SequenceVerdict) -> (r: Result<
    Vec<u8>,
    SubscriberError,
>)
    ensures
        match r {
            Ok(bytes) => encoded(state@, *sequence, MAX_CHECKPOINT_PAYLOAD_BYTES) == Ok::<
                _,
                SubscriberError,
            >(bytes@),
            Err(e) => encoded(state@, *sequence, MAX_CHECKPOINT_PAYLOAD_BYTES) == Err::<
                Seq<u8>,
                _,
            >(e),
        },
{
    encode_hybrid_checkpoint_v5(state, sequence)
}

/// Reads a state, given what the canonical-sequence rules say of it.
pub fn decode_hybrid_checkpoint(bytes: &[u8], sequence: &SequenceVerdict) -> (r: Result<
    HybridCheckpointV5,
    SubscriberError,
>)
    ensures
        match r {
            Ok(state) => decoded(bytes@, *sequence) == Ok::<_, SubscriberError>(state@),
            Err(e) => decoded(bytes@, *sequence) == Err::<CheckpointView, _>(e),
        },
{
    decode_hybrid_checkpoint_v5(bytes, sequence)
}

/// Taking a payload out of the envelope that it was put in gives it back.
pub proof fn law_envelope_round_trip(payload: Seq<u8>)
    requires
        payload.len() <= MAX_CHECKPOINT_PAYLOAD_BYTES,
    ensures
        opened(enveloped(payload)) == Ok::<_, SubscriberError>(payload),
{
    let s = enveloped(payload);
    let n = half_bytes(payload.len() as u32);
    let k = half_bytes(crc32_checksum(payload));
    assert(s.take(8) =~= checkpoint_magic());
    assert(s[8] == 0u8 && s[9] == 5u8);
    assert((0u8 as u16) << 8 | (5u8 as u16) == 5u16) by (bit_vector);
    lemma_half_join(payload.len() as u32);
    lemma_half_join(crc32_checksum(payload));
    assert(s[10] == n[0] && s[11] == n[1] && s[12] == n[2] && s[13] == n[3]);
    assert(s[14] == k[0] && s[15] == k[1] && s[16] == k[2] && s[17] == k[3]);
    assert(half_at(s, 10) == half_at(n, 0));
    assert(half_at(s, 14) == half_at(k, 0));
    assert(s.skip(18) =~= payload);
}

/// An envelope that was opened is exactly the one that its payload would be put
/// in.
pub proof fn law_envelope_is_canonical(bytes: Seq<u8>)
    ensures
        match opened(bytes) {
            Ok(payload) => bytes == enveloped(payload) && payload.len()
                <= MAX_CHECKPOINT_PAYLOAD_BYTES,
            Err(_) => true,
        },
{
    if let Ok(payload) = opened(bytes) {
        lemma_half_split(bytes, 10);
        lemma_half_split(bytes, 14);
        let (a, b) = (bytes[8], bytes[9]);
        assert(a == 0u8 && b == 5u8) by (bit_vector)
            requires
                (a as u16) << 8 | (b as u16) == 5u16,
        ;
        let t = bytes.take(8) + seq![0u8, 5u8] + bytes.subrange(10, 14) + bytes.subrange(14, 18)
            + bytes.skip(18);
        assert(bytes =~= t);
        assert(half_at(bytes, 10) == payload.len() as u32);
    }
}

/// Whatever the writer produces, the reader gives back as it was: a writer
/// never produces a checkpoint that its own reader refuses.
pub proof fn law_checkpoint_round_trip(
    c: CheckpointView,
    sequence: SequenceVerdict,
    limit: usize,
)
    requires
        state_typed(c),
    ensures
        match encoded(c, sequence, limit) {
            Ok(bytes) => decoded(bytes, sequence) == Ok::<_, SubscriberError>(c),
            Err(_) => true,
        },
{
    if let Ok(bytes) = encoded(c, sequence, limit) {
        let payload = enc_checkpoint(c);
        law_envelope_round_trip(payload);
        law_limits_are_wire_limits(c);
        assert(payload + Seq::<u8>::empty() =~= payload);
        law_payload_round_trip(c, Seq::empty());
    }
}

/// Whatever the reader accepts is, byte for byte, what the writer produces for
/// the state that was read: no state has two encodings.
pub proof fn law_checkpoint_is_canonical(bytes: Seq<u8>, sequence: SequenceVerdict)
    ensures
        match decoded(bytes, sequence) {
            Ok(c) => encoded(c, sequence, MAX_CHECKPOINT_PAYLOAD_BYTES) == Ok::<_, SubscriberError>(
                bytes,
            ),
            Err(_) => true,
        },
{
    if let Ok(c) = decoded(bytes, sequence) {
        law_envelope_is_canonical(bytes);
        let payload = opened(bytes)->Ok_0;
        law_payload_is_canonical(payload);
        lemma_ok_is_typed(c);
        law_limits_are_wire_limits(c);
        let end = p_checkpoint(Cursor { s: payload, b: no_budget() })->Ok_0.1;
        assert(enc_checkpoint(c) + end.s =~= enc_checkpoint(c));
    }
}

} // verus!
