//! Transcripts whose digest commits to every field.
//!
//! Variants, flags and the presence of an optional value take one byte,
//! integers eight bytes with the most significant first, byte strings and
//! sequences an eight-byte length in front, and hashes exactly 32 bytes.
use crate::model::{BlockRef, HandlerId};
use crate::words::{lemma_word_bytes_join, push_word, word_bytes, B256};
use vstd::prelude::*;
use vstd::string::StringSliceAdditionalSpecFns;

verus! {

/// The Keccak-256 digest of some bytes.
pub uninterp spec fn keccak_digest(bytes: Seq<u8>) -> B256;

/// `alloy_primitives::keccak256`: the Keccak-256 digest of the bytes, a function
/// of the bytes alone.
#[verifier::external_body]
pub(crate) fn keccak256(bytes: &[u8]) -> (r: B256)
    ensures
        r == keccak_digest(bytes@),
{
    B256::from_slice(alloy_primitives::keccak256(bytes).as_slice())
}

/// The bytes that every transcript starts with.
pub open spec fn transcript_prefix() -> Seq<u8> {
    "EFCHY-CANONICAL-TRANSCRIPT\0".spec_bytes()
}

/// A transcript under `domain` with nothing in it yet.
pub open spec fn t_start(domain: Seq<u8>) -> Seq<u8> {
    transcript_prefix() + t_bytes(domain)
}

pub open spec fn t_tag(tag: u8) -> Seq<u8> {
    seq![tag]
}

pub open spec fn t_bool(value: bool) -> Seq<u8> {
    t_tag(if value { 1 } else { 0 })
}

pub open spec fn t_u64(value: u64) -> Seq<u8> {
    word_bytes(value)
}

pub open spec fn t_len(len: nat) -> Seq<u8> {
    t_u64(len as u64)
}

pub open spec fn t_bytes(bytes: Seq<u8>) -> Seq<u8> {
    t_len(bytes.len()) + bytes
}

pub open spec fn t_hash(hash: B256) -> Seq<u8> {
    hash.bytes()
}

pub open spec fn t_option_u64(value: Option<u64>) -> Seq<u8> {
    match value {
        Some(x) => t_bool(true) + t_u64(x),
        None => t_bool(false),
    }
}

pub open spec fn t_option_hash(value: Option<B256>) -> Seq<u8> {
    match value {
        Some(x) => t_bool(true) + t_hash(x),
        None => t_bool(false),
    }
}

pub open spec fn t_block(block: BlockRef) -> Seq<u8> {
    t_u64(block.number) + t_hash(block.hash) + t_option_hash(block.parent_hash) + t_option_u64(
        block.timestamp,
    )
}

pub open spec fn t_option_block(value: Option<BlockRef>) -> Seq<u8> {
    match value {
        Some(x) => t_bool(true) + t_block(x),
        None => t_bool(false),
    }
}

/// A transcript that is being written.
#[derive(Debug, PartialEq, Eq)]
pub struct CanonicalHasher {
    pub transcript: Vec<u8>,
}

impl View for CanonicalHasher {
    type V = Seq<u8>;

    /// The bytes written so far.
    open spec fn view(&self) -> Seq<u8> {
        self.transcript@
    }
}

impl CanonicalHasher {
    /// Starts a transcript under a domain.
    pub fn new(domain: &[u8]) -> (r: CanonicalHasher)
        ensures
            r@ == t_start(domain@),
    {
        let mut transcript: Vec<u8> = Vec::new();
        transcript.extend_from_slice("EFCHY-CANONICAL-TRANSCRIPT\0".as_bytes());
        assert(transcript@ =~= transcript_prefix());
        let mut hasher = CanonicalHasher { transcript };
        hasher.bytes(domain);
        hasher
    }

    /// Appends the tag of a variant.
    pub fn tag(&mut self, tag: u8)
        ensures
            final(self)@ == old(self)@ + t_tag(tag),
    {
        self.transcript.push(tag);
        assert(self@ =~= old(self)@ + t_tag(tag));
    }

    /// Appends a flag.
    pub fn bool(&mut self, value: bool)
        ensures
            final(self)@ == old(self)@ + t_bool(value),
    {
        self.tag(if value { 1 } else { 0 });
    }

    /// Appends an integer.
    pub fn u64(&mut self, value: u64)
        ensures
            final(self)@ == old(self)@ + t_u64(value),
    {
        push_word(&mut self.transcript, value);
    }

    /// Appends the number of items of a sequence.
    pub fn sequence_len(&mut self, len: usize)
        ensures
            final(self)@ == old(self)@ + t_len(len as nat),
    {
        self.u64(len as u64);
    }

    /// Appends a byte string with its length.
    pub fn bytes(&mut self, bytes: &[u8])
        ensures
            final(self)@ == old(self)@ + t_bytes(bytes@),
    {
        self.sequence_len(bytes.len());
        let ghost mid = self@;
        self.transcript.extend_from_slice(bytes);
        assert(self@ =~= mid + bytes@);
        assert(self@ =~= old(self)@ + t_bytes(bytes@));
    }

    /// Appends a text as its UTF-8 bytes with their length.
    pub fn string(&mut self, value: &str)
        ensures
            final(self)@ == old(self)@ + t_bytes(value.spec_bytes()),
    {
        self.bytes(value.as_bytes());
    }

    /// Appends a handler id with its length.
    pub fn handler_id(&mut self, owner: &HandlerId)
        ensures
            final(self)@ == old(self)@ + t_bytes(owner@),
    {
        self.string(owner.as_str());
    }

    /// Appends the 32 bytes of a hash.
    pub fn hash(&mut self, hash: &B256)
        ensures
            final(self)@ == old(self)@ + t_hash(*hash),
    {
        let mut bytes: Vec<u8> = hash.to_vec();
        self.transcript.append(&mut bytes);
        assert(self@ =~= old(self)@ + t_hash(*hash));
    }

    /// Appends an optional integer.
    pub fn option_u64(&mut self, value: Option<u64>)
        ensures
            final(self)@ == old(self)@ + t_option_u64(value),
    {
        let ghost start = self@;
        match value {
            Some(x) => {
                self.bool(true);
                self.u64(x);
                assert(self@ =~= start + (t_bool(true) + t_u64(x)));
            },
            None => {
                self.bool(false);
            },
        }
    }

    /// Appends an optional hash.
    pub fn option_hash(&mut self, value: &Option<B256>)
        ensures
            final(self)@ == old(self)@ + t_option_hash(*value),
    {
        let ghost start = self@;
        match value {
            Some(x) => {
                self.bool(true);
                self.hash(x);
                assert(self@ =~= start + (t_bool(true) + t_hash(*x)));
            },
            None => {
                self.bool(false);
            },
        }
    }

    /// Appends all that is known of a block.
    pub fn block_ref(&mut self, block: &BlockRef)
        ensures
            final(self)@ == old(self)@ + t_block(*block),
    {
        let ghost start = self@;
        self.u64(block.number);
        self.hash(&block.hash);
        self.option_hash(&block.parent_hash);
        self.option_u64(block.timestamp);
        assert(self@ =~= start + (t_u64(block.number) + t_hash(block.hash) + t_option_hash(
            block.parent_hash,
        ) + t_option_u64(block.timestamp)));
    }

    /// Appends an optional block.
    pub fn option_block_ref(&mut self, block: &Option<BlockRef>)
        ensures
            final(self)@ == old(self)@ + t_option_block(*block),
    {
        let ghost start = self@;
        match block {
            Some(x) => {
                self.bool(true);
                self.block_ref(x);
                assert(self@ =~= start + (t_bool(true) + t_block(*x)));
            },
            None => {
                self.bool(false);
            },
        }
    }

    /// The digest of the transcript.
    pub fn finish(self) -> (r: B256)
        ensures
            r == keccak_digest(self@),
    {
        keccak256(self.transcript.as_slice())
    }
}

/// What follows equal items is equal too.
pub proof fn lemma_cancel(a: Seq<u8>, b: Seq<u8>, x: Seq<u8>, y: Seq<u8>)
    requires
        a + x == b + y,
        a.len() == b.len(),
    ensures
        a == b,
        x == y,
{
    assert(a =~= (a + x).take(a.len() as int));
    assert(b =~= (b + y).take(a.len() as int));
    assert(x =~= (a + x).skip(a.len() as int));
    assert(y =~= (b + y).skip(a.len() as int));
}

/// An integer is told by the bytes it takes, whatever follows.
pub proof fn law_integer_framing(a: u64, b: u64, x: Seq<u8>, y: Seq<u8>)
    requires
        t_u64(a) + x == t_u64(b) + y,
    ensures
        a == b,
        x == y,
{
    lemma_cancel(t_u64(a), t_u64(b), x, y);
    lemma_word_bytes_join(a);
    lemma_word_bytes_join(b);
}

/// A byte string is told by the bytes it takes, whatever follows: no other
/// split of the same transcript reads the same.
pub proof fn law_bytes_framing(a: Seq<u8>, b: Seq<u8>, x: Seq<u8>, y: Seq<u8>)
    requires
        a.len() <= u64::MAX,
        b.len() <= u64::MAX,
        t_bytes(a) + x == t_bytes(b) + y,
    ensures
        a == b,
        x == y,
{
    assert(t_bytes(a) + x =~= t_len(a.len()) + (a + x));
    assert(t_bytes(b) + y =~= t_len(b.len()) + (b + y));
    law_integer_framing(a.len() as u64, b.len() as u64, a + x, b + y);
    lemma_cancel(a, b, x, y);
}

/// A hash is told by the bytes it takes, whatever follows.
pub proof fn law_hash_framing(a: B256, b: B256, x: Seq<u8>, y: Seq<u8>)
    requires
        t_hash(a) + x == t_hash(b) + y,
    ensures
        a == b,
        x == y,
{
    a.lemma_of_bytes();
    b.lemma_of_bytes();
    lemma_cancel(t_hash(a), t_hash(b), x, y);
}

/// An optional integer is told by the bytes it takes, whatever follows: an
/// absent one never reads as a present one.
pub proof fn law_option_u64_framing(a: Option<u64>, b: Option<u64>, x: Seq<u8>, y: Seq<u8>)
    requires
        t_option_u64(a) + x == t_option_u64(b) + y,
    ensures
        a == b,
        x == y,
{
    let (ta, tb) = (t_option_u64(a), t_option_u64(b));
    assert((ta + x)[0] == ta[0] && (tb + y)[0] == tb[0]);
    match (a, b) {
        (Some(p), Some(q)) => {
            assert(ta + x =~= t_bool(true) + (t_u64(p) + x));
            assert(tb + y =~= t_bool(true) + (t_u64(q) + y));
            lemma_cancel(t_bool(true), t_bool(true), t_u64(p) + x, t_u64(q) + y);
            law_integer_framing(p, q, x, y);
        },
        (None, None) => {
            lemma_cancel(ta, tb, x, y);
        },
        _ => {
            assert(false);
        },
    }
}

/// An optional hash is told by the bytes it takes, whatever follows.
pub proof fn law_option_hash_framing(a: Option<B256>, b: Option<B256>, x: Seq<u8>, y: Seq<u8>)
    requires
        t_option_hash(a) + x == t_option_hash(b) + y,
    ensures
        a == b,
        x == y,
{
    let (ta, tb) = (t_option_hash(a), t_option_hash(b));
    assert((ta + x)[0] == ta[0] && (tb + y)[0] == tb[0]);
    match (a, b) {
        (Some(p), Some(q)) => {
            assert(ta + x =~= t_bool(true) + (t_hash(p) + x));
            assert(tb + y =~= t_bool(true) + (t_hash(q) + y));
            lemma_cancel(t_bool(true), t_bool(true), t_hash(p) + x, t_hash(q) + y);
            law_hash_framing(p, q, x, y);
        },
        (None, None) => {
            lemma_cancel(ta, tb, x, y);
        },
        _ => {
            assert(false);
        },
    }
}

/// A block is told by the bytes it takes, whatever follows.
pub proof fn law_block_framing(a: BlockRef, b: BlockRef, x: Seq<u8>, y: Seq<u8>)
    requires
        t_block(a) + x == t_block(b) + y,
    ensures
        a == b,
        x == y,
{
    let (a3, b3) = (t_option_u64(a.timestamp) + x, t_option_u64(b.timestamp) + y);
    let (a2, b2) = (t_option_hash(a.parent_hash) + a3, t_option_hash(b.parent_hash) + b3);
    let (a1, b1) = (t_hash(a.hash) + a2, t_hash(b.hash) + b2);
    assert(t_block(a) + x =~= t_u64(a.number) + a1);
    assert(t_block(b) + y =~= t_u64(b.number) + b1);
    law_integer_framing(a.number, b.number, a1, b1);
    law_hash_framing(a.hash, b.hash, a2, b2);
    law_option_hash_framing(a.parent_hash, b.parent_hash, a3, b3);
    law_option_u64_framing(a.timestamp, b.timestamp, x, y);
}

/// Transcripts under different domains differ, whatever is written in them.
pub proof fn law_domains_are_separate(c: Seq<u8>, d: Seq<u8>, x: Seq<u8>, y: Seq<u8>)
    requires
        c.len() <= u64::MAX,
        d.len() <= u64::MAX,
        t_start(c) + x == t_start(d) + y,
    ensures
        c == d,
        x == y,
{
    let p = transcript_prefix();
    assert(t_start(c) + x =~= p + (t_bytes(c) + x));
    assert(t_start(d) + y =~= p + (t_bytes(d) + y));
    lemma_cancel(p, p, t_bytes(c) + x, t_bytes(d) + y);
    law_bytes_framing(c, d, x, y);
}

} // verus!
