//! States and blocks of the largest delivery that may follow: every history
//! full, every cursor at its configured length, every counter at its widest.
use std::collections::HashMap;
use crate::checkpoint::{
    copy_blocks, recent_view, CertifiedHistoricalCoverage, CheckpointView, HybridCheckpointV5,
    RecentView, SourcePosition, SourceView, StoredRecentInput,
};
use crate::config::HybridConfig;
use crate::error::SubscriberError;
use crate::model::{compatible_block_ref, merged_block, BlockRef, InputRef};
use crate::words::{word_bytes, B256};
use vstd::prelude::*;

verus! {

broadcast use vstd::std_specs::hash::group_hash_axioms;

// ---------------------------------------------------------------------------
// Filled values
// ---------------------------------------------------------------------------

/// A word of which every byte is `fill`.
pub open spec fn fill_word(fill: u8) -> u64 {
    (fill as u64 * 0x0101_0101_0101_0101) as u64
}

/// A hash of which every byte is `fill`.
pub open spec fn fill_hash(fill: u8) -> B256 {
    B256 {
        w0: fill_word(fill),
        w1: fill_word(fill),
        w2: fill_word(fill),
        w3: fill_word(fill),
    }
}

/// A hash of which every byte is `fill` but the last eight, which are `sequence`
/// with the most significant byte first.
pub open spec fn sequence_hash(fill: u8, sequence: u64) -> B256 {
    B256 { w3: sequence, ..fill_hash(fill) }
}

proof fn lemma_fill_word(fill: u8)
    ensures
        fill as u64 * 0x0101_0101_0101_0101 <= u64::MAX,
        forall|i: int| 0 <= i < 8 ==> #[trigger] word_bytes(fill_word(fill))[i] == fill,
{
    let w = fill_word(fill);
    assert(w == fill as u64 * 0x0101_0101_0101_0101);
    assert((w >> 56) as u8 == fill && (w >> 48) as u8 == fill && (w >> 40) as u8 == fill && (w
        >> 32) as u8 == fill && (w >> 24) as u8 == fill && (w >> 16) as u8 == fill && (w >> 8) as u8
        == fill && w as u8 == fill) by (bit_vector)
        requires
            w == fill as u64 * 0x0101_0101_0101_0101u64,
    ;
}

impl B256 {
    /// The hash of which every byte is `fill`.
    pub fn repeat_byte(fill: u8) -> (r: B256)
        ensures
            r == fill_hash(fill),
            forall|i: int| 0 <= i < 32 ==> #[trigger] r.bytes()[i] == fill,
    {
        proof {
            lemma_fill_word(fill);
        }
        let word: u64 = fill as u64 * 0x0101_0101_0101_0101;
        let r = B256 { w0: word, w1: word, w2: word, w3: word };
        proof {
            assert(word == fill_word(fill));
            let w = word_bytes(fill_word(fill));
            assert forall|i: int| 0 <= i < 32 implies #[trigger] r.bytes()[i] == fill by {
                let j = if i < 8 {
                    i
                } else if i < 16 {
                    i - 8
                } else if i < 24 {
                    i - 16
                } else {
                    i - 24
                };
                assert(r.bytes()[i] == w[j]);
            }
        }
        r
    }
}

/// The hash that stands for a place in a simulated sequence.
pub fn capacity_probe_sequence_hash(fill: u8, sequence: u64) -> (r: B256)
    ensures
        r == sequence_hash(fill, sequence),
{
    let filled: B256 = B256::repeat_byte(fill);
    B256 { w0: filled.w0, w1: filled.w1, w2: filled.w2, w3: sequence }
}

/// `len` bytes of `fill`.
pub open spec fn fill_bytes(len: nat, fill: u8) -> Seq<u8> {
    Seq::new(len, |i: int| fill)
}

/// `len` bytes of `fill`.
pub fn capacity_probe_bytes(len: usize, fill: u8) -> (r: Vec<u8>)
    ensures
        r@ == fill_bytes(len as nat, fill),
{
    let mut bytes: Vec<u8> = Vec::new();
    let mut i: usize = 0;
    while i < len
        invariant
            i <= len,
            bytes@ =~= fill_bytes(i as nat, fill),
        decreases len - i,
    {
        bytes.push(fill);
        i += 1;
    }
    bytes
}

// ---------------------------------------------------------------------------
// A saturated state
// ---------------------------------------------------------------------------

/// A full history that ends just below the highest height.
pub open spec fn saturated_history(capacity: usize) -> Seq<BlockRef> {
    Seq::new(
        capacity as nat,
        |i: int|
            BlockRef {
                number: (u64::MAX - capacity + i) as u64,
                hash: sequence_hash(0xc1, i as u64),
                parent_hash: Some(
                    if i == 0 {
                        sequence_hash(0xc0, u64::MAX)
                    } else {
                        sequence_hash(0xc1, (i - 1) as u64)
                    },
                ),
                timestamp: Some(u64::MAX),
            },
    )
}

/// A full history that ends just below the highest height.
pub fn saturated_capacity_probe_history(capacity: usize) -> (r: Vec<BlockRef>)
    ensures
        r@ == saturated_history(capacity),
{
    let first_number: u64 = u64::MAX - capacity as u64;
    let mut history: Vec<BlockRef> = Vec::new();
    let mut parent_hash: B256 = capacity_probe_sequence_hash(0xc0, u64::MAX);
    let mut offset: usize = 0;
    while offset < capacity
        invariant
            offset <= capacity,
            first_number == u64::MAX - capacity,
            history@ =~= saturated_history(capacity).take(offset as int),
            parent_hash == (if offset == 0 {
                sequence_hash(0xc0, u64::MAX)
            } else {
                sequence_hash(0xc1, (offset - 1) as u64)
            }),
        decreases capacity - offset,
    {
        let hash: B256 = capacity_probe_sequence_hash(0xc1, offset as u64);
        history.push(
            BlockRef {
                number: first_number + offset as u64,
                hash,
                parent_hash: Some(parent_hash),
                timestamp: Some(u64::MAX),
            },
        );
        parent_hash = hash;
        offset += 1;
    }
    assert(saturated_history(capacity).take(offset as int) =~= saturated_history(capacity));
    history
}

/// A source position with a full history and cursors at their configured
/// length.
pub open spec fn saturated_source(
    history: Seq<BlockRef>,
    head: BlockRef,
    config: HybridConfig,
    token_fill: u8,
    checkpoint_fill: u8,
) -> SourceView {
    SourceView {
        delivery_token: Some(
            fill_bytes(config.max_source_delivery_token_bytes as nat, token_fill),
        ),
        checkpoint: Some(fill_bytes(config.max_source_checkpoint_bytes as nat, checkpoint_fill)),
        coverage_head: Some(head),
        canonical_history: history,
        delivery_digest: Some(fill_hash(token_fill)),
    }
}

/// A source position with a full history and cursors at their configured
/// length.
pub fn saturated_capacity_probe_source_position(
    history: &[BlockRef],
    head: BlockRef,
    config: &HybridConfig,
    token_fill: u8,
    checkpoint_fill: u8,
) -> (r: SourcePosition)
    ensures
        r@ == saturated_source(history@, head, *config, token_fill, checkpoint_fill),
{
    SourcePosition {
        delivery_token: Some(
            capacity_probe_bytes(config.max_source_delivery_token_bytes, token_fill),
        ),
        checkpoint: Some(capacity_probe_bytes(config.max_source_checkpoint_bytes, checkpoint_fill)),
        coverage_head: Some(head),
        canonical_history: copy_blocks(history),
        delivery_digest: Some(B256::repeat_byte(token_fill)),
    }
}

/// `candidate` with every history full, every cursor at its configured length
/// and every counter at its widest; recent inputs, which the next delivery may
/// push out, are gone.
pub open spec fn saturated_state(candidate: CheckpointView, config: HybridConfig) -> Result<
    CheckpointView,
    SubscriberError,
> {
    let history = saturated_history(config.canonical_history_capacity);
    if history.len() == 0 {
        Err(
            SubscriberError::Provider(
                "hybrid saturated capacity probe requires retained canonical history",
            ),
        )
    } else {
        let head = history.last();
        Ok(
            CheckpointView {
                recent_inputs: Seq::empty(),
                next_synthetic_token: u64::MAX,
                canonical_history: history,
                coverage_head: Some(head),
                safe_head: Some(head),
                finalized_head: Some(head),
                certified_historical: Some(
                    CertifiedHistoricalCoverage {
                        lifecycle_generation: candidate.lifecycle_generation,
                        through: head,
                    },
                ),
                historical_position: saturated_source(history, head, config, 0xe1, 0xe2),
                live_position: saturated_source(history, head, config, 0x81, 0x82),
                last_committed_token: None,
                ..candidate
            },
        )
    }
}

/// `candidate` as full as it can become.
pub fn saturated_capacity_probe_state(candidate: &HybridCheckpointV5, config: &HybridConfig) -> (r:
    Result<HybridCheckpointV5, SubscriberError>)
    ensures
        match r {
            Ok(state) => saturated_state(candidate@, *config) == Ok::<_, SubscriberError>(state@),
            Err(e) => saturated_state(candidate@, *config) == Err::<CheckpointView, _>(e),
        },
{
    let history: Vec<BlockRef> = saturated_capacity_probe_history(
        config.canonical_history_capacity,
    );
    if history.len() == 0 {
        return Err(
            SubscriberError::Provider(
                "hybrid saturated capacity probe requires retained canonical history",
            ),
        );
    }
    let head: BlockRef = history[history.len() - 1];
    let historical: SourcePosition = saturated_capacity_probe_source_position(
        history.as_slice(),
        head,
        config,
        0xe1,
        0xe2,
    );
    let live: SourcePosition = saturated_capacity_probe_source_position(
        history.as_slice(),
        head,
        config,
        0x81,
        0x82,
    );
    let state = HybridCheckpointV5 {
        chain_id: candidate.chain_id,
        epoch: candidate.epoch,
        next_synthetic_token: u64::MAX,
        lifecycle_generation: candidate.lifecycle_generation,
        owner_generations: candidate.owner_generations.duplicate(),
        lifecycle_intent: candidate.lifecycle_intent.duplicate(),
        recent_inputs: Vec::new(),
        canonical_history: history,
        coverage_head: Some(head),
        safe_head: Some(head),
        finalized_head: Some(head),
        certified_historical: Some(
            CertifiedHistoricalCoverage {
                lifecycle_generation: candidate.lifecycle_generation,
                through: head,
            },
        ),
        historical_position: historical,
        live_position: live,
        last_committed_token: None,
    };
    assert(recent_view(state.recent_inputs@) =~= Seq::<RecentView>::empty());
    Ok(state)
}

// ---------------------------------------------------------------------------
// Hashes that are not in use
// ---------------------------------------------------------------------------

/// The blocks of recent inputs.
pub open spec fn coverage_blocks(entries: Seq<RecentView>) -> Seq<BlockRef>
    decreases entries.len(),
{
    if entries.len() == 0 {
        Seq::empty()
    } else {
        coverage_blocks(entries.drop_last()) + opt_seq(entries.last().coverage.block)
    }
}

/// The blocks of the witnesses of recent inputs.
pub open spec fn witness_blocks(entries: Seq<RecentView>) -> Seq<BlockRef>
    decreases entries.len(),
{
    if entries.len() == 0 {
        Seq::empty()
    } else {
        witness_blocks(entries.drop_last()) + opt_seq(
            match entries.last().coverage.witness {
                Some(w) => w.block,
                None => None,
            },
        )
    }
}

/// The block hashes that the identities of recent inputs name.
pub open spec fn identity_hashes(entries: Seq<RecentView>) -> Seq<B256>
    decreases entries.len(),
{
    if entries.len() == 0 {
        Seq::empty()
    } else {
        identity_hashes(entries.drop_last()) + match entries.last().identity.input_ref {
            InputRef::Log { block_hash, .. } => seq![block_hash],
            InputRef::Block { hash, .. } => seq![hash],
            InputRef::PendingTx { .. } => Seq::empty(),
        }
    }
}

/// An optional value as a sequence.
pub open spec fn opt_seq<T>(value: Option<T>) -> Seq<T> {
    match value {
        Some(x) => seq![x],
        None => Seq::empty(),
    }
}

/// Every block that a state speaks of.
pub open spec fn state_blocks(c: CheckpointView) -> Seq<BlockRef> {
    c.canonical_history + c.historical_position.canonical_history
        + c.live_position.canonical_history + opt_seq(c.coverage_head) + opt_seq(
        c.historical_position.coverage_head,
    ) + opt_seq(c.live_position.coverage_head) + opt_seq(c.safe_head) + opt_seq(c.finalized_head)
        + opt_seq(
        match c.certified_historical {
            Some(proof) => Some(proof.through),
            None => None,
        },
    ) + coverage_blocks(c.recent_inputs) + witness_blocks(c.recent_inputs)
}

/// The hashes of blocks.
pub open spec fn block_hashes(blocks: Seq<BlockRef>) -> Seq<B256> {
    Seq::new(blocks.len(), |i: int| blocks[i].hash)
}

/// Every block hash that a state speaks of.
pub open spec fn known_hashes(c: CheckpointView) -> Seq<B256> {
    block_hashes(state_blocks(c)) + identity_hashes(c.recent_inputs)
}

fn push_opt(blocks: &mut Vec<BlockRef>, value: &Option<BlockRef>)
    ensures
        final(blocks)@ == old(blocks)@ + opt_seq(*value),
{
    if let Some(block) = value {
        blocks.push(*block);
    }
    assert(blocks@ =~= old(blocks)@ + opt_seq(*value));
}

fn push_blocks(out: &mut Vec<BlockRef>, blocks: &[BlockRef])
    ensures
        final(out)@ == old(out)@ + blocks@,
{
    let mut more: Vec<BlockRef> = copy_blocks(blocks);
    out.append(&mut more);
    assert(out@ =~= old(out)@ + blocks@);
}

fn push_coverage_blocks(blocks: &mut Vec<BlockRef>, entries: &[StoredRecentInput])
    ensures
        final(blocks)@ == old(blocks)@ + coverage_blocks(recent_view(entries@)),
{
    let ghost all = recent_view(entries@);
    let ghost start = blocks@;
    let mut i: usize = 0;
    assert(all.take(0) =~= Seq::<RecentView>::empty());
    assert(start + coverage_blocks(all.take(0)) =~= start);
    while i < entries.len()
        invariant
            i <= entries@.len(),
            all == recent_view(entries@),
            blocks@ == start + coverage_blocks(all.take(i as int)),
        decreases entries@.len() - i,
    {
        proof {
            let next = all.take(i + 1);
            assert(next.drop_last() =~= all.take(i as int));
            assert(next.last() == all[i as int]);
        }
        push_opt(blocks, &entries[i].coverage.block);
        assert(blocks@ =~= start + coverage_blocks(all.take(i + 1)));
        i += 1;
    }
    assert(all.take(i as int) =~= all);
}

fn push_witness_blocks(blocks: &mut Vec<BlockRef>, entries: &[StoredRecentInput])
    ensures
        final(blocks)@ == old(blocks)@ + witness_blocks(recent_view(entries@)),
{
    let ghost all = recent_view(entries@);
    let ghost start = blocks@;
    let mut i: usize = 0;
    assert(all.take(0) =~= Seq::<RecentView>::empty());
    assert(start + witness_blocks(all.take(0)) =~= start);
    while i < entries.len()
        invariant
            i <= entries@.len(),
            all == recent_view(entries@),
            blocks@ == start + witness_blocks(all.take(i as int)),
        decreases entries@.len() - i,
    {
        proof {
            let next = all.take(i + 1);
            assert(next.drop_last() =~= all.take(i as int));
            assert(next.last() == all[i as int]);
        }
        let block: Option<BlockRef> = match &entries[i].coverage.witness {
            Some(witness) => witness.block,
            None => None,
        };
        push_opt(blocks, &block);
        assert(blocks@ =~= start + witness_blocks(all.take(i + 1)));
        i += 1;
    }
    assert(all.take(i as int) =~= all);
}

/// Every block that a state speaks of.
pub fn capacity_probe_state_blocks(state: &HybridCheckpointV5) -> (r: Vec<BlockRef>)
    ensures
        r@ == state_blocks(state@),
{
    let mut blocks: Vec<BlockRef> = copy_blocks(state.canonical_history.as_slice());
    push_blocks(&mut blocks, state.historical_position.canonical_history.as_slice());
    push_blocks(&mut blocks, state.live_position.canonical_history.as_slice());
    push_opt(&mut blocks, &state.coverage_head);
    push_opt(&mut blocks, &state.historical_position.coverage_head);
    push_opt(&mut blocks, &state.live_position.coverage_head);
    push_opt(&mut blocks, &state.safe_head);
    push_opt(&mut blocks, &state.finalized_head);
    let through: Option<BlockRef> = match &state.certified_historical {
        Some(certified) => Some(certified.through),
        None => None,
    };
    push_opt(&mut blocks, &through);
    push_coverage_blocks(&mut blocks, state.recent_inputs.as_slice());
    push_witness_blocks(&mut blocks, state.recent_inputs.as_slice());
    blocks
}

/// Hashes in use, which are found again quickly.
#[derive(Debug, PartialEq, Eq)]
pub struct KnownHashes {
    hashes: Vec<B256>,
    buckets: HashMap<u64, Vec<usize>>,
}

/// A number by which hashes are found again.
spec fn hash_bucket(hash: B256) -> u64 {
    hash.w0 ^ hash.w3
}

impl View for KnownHashes {
    type V = Seq<B256>;

    /// The hashes in the order in which they were added.
    closed spec fn view(&self) -> Seq<B256> {
        self.hashes@
    }
}

impl KnownHashes {
    #[verifier::type_invariant]
    closed spec fn indexed(self) -> bool {
        &&& forall|i: int|
            0 <= i < self.hashes@.len() ==> self.buckets@.contains_key(
                hash_bucket(#[trigger] self.hashes@[i]),
            ) && self.buckets@[hash_bucket(self.hashes@[i])]@.contains(i as usize)
        &&& forall|k: u64, n: int|
            self.buckets@.contains_key(k) && 0 <= n < self.buckets@[k]@.len()
                ==> #[trigger] self.buckets@[k]@[n] < self.hashes@.len()
    }

    /// No hashes.
    pub fn new() -> (r: KnownHashes)
        ensures
            r@ == Seq::<B256>::empty(),
    {
        KnownHashes { hashes: Vec::new(), buckets: HashMap::new() }
    }

    /// The number of hashes that were added.
    pub fn len(&self) -> (r: usize)
        ensures
            r == self@.len(),
    {
        self.hashes.len()
    }

    /// Whether a hash was added.
    pub fn contains(&self, hash: &B256) -> (r: bool)
        ensures
            r == self@.contains(*hash),
    {
        proof {
            use_type_invariant(self);
        }
        let key: u64 = hash.w0 ^ hash.w3;
        let total: usize = self.hashes.len();
        match self.buckets.get(&key) {
            None => {
                proof {
                    if self@.contains(*hash) {
                        let i = choose|i: int| 0 <= i < self@.len() && self@[i] == *hash;
                        assert(self.buckets@.contains_key(hash_bucket(self.hashes@[i])));
                    }
                }
                false
            },
            Some(places) => {
                let mut n: usize = 0;
                while n < places.len()
                    invariant
                        n <= places@.len(),
                        self@ == self.hashes@,
                        self.buckets@.contains_key(key),
                        *places == self.buckets@[key],
                        forall|m: int|
                            0 <= m < places@.len() ==> #[trigger] places@[m] < self.hashes@.len(),
                        forall|m: int| 0 <= m < n ==> self.hashes@[places@[m] as int] != *hash,
                    decreases places@.len() - n,
                {
                    assert(places@[n as int] < self.hashes@.len());
                    if self.hashes[places[n]] == *hash {
                        assert(self@[places@[n as int] as int] == *hash);
                        return true;
                    }
                    n += 1;
                }
                proof {
                    if self@.contains(*hash) {
                        let i = choose|i: int| 0 <= i < self@.len() && self@[i] == *hash;
                        assert(hash_bucket(self.hashes@[i]) == key);
                        assert(i < total);
                        assert(places@.contains(i as usize));
                        let m = choose|m: int|
                            0 <= m < places@.len() && places@[m] == i as usize;
                        assert(self.hashes@[places@[m] as int] != *hash);
                    }
                }
                false
            },
        }
    }

    /// Adds a hash.
    pub fn add_hash(&mut self, hash: B256)
        ensures
            final(self)@ == old(self)@.push(hash),
    {
        proof {
            use_type_invariant(&*self);
        }
        let mut held_set = KnownHashes::new();
        std::mem::swap(self, &mut held_set);
        let KnownHashes { hashes, buckets } = held_set;
        let mut hashes = hashes;
        let mut buckets = buckets;
        let ghost all = hashes@;
        let key: u64 = hash.w0 ^ hash.w3;
        let place: usize = hashes.len();
        let mut places: Vec<usize> = match buckets.remove(&key) {
            Some(places) => places,
            None => Vec::new(),
        };
        let ghost held = places@;
        places.push(place);
        buckets.insert(key, places);
        hashes.push(hash);
        proof {
            assert forall|i: int| 0 <= i < hashes@.len() implies buckets@.contains_key(
                hash_bucket(#[trigger] hashes@[i]),
            ) && buckets@[hash_bucket(hashes@[i])]@.contains(i as usize) by {
                if i == all.len() {
                    assert(places@[held.len() as int] == place);
                } else {
                    assert(hashes@[i] == all[i]);
                    if hash_bucket(all[i]) == key {
                        let m = choose|m: int| 0 <= m < held.len() && held[m] == i as usize;
                        assert(places@[m] == i as usize);
                    }
                }
            }
        }
        let mut next = KnownHashes { hashes, buckets };
        std::mem::swap(self, &mut next);
    }
}

/// Every block hash that a state speaks of.
pub fn capacity_probe_known_block_hashes(state: &HybridCheckpointV5) -> (r: KnownHashes)
    ensures
        r@ == known_hashes(state@),
{
    let blocks: Vec<BlockRef> = capacity_probe_state_blocks(state);
    let mut known = KnownHashes::new();
    let mut i: usize = 0;
    while i < blocks.len()
        invariant
            i <= blocks@.len(),
            known@ =~= block_hashes(blocks@).take(i as int),
        decreases blocks@.len() - i,
    {
        known.add_hash(blocks[i].hash);
        i += 1;
    }
    assert(block_hashes(blocks@).take(i as int) =~= block_hashes(blocks@));
    let ghost start = known@;
    let ghost all = recent_view(state.recent_inputs@);
    let mut j: usize = 0;
    assert(all.take(0) =~= Seq::<RecentView>::empty());
    assert(start + identity_hashes(all.take(0)) =~= start);
    while j < state.recent_inputs.len()
        invariant
            j <= state.recent_inputs@.len(),
            all == recent_view(state.recent_inputs@),
            known@ == start + identity_hashes(all.take(j as int)),
        decreases state.recent_inputs@.len() - j,
    {
        proof {
            let next = all.take(j + 1);
            assert(next.drop_last() =~= all.take(j as int));
            assert(next.last() == all[j as int]);
        }
        match &state.recent_inputs[j].identity.input_ref {
            InputRef::Log { block_hash, .. } => {
                known.add_hash(*block_hash);
            },
            InputRef::Block { hash, .. } => {
                known.add_hash(*hash);
            },
            InputRef::PendingTx { .. } => {},
        }
        assert(known@ =~= start + identity_hashes(all.take(j + 1)));
        j += 1;
    }
    assert(all.take(j as int) =~= all);
    known
}

/// The first hash of the simulated sequence, from place `from` on, that is not
/// in use.
pub open spec fn fresh_hash(known: Seq<B256>, fill: u8, from: int) -> Result<B256, SubscriberError>
    decreases known.len() + 1 - from,
{
    if from < 0 || from > known.len() {
        Err(
            SubscriberError::Provider(
                "hybrid could not construct a unique maximum canonical-log block hash",
            ),
        )
    } else if !known.contains(sequence_hash(fill, from as u64)) {
        Ok(sequence_hash(fill, from as u64))
    } else {
        fresh_hash(known, fill, from + 1)
    }
}

/// The first hash of the simulated sequence that is not in use.
pub fn unique_capacity_probe_hash(known: &KnownHashes, fill: u8) -> (r: Result<
    B256,
    SubscriberError,
>)
    ensures
        r == fresh_hash(known@, fill, 0),
{
    let count: usize = known.len();
    let mut sequence: usize = 0;
    loop
        invariant
            sequence <= count,
            count == known@.len(),
            fresh_hash(known@, fill, 0) == fresh_hash(known@, fill, sequence as int),
        decreases count - sequence,
    {
        let candidate: B256 = capacity_probe_sequence_hash(fill, sequence as u64);
        if !known.contains(&candidate) {
            return Ok(candidate);
        }
        if sequence == count {
            assert(fresh_hash(known@, fill, count + 1) is Err);
            return Err(
                SubscriberError::Provider(
                    "hybrid could not construct a unique maximum canonical-log block hash",
                ),
            );
        }
        sequence += 1;
    }
}

// ---------------------------------------------------------------------------
// The blocks of the largest delivery
// ---------------------------------------------------------------------------

/// `count` linked blocks from `number` on, with hashes that are not in use.
pub open spec fn linked_blocks(known: Seq<B256>, number: u64, parent: B256, count: nat) -> Result<
    Seq<BlockRef>,
    SubscriberError,
>
    decreases count,
{
    if count == 0 {
        Ok(Seq::empty())
    } else {
        match fresh_hash(known, 0xd1, 0) {
            Err(e) => Err(e),
            Ok(hash) => match linked_blocks(
                known.push(hash),
                (number + 1) as u64,
                hash,
                (count - 1) as nat,
            ) {
                Err(e) => Err(e),
                Ok(rest) => Ok(
                    seq![
                        BlockRef {
                            number,
                            hash,
                            parent_hash: Some(parent),
                            timestamp: Some(u64::MAX),
                        },
                    ] + rest,
                ),
            },
        }
    }
}

/// `count` linked blocks up to the highest height, on top of `prior` where they
/// follow it.
pub open spec fn suffix_blocks(known: Seq<B256>, prior: Option<BlockRef>, count: usize) -> Result<
    Seq<BlockRef>,
    SubscriberError,
> {
    if count == 0 {
        Err(
            SubscriberError::Provider(
                "hybrid maximum canonical-log capacity probe requires a non-empty suffix",
            ),
        )
    } else {
        let first_number = (u64::MAX - (count - 1)) as u64;
        if prior is Some && prior->Some_0.number + 1 == first_number {
            linked_blocks(known, first_number, prior->Some_0.hash, count as nat)
        } else {
            match fresh_hash(known, 0xd2, 0) {
                Err(e) => Err(e),
                Ok(parent) => linked_blocks(known.push(parent), first_number, parent, count as nat),
            }
        }
    }
}

/// `count` linked blocks up to the highest height.
fn maximum_canonical_log_probe_suffix(
    known: KnownHashes,
    prior_head: Option<BlockRef>,
    advance_count: usize,
) -> (r: Result<Vec<BlockRef>, SubscriberError>)
    ensures
        match r {
            Ok(blocks) => suffix_blocks(known@, prior_head, advance_count) == Ok::<
                _,
                SubscriberError,
            >(blocks@),
            Err(e) => suffix_blocks(known@, prior_head, advance_count) == Err::<Seq<BlockRef>, _>(e),
        },
{
    if advance_count == 0 {
        return Err(
            SubscriberError::Provider(
                "hybrid maximum canonical-log capacity probe requires a non-empty suffix",
            ),
        );
    }
    let first_number: u64 = u64::MAX - (advance_count - 1) as u64;
    let mut known = known;
    let mut parent_hash: Option<B256> = None;
    if let Some(head) = &prior_head {
        if head.number < u64::MAX && head.number + 1 == first_number {
            parent_hash = Some(head.hash);
        }
    }
    let parent: B256 = match parent_hash {
        Some(hash) => hash,
        None => {
            let fresh: B256 = unique_capacity_probe_hash(&known, 0xd2)?;
            known.add_hash(fresh);
            fresh
        },
    };
    build_linked_blocks(known, first_number, parent, advance_count)
}

fn build_linked_blocks(known: KnownHashes, first_number: u64, parent: B256, count: usize) -> (r: Result<
    Vec<BlockRef>,
    SubscriberError,
>)
    requires
        first_number + count <= u64::MAX + 1,
    ensures
        match r {
            Ok(blocks) => linked_blocks(known@, first_number, parent, count as nat) == Ok::<
                _,
                SubscriberError,
            >(blocks@),
            Err(e) => linked_blocks(known@, first_number, parent, count as nat) == Err::<
                Seq<BlockRef>,
                _,
            >(e),
        },
{
    let mut pool = known;
    let ghost start = pool@;
    let mut blocks: Vec<BlockRef> = Vec::new();
    let mut number: u64 = first_number;
    let mut last: B256 = parent;
    let mut left: usize = count;
    proof {
        if let Ok(rest) = linked_blocks(start, first_number, parent, count as nat) {
            assert(blocks@ + rest =~= rest);
        }
    }
    while left > 0
        invariant
            left <= count,
            start == known@,
            left > 0 ==> number + left <= u64::MAX + 1,
            match linked_blocks(pool@, number, last, left as nat) {
                Ok(rest) => linked_blocks(start, first_number, parent, count as nat) == Ok::<
                    _,
                    SubscriberError,
                >(blocks@ + rest),
                Err(e) => linked_blocks(start, first_number, parent, count as nat) == Err::<
                    Seq<BlockRef>,
                    _,
                >(e),
            },
        decreases left,
    {
        let ghost before = blocks@;
        let ghost seen = pool@;
        let hash: B256 = unique_capacity_probe_hash(&pool, 0xd1)?;
        pool.add_hash(hash);
        let block = BlockRef {
            number,
            hash,
            parent_hash: Some(last),
            timestamp: Some(u64::MAX),
        };
        blocks.push(block);
        proof {
            if let Ok(rest) = linked_blocks(
                seen.push(hash),
                (number + 1) as u64,
                hash,
                (left - 1) as nat,
            ) {
                assert(before + (seq![block] + rest) =~= blocks@ + rest);
            }
        }
        last = hash;
        left -= 1;
        number = if number < u64::MAX {
            number + 1
        } else {
            0
        };
    }
    assert(blocks@ + Seq::<BlockRef>::empty() =~= blocks@);
    Ok(blocks)
}

/// `block` joined with every block of `blocks`, from `from` on, at its height.
pub open spec fn merged_at(blocks: Seq<BlockRef>, number: u64, block: BlockRef, from: int) -> Result<
    BlockRef,
    SubscriberError,
>
    decreases blocks.len() - from,
{
    if from < 0 || from >= blocks.len() {
        Ok(block)
    } else if blocks[from].number != number {
        merged_at(blocks, number, block, from + 1)
    } else {
        match merged_block(block, blocks[from]) {
            Err(e) => Err(e),
            Ok(m) => merged_at(blocks, number, m, from + 1),
        }
    }
}

/// The last block of `blocks` just below `number`.
pub open spec fn last_below(blocks: Seq<BlockRef>, number: u64) -> Option<B256>
    decreases blocks.len(),
{
    if blocks.len() == 0 {
        None
    } else if blocks.last().number + 1 == number {
        Some(blocks.last().hash)
    } else {
        last_below(blocks.drop_last(), number)
    }
}

/// The block that the largest delivery at the highest height is in: the head,
/// completed in every way.
pub open spec fn terminal_block(c: CheckpointView, head: BlockRef) -> Result<
    BlockRef,
    SubscriberError,
> {
    match merged_at(state_blocks(c), head.number, head, 0) {
        Err(e) => Err(e),
        Ok(m) => {
            let below = last_below(
                c.canonical_history + c.historical_position.canonical_history
                    + c.live_position.canonical_history,
                head.number,
            );
            let parent = if m.parent_hash is Some {
                Ok(m.parent_hash->Some_0)
            } else if below is Some {
                Ok(below->Some_0)
            } else {
                fresh_hash(known_hashes(c), 0xd2, 0)
            };
            match parent {
                Err(e) => Err(e),
                Ok(hash) => Ok(
                    BlockRef {
                        parent_hash: Some(hash),
                        timestamp: if m.timestamp is Some {
                            m.timestamp
                        } else {
                            Some(u64::MAX)
                        },
                        ..m
                    },
                ),
            }
        },
    }
}

/// The blocks that the largest delivery advances by.
pub open spec fn probe_blocks(c: CheckpointView, maximum_advances: usize) -> Result<
    Seq<BlockRef>,
    SubscriberError,
> {
    if maximum_advances == 0 {
        Err(
            SubscriberError::Provider(
                "hybrid maximum canonical-log capacity probe requires at least one advance",
            ),
        )
    } else {
        match c.coverage_head {
            None => suffix_blocks(known_hashes(c), None, maximum_advances),
            Some(head) => if head.number < u64::MAX {
                let available = u64::MAX - head.number;
                suffix_blocks(
                    known_hashes(c),
                    Some(head),
                    if maximum_advances <= available {
                        maximum_advances
                    } else {
                        available as usize
                    },
                )
            } else {
                match terminal_block(c, head) {
                    Err(e) => Err(e),
                    Ok(b) => Ok(seq![b]),
                }
            },
        }
    }
}

fn build_terminal_block(state: &HybridCheckpointV5, head: &BlockRef) -> (r: Result<
    BlockRef,
    SubscriberError,
>)
    ensures
        r == terminal_block(state@, *head),
{
    let blocks: Vec<BlockRef> = capacity_probe_state_blocks(state);
    let mut merged: BlockRef = *head;
    let mut i: usize = 0;
    while i < blocks.len()
        invariant
            i <= blocks@.len(),
            blocks@ == state_blocks(state@),
            merged_at(blocks@, head.number, *head, 0) == merged_at(
                blocks@,
                head.number,
                merged,
                i as int,
            ),
        decreases blocks@.len() - i,
    {
        if blocks[i].number == head.number {
            merged = compatible_block_ref(&merged, &blocks[i])?;
        }
        i += 1;
    }
    let mut histories: Vec<BlockRef> = copy_blocks(state.canonical_history.as_slice());
    push_blocks(&mut histories, state.historical_position.canonical_history.as_slice());
    push_blocks(&mut histories, state.live_position.canonical_history.as_slice());
    let below: Option<B256> = find_last_below(histories.as_slice(), head.number);
    let parent: B256 = match (merged.parent_hash, below) {
        (Some(hash), _) => hash,
        (None, Some(hash)) => hash,
        (None, None) => {
            let known: KnownHashes = capacity_probe_known_block_hashes(state);
            unique_capacity_probe_hash(&known, 0xd2)?
        },
    };
    Ok(
        BlockRef {
            number: merged.number,
            hash: merged.hash,
            parent_hash: Some(parent),
            timestamp: match merged.timestamp {
                Some(at) => Some(at),
                None => Some(u64::MAX),
            },
        },
    )
}

fn find_last_below(blocks: &[BlockRef], number: u64) -> (r: Option<B256>)
    ensures
        r == last_below(blocks@, number),
{
    let ghost all = blocks@;
    let mut i: usize = blocks.len();
    assert(all.take(i as int) =~= all);
    while i > 0
        invariant
            i <= blocks@.len(),
            all == blocks@,
            last_below(all, number) == last_below(all.take(i as int), number),
        decreases i,
    {
        proof {
            let front = all.take(i as int);
            assert(front.last() == all[i - 1]);
            assert(front.drop_last() =~= all.take(i - 1));
        }
        if blocks[i - 1].number < u64::MAX && blocks[i - 1].number + 1 == number {
            return Some(blocks[i - 1].hash);
        }
        i -= 1;
    }
    None
}

/// The blocks that the largest delivery advances by.
pub fn maximum_canonical_log_probe_blocks(state: &HybridCheckpointV5, maximum_advances: usize) -> (r:
    Result<Vec<BlockRef>, SubscriberError>)
    ensures
        match r {
            Ok(blocks) => probe_blocks(state@, maximum_advances) == Ok::<_, SubscriberError>(
                blocks@,
            ),
            Err(e) => probe_blocks(state@, maximum_advances) == Err::<Seq<BlockRef>, _>(e),
        },
{
    if maximum_advances == 0 {
        return Err(
            SubscriberError::Provider(
                "hybrid maximum canonical-log capacity probe requires at least one advance",
            ),
        );
    }
    match state.coverage_head {
        None => {
            let known: KnownHashes = capacity_probe_known_block_hashes(state);
            maximum_canonical_log_probe_suffix(known, None, maximum_advances)
        },
        Some(head) => {
            if head.number < u64::MAX {
                let available: u64 = u64::MAX - head.number;
                let count: usize = if maximum_advances as u64 <= available {
                    maximum_advances
                } else {
                    available as usize
                };
                let known: KnownHashes = capacity_probe_known_block_hashes(state);
                maximum_canonical_log_probe_suffix(known, Some(head), count)
            } else {
                let block: BlockRef = build_terminal_block(state, &head)?;
                let blocks: Vec<BlockRef> = vec![block];
                assert(blocks@ =~= seq![block]);
                Ok(blocks)
            }
        },
    }
}

/// The one block that a delivery of one block advances by.
pub fn maximum_canonical_log_probe_block(state: &HybridCheckpointV5) -> (r: Result<
    BlockRef,
    SubscriberError,
>)
    ensures
        match r {
            Ok(block) => probe_blocks(state@, 1) is Ok && probe_blocks(state@, 1)->Ok_0.len() > 0
                && block == probe_blocks(state@, 1)->Ok_0.last(),
            Err(e) => match probe_blocks(state@, 1) {
                Err(x) => e == x,
                Ok(s) => s.len() == 0 && e == SubscriberError::Provider(
                    "hybrid maximum canonical-log capacity probe produced no block",
                ),
            },
        },
{
    let blocks: Vec<BlockRef> = maximum_canonical_log_probe_blocks(state, 1)?;
    if blocks.len() == 0 {
        return Err(
            SubscriberError::Provider(
                "hybrid maximum canonical-log capacity probe produced no block",
            ),
        );
    }
    Ok(blocks[blocks.len() - 1])
}

} // verus!
