//! The wire form of a checkpoint: what each value is written as, how long that
//! is, and the writers.
use crate::audience::{AudienceCoverage, CoverageView, RecordWitness, WitnessLifecycle};
use crate::checkpoint::{
    opt_bytes, opt_token, recent_view, CertifiedHistoricalCoverage, CheckpointView,
    HybridCheckpointV5, HybridSource, HybridTokenKind, IntentView, LifecycleIntent, RecentView,
    SourcePosition, SourceView, StoredCommittedToken, StoredRecentInput, TokenView,
};
use crate::model::{BlockRef, InputRef, ReactiveInputIdentity, ReactiveInputKind};
use crate::owners::OwnerMap;
use crate::rlp::{
    bool_length, bytes_length, header_length, lemma_be_bytes, lemma_be_len_words, rlp_bool,
    rlp_header, rlp_list, rlp_string, rlp_uint, u64_length, u8_length,
};
use crate::words::B256;
use vstd::prelude::*;

verus! {

// ---------------------------------------------------------------------------
// What is written
// ---------------------------------------------------------------------------

pub open spec fn enc_hash(h: B256) -> Seq<u8> {
    rlp_string(h.bytes())
}

/// An absent value is the empty list, a present one a list of that value.
pub open spec fn enc_opt(value: Option<Seq<u8>>) -> Seq<u8> {
    rlp_list(
        match value {
            Some(item) => item,
            None => Seq::empty(),
        },
    )
}

pub open spec fn enc_opt_u64(value: Option<u64>) -> Seq<u8> {
    enc_opt(
        match value {
            Some(x) => Some(rlp_uint(x as nat)),
            None => None,
        },
    )
}

pub open spec fn enc_opt_hash(value: Option<B256>) -> Seq<u8> {
    enc_opt(
        match value {
            Some(h) => Some(enc_hash(h)),
            None => None,
        },
    )
}

pub open spec fn enc_opt_bytes(value: Option<Seq<u8>>) -> Seq<u8> {
    enc_opt(
        match value {
            Some(b) => Some(rlp_string(b)),
            None => None,
        },
    )
}

pub open spec fn enc_block(b: BlockRef) -> Seq<u8> {
    rlp_list(
        rlp_uint(b.number as nat) + (enc_hash(b.hash) + (enc_opt_hash(b.parent_hash) + enc_opt_u64(
            b.timestamp,
        ))),
    )
}

pub open spec fn enc_opt_block(value: Option<BlockRef>) -> Seq<u8> {
    enc_opt(
        match value {
            Some(b) => Some(enc_block(b)),
            None => None,
        },
    )
}

/// Blocks one behind the other.
pub open spec fn flat_blocks(s: Seq<BlockRef>) -> Seq<u8>
    decreases s.len(),
{
    if s.len() == 0 {
        Seq::empty()
    } else {
        enc_block(s[0]) + flat_blocks(s.drop_first())
    }
}

pub open spec fn enc_generation(entry: (Seq<u8>, u64)) -> Seq<u8> {
    rlp_list(rlp_string(entry.0) + rlp_uint(entry.1 as nat))
}

/// Owner generations one behind the other.
pub open spec fn flat_generations(s: Seq<(Seq<u8>, u64)>) -> Seq<u8>
    decreases s.len(),
{
    if s.len() == 0 {
        Seq::empty()
    } else {
        enc_generation(s[0]) + flat_generations(s.drop_first())
    }
}

pub open spec fn enc_digest_entry(entry: (Seq<u8>, B256)) -> Seq<u8> {
    rlp_list(rlp_string(entry.0) + enc_hash(entry.1))
}

/// Owner fingerprints one behind the other.
pub open spec fn flat_digests(s: Seq<(Seq<u8>, B256)>) -> Seq<u8>
    decreases s.len(),
{
    if s.len() == 0 {
        Seq::empty()
    } else {
        enc_digest_entry(s[0]) + flat_digests(s.drop_first())
    }
}

pub open spec fn enc_input_ref(r: InputRef) -> Seq<u8> {
    match r {
        InputRef::Log { chain_id, block_hash, transaction_hash, log_index } => rlp_list(
            rlp_uint(1) + (enc_opt_u64(chain_id) + (enc_hash(block_hash) + (enc_hash(
                transaction_hash,
            ) + rlp_uint(log_index as nat)))),
        ),
        InputRef::PendingTx { chain_id, hash } => rlp_list(
            rlp_uint(2) + (enc_opt_u64(chain_id) + enc_hash(hash)),
        ),
        InputRef::Block { chain_id, hash, number } => rlp_list(
            rlp_uint(3) + (enc_opt_u64(chain_id) + (enc_hash(hash) + rlp_uint(number as nat))),
        ),
    }
}

pub open spec fn kind_tag(kind: ReactiveInputKind) -> u8 {
    match kind {
        ReactiveInputKind::CanonicalLog => 1,
        ReactiveInputKind::ReorgSignalLog => 2,
        ReactiveInputKind::BlockHeader => 3,
        ReactiveInputKind::FullBlock => 4,
        ReactiveInputKind::PendingTxHash => 5,
        ReactiveInputKind::PendingTx => 6,
    }
}

pub open spec fn enc_identity(x: ReactiveInputIdentity) -> Seq<u8> {
    rlp_list(enc_input_ref(x.input_ref) + rlp_uint(kind_tag(x.kind) as nat))
}

pub open spec fn lifecycle_tag(lifecycle: WitnessLifecycle) -> u8 {
    match lifecycle {
        WitnessLifecycle::Included => 1,
        WitnessLifecycle::Safe => 2,
        WitnessLifecycle::Finalized => 3,
        WitnessLifecycle::Reorg => 4,
        WitnessLifecycle::Pending => 5,
    }
}

pub open spec fn enc_witness(w: RecordWitness) -> Seq<u8> {
    rlp_list(
        enc_hash(w.payload_digest) + (rlp_uint(w.chain_id as nat) + (rlp_uint(
            lifecycle_tag(w.lifecycle) as nat,
        ) + (enc_opt_block(w.block) + (enc_opt_u64(w.transaction_index) + (enc_opt_u64(w.log_index)
            + enc_opt_u64(w.log_block_timestamp)))))),
    )
}

pub open spec fn enc_opt_witness(value: Option<RecordWitness>) -> Seq<u8> {
    enc_opt(
        match value {
            Some(w) => Some(enc_witness(w)),
            None => None,
        },
    )
}

pub open spec fn enc_coverage(c: CoverageView) -> Seq<u8> {
    rlp_list(
        rlp_bool(c.base) + (rlp_list(flat_generations(c.owners)) + (enc_opt_block(c.block)
            + enc_opt_witness(c.witness))),
    )
}

pub open spec fn enc_recent(r: RecentView) -> Seq<u8> {
    rlp_list(enc_identity(r.identity) + enc_coverage(r.coverage))
}

/// Recent inputs one behind the other.
pub open spec fn flat_recent(s: Seq<RecentView>) -> Seq<u8>
    decreases s.len(),
{
    if s.len() == 0 {
        Seq::empty()
    } else {
        enc_recent(s[0]) + flat_recent(s.drop_first())
    }
}

pub open spec fn enc_source(p: SourceView) -> Seq<u8> {
    rlp_list(
        enc_opt_bytes(p.delivery_token) + (enc_opt_bytes(p.checkpoint) + (enc_opt_block(
            p.coverage_head,
        ) + (rlp_list(flat_blocks(p.canonical_history)) + enc_opt_hash(p.delivery_digest)))),
    )
}

pub open spec fn enc_token(t: TokenView) -> Seq<u8> {
    rlp_list(
        rlp_uint(t.source.spec_tag() as nat) + (rlp_uint(t.kind.spec_tag() as nat) + rlp_string(
            t.inner,
        )),
    )
}

pub open spec fn enc_opt_token(value: Option<TokenView>) -> Seq<u8> {
    enc_opt(
        match value {
            Some(t) => Some(enc_token(t)),
            None => None,
        },
    )
}

pub open spec fn enc_intent(i: IntentView) -> Seq<u8> {
    rlp_list(enc_hash(i.base) + rlp_list(flat_digests(i.owners)))
}

pub open spec fn enc_certified(c: CertifiedHistoricalCoverage) -> Seq<u8> {
    rlp_list(rlp_uint(c.lifecycle_generation as nat) + enc_block(c.through))
}

pub open spec fn enc_opt_certified(value: Option<CertifiedHistoricalCoverage>) -> Seq<u8> {
    enc_opt(
        match value {
            Some(c) => Some(enc_certified(c)),
            None => None,
        },
    )
}

/// The fields of a checkpoint behind the fixed-width ones, from the heads on.
#[verifier::opaque]
pub open spec fn enc_tail(c: CheckpointView) -> Seq<u8> {
    enc_opt_block(c.coverage_head) + (enc_opt_block(c.safe_head) + (enc_opt_block(c.finalized_head)
        + (enc_opt_certified(c.certified_historical) + (enc_source(c.historical_position) + (
    enc_source(c.live_position) + enc_opt_token(c.last_committed_token))))))
}

/// The fields of a checkpoint from the recent inputs on.
pub open spec fn enc_back(c: CheckpointView) -> Seq<u8> {
    rlp_list(flat_recent(c.recent_inputs)) + (rlp_list(flat_blocks(c.canonical_history)) + enc_tail(
        c,
    ))
}

/// The fields of a checkpoint from the owner generations on.
#[verifier::opaque]
pub open spec fn enc_middle(c: CheckpointView) -> Seq<u8> {
    rlp_list(flat_generations(c.owner_generations)) + (enc_intent(c.lifecycle_intent) + enc_back(c))
}

/// The payload of a checkpoint. The order of the fields is permanent: chain id,
/// epoch, next synthetic token, lifecycle generation, owner generations,
/// lifecycle intent, recent inputs, canonical history, coverage head, safe
/// head, finalized head, certified historical coverage, historical position,
/// live position, last committed token.
pub open spec fn enc_checkpoint(c: CheckpointView) -> Seq<u8> {
    rlp_list(
        rlp_uint(c.chain_id as nat) + (rlp_string(c.epoch.bytes()) + (rlp_uint(
            c.next_synthetic_token as nat,
        ) + (rlp_uint(c.lifecycle_generation as nat) + enc_middle(c)))),
    )
}

// ---------------------------------------------------------------------------
// How long it is
// ---------------------------------------------------------------------------

/// `n`, or the largest machine length where `n` is larger.
pub open spec fn capped(n: nat) -> nat {
    if n <= usize::MAX {
        n
    } else {
        usize::MAX as nat
    }
}

/// How long a header is.
pub proof fn lemma_header_len(list: bool, n: nat)
    ensures
        rlp_header(list, n).len() >= 1,
        n <= usize::MAX ==> rlp_header(list, n).len() <= 9,
{
    reveal(rlp_header);
    lemma_be_bytes(n);
    lemma_be_len_words(n);
}

/// The length of a list with a payload of `payload_length` bytes.
fn list_length(payload_length: usize, Ghost(payload): Ghost<Seq<u8>>) -> (r: usize)
    requires
        payload_length == capped(payload.len()),
    ensures
        r == capped(rlp_list(payload).len()),
{
    proof {
        lemma_header_len(true, payload.len());
    }
    header_length(true, payload_length).saturating_add(payload_length)
}

fn len_bytes(bytes: &[u8]) -> (r: usize)
    ensures
        r == capped(rlp_string(bytes@).len()),
{
    proof {
        lemma_header_len(false, bytes@.len());
    }
    if bytes.len() <= usize::MAX - 9 {
        bytes_length(bytes)
    } else {
        header_length(false, bytes.len()).saturating_add(bytes.len())
    }
}

fn len_hash(h: &B256) -> (r: usize)
    ensures
        r == enc_hash(*h).len(),
        r == 33,
{
    proof {
        reveal(rlp_header);
        h.lemma_of_bytes();
    }
    33
}

fn len_opt_u64(value: Option<u64>) -> (r: usize)
    ensures
        r == capped(enc_opt_u64(value).len()),
{
    match value {
        Some(x) => list_length(u64_length(x), Ghost(rlp_uint(x as nat))),
        None => list_length(0, Ghost(Seq::empty())),
    }
}

fn len_opt_hash(value: &Option<B256>) -> (r: usize)
    ensures
        r == capped(enc_opt_hash(*value).len()),
{
    match value {
        Some(h) => list_length(len_hash(h), Ghost(enc_hash(*h))),
        None => list_length(0, Ghost(Seq::empty())),
    }
}

fn len_opt_bytes(value: &Option<Vec<u8>>) -> (r: usize)
    ensures
        r == capped(enc_opt_bytes(opt_bytes(*value)).len()),
{
    match value {
        Some(b) => list_length(len_bytes(b.as_slice()), Ghost(rlp_string(b@))),
        None => list_length(0, Ghost(Seq::empty())),
    }
}

fn len_block(b: &BlockRef) -> (r: usize)
    ensures
        r == capped(enc_block(*b).len()),
{
    let payload: usize = u64_length(b.number).saturating_add(len_hash(&b.hash)).saturating_add(
        len_opt_hash(&b.parent_hash),
    ).saturating_add(len_opt_u64(b.timestamp));
    list_length(
        payload,
        Ghost(
            rlp_uint(b.number as nat) + (enc_hash(b.hash) + (enc_opt_hash(b.parent_hash)
                + enc_opt_u64(b.timestamp))),
        ),
    )
}

fn len_opt_block(value: &Option<BlockRef>) -> (r: usize)
    ensures
        r == capped(enc_opt_block(*value).len()),
{
    match value {
        Some(b) => list_length(len_block(b), Ghost(enc_block(*b))),
        None => list_length(0, Ghost(Seq::empty())),
    }
}

fn len_blocks(blocks: &[BlockRef]) -> (r: usize)
    ensures
        r == capped(rlp_list(flat_blocks(blocks@)).len()),
{
    let mut total: usize = 0;
    let ghost mut sum: nat = 0;
    let mut i: usize = 0;
    assert(blocks@.skip(0) =~= blocks@);
    while i < blocks.len()
        invariant
            i <= blocks@.len(),
            total == capped(sum),
            sum + flat_blocks(blocks@.skip(i as int)).len() == flat_blocks(blocks@).len(),
        decreases blocks@.len() - i,
    {
        total = total.saturating_add(len_block(&blocks[i]));
        proof {
            assert(blocks@.skip(i as int).drop_first() =~= blocks@.skip(i + 1));
            sum = sum + enc_block(blocks@[i as int]).len();
        }
        i += 1;
    }
    list_length(total, Ghost(flat_blocks(blocks@)))
}

fn len_generations(owners: &OwnerMap<u64>) -> (r: usize)
    ensures
        r == capped(rlp_list(flat_generations(owners@)).len()),
{
    let mut total: usize = 0;
    let ghost mut sum: nat = 0;
    let mut i: usize = 0;
    assert(owners@.skip(0) =~= owners@);
    while i < owners.len()
        invariant
            i <= owners@.len(),
            total == capped(sum),
            sum + flat_generations(owners@.skip(i as int)).len() == flat_generations(owners@).len(),
        decreases owners@.len() - i,
    {
        let payload: usize = len_bytes(owners.owner_at(i).as_bytes()).saturating_add(
            u64_length(*owners.value_at(i)),
        );
        let ghost entry = owners@[i as int];
        total =
        total.saturating_add(
            list_length(payload, Ghost(rlp_string(entry.0) + rlp_uint(entry.1 as nat))),
        );
        proof {
            assert(owners@.skip(i as int).drop_first() =~= owners@.skip(i + 1));
            sum = sum + enc_generation(entry).len();
        }
        i += 1;
    }
    list_length(total, Ghost(flat_generations(owners@)))
}

fn len_digests(owners: &OwnerMap<B256>) -> (r: usize)
    ensures
        r == capped(rlp_list(flat_digests(owners@)).len()),
{
    let mut total: usize = 0;
    let ghost mut sum: nat = 0;
    let mut i: usize = 0;
    assert(owners@.skip(0) =~= owners@);
    while i < owners.len()
        invariant
            i <= owners@.len(),
            total == capped(sum),
            sum + flat_digests(owners@.skip(i as int)).len() == flat_digests(owners@).len(),
        decreases owners@.len() - i,
    {
        let payload: usize = len_bytes(owners.owner_at(i).as_bytes()).saturating_add(
            len_hash(owners.value_at(i)),
        );
        let ghost entry = owners@[i as int];
        total =
        total.saturating_add(list_length(payload, Ghost(rlp_string(entry.0) + enc_hash(entry.1))));
        proof {
            assert(owners@.skip(i as int).drop_first() =~= owners@.skip(i + 1));
            sum = sum + enc_digest_entry(entry).len();
        }
        i += 1;
    }
    list_length(total, Ghost(flat_digests(owners@)))
}

fn len_input_ref(input_ref: &InputRef) -> (r: usize)
    ensures
        r == capped(enc_input_ref(*input_ref).len()),
{
    match input_ref {
        InputRef::Log { chain_id, block_hash, transaction_hash, log_index } => {
            let payload: usize = u8_length(1).saturating_add(len_opt_u64(*chain_id)).saturating_add(
                len_hash(block_hash),
            ).saturating_add(len_hash(transaction_hash)).saturating_add(u64_length(*log_index));
            list_length(
                payload,
                Ghost(
                    rlp_uint(1) + (enc_opt_u64(*chain_id) + (enc_hash(*block_hash) + (enc_hash(
                        *transaction_hash,
                    ) + rlp_uint(*log_index as nat)))),
                ),
            )
        },
        InputRef::PendingTx { chain_id, hash } => {
            let payload: usize = u8_length(2).saturating_add(len_opt_u64(*chain_id)).saturating_add(
                len_hash(hash),
            );
            list_length(
                payload,
                Ghost(rlp_uint(2) + (enc_opt_u64(*chain_id) + enc_hash(*hash))),
            )
        },
        InputRef::Block { chain_id, hash, number } => {
            let payload: usize = u8_length(3).saturating_add(len_opt_u64(*chain_id)).saturating_add(
                len_hash(hash),
            ).saturating_add(u64_length(*number));
            list_length(
                payload,
                Ghost(
                    rlp_uint(3) + (enc_opt_u64(*chain_id) + (enc_hash(*hash) + rlp_uint(
                        *number as nat,
                    ))),
                ),
            )
        },
    }
}

/// The tag of a representation.
pub fn input_kind_tag(kind: ReactiveInputKind) -> (r: u8)
    ensures
        r == kind_tag(kind),
{
    match kind {
        ReactiveInputKind::CanonicalLog => 1,
        ReactiveInputKind::ReorgSignalLog => 2,
        ReactiveInputKind::BlockHeader => 3,
        ReactiveInputKind::FullBlock => 4,
        ReactiveInputKind::PendingTxHash => 5,
        ReactiveInputKind::PendingTx => 6,
    }
}

/// The tag of a witness lifecycle.
pub fn witness_lifecycle_tag(lifecycle: WitnessLifecycle) -> (r: u8)
    ensures
        r == lifecycle_tag(lifecycle),
{
    match lifecycle {
        WitnessLifecycle::Included => 1,
        WitnessLifecycle::Safe => 2,
        WitnessLifecycle::Finalized => 3,
        WitnessLifecycle::Reorg => 4,
        WitnessLifecycle::Pending => 5,
    }
}

/// The tag of a source in a checkpoint.
pub fn hybrid_source_tag(source: HybridSource) -> (r: u8)
    ensures
        r == source.spec_tag(),
{
    match source {
        HybridSource::Historical => 1,
        HybridSource::Live => 2,
    }
}

/// The tag of a token kind in a checkpoint.
pub fn hybrid_token_kind_tag(kind: HybridTokenKind) -> (r: u8)
    ensures
        r == kind.spec_tag(),
{
    match kind {
        HybridTokenKind::Forwarded => 1,
        HybridTokenKind::Synthetic => 2,
    }
}

fn len_identity(identity: &ReactiveInputIdentity) -> (r: usize)
    ensures
        r == capped(enc_identity(*identity).len()),
{
    let payload: usize = len_input_ref(&identity.input_ref).saturating_add(
        u8_length(input_kind_tag(identity.kind)),
    );
    list_length(
        payload,
        Ghost(enc_input_ref(identity.input_ref) + rlp_uint(kind_tag(identity.kind) as nat)),
    )
}

fn len_witness(w: &RecordWitness) -> (r: usize)
    ensures
        r == capped(enc_witness(*w).len()),
{
    let payload: usize = len_hash(&w.payload_digest).saturating_add(
        u64_length(w.chain_id),
    ).saturating_add(u8_length(witness_lifecycle_tag(w.lifecycle))).saturating_add(
        len_opt_block(&w.block),
    ).saturating_add(len_opt_u64(w.transaction_index)).saturating_add(
        len_opt_u64(w.log_index),
    ).saturating_add(len_opt_u64(w.log_block_timestamp));
    list_length(
        payload,
        Ghost(
            enc_hash(w.payload_digest) + (rlp_uint(w.chain_id as nat) + (rlp_uint(
                lifecycle_tag(w.lifecycle) as nat,
            ) + (enc_opt_block(w.block) + (enc_opt_u64(w.transaction_index) + (enc_opt_u64(
                w.log_index,
            ) + enc_opt_u64(w.log_block_timestamp)))))),
        ),
    )
}

fn len_opt_witness(value: &Option<RecordWitness>) -> (r: usize)
    ensures
        r == capped(enc_opt_witness(*value).len()),
{
    match value {
        Some(w) => list_length(len_witness(w), Ghost(enc_witness(*w))),
        None => list_length(0, Ghost(Seq::empty())),
    }
}

fn len_coverage(c: &AudienceCoverage) -> (r: usize)
    ensures
        r == capped(enc_coverage(c@).len()),
{
    let payload: usize = bool_length(c.base).saturating_add(
        len_generations(&c.owners),
    ).saturating_add(len_opt_block(&c.block)).saturating_add(len_opt_witness(&c.witness));
    list_length(
        payload,
        Ghost(
            rlp_bool(c.base) + (rlp_list(flat_generations(c.owners@)) + (enc_opt_block(c.block)
                + enc_opt_witness(c.witness))),
        ),
    )
}

fn len_recent(entry: &StoredRecentInput) -> (r: usize)
    ensures
        r == capped(enc_recent(entry@).len()),
{
    let payload: usize = len_identity(&entry.identity).saturating_add(
        len_coverage(&entry.coverage),
    );
    list_length(
        payload,
        Ghost(enc_identity(entry.identity) + enc_coverage(entry.coverage@)),
    )
}

fn len_recents(entries: &[StoredRecentInput], from: usize) -> (r: usize)
    requires
        from <= entries@.len(),
    ensures
        r == capped(rlp_list(flat_recent(recent_view(entries@).skip(from as int))).len()),
{
    let ghost all = recent_view(entries@);
    let ghost whole = flat_recent(all.skip(from as int));
    let mut total: usize = 0;
    let ghost mut sum: nat = 0;
    let mut i: usize = from;
    while i < entries.len()
        invariant
            from <= i <= entries@.len(),
            all == recent_view(entries@),
            total == capped(sum),
            sum + flat_recent(all.skip(i as int)).len() == whole.len(),
        decreases entries@.len() - i,
    {
        total = total.saturating_add(len_recent(&entries[i]));
        proof {
            assert(all.skip(i as int).drop_first() =~= all.skip(i + 1));
            assert(all.skip(i as int)[0] == entries@[i as int]@);
            sum = sum + enc_recent(entries@[i as int]@).len();
        }
        i += 1;
    }
    list_length(total, Ghost(whole))
}

fn len_source(p: &SourcePosition) -> (r: usize)
    ensures
        r == capped(enc_source(p@).len()),
{
    let payload: usize = len_opt_bytes(&p.delivery_token).saturating_add(
        len_opt_bytes(&p.checkpoint),
    ).saturating_add(len_opt_block(&p.coverage_head)).saturating_add(
        len_blocks(p.canonical_history.as_slice()),
    ).saturating_add(len_opt_hash(&p.delivery_digest));
    list_length(
        payload,
        Ghost(
            enc_opt_bytes(p@.delivery_token) + (enc_opt_bytes(p@.checkpoint) + (enc_opt_block(
                p.coverage_head,
            ) + (rlp_list(flat_blocks(p.canonical_history@)) + enc_opt_hash(p.delivery_digest)))),
        ),
    )
}

fn len_token(t: &StoredCommittedToken) -> (r: usize)
    ensures
        r == capped(enc_token(t@).len()),
{
    let payload: usize = u8_length(hybrid_source_tag(t.source)).saturating_add(
        u8_length(hybrid_token_kind_tag(t.kind)),
    ).saturating_add(len_bytes(t.inner.as_slice()));
    list_length(
        payload,
        Ghost(
            rlp_uint(t.source.spec_tag() as nat) + (rlp_uint(t.kind.spec_tag() as nat)
                + rlp_string(t.inner@)),
        ),
    )
}

fn len_opt_token(value: &Option<StoredCommittedToken>) -> (r: usize)
    ensures
        r == capped(enc_opt_token(opt_token(*value)).len()),
{
    match value {
        Some(t) => list_length(len_token(t), Ghost(enc_token(t@))),
        None => list_length(0, Ghost(Seq::empty())),
    }
}

fn len_intent(i: &LifecycleIntent) -> (r: usize)
    ensures
        r == capped(enc_intent(i@).len()),
{
    let payload: usize = len_hash(&i.base).saturating_add(len_digests(&i.owners));
    list_length(payload, Ghost(enc_hash(i.base) + rlp_list(flat_digests(i.owners@))))
}

fn len_opt_certified(value: &Option<CertifiedHistoricalCoverage>) -> (r: usize)
    ensures
        r == capped(enc_opt_certified(*value).len()),
{
    match value {
        Some(c) => {
            let inner: usize = list_length(
                u64_length(c.lifecycle_generation).saturating_add(len_block(&c.through)),
                Ghost(rlp_uint(c.lifecycle_generation as nat) + enc_block(c.through)),
            );
            list_length(inner, Ghost(enc_certified(*c)))
        },
        None => list_length(0, Ghost(Seq::empty())),
    }
}

fn len_tail(state: &HybridCheckpointV5) -> (r: usize)
    ensures
        r == capped(enc_tail(state@).len()),
{
    proof {
        reveal(enc_tail);
    }
    let heads: usize = len_opt_block(&state.coverage_head).saturating_add(
        len_opt_block(&state.safe_head),
    ).saturating_add(len_opt_block(&state.finalized_head)).saturating_add(
        len_opt_certified(&state.certified_historical),
    );
    heads.saturating_add(len_source(&state.historical_position)).saturating_add(
        len_source(&state.live_position),
    ).saturating_add(len_opt_token(&state.last_committed_token))
}

fn len_back(state: &HybridCheckpointV5, dropped: usize) -> (r: usize)
    requires
        dropped <= state.recent_inputs@.len(),
    ensures
        r == capped(enc_back(state@.drop_recent(dropped as int)).len()),
{
    proof {
        reveal(enc_tail);
    }
    let ghost c = state@.drop_recent(dropped as int);
    let tail: usize = len_tail(state);
    assert(enc_tail(c) == enc_tail(state@));
    let history: usize = len_blocks(state.canonical_history.as_slice());
    let recent: usize = len_recents(state.recent_inputs.as_slice(), dropped);
    recent.saturating_add(history).saturating_add(tail)
}

fn len_middle(state: &HybridCheckpointV5, dropped: usize) -> (r: usize)
    requires
        dropped <= state.recent_inputs@.len(),
    ensures
        r == capped(enc_middle(state@.drop_recent(dropped as int)).len()),
{
    proof {
        reveal(enc_middle);
    }
    let back: usize = len_back(state, dropped);
    let owners: usize = len_generations(&state.owner_generations);
    let intent: usize = len_intent(&state.lifecycle_intent);
    owners.saturating_add(intent).saturating_add(back)
}

/// The length of the payload of `state` without its oldest `dropped` recent
/// inputs, found without writing it.
pub(crate) fn payload_length(state: &HybridCheckpointV5, dropped: usize) -> (r: usize)
    requires
        dropped <= state.recent_inputs@.len(),
    ensures
        r == capped(enc_checkpoint(state@.drop_recent(dropped as int)).len()),
{
    let ghost c = state@.drop_recent(dropped as int);
    proof {
        reveal(rlp_header);
        state.epoch.lemma_of_bytes();
    }
    let middle: usize = len_middle(state, dropped);
    let payload: usize = u64_length(state.chain_id).saturating_add(17).saturating_add(
        u64_length(state.next_synthetic_token),
    ).saturating_add(u64_length(state.lifecycle_generation)).saturating_add(middle);
    list_length(
        payload,
        Ghost(
            rlp_uint(c.chain_id as nat) + (rlp_string(c.epoch.bytes()) + (rlp_uint(
                c.next_synthetic_token as nat,
            ) + (rlp_uint(c.lifecycle_generation as nat) + enc_middle(c)))),
        ),
    )
}

} // verus!
