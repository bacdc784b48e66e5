//! What the room that is reserved for a delivery is good for: a simulated
//! delivery that can be written is at least as long as any real one.
use crate::audience::RecordWitness;
use crate::checkpoint::{
    CertifiedHistoricalCoverage, CheckpointView, RecentView, SourceView, StoredRecentInput,
    TokenView,
};
use crate::decode::{owner_heap, Budget};
use crate::fit::{lemma_digits_grow, lemma_header_grows};
use crate::limits::limits_error;
use crate::limits_laws::{law_limits_are_wire_limits, lemma_cost_block_items, state_typed};
use crate::model::{chain_of, BlockRef, InputRef, ReactiveInputIdentity};
use crate::owners::{
    bytes_lt, lemma_bytes_lt_irreflexive, lemma_bytes_lt_transitive, sorted_keys, OwnerEntry,
};
use crate::rlp::{
    be_bytes, lemma_be_len_words, rlp_bool, rlp_header, rlp_list, rlp_string, rlp_uint,
};
use crate::wire::{
    enc_block, enc_certified, enc_checkpoint, enc_coverage, enc_generation, enc_hash, enc_identity,
    enc_input_ref, enc_middle, enc_opt_block, enc_opt_bytes, enc_opt_certified, enc_opt_hash,
    enc_opt_token, enc_opt_u64, enc_opt_witness, enc_recent, enc_source, enc_tail, enc_token,
    enc_witness, flat_blocks, flat_generations, flat_recent, kind_tag, lifecycle_tag,
};
use crate::wire_laws::{
    cost_blocks, cost_body, cost_checkpoint, cost_generations, cost_generations_items,
    cost_opt_witness, cost_recent, cost_recent_items, cost_recents, cost_source, cost_tail,
    handler_ok, nodes, ok_body, ok_checkpoint, ok_generations, ok_recent, ok_recents, ok_source,
    ok_tail, sum,
};
use crate::words::Epoch;
use vstd::prelude::*;

verus! {

// ---------------------------------------------------------------------------
// Lengths
// ---------------------------------------------------------------------------

/// A list with a longer payload is longer.
proof fn lemma_list_grows(a: Seq<u8>, b: Seq<u8>)
    requires
        a.len() <= b.len(),
    ensures
        rlp_list(a).len() <= rlp_list(b).len(),
{
    lemma_header_grows(true, a.len(), b.len());
}

/// A number of eight digits.
pub open spec fn wide(x: u64) -> bool {
    x >= 0x0100_0000_0000_0000
}

proof fn lemma_uint_len(x: u64)
    ensures
        1 <= rlp_uint(x as nat).len() <= 9,
        wide(x) ==> rlp_uint(x as nat).len() == 9,
        x < 128 ==> rlp_uint(x as nat).len() == 1,
{
    reveal(rlp_header);
    lemma_be_len_words(x as nat);
    if wide(x) {
        lemma_digits_grow(0x0100_0000_0000_0000, x as nat);
        assert(be_bytes(0x0100_0000_0000_0000).len() == 8) by {
            reveal_with_fuel(be_bytes, 9);
        }
    }
    if x < 128 {
        reveal_with_fuel(be_bytes, 2);
    }
}

proof fn lemma_uint_grows(x: u64, y: u64)
    requires
        x <= y,
    ensures
        rlp_uint(x as nat).len() <= rlp_uint(y as nat).len(),
{
    reveal(rlp_header);
    lemma_digits_grow(x as nat, y as nat);
    lemma_be_len_words(x as nat);
    lemma_be_len_words(y as nat);
    lemma_uint_len(x);
    lemma_uint_len(y);
    if be_bytes(y as nat).len() == 1 && be_bytes(y as nat)[0] < 0x80 {
        reveal_with_fuel(be_bytes, 2);
        if y as nat >= 256 {
            lemma_digits_grow(256, y as nat);
            assert(be_bytes(256).len() == 2) by {
                reveal_with_fuel(be_bytes, 3);
            }
        }
        assert(y < 128);
    }
}

proof fn lemma_hash_len(h: crate::words::B256)
    ensures
        enc_hash(h).len() == 33,
{
    reveal(rlp_header);
}

// ---------------------------------------------------------------------------
// Blocks
// ---------------------------------------------------------------------------

/// A block with everything known of it, and wide numbers.
pub open spec fn full(b: BlockRef) -> bool {
    wide(b.number) && b.parent_hash is Some && b.timestamp is Some && wide(b.timestamp->Some_0)
}

/// Whether every block of a history is full.
pub open spec fn all_full(s: Seq<BlockRef>) -> bool {
    forall|i: int| 0 <= i < s.len() ==> full(#[trigger] s[i])
}

proof fn lemma_opt_u64_len(a: Option<u64>, b: u64)
    requires
        wide(b),
    ensures
        enc_opt_u64(a).len() <= enc_opt_u64(Some(b)).len(),
{
    lemma_uint_len(b);
    match a {
        Some(x) => {
            lemma_uint_len(x);
            lemma_list_grows(rlp_uint(x as nat), rlp_uint(b as nat));
        },
        None => {
            lemma_list_grows(Seq::empty(), rlp_uint(b as nat));
        },
    }
}

proof fn lemma_opt_hash_len(a: Option<crate::words::B256>, b: crate::words::B256)
    ensures
        enc_opt_hash(a).len() <= enc_opt_hash(Some(b)).len(),
{
    lemma_hash_len(b);
    match a {
        Some(x) => {
            lemma_hash_len(x);
            lemma_list_grows(enc_hash(x), enc_hash(b));
        },
        None => {
            lemma_list_grows(Seq::empty(), enc_hash(b));
        },
    }
}

proof fn lemma_block_len(a: BlockRef, b: BlockRef)
    requires
        full(b),
    ensures
        enc_block(a).len() <= enc_block(b).len(),
{
    lemma_uint_len(a.number);
    lemma_uint_len(b.number);
    lemma_hash_len(a.hash);
    lemma_hash_len(b.hash);
    lemma_opt_hash_len(a.parent_hash, b.parent_hash->Some_0);
    lemma_opt_u64_len(a.timestamp, b.timestamp->Some_0);
    lemma_list_grows(
        rlp_uint(a.number as nat) + (enc_hash(a.hash) + (enc_opt_hash(a.parent_hash) + enc_opt_u64(
            a.timestamp,
        ))),
        rlp_uint(b.number as nat) + (enc_hash(b.hash) + (enc_opt_hash(b.parent_hash) + enc_opt_u64(
            b.timestamp,
        ))),
    );
}

proof fn lemma_opt_block_len(a: Option<BlockRef>, b: BlockRef)
    requires
        full(b),
    ensures
        enc_opt_block(a).len() <= enc_opt_block(Some(b)).len(),
{
    match a {
        Some(x) => {
            lemma_block_len(x, b);
            lemma_list_grows(enc_block(x), enc_block(b));
        },
        None => {
            lemma_list_grows(Seq::empty(), enc_block(b));
        },
    }
}

proof fn lemma_flat_blocks_len(a: Seq<BlockRef>, b: Seq<BlockRef>)
    requires
        a.len() <= b.len(),
        all_full(b),
    ensures
        flat_blocks(a).len() <= flat_blocks(b).len(),
    decreases a.len(),
{
    if a.len() > 0 {
        let rest = b.drop_first();
        assert forall|i: int| 0 <= i < rest.len() implies full(#[trigger] rest[i]) by {
            assert(rest[i] == b[i + 1]);
        }
        lemma_block_len(a[0], b[0]);
        lemma_flat_blocks_len(a.drop_first(), rest);
    }
}

// ---------------------------------------------------------------------------
// Byte strings
// ---------------------------------------------------------------------------

/// Whether a byte string is no longer than another, and takes no more room.
pub open spec fn bytes_within(a: Option<Seq<u8>>, b: Option<Seq<u8>>) -> bool {
    match (a, b) {
        (None, _) => true,
        (Some(x), Some(y)) => x.len() <= y.len() && rlp_string(x).len() <= rlp_string(y).len(),
        (Some(_), None) => false,
    }
}

/// A byte string takes no more room than a longer one of high bytes.
pub proof fn lemma_string_len(x: Seq<u8>, y: Seq<u8>)
    requires
        x.len() <= y.len(),
        y.len() > 0,
        y[0] >= 0x80,
    ensures
        rlp_string(x).len() <= rlp_string(y).len(),
{
    lemma_header_grows(false, x.len(), y.len());
}

proof fn lemma_opt_bytes_len(a: Option<Seq<u8>>, b: Option<Seq<u8>>)
    requires
        bytes_within(a, b),
    ensures
        enc_opt_bytes(a).len() <= enc_opt_bytes(b).len(),
{
    match (a, b) {
        (Some(x), Some(y)) => {
            lemma_list_grows(rlp_string(x), rlp_string(y));
        },
        (None, Some(y)) => {
            lemma_list_grows(Seq::empty(), rlp_string(y));
        },
        _ => {},
    }
}

// ---------------------------------------------------------------------------
// Positions
// ---------------------------------------------------------------------------

/// Whether a position takes no more room than one that is filled.
pub open spec fn source_within(a: SourceView, b: SourceView) -> bool {
    &&& bytes_within(a.delivery_token, b.delivery_token)
    &&& bytes_within(a.checkpoint, b.checkpoint)
    &&& b.coverage_head is Some && full(b.coverage_head->Some_0)
    &&& a.canonical_history.len() <= b.canonical_history.len()
    &&& all_full(b.canonical_history)
    &&& b.delivery_digest is Some
}

proof fn lemma_source_len(a: SourceView, b: SourceView)
    requires
        source_within(a, b),
    ensures
        enc_source(a).len() <= enc_source(b).len(),
{
    lemma_opt_bytes_len(a.delivery_token, b.delivery_token);
    lemma_opt_bytes_len(a.checkpoint, b.checkpoint);
    lemma_opt_block_len(a.coverage_head, b.coverage_head->Some_0);
    lemma_flat_blocks_len(a.canonical_history, b.canonical_history);
    lemma_list_grows(flat_blocks(a.canonical_history), flat_blocks(b.canonical_history));
    lemma_opt_hash_len(a.delivery_digest, b.delivery_digest->Some_0);
    lemma_list_grows(
        enc_opt_bytes(a.delivery_token) + (enc_opt_bytes(a.checkpoint) + (enc_opt_block(
            a.coverage_head,
        ) + (rlp_list(flat_blocks(a.canonical_history)) + enc_opt_hash(a.delivery_digest)))),
        enc_opt_bytes(b.delivery_token) + (enc_opt_bytes(b.checkpoint) + (enc_opt_block(
            b.coverage_head,
        ) + (rlp_list(flat_blocks(b.canonical_history)) + enc_opt_hash(b.delivery_digest)))),
    );
}

// ---------------------------------------------------------------------------
// Owners
// ---------------------------------------------------------------------------

/// Whether a map has an owner, in no earlier generation.
pub open spec fn held_by(entry: (Seq<u8>, u64), b: Seq<(Seq<u8>, u64)>) -> bool {
    exists|k: int| 0 <= k < b.len() && entry.0 == (#[trigger] b[k]).0 && entry.1 <= b[k].1
}

/// Whether every entry of a map is one of another, in no later generation.
pub open spec fn submap(a: Seq<(Seq<u8>, u64)>, b: Seq<(Seq<u8>, u64)>) -> bool {
    forall|i: int| 0 <= i < a.len() ==> held_by(#[trigger] a[i], b)
}

/// Whether one budget is nowhere above another.
pub open spec fn le(a: Budget, b: Budget) -> bool {
    a.nodes <= b.nodes && a.heap <= b.heap && a.owners <= b.owners
}

proof fn lemma_generation_len(a: (Seq<u8>, u64), b: (Seq<u8>, u64))
    requires
        a.0 == b.0,
        a.1 <= b.1,
    ensures
        enc_generation(a).len() <= enc_generation(b).len(),
{
    lemma_uint_grows(a.1, b.1);
    lemma_list_grows(
        rlp_string(a.0) + rlp_uint(a.1 as nat),
        rlp_string(b.0) + rlp_uint(b.1 as nat),
    );
}

proof fn lemma_submap_len(a: Seq<(Seq<u8>, u64)>, b: Seq<(Seq<u8>, u64)>)
    requires
        sorted_keys(a),
        sorted_keys(b),
        submap(a, b),
    ensures
        a.len() <= b.len(),
        flat_generations(a).len() <= flat_generations(b).len(),
        le(cost_generations_items(a), cost_generations_items(b)),
    decreases b.len(),
{
    if a.len() > 0 {
        assert(held_by(a[0], b));
        let k0 = choose|k: int|
            0 <= k < b.len() && a[0].0 == (#[trigger] b[k]).0 && a[0].1 <= b[k].1;
        assert(0 <= k0 < b.len());
        let rest = b.drop_first();
        assert(sorted_keys(rest)) by {
            assert forall|i: int, j: int| 0 <= i < j < rest.len() implies bytes_lt(
                #[trigger] rest[i].0,
                #[trigger] rest[j].0,
            ) by {
                assert(rest[i] == b[i + 1] && rest[j] == b[j + 1]);
            }
        }
        if k0 == 0 {
            let tail = a.drop_first();
            assert(sorted_keys(tail)) by {
                assert forall|i: int, j: int| 0 <= i < j < tail.len() implies bytes_lt(
                    #[trigger] tail[i].0,
                    #[trigger] tail[j].0,
                ) by {
                    assert(tail[i] == a[i + 1] && tail[j] == a[j + 1]);
                }
            }
            assert(submap(tail, rest)) by {
                assert forall|i: int| 0 <= i < tail.len() implies held_by(#[trigger] tail[i], rest) by {
                    assert(tail[i] == a[i + 1]);
                    assert(held_by(a[i + 1], b));
                    let k = choose|k: int|
                        0 <= k < b.len() && a[i + 1].0 == (#[trigger] b[k]).0 && a[i + 1].1
                            <= b[k].1;
                    assert(bytes_lt(a[0].0, a[i + 1].0));
                    lemma_bytes_lt_irreflexive(a[0].0);
                    assert(k > 0);
                    assert(rest[k - 1] == b[k]);
                }
            }
            lemma_generation_len(a[0], b[0]);
            lemma_submap_len(tail, rest);
        } else {
            assert(submap(a, rest)) by {
                assert forall|i: int| 0 <= i < a.len() implies held_by(#[trigger] a[i], rest) by {
                    assert(held_by(a[i], b));
                    let k = choose|k: int|
                        0 <= k < b.len() && a[i].0 == (#[trigger] b[k]).0 && a[i].1 <= b[k].1;
                    if k == 0 {
                        assert(bytes_lt(b[0].0, b[k0].0));
                        if i == 0 {
                            lemma_bytes_lt_irreflexive(a[0].0);
                        } else {
                            assert(bytes_lt(a[0].0, a[i].0));
                            lemma_bytes_lt_transitive(a[0].0, a[i].0, b[k0].0);
                            lemma_bytes_lt_irreflexive(a[0].0);
                        }
                    }
                    assert(k > 0);
                    assert(rest[k - 1] == b[k]);
                }
            }
            lemma_submap_len(a, rest);
        }
    }
}

/// Owners that are all registered take no more room, and no more budget, than
/// all that are.
proof fn lemma_owners_within(a: Seq<(Seq<u8>, u64)>, b: Seq<(Seq<u8>, u64)>)
    requires
        sorted_keys(a),
        ok_generations(b),
        submap(a, b),
    ensures
        rlp_list(flat_generations(a)).len() <= rlp_list(flat_generations(b)).len(),
        le(cost_generations(a), cost_generations(b)),
        ok_generations(a),
{
    lemma_submap_len(a, b);
    lemma_list_grows(flat_generations(a), flat_generations(b));
    let size = vstd::layout::size_of::<OwnerEntry<u64>>();
    lemma_owner_heap_grows(size, a.len(), b.len());
    assert forall|i: int| 0 <= i < a.len() implies handler_ok((#[trigger] a[i]).0) by {
        assert(held_by(a[i], b));
        let k = choose|k: int|
            0 <= k < b.len() && a[i].0 == (#[trigger] b[k]).0 && a[i].1 <= b[k].1;
        assert(handler_ok(b[k].0));
    }
}

proof fn lemma_owner_heap_grows(size: nat, m: nat, n: nat)
    requires
        m <= n,
    ensures
        owner_heap(size, m) <= owner_heap(size, n),
{
    let links = vstd::layout::size_of::<[usize; 4]>();
    let each = if size + links > usize::MAX {
        usize::MAX as nat
    } else {
        size + links
    };
    assert(each * m <= each * n) by (nonlinear_arith)
        requires
            m <= n,
    ;
}

// ---------------------------------------------------------------------------
// Recent inputs
// ---------------------------------------------------------------------------

/// Whether an identity is the widest there is on a chain.
pub open spec fn widest_identity(x: ReactiveInputIdentity, chain_id: u64) -> bool {
    match x.input_ref {
        InputRef::Log { chain_id: chain, log_index, .. } => chain == Some(chain_id) && wide(log_index),
        _ => false,
    }
}

proof fn lemma_identity_len(a: ReactiveInputIdentity, b: ReactiveInputIdentity, chain_id: u64)
    requires
        chain_of(a.input_ref) == Some(chain_id),
        widest_identity(b, chain_id),
    ensures
        enc_identity(a).len() <= enc_identity(b).len(),
{
    lemma_uint_len(1);
    lemma_uint_len(2);
    lemma_uint_len(3);
    lemma_uint_len(kind_tag(a.kind) as u64);
    lemma_uint_len(kind_tag(b.kind) as u64);
    let chain = enc_opt_u64(Some(chain_id));
    match b.input_ref {
        InputRef::Log { block_hash, transaction_hash, log_index, .. } => {
            lemma_hash_len(block_hash);
            lemma_hash_len(transaction_hash);
            lemma_uint_len(log_index);
            let widest = rlp_uint(1) + (chain + (enc_hash(block_hash) + (enc_hash(transaction_hash)
                + rlp_uint(log_index as nat))));
            match a.input_ref {
                InputRef::Log { block_hash: h, transaction_hash: t, log_index: n, .. } => {
                    lemma_hash_len(h);
                    lemma_hash_len(t);
                    lemma_uint_len(n);
                    lemma_list_grows(
                        rlp_uint(1) + (chain + (enc_hash(h) + (enc_hash(t) + rlp_uint(n as nat)))),
                        widest,
                    );
                },
                InputRef::PendingTx { hash: h, .. } => {
                    lemma_hash_len(h);
                    lemma_list_grows(rlp_uint(2) + (chain + enc_hash(h)), widest);
                },
                InputRef::Block { hash: h, number: n, .. } => {
                    lemma_hash_len(h);
                    lemma_uint_len(n);
                    lemma_list_grows(
                        rlp_uint(3) + (chain + (enc_hash(h) + rlp_uint(n as nat))),
                        widest,
                    );
                },
            }
        },
        _ => {},
    }
    lemma_list_grows(
        enc_input_ref(a.input_ref) + rlp_uint(kind_tag(a.kind) as nat),
        enc_input_ref(b.input_ref) + rlp_uint(kind_tag(b.kind) as nat),
    );
}

/// Whether a witness is the widest there is on a chain.
pub open spec fn widest_witness(w: RecordWitness, chain_id: u64) -> bool {
    &&& w.chain_id == chain_id
    &&& w.block is Some && full(w.block->Some_0)
    &&& w.transaction_index is Some && wide(w.transaction_index->Some_0)
    &&& w.log_index is Some && wide(w.log_index->Some_0)
    &&& w.log_block_timestamp is Some && wide(w.log_block_timestamp->Some_0)
}

proof fn lemma_witness_len(a: Option<RecordWitness>, b: RecordWitness, chain_id: u64)
    requires
        a is Some ==> a->Some_0.chain_id == chain_id,
        widest_witness(b, chain_id),
    ensures
        enc_opt_witness(a).len() <= enc_opt_witness(Some(b)).len(),
        le(cost_opt_witness(a), cost_opt_witness(Some(b))),
{
    if let Some(w) = a {
        lemma_hash_len(w.payload_digest);
        lemma_hash_len(b.payload_digest);
        lemma_uint_len(lifecycle_tag(w.lifecycle) as u64);
        lemma_uint_len(lifecycle_tag(b.lifecycle) as u64);
        lemma_opt_block_len(w.block, b.block->Some_0);
        lemma_opt_u64_len(w.transaction_index, b.transaction_index->Some_0);
        lemma_opt_u64_len(w.log_index, b.log_index->Some_0);
        lemma_opt_u64_len(w.log_block_timestamp, b.log_block_timestamp->Some_0);
        lemma_list_grows(
            enc_hash(w.payload_digest) + (rlp_uint(w.chain_id as nat) + (rlp_uint(
                lifecycle_tag(w.lifecycle) as nat,
            ) + (enc_opt_block(w.block) + (enc_opt_u64(w.transaction_index) + (enc_opt_u64(
                w.log_index,
            ) + enc_opt_u64(w.log_block_timestamp)))))),
            enc_hash(b.payload_digest) + (rlp_uint(b.chain_id as nat) + (rlp_uint(
                lifecycle_tag(b.lifecycle) as nat,
            ) + (enc_opt_block(b.block) + (enc_opt_u64(b.transaction_index) + (enc_opt_u64(
                b.log_index,
            ) + enc_opt_u64(b.log_block_timestamp)))))),
        );
        lemma_list_grows(enc_witness(w), enc_witness(b));
    } else {
        lemma_list_grows(Seq::empty(), enc_witness(b));
    }
}

/// Whether a recent input takes no more room than one that is as wide as can be.
pub open spec fn entry_within(a: RecentView, b: RecentView, chain_id: u64) -> bool {
    &&& chain_of(a.identity.input_ref) == Some(chain_id)
    &&& a.identity.compatible()
    &&& widest_identity(b.identity, chain_id)
    &&& sorted_keys(a.coverage.owners)
    &&& submap(a.coverage.owners, b.coverage.owners)
    &&& b.coverage.block is Some && full(b.coverage.block->Some_0)
    &&& a.coverage.witness is Some ==> a.coverage.witness->Some_0.chain_id == chain_id
    &&& b.coverage.witness is Some && widest_witness(b.coverage.witness->Some_0, chain_id)
}

proof fn lemma_entry_len(a: RecentView, b: RecentView, chain_id: u64)
    requires
        entry_within(a, b, chain_id),
        ok_generations(b.coverage.owners),
    ensures
        enc_recent(a).len() <= enc_recent(b).len(),
        le(cost_recent(a), cost_recent(b)),
        ok_recent(a),
{
    lemma_identity_len(a.identity, b.identity, chain_id);
    lemma_owners_within(a.coverage.owners, b.coverage.owners);
    lemma_opt_block_len(a.coverage.block, b.coverage.block->Some_0);
    lemma_witness_len(a.coverage.witness, b.coverage.witness->Some_0, chain_id);
    lemma_uint_len(0);
    lemma_uint_len(1);
    assert(rlp_bool(a.coverage.base).len() == 1 && rlp_bool(b.coverage.base).len() == 1);
    lemma_list_grows(
        rlp_bool(a.coverage.base) + (rlp_list(flat_generations(a.coverage.owners)) + (enc_opt_block(
            a.coverage.block,
        ) + enc_opt_witness(a.coverage.witness))),
        rlp_bool(b.coverage.base) + (rlp_list(flat_generations(b.coverage.owners)) + (enc_opt_block(
            b.coverage.block,
        ) + enc_opt_witness(b.coverage.witness))),
    );
    lemma_list_grows(
        enc_identity(a.identity) + enc_coverage(a.coverage),
        enc_identity(b.identity) + enc_coverage(b.coverage),
    );
}

// ---------------------------------------------------------------------------
// Whole states
// ---------------------------------------------------------------------------

/// Whether a state takes no more room than one that is filled, under the same
/// topology.
pub open spec fn state_within(a: CheckpointView, b: CheckpointView) -> bool {
    &&& a.chain_id == b.chain_id
    &&& b.next_synthetic_token == u64::MAX
    &&& a.lifecycle_generation == b.lifecycle_generation
    &&& a.owner_generations == b.owner_generations
    &&& a.lifecycle_intent == b.lifecycle_intent
    &&& a.recent_inputs.len() <= 1
    &&& b.recent_inputs.len() == 1
    &&& a.recent_inputs.len() == 1 ==> entry_within(
        a.recent_inputs[0],
        b.recent_inputs[0],
        a.chain_id,
    )
    &&& a.canonical_history.len() <= b.canonical_history.len()
    &&& all_full(b.canonical_history)
    &&& b.coverage_head is Some && full(b.coverage_head->Some_0)
    &&& b.safe_head is Some && full(b.safe_head->Some_0)
    &&& b.finalized_head is Some && full(b.finalized_head->Some_0)
    &&& a.certified_historical is Some ==> a.certified_historical->Some_0.lifecycle_generation
        == a.lifecycle_generation
    &&& b.certified_historical is Some
    &&& b.certified_historical->Some_0.lifecycle_generation == b.lifecycle_generation
    &&& full(b.certified_historical->Some_0.through)
    &&& source_within(a.historical_position, b.historical_position)
    &&& source_within(a.live_position, b.live_position)
    &&& b.last_committed_token is Some
    &&& a.last_committed_token is Some ==> bytes_within(
        Some(a.last_committed_token->Some_0.inner),
        Some(b.last_committed_token->Some_0.inner),
    )
}

proof fn lemma_certified_len(
    a: Option<CertifiedHistoricalCoverage>,
    b: CertifiedHistoricalCoverage,
)
    requires
        a is Some ==> a->Some_0.lifecycle_generation == b.lifecycle_generation,
        full(b.through),
    ensures
        enc_opt_certified(a).len() <= enc_opt_certified(Some(b)).len(),
{
    if let Some(x) = a {
        lemma_block_len(x.through, b.through);
        lemma_list_grows(
            rlp_uint(x.lifecycle_generation as nat) + enc_block(x.through),
            rlp_uint(b.lifecycle_generation as nat) + enc_block(b.through),
        );
        lemma_list_grows(enc_certified(x), enc_certified(b));
    } else {
        lemma_list_grows(Seq::empty(), enc_certified(b));
    }
}

proof fn lemma_token_len(a: Option<TokenView>, b: TokenView)
    requires
        a is Some ==> bytes_within(Some(a->Some_0.inner), Some(b.inner)),
    ensures
        enc_opt_token(a).len() <= enc_opt_token(Some(b)).len(),
{
    if let Some(x) = a {
        lemma_uint_len(x.source.spec_tag() as u64);
        lemma_uint_len(b.source.spec_tag() as u64);
        lemma_uint_len(x.kind.spec_tag() as u64);
        lemma_uint_len(b.kind.spec_tag() as u64);
        lemma_list_grows(
            rlp_uint(x.source.spec_tag() as nat) + (rlp_uint(x.kind.spec_tag() as nat) + rlp_string(
                x.inner,
            )),
            rlp_uint(b.source.spec_tag() as nat) + (rlp_uint(b.kind.spec_tag() as nat) + rlp_string(
                b.inner,
            )),
        );
        lemma_list_grows(enc_token(x), enc_token(b));
    } else {
        lemma_list_grows(Seq::empty(), enc_token(b));
    }
}

proof fn lemma_one_recent(s: Seq<RecentView>)
    requires
        s.len() == 1,
    ensures
        flat_recent(s) == enc_recent(s[0]),
        cost_recent_items(s) == cost_recent(s[0]),
{
    let rest = s.drop_first();
    assert(rest.len() == 0);
    assert(flat_recent(rest) == Seq::<u8>::empty());
    assert(cost_recent_items(rest) == nodes(0));
    assert(flat_recent(s) == enc_recent(s[0]) + flat_recent(rest));
    assert(enc_recent(s[0]) + Seq::<u8>::empty() =~= enc_recent(s[0]));
    assert(cost_recent_items(s) == sum(cost_recent(s[0]), nodes(0)));
}

proof fn lemma_recents_within(x: Seq<RecentView>, y: Seq<RecentView>, chain_id: u64)
    requires
        x.len() <= 1,
        y.len() == 1,
        x.len() == 1 ==> entry_within(x[0], y[0], chain_id),
        ok_recents(y),
    ensures
        flat_recent(x).len() <= flat_recent(y).len(),
        le(cost_recents(x), cost_recents(y)),
        ok_recents(x),
{
    lemma_one_recent(y);
    let size = vstd::layout::size_of::<StoredRecentInput>();
    assert(size * x.len() <= size * y.len()) by (nonlinear_arith)
        requires
            x.len() <= y.len(),
    ;
    assert(ok_recent(y[0]));
    if x.len() == 1 {
        lemma_entry_len(x[0], y[0], chain_id);
        lemma_one_recent(x);
    }
}

proof fn lemma_recents_len(a: CheckpointView, b: CheckpointView)
    requires
        state_within(a, b),
        ok_recents(b.recent_inputs),
    ensures
        rlp_list(flat_recent(a.recent_inputs)).len() <= rlp_list(
            flat_recent(b.recent_inputs),
        ).len(),
        le(cost_recents(a.recent_inputs), cost_recents(b.recent_inputs)),
        ok_recents(a.recent_inputs),
{
    lemma_recents_within(a.recent_inputs, b.recent_inputs, a.chain_id);
    lemma_list_grows(flat_recent(a.recent_inputs), flat_recent(b.recent_inputs));
}

proof fn lemma_tail_len(a: CheckpointView, b: CheckpointView)
    requires
        state_within(a, b),
    ensures
        enc_tail(a).len() <= enc_tail(b).len(),
{
    reveal(enc_tail);
    lemma_opt_block_len(a.coverage_head, b.coverage_head->Some_0);
    lemma_opt_block_len(a.safe_head, b.safe_head->Some_0);
    lemma_opt_block_len(a.finalized_head, b.finalized_head->Some_0);
    lemma_certified_len(a.certified_historical, b.certified_historical->Some_0);
    lemma_source_len(a.historical_position, b.historical_position);
    lemma_source_len(a.live_position, b.live_position);
    lemma_token_len(a.last_committed_token, b.last_committed_token->Some_0);
}

proof fn lemma_middle_len(a: CheckpointView, b: CheckpointView)
    requires
        state_within(a, b),
        ok_recents(b.recent_inputs),
    ensures
        enc_middle(a).len() <= enc_middle(b).len(),
{
    reveal(enc_middle);
    lemma_recents_len(a, b);
    lemma_flat_blocks_len(a.canonical_history, b.canonical_history);
    lemma_list_grows(flat_blocks(a.canonical_history), flat_blocks(b.canonical_history));
    lemma_tail_len(a, b);
}

proof fn lemma_epoch_len(e: Epoch)
    ensures
        rlp_string(e.bytes()).len() == 17,
{
    reveal(rlp_header);
}

/// A state that is within another takes no more room.
proof fn lemma_state_len(a: CheckpointView, b: CheckpointView)
    requires
        state_within(a, b),
        ok_recents(b.recent_inputs),
    ensures
        enc_checkpoint(a).len() <= enc_checkpoint(b).len(),
{
    lemma_middle_len(a, b);
    lemma_uint_len(a.next_synthetic_token);
    lemma_uint_len(b.next_synthetic_token);
    lemma_epoch_len(a.epoch);
    lemma_epoch_len(b.epoch);
    lemma_list_grows(
        rlp_uint(a.chain_id as nat) + (rlp_string(a.epoch.bytes()) + (rlp_uint(
            a.next_synthetic_token as nat,
        ) + (rlp_uint(a.lifecycle_generation as nat) + enc_middle(a)))),
        rlp_uint(b.chain_id as nat) + (rlp_string(b.epoch.bytes()) + (rlp_uint(
            b.next_synthetic_token as nat,
        ) + (rlp_uint(b.lifecycle_generation as nat) + enc_middle(b)))),
    );
}

proof fn lemma_blocks_cost(a: Seq<BlockRef>, b: Seq<BlockRef>)
    requires
        a.len() <= b.len(),
    ensures
        le(cost_blocks(a), cost_blocks(b)),
{
    lemma_cost_block_items(a);
    lemma_cost_block_items(b);
    let size = vstd::layout::size_of::<BlockRef>();
    assert(size * a.len() <= size * b.len()) by (nonlinear_arith)
        requires
            a.len() <= b.len(),
    ;
}

proof fn lemma_source_cost(a: SourceView, b: SourceView)
    requires
        source_within(a, b),
    ensures
        le(cost_source(a), cost_source(b)),
        ok_source(b) ==> ok_source(a),
{
    lemma_blocks_cost(a.canonical_history, b.canonical_history);
}

proof fn lemma_body_cost(a: CheckpointView, b: CheckpointView)
    requires
        state_within(a, b),
        ok_body(b),
    ensures
        ok_body(a),
        le(cost_body(a), cost_body(b)),
{
    reveal(ok_body);
    reveal(cost_body);
    lemma_recents_len(a, b);
    lemma_blocks_cost(a.canonical_history, b.canonical_history);
}

proof fn lemma_tail_cost(a: CheckpointView, b: CheckpointView)
    requires
        state_within(a, b),
        ok_tail(b),
    ensures
        ok_tail(a),
        le(cost_tail(a), cost_tail(b)),
{
    reveal(ok_tail);
    reveal(cost_tail);
    lemma_source_cost(a.historical_position, b.historical_position);
    lemma_source_cost(a.live_position, b.live_position);
}

/// A state that is within another takes no more budget, and keeps to the limits
/// where the other does.
proof fn lemma_state_cost(a: CheckpointView, b: CheckpointView)
    requires
        state_within(a, b),
        ok_checkpoint(b),
        cost_checkpoint(b).within(),
    ensures
        ok_checkpoint(a),
        cost_checkpoint(a).within(),
{
    lemma_body_cost(a, b);
    lemma_tail_cost(a, b);
}

/// Whatever is within a state that can be written can be written.
pub proof fn law_smaller_states_fit(a: CheckpointView, b: CheckpointView)
    requires
        state_typed(a),
        state_typed(b),
        state_within(a, b),
        limits_error(b) is None,
    ensures
        limits_error(a) is None,
        enc_checkpoint(a).len() <= enc_checkpoint(b).len(),
{
    law_limits_are_wire_limits(a);
    law_limits_are_wire_limits(b);
    assert(ok_recents(b.recent_inputs)) by {
        reveal(ok_body);
    }
    lemma_state_len(a, b);
    lemma_state_cost(a, b);
}

} // verus!
