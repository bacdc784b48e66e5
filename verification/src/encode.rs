//! Writers for the wire form of a checkpoint.
use crate::audience::{AudienceCoverage, RecordWitness};
use crate::checkpoint::{
    opt_bytes, opt_token, recent_view, CertifiedHistoricalCoverage, HybridCheckpointV5,
    LifecycleIntent, SourcePosition, StoredCommittedToken, StoredRecentInput,
};
use crate::model::{BlockRef, HandlerId, InputRef, ReactiveInputIdentity};
use crate::owners::OwnerMap;
use crate::rlp::{
    rlp_bool, rlp_list, rlp_string, rlp_uint, write_bool, write_bytes, write_header, write_u64,
    write_u8,
};
use crate::wire::{
    enc_block, enc_certified, enc_checkpoint, enc_coverage, enc_digest_entry, enc_generation,
    enc_hash, enc_identity, enc_input_ref, enc_intent, enc_middle, enc_opt_block, enc_opt_bytes,
    enc_opt_certified, enc_opt_hash, enc_opt_token, enc_opt_u64, enc_opt_witness, enc_recent,
    enc_source, enc_tail, enc_token, enc_witness, flat_blocks, flat_digests, flat_generations,
    flat_recent, hybrid_source_tag, hybrid_token_kind_tag, input_kind_tag, kind_tag, lifecycle_tag,
    witness_lifecycle_tag,
};
use crate::words::B256;
use vstd::prelude::*;

verus! {

/// Appending items one by one appends them all.
proof fn lemma_cat2(z: Seq<u8>, a: Seq<u8>, b: Seq<u8>)
    ensures
        z + a + b == z + (a + (b)),
        Seq::<u8>::empty() + (a + (b)) == a + (b),
{
    assert(z + a + b =~= z + (a + b));
    assert(Seq::<u8>::empty() + (a + (b)) =~= a + (b));
}

/// Appending items one by one appends them all.
proof fn lemma_cat3(z: Seq<u8>, a: Seq<u8>, b: Seq<u8>, c: Seq<u8>)
    ensures
        z + a + b + c == z + (a + (b + (c))),
        Seq::<u8>::empty() + (a + (b + (c))) == a + (b + (c)),
{
    lemma_cat2(z + a, b, c);
    let rest = b + (c);
    assert(z + a + rest =~= z + (a + rest));
    assert(Seq::<u8>::empty() + (a + (b + (c))) =~= a + (b + (c)));
}

/// Appending items one by one appends them all.
proof fn lemma_cat4(z: Seq<u8>, a: Seq<u8>, b: Seq<u8>, c: Seq<u8>, d: Seq<u8>)
    ensures
        z + a + b + c + d == z + (a + (b + (c + (d)))),
        Seq::<u8>::empty() + (a + (b + (c + (d)))) == a + (b + (c + (d))),
{
    lemma_cat3(z + a, b, c, d);
    let rest = b + (c + (d));
    assert(z + a + rest =~= z + (a + rest));
    assert(Seq::<u8>::empty() + (a + (b + (c + (d)))) =~= a + (b + (c + (d))));
}

/// Appending items one by one appends them all.
proof fn lemma_cat5(z: Seq<u8>, a: Seq<u8>, b: Seq<u8>, c: Seq<u8>, d: Seq<u8>, e: Seq<u8>)
    ensures
        z + a + b + c + d + e == z + (a + (b + (c + (d + (e))))),
        Seq::<u8>::empty() + (a + (b + (c + (d + (e))))) == a + (b + (c + (d + (e)))),
{
    lemma_cat4(z + a, b, c, d, e);
    let rest = b + (c + (d + (e)));
    assert(z + a + rest =~= z + (a + rest));
    assert(Seq::<u8>::empty() + (a + (b + (c + (d + (e))))) =~= a + (b + (c + (d + (e)))));
}

/// Appending items one by one appends them all.
proof fn lemma_cat6(z: Seq<u8>, a: Seq<u8>, b: Seq<u8>, c: Seq<u8>, d: Seq<u8>, e: Seq<u8>, f: Seq<u8>)
    ensures
        z + a + b + c + d + e + f == z + (a + (b + (c + (d + (e + (f)))))),
        Seq::<u8>::empty() + (a + (b + (c + (d + (e + (f)))))) == a + (b + (c + (d + (e + (f))))),
{
    lemma_cat5(z + a, b, c, d, e, f);
    let rest = b + (c + (d + (e + (f))));
    assert(z + a + rest =~= z + (a + rest));
    assert(Seq::<u8>::empty() + (a + (b + (c + (d + (e + (f)))))) =~= a + (b + (c + (d + (e + (f))))));
}

/// Appending items one by one appends them all.
proof fn lemma_cat7(z: Seq<u8>, a: Seq<u8>, b: Seq<u8>, c: Seq<u8>, d: Seq<u8>, e: Seq<u8>, f: Seq<u8>, g: Seq<u8>)
    ensures
        z + a + b + c + d + e + f + g == z + (a + (b + (c + (d + (e + (f + (g))))))),
        Seq::<u8>::empty() + (a + (b + (c + (d + (e + (f + (g))))))) == a + (b + (c + (d + (e + (f + (g)))))),
{
    lemma_cat6(z + a, b, c, d, e, f, g);
    let rest = b + (c + (d + (e + (f + (g)))));
    assert(z + a + rest =~= z + (a + rest));
    assert(Seq::<u8>::empty() + (a + (b + (c + (d + (e + (f + (g))))))) =~= a + (b + (c + (d + (e + (f + (g)))))));
}

/// Appends a list whose items are in `body`.
fn put_list(out: &mut Vec<u8>, body: Vec<u8>)
    ensures
        final(out)@ == old(out)@ + rlp_list(body@),
{
    let mut body = body;
    write_header(out, true, body.len());
    let ghost items = body@;
    out.append(&mut body);
    assert(out@ =~= old(out)@ + rlp_list(items));
}

fn put_hash(out: &mut Vec<u8>, h: &B256)
    ensures
        final(out)@ == old(out)@ + enc_hash(*h),
{
    let bytes: Vec<u8> = h.to_vec();
    write_bytes(out, bytes.as_slice());
}

fn put_opt_u64(out: &mut Vec<u8>, value: &Option<u64>)
    ensures
        final(out)@ == old(out)@ + enc_opt_u64(*value),
{
    let mut body: Vec<u8> = Vec::new();
    if let Some(inner) = value {
        write_u64(&mut body, *inner);
        assert(body@ =~= rlp_uint(*inner as nat));
    }
    put_list(out, body);
}

fn put_opt_hash(out: &mut Vec<u8>, value: &Option<B256>)
    ensures
        final(out)@ == old(out)@ + enc_opt_hash(*value),
{
    let mut body: Vec<u8> = Vec::new();
    if let Some(inner) = value {
        put_hash(&mut body, inner);
        assert(body@ =~= enc_hash(*inner));
    }
    put_list(out, body);
}

fn put_opt_bytes(out: &mut Vec<u8>, value: &Option<Vec<u8>>)
    ensures
        final(out)@ == old(out)@ + enc_opt_bytes(opt_bytes(*value)),
{
    let mut body: Vec<u8> = Vec::new();
    if let Some(inner) = value {
        write_bytes(&mut body, inner.as_slice());
        assert(body@ =~= rlp_string(inner@));
    }
    put_list(out, body);
}

fn put_block(out: &mut Vec<u8>, b: &BlockRef)
    ensures
        final(out)@ == old(out)@ + enc_block(*b),
{
    let mut body: Vec<u8> = Vec::new();
    write_u64(&mut body, b.number);
    put_hash(&mut body, &b.hash);
    put_opt_hash(&mut body, &b.parent_hash);
    put_opt_u64(&mut body, &b.timestamp);
    proof {
        lemma_cat4(Seq::empty(), rlp_uint(b.number as nat), enc_hash(b.hash), enc_opt_hash(b.parent_hash), enc_opt_u64(b.timestamp));
    }
    put_list(out, body);
}

fn put_opt_block(out: &mut Vec<u8>, value: &Option<BlockRef>)
    ensures
        final(out)@ == old(out)@ + enc_opt_block(*value),
{
    let mut body: Vec<u8> = Vec::new();
    if let Some(inner) = value {
        put_block(&mut body, inner);
        assert(body@ =~= enc_block(*inner));
    }
    put_list(out, body);
}

fn put_blocks(out: &mut Vec<u8>, items: &[BlockRef])
    ensures
        final(out)@ == old(out)@ + rlp_list(flat_blocks(items@)),
{
    let ghost all = items@;
    let mut body: Vec<u8> = Vec::new();
    let mut i: usize = 0;
    assert(all.skip(0) =~= all);
    assert(body@ + flat_blocks(all) =~= flat_blocks(all));
    while i < items.len()
        invariant
            i <= all.len(),
            all == items@,
            body@ + flat_blocks(all.skip(i as int)) == flat_blocks(all),
        decreases all.len() - i,
    {
        let ghost before = body@;
        put_block(&mut body, &items[i]);
        proof {
            assert(all.skip(i as int).drop_first() =~= all.skip(i + 1));
            assert(all.skip(i as int)[0] == all[i as int]);
            assert(body@ + flat_blocks(all.skip(i + 1)) =~= before + flat_blocks(all.skip(i as int)));
        }
        i += 1;
    }
    assert(body@ =~= flat_blocks(all));
    put_list(out, body);
}

fn put_generation(out: &mut Vec<u8>, entry: &HandlerId, value: u64)
    ensures
        final(out)@ == old(out)@ + enc_generation((entry@, value)),
{
    let mut body: Vec<u8> = Vec::new();
    write_bytes(&mut body, entry.as_bytes());
    write_u64(&mut body, value);
    proof {
        lemma_cat2(Seq::empty(), rlp_string(entry@), rlp_uint(value as nat));
    }
    put_list(out, body);
}

fn put_generations(out: &mut Vec<u8>, items: &OwnerMap<u64>)
    ensures
        final(out)@ == old(out)@ + rlp_list(flat_generations(items@)),
{
    let ghost all = items@;
    let mut body: Vec<u8> = Vec::new();
    let mut i: usize = 0;
    assert(all.skip(0) =~= all);
    assert(body@ + flat_generations(all) =~= flat_generations(all));
    while i < items.len()
        invariant
            i <= all.len(),
            all == items@,
            body@ + flat_generations(all.skip(i as int)) == flat_generations(all),
        decreases all.len() - i,
    {
        let ghost before = body@;
        put_generation(&mut body, items.owner_at(i), *items.value_at(i));
        proof {
            assert(all.skip(i as int).drop_first() =~= all.skip(i + 1));
            assert(all.skip(i as int)[0] == all[i as int]);
            assert(body@ + flat_generations(all.skip(i + 1)) =~= before + flat_generations(all.skip(i as int)));
        }
        i += 1;
    }
    assert(body@ =~= flat_generations(all));
    put_list(out, body);
}

fn put_digest_entry(out: &mut Vec<u8>, entry: &HandlerId, value: &B256)
    ensures
        final(out)@ == old(out)@ + enc_digest_entry((entry@, *value)),
{
    let mut body: Vec<u8> = Vec::new();
    write_bytes(&mut body, entry.as_bytes());
    put_hash(&mut body, value);
    proof {
        lemma_cat2(Seq::empty(), rlp_string(entry@), enc_hash(*value));
    }
    put_list(out, body);
}

fn put_digests(out: &mut Vec<u8>, items: &OwnerMap<B256>)
    ensures
        final(out)@ == old(out)@ + rlp_list(flat_digests(items@)),
{
    let ghost all = items@;
    let mut body: Vec<u8> = Vec::new();
    let mut i: usize = 0;
    assert(all.skip(0) =~= all);
    assert(body@ + flat_digests(all) =~= flat_digests(all));
    while i < items.len()
        invariant
            i <= all.len(),
            all == items@,
            body@ + flat_digests(all.skip(i as int)) == flat_digests(all),
        decreases all.len() - i,
    {
        let ghost before = body@;
        put_digest_entry(&mut body, items.owner_at(i), items.value_at(i));
        proof {
            assert(all.skip(i as int).drop_first() =~= all.skip(i + 1));
            assert(all.skip(i as int)[0] == all[i as int]);
            assert(body@ + flat_digests(all.skip(i + 1)) =~= before + flat_digests(all.skip(i as int)));
        }
        i += 1;
    }
    assert(body@ =~= flat_digests(all));
    put_list(out, body);
}

fn put_input_ref(out: &mut Vec<u8>, input_ref: &InputRef)
    ensures
        final(out)@ == old(out)@ + enc_input_ref(*input_ref),
{
    let mut body: Vec<u8> = Vec::new();
    match input_ref {
        InputRef::Log { chain_id, block_hash, transaction_hash, log_index } => {
            write_u8(&mut body, 1);
            put_opt_u64(&mut body, chain_id);
            put_hash(&mut body, block_hash);
            put_hash(&mut body, transaction_hash);
            write_u64(&mut body, *log_index);
            proof {
        lemma_cat5(Seq::empty(), rlp_uint(1), enc_opt_u64(*chain_id), enc_hash( *block_hash, ), enc_hash(*transaction_hash), rlp_uint(*log_index as nat));
    }
        },
        InputRef::PendingTx { chain_id, hash } => {
            write_u8(&mut body, 2);
            put_opt_u64(&mut body, chain_id);
            put_hash(&mut body, hash);
            proof {
        lemma_cat3(Seq::empty(), rlp_uint(2), enc_opt_u64(*chain_id), enc_hash(*hash));
    }
        },
        InputRef::Block { chain_id, hash, number } => {
            write_u8(&mut body, 3);
            put_opt_u64(&mut body, chain_id);
            put_hash(&mut body, hash);
            write_u64(&mut body, *number);
            proof {
        lemma_cat4(Seq::empty(), rlp_uint(3), enc_opt_u64(*chain_id), enc_hash(*hash), rlp_uint(*number as nat));
    }
        },
    }
    put_list(out, body);
}

fn put_identity(out: &mut Vec<u8>, x: &ReactiveInputIdentity)
    ensures
        final(out)@ == old(out)@ + enc_identity(*x),
{
    let mut body: Vec<u8> = Vec::new();
    put_input_ref(&mut body, &x.input_ref);
    write_u8(&mut body, input_kind_tag(x.kind));
    proof {
        lemma_cat2(Seq::empty(), enc_input_ref(x.input_ref), rlp_uint(kind_tag(x.kind) as nat));
    }
    put_list(out, body);
}

fn put_witness(out: &mut Vec<u8>, w: &RecordWitness)
    ensures
        final(out)@ == old(out)@ + enc_witness(*w),
{
    let mut body: Vec<u8> = Vec::new();
    put_hash(&mut body, &w.payload_digest);
    write_u64(&mut body, w.chain_id);
    write_u8(&mut body, witness_lifecycle_tag(w.lifecycle));
    put_opt_block(&mut body, &w.block);
    put_opt_u64(&mut body, &w.transaction_index);
    put_opt_u64(&mut body, &w.log_index);
    put_opt_u64(&mut body, &w.log_block_timestamp);
    proof {
        lemma_cat7(Seq::empty(), enc_hash(w.payload_digest), rlp_uint(w.chain_id as nat), rlp_uint(lifecycle_tag(w.lifecycle) as nat), enc_opt_block(w.block), enc_opt_u64(w.transaction_index), enc_opt_u64(w.log_index), enc_opt_u64(w.log_block_timestamp));
    }
    put_list(out, body);
}

fn put_opt_witness(out: &mut Vec<u8>, value: &Option<RecordWitness>)
    ensures
        final(out)@ == old(out)@ + enc_opt_witness(*value),
{
    let mut body: Vec<u8> = Vec::new();
    if let Some(inner) = value {
        put_witness(&mut body, inner);
        assert(body@ =~= enc_witness(*inner));
    }
    put_list(out, body);
}

fn put_coverage(out: &mut Vec<u8>, c: &AudienceCoverage)
    ensures
        final(out)@ == old(out)@ + enc_coverage(c@),
{
    let mut body: Vec<u8> = Vec::new();
    write_bool(&mut body, c.base);
    put_generations(&mut body, &c.owners);
    put_opt_block(&mut body, &c.block);
    put_opt_witness(&mut body, &c.witness);
    proof {
        lemma_cat4(Seq::empty(), rlp_bool(c.base), rlp_list(flat_generations(c.owners@)), enc_opt_block(c.block), enc_opt_witness(c.witness));
    }
    put_list(out, body);
}

fn put_recent(out: &mut Vec<u8>, entry: &StoredRecentInput)
    ensures
        final(out)@ == old(out)@ + enc_recent(entry@),
{
    let mut body: Vec<u8> = Vec::new();
    put_identity(&mut body, &entry.identity);
    put_coverage(&mut body, &entry.coverage);
    proof {
        lemma_cat2(Seq::empty(), enc_identity(entry.identity), enc_coverage(entry.coverage@));
    }
    put_list(out, body);
}

fn put_recents(out: &mut Vec<u8>, items: &[StoredRecentInput])
    ensures
        final(out)@ == old(out)@ + rlp_list(flat_recent(recent_view(items@))),
{
    let ghost all = recent_view(items@);
    let mut body: Vec<u8> = Vec::new();
    let mut i: usize = 0;
    assert(all.skip(0) =~= all);
    assert(body@ + flat_recent(all) =~= flat_recent(all));
    while i < items.len()
        invariant
            i <= all.len(),
            all == recent_view(items@),
            body@ + flat_recent(all.skip(i as int)) == flat_recent(all),
        decreases all.len() - i,
    {
        let ghost before = body@;
        put_recent(&mut body, &items[i]);
        proof {
            assert(all.skip(i as int).drop_first() =~= all.skip(i + 1));
            assert(all.skip(i as int)[0] == all[i as int]);
            assert(body@ + flat_recent(all.skip(i + 1)) =~= before + flat_recent(all.skip(i as int)));
        }
        i += 1;
    }
    assert(body@ =~= flat_recent(all));
    put_list(out, body);
}

fn put_source(out: &mut Vec<u8>, p: &SourcePosition)
    ensures
        final(out)@ == old(out)@ + enc_source(p@),
{
    let mut body: Vec<u8> = Vec::new();
    put_opt_bytes(&mut body, &p.delivery_token);
    put_opt_bytes(&mut body, &p.checkpoint);
    put_opt_block(&mut body, &p.coverage_head);
    put_blocks(&mut body, p.canonical_history.as_slice());
    put_opt_hash(&mut body, &p.delivery_digest);
    proof {
        lemma_cat5(Seq::empty(), enc_opt_bytes(p@.delivery_token), enc_opt_bytes(p@.checkpoint), enc_opt_block(p.coverage_head), rlp_list(flat_blocks(p.canonical_history@)), enc_opt_hash(p.delivery_digest));
    }
    put_list(out, body);
}

fn put_token(out: &mut Vec<u8>, t: &StoredCommittedToken)
    ensures
        final(out)@ == old(out)@ + enc_token(t@),
{
    let mut body: Vec<u8> = Vec::new();
    write_u8(&mut body, hybrid_source_tag(t.source));
    write_u8(&mut body, hybrid_token_kind_tag(t.kind));
    write_bytes(&mut body, t.inner.as_slice());
    proof {
        lemma_cat3(Seq::empty(), rlp_uint(t.source.spec_tag() as nat), rlp_uint(t.kind.spec_tag() as nat), rlp_string(t.inner@));
    }
    put_list(out, body);
}

fn put_opt_token(out: &mut Vec<u8>, value: &Option<StoredCommittedToken>)
    ensures
        final(out)@ == old(out)@ + enc_opt_token(opt_token(*value)),
{
    let mut body: Vec<u8> = Vec::new();
    if let Some(inner) = value {
        put_token(&mut body, inner);
        assert(body@ =~= enc_token(inner@));
    }
    put_list(out, body);
}

fn put_intent(out: &mut Vec<u8>, x: &LifecycleIntent)
    ensures
        final(out)@ == old(out)@ + enc_intent(x@),
{
    let mut body: Vec<u8> = Vec::new();
    put_hash(&mut body, &x.base);
    put_digests(&mut body, &x.owners);
    proof {
        lemma_cat2(Seq::empty(), enc_hash(x.base), rlp_list(flat_digests(x.owners@)));
    }
    put_list(out, body);
}

fn put_certified(out: &mut Vec<u8>, c: &CertifiedHistoricalCoverage)
    ensures
        final(out)@ == old(out)@ + enc_certified(*c),
{
    let mut body: Vec<u8> = Vec::new();
    write_u64(&mut body, c.lifecycle_generation);
    put_block(&mut body, &c.through);
    proof {
        lemma_cat2(Seq::empty(), rlp_uint(c.lifecycle_generation as nat), enc_block(c.through));
    }
    put_list(out, body);
}

fn put_opt_certified(out: &mut Vec<u8>, value: &Option<CertifiedHistoricalCoverage>)
    ensures
        final(out)@ == old(out)@ + enc_opt_certified(*value),
{
    let mut body: Vec<u8> = Vec::new();
    if let Some(inner) = value {
        put_certified(&mut body, inner);
        assert(body@ =~= enc_certified(*inner));
    }
    put_list(out, body);
}

fn put_tail(out: &mut Vec<u8>, state: &HybridCheckpointV5)
    ensures
        final(out)@ == old(out)@ + enc_tail(state@),
{
    put_opt_block(out, &state.coverage_head);
    put_opt_block(out, &state.safe_head);
    put_opt_block(out, &state.finalized_head);
    put_opt_certified(out, &state.certified_historical);
    put_source(out, &state.historical_position);
    put_source(out, &state.live_position);
    put_opt_token(out, &state.last_committed_token);
    proof {
        reveal(enc_tail);
        lemma_cat7(
            old(out)@,
            enc_opt_block(state.coverage_head),
            enc_opt_block(state.safe_head),
            enc_opt_block(state.finalized_head),
            enc_opt_certified(state.certified_historical),
            enc_source(state.historical_position@),
            enc_source(state.live_position@),
            enc_opt_token(opt_token(state.last_committed_token)),
        );
    }
}

fn put_middle(out: &mut Vec<u8>, state: &HybridCheckpointV5)
    ensures
        final(out)@ == old(out)@ + enc_middle(state@),
{
    put_generations(out, &state.owner_generations);
    put_intent(out, &state.lifecycle_intent);
    put_recents(out, state.recent_inputs.as_slice());
    put_blocks(out, state.canonical_history.as_slice());
    put_tail(out, state);
    proof {
        reveal(enc_middle);
        lemma_cat5(
            old(out)@,
            rlp_list(flat_generations(state.owner_generations@)),
            enc_intent(state.lifecycle_intent@),
            rlp_list(flat_recent(recent_view(state.recent_inputs@))),
            rlp_list(flat_blocks(state.canonical_history@)),
            enc_tail(state@),
        );
    }
}

/// Appends the payload of a checkpoint.
pub(crate) fn put_checkpoint(out: &mut Vec<u8>, state: &HybridCheckpointV5)
    ensures
        final(out)@ == old(out)@ + enc_checkpoint(state@),
{
    let mut body: Vec<u8> = Vec::new();
    write_u64(&mut body, state.chain_id);
    let epoch: Vec<u8> = state.epoch.to_vec();
    write_bytes(&mut body, epoch.as_slice());
    write_u64(&mut body, state.next_synthetic_token);
    write_u64(&mut body, state.lifecycle_generation);
    put_middle(&mut body, state);
    proof {
        lemma_cat5(Seq::empty(), rlp_uint(state.chain_id as nat), rlp_string( state.epoch.bytes(), ), rlp_uint(state.next_synthetic_token as nat), rlp_uint( state.lifecycle_generation as nat, ), enc_middle(state@));
    }
    put_list(out, body);
}

} // verus!
