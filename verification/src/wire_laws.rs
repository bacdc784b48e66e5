//! What reading gives back of writing, and that reading accepts one form only.
//!
//! For each value, `rt_` states that the value which was written is read back,
//! at the cost that `cost_` gives, and `cn_` that what was read is exactly what
//! would be written for the value read.
use crate::audience::{CoverageView, RecordWitness, WitnessLifecycle};
use crate::checkpoint::{
    CertifiedHistoricalCoverage, CheckpointView, HybridSource, HybridTokenKind, IntentView,
    RecentView, SourceView, StoredRecentInput, TokenView,
};
use crate::decode::{
    checkpoint_of, claim_nodes, counted_items, lemma_block_shrinks, lemma_digests_shrinks,
    lemma_generations_shrinks, lemma_recent_shrinks, no_budget, owner_heap, p_block, p_block_items,
    p_blocks, p_body, p_bool, p_bytes, p_certified, p_checkpoint, p_coverage, p_digests,
    p_digests_entry, p_digests_items, p_epoch, p_generations, p_generations_entry,
    p_generations_items, p_handler, p_hash, p_head, p_identity, p_input_body, p_input_ref, p_intent,
    p_kind, p_lifecycle, p_list, p_opt_block, p_opt_bytes, p_opt_certified, p_opt_hash, p_opt_token,
    p_opt_u64, p_opt_witness, p_recent, p_recent_items, p_recents, p_source, p_source_tag, p_tail,
    p_token, p_token_kind, p_u64, p_u8, p_witness, BodyFields, Budget, Cursor, HeadFields,
    MAX_CANONICAL_HISTORY, MAX_CHECKPOINT_PAYLOAD_BYTES, MAX_HANDLER_ID_BYTES, MAX_OWNER_ENTRIES,
    MAX_RECENT_INPUTS, TailFields,
};
use crate::error::SubscriberError;
use crate::model::{handler_bytes, BlockRef, InputRef, ReactiveInputIdentity, ReactiveInputKind};
use crate::owners::{bytes_lt, lemma_bytes_lt_transitive, sorted_keys, OwnerEntry};
use crate::rlp::{
    array_decode, header_decode, item_decode, lemma_be_value_bound, lemma_bool_canonical,
    lemma_bool_round_trip, lemma_item_canonical, lemma_list_round_trip, lemma_string_round_trip,
    lemma_uint_canonical, lemma_uint_round_trip, rlp_bool, rlp_header, rlp_list, rlp_string,
    rlp_uint, uint_decode,
};
use crate::wire::{
    enc_block, enc_certified, enc_checkpoint, enc_coverage, enc_digest_entry, enc_generation,
    enc_hash, enc_identity, enc_input_ref, enc_intent, enc_middle, enc_opt_block, enc_opt_bytes,
    enc_opt_certified, enc_opt_hash, enc_opt_token, enc_opt_u64, enc_opt_witness, enc_recent,
    enc_source, enc_tail, enc_token, enc_witness, flat_blocks, flat_digests, flat_generations,
    flat_recent, kind_tag, lemma_header_len, lifecycle_tag,
};
use crate::words::{B256, Epoch};
use vstd::prelude::*;

verus! {

/// One budget added to another.
pub open spec fn sum(a: Budget, b: Budget) -> Budget {
    a.plus(b.nodes, b.heap, b.owners)
}

/// A cost of nodes alone.
pub open spec fn nodes(n: nat) -> Budget {
    Budget { nodes: n, heap: 0, owners: 0 }
}

/// Whether a handler id can stand in a checkpoint.
pub open spec fn handler_ok(k: Seq<u8>) -> bool {
    handler_bytes(k) && k.len() <= MAX_HANDLER_ID_BYTES
}

// ---------------------------------------------------------------------------
// Single items
// ---------------------------------------------------------------------------

proof fn lemma_uint_bound(s: Seq<u8>)
    ensures
        match uint_decode(s, 8) {
            Ok((x, _)) => x <= u64::MAX,
            Err(_) => true,
        },
        match uint_decode(s, 1) {
            Ok((x, _)) => x <= u8::MAX,
            Err(_) => true,
        },
{
    if let Ok((payload, _)) = item_decode(s, false) {
        lemma_be_value_bound(payload);
        vstd::arithmetic::power::lemma_pow1(256);
        vstd::arithmetic::power::lemma_pow_adds(256, 1, 1);
        vstd::arithmetic::power::lemma_pow_adds(256, 2, 2);
        vstd::arithmetic::power::lemma_pow_adds(256, 4, 4);
        let p = vstd::arithmetic::power::pow(256, 2);
        let q = vstd::arithmetic::power::pow(256, 4);
        assert(p == 0x1_0000);
        assert(q == 0x1_0000_0000) by (nonlinear_arith)
            requires
                p == 0x1_0000,
                q == p * p,
        ;
        assert(q * q == 0x1_0000_0000_0000_0000) by (nonlinear_arith)
            requires
                q == 0x1_0000_0000,
        ;
        if payload.len() <= 8 {
            vstd::arithmetic::power::lemma_pow_increases(256, payload.len(), 8);
        }
        if payload.len() <= 1 {
            vstd::arithmetic::power::lemma_pow_increases(256, payload.len(), 1);
        }
    }
}

proof fn rt_u64(x: u64, c: Cursor, context: &'static str, rest: Seq<u8>)
    requires
        c.s == rlp_uint(x as nat) + rest,
    ensures
        p_u64(c, context) == Ok::<_, SubscriberError>((x, Cursor { s: rest, b: c.b })),
{
    lemma_uint_round_trip(x as nat, 8, rest);
}

proof fn cn_u64(c: Cursor, context: &'static str)
    ensures
        match p_u64(c, context) {
            Ok((x, n)) => c.s == rlp_uint(x as nat) + n.s && n.b == c.b,
            Err(_) => true,
        },
{
    lemma_uint_canonical(c.s, 8);
    lemma_uint_bound(c.s);
}

proof fn rt_u8(x: u8, c: Cursor, context: &'static str, rest: Seq<u8>)
    requires
        c.s == rlp_uint(x as nat) + rest,
    ensures
        p_u8(c, context) == Ok::<_, SubscriberError>((x, Cursor { s: rest, b: c.b })),
{
    lemma_uint_round_trip(x as nat, 1, rest);
}

proof fn cn_u8(c: Cursor, context: &'static str)
    ensures
        match p_u8(c, context) {
            Ok((x, n)) => c.s == rlp_uint(x as nat) + n.s && n.b == c.b,
            Err(_) => true,
        },
{
    lemma_uint_canonical(c.s, 1);
    lemma_uint_bound(c.s);
}

proof fn rt_bool(x: bool, c: Cursor, context: &'static str, rest: Seq<u8>)
    requires
        c.s == rlp_bool(x) + rest,
    ensures
        p_bool(c, context) == Ok::<_, SubscriberError>((x, Cursor { s: rest, b: c.b })),
{
    lemma_bool_round_trip(x, rest);
}

proof fn cn_bool(c: Cursor, context: &'static str)
    ensures
        match p_bool(c, context) {
            Ok((x, n)) => c.s == rlp_bool(x) + n.s && n.b == c.b,
            Err(_) => true,
        },
{
    lemma_bool_canonical(c.s);
}

proof fn rt_hash(x: B256, c: Cursor, context: &'static str, rest: Seq<u8>)
    requires
        c.s == enc_hash(x) + rest,
    ensures
        p_hash(c, context) == Ok::<_, SubscriberError>((x, Cursor { s: rest, b: c.b })),
{
    x.lemma_of_bytes();
    lemma_string_round_trip(x.bytes(), rest);
}

proof fn cn_hash(c: Cursor, context: &'static str)
    ensures
        match p_hash(c, context) {
            Ok((x, n)) => c.s == enc_hash(x) + n.s && n.b == c.b,
            Err(_) => true,
        },
{
    lemma_item_canonical(c.s, false);
    if let Ok((payload, _)) = array_decode(c.s, 32) {
        B256::lemma_bytes_of(payload);
    }
}

proof fn rt_epoch(x: Epoch, c: Cursor, context: &'static str, rest: Seq<u8>)
    requires
        c.s == rlp_string(x.bytes()) + rest,
    ensures
        p_epoch(c, context) == Ok::<_, SubscriberError>((x, Cursor { s: rest, b: c.b })),
{
    x.lemma_of_bytes();
    lemma_string_round_trip(x.bytes(), rest);
}

proof fn cn_epoch(c: Cursor, context: &'static str)
    ensures
        match p_epoch(c, context) {
            Ok((x, n)) => c.s == rlp_string(x.bytes()) + n.s && n.b == c.b,
            Err(_) => true,
        },
{
    lemma_item_canonical(c.s, false);
    if let Ok((payload, _)) = array_decode(c.s, 16) {
        Epoch::lemma_bytes_of(payload);
    }
}

pub open spec fn cost_bytes(x: Seq<u8>) -> Budget {
    Budget { nodes: 1, heap: x.len(), owners: 0 }
}

proof fn rt_bytes(x: Seq<u8>, c: Cursor, context: &'static str, rest: Seq<u8>)
    requires
        c.s == rlp_string(x) + rest,
        x.len() <= MAX_CHECKPOINT_PAYLOAD_BYTES,
        sum(c.b, cost_bytes(x)).within(),
    ensures
        p_bytes(c, MAX_CHECKPOINT_PAYLOAD_BYTES, context) == Ok::<_, SubscriberError>(
            (x, Cursor { s: rest, b: sum(c.b, cost_bytes(x)) }),
        ),
{
    lemma_string_round_trip(x, rest);
}

proof fn cn_bytes(c: Cursor, context: &'static str)
    requires
        c.b.within(),
    ensures
        match p_bytes(c, MAX_CHECKPOINT_PAYLOAD_BYTES, context) {
            Ok((x, n)) => c.s == rlp_string(x) + n.s && n.b == sum(c.b, cost_bytes(x))
                && n.b.within() && x.len() <= MAX_CHECKPOINT_PAYLOAD_BYTES,
            Err(_) => true,
        },
{
    lemma_item_canonical(c.s, false);
}

proof fn rt_handler(x: Seq<u8>, c: Cursor, context: &'static str, rest: Seq<u8>)
    requires
        c.s == rlp_string(x) + rest,
        handler_ok(x),
        sum(c.b, cost_bytes(x)).within(),
    ensures
        p_handler(c, context) == Ok::<_, SubscriberError>(
            (x, Cursor { s: rest, b: sum(c.b, cost_bytes(x)) }),
        ),
{
    lemma_string_round_trip(x, rest);
}

proof fn cn_handler(c: Cursor, context: &'static str)
    requires
        c.b.within(),
    ensures
        match p_handler(c, context) {
            Ok((x, n)) => c.s == rlp_string(x) + n.s && n.b == sum(c.b, cost_bytes(x))
                && n.b.within() && handler_ok(x),
            Err(_) => true,
        },
{
    lemma_item_canonical(c.s, false);
}

/// A list is longer than its payload.
proof fn lemma_list_len(p: Seq<u8>)
    ensures
        rlp_list(p).len() > p.len(),
        rlp_list(p).len() == rlp_header(true, p.len()).len() + p.len(),
{
    lemma_header_len(true, p.len());
}

proof fn lemma_end(s: Seq<u8>)
    ensures
        s + Seq::<u8>::empty() == s,
{
    assert(s + Seq::<u8>::empty() =~= s);
}

/// The last item of a list is followed by nothing.
proof fn lemma_no_rest(s: Seq<u8>)
    requires
        s.len() == 0,
    ensures
        s == Seq::<u8>::empty(),
{
    assert(s =~= Seq::<u8>::empty());
}

/// An item that is written takes at least one byte.
proof fn lemma_string_len(b: Seq<u8>)
    ensures
        rlp_string(b).len() >= 1,
        rlp_string(b).len() >= b.len(),
{
    lemma_header_len(false, b.len());
}

proof fn rt_kind(x: ReactiveInputKind, c: Cursor, rest: Seq<u8>)
    requires
        c.s == rlp_uint(kind_tag(x) as nat) + rest,
    ensures
        p_kind(c) == Ok::<_, SubscriberError>((x, Cursor { s: rest, b: c.b })),
{
    rt_u8(kind_tag(x), c, "reactive-input kind", rest);
}

proof fn cn_kind(c: Cursor)
    ensures
        match p_kind(c) {
            Ok((x, n)) => c.s == rlp_uint(kind_tag(x) as nat) + n.s && n.b == c.b,
            Err(_) => true,
        },
{
    cn_u8(c, "reactive-input kind");
}

proof fn rt_lifecycle(x: WitnessLifecycle, c: Cursor, rest: Seq<u8>)
    requires
        c.s == rlp_uint(lifecycle_tag(x) as nat) + rest,
    ensures
        p_lifecycle(c) == Ok::<_, SubscriberError>((x, Cursor { s: rest, b: c.b })),
{
    rt_u8(lifecycle_tag(x), c, "record-witness lifecycle", rest);
}

proof fn cn_lifecycle(c: Cursor)
    ensures
        match p_lifecycle(c) {
            Ok((x, n)) => c.s == rlp_uint(lifecycle_tag(x) as nat) + n.s && n.b == c.b,
            Err(_) => true,
        },
{
    cn_u8(c, "record-witness lifecycle");
}

proof fn rt_source_tag(x: HybridSource, c: Cursor, rest: Seq<u8>)
    requires
        c.s == rlp_uint(x.spec_tag() as nat) + rest,
    ensures
        p_source_tag(c) == Ok::<_, SubscriberError>((x, Cursor { s: rest, b: c.b })),
{
    rt_u8(x.spec_tag(), c, "hybrid source", rest);
}

proof fn cn_source_tag(c: Cursor)
    ensures
        match p_source_tag(c) {
            Ok((x, n)) => c.s == rlp_uint(x.spec_tag() as nat) + n.s && n.b == c.b,
            Err(_) => true,
        },
{
    cn_u8(c, "hybrid source");
}

proof fn rt_token_kind(x: HybridTokenKind, c: Cursor, rest: Seq<u8>)
    requires
        c.s == rlp_uint(x.spec_tag() as nat) + rest,
    ensures
        p_token_kind(c) == Ok::<_, SubscriberError>((x, Cursor { s: rest, b: c.b })),
{
    rt_u8(x.spec_tag(), c, "hybrid token kind", rest);
}

proof fn cn_token_kind(c: Cursor)
    ensures
        match p_token_kind(c) {
            Ok((x, n)) => c.s == rlp_uint(x.spec_tag() as nat) + n.s && n.b == c.b,
            Err(_) => true,
        },
{
    cn_u8(c, "hybrid token kind");
}

proof fn lemma_pos_u64(x: u64)
    ensures
        rlp_uint(x as nat).len() >= 1,
{
    lemma_string_len(crate::rlp::be_bytes(x as nat));
}

proof fn lemma_pos_hash(x: B256)
    ensures
        enc_hash(x).len() >= 1,
{
    lemma_string_len(x.bytes());
}

proof fn lemma_pos_bytes(x: Seq<u8>)
    ensures
        rlp_string(x).len() >= 1,
{
    lemma_string_len(x);
}

pub open spec fn cost_opt_u64(value: Option<u64>) -> Budget {
    match value {
        Some(x) => sum(nodes(1), nodes(0)),
        None => nodes(1),
    }
}

proof fn rt_opt_u64(value: Option<u64>, c: Cursor, context: &'static str, rest: Seq<u8>)
    requires
        c.s == enc_opt_u64(value) + rest,
        enc_opt_u64(value).len() <= usize::MAX,
        sum(c.b, cost_opt_u64(value)).within(),
    ensures
        p_opt_u64(c, context) == Ok::<_, SubscriberError>(
            (value, Cursor { s: rest, b: sum(c.b, cost_opt_u64(value)) }),
        ),
{
    reveal(p_opt_u64);
    match value {
        None => {
            lemma_list_len(Seq::empty());
            lemma_list_round_trip(Seq::empty(), rest);
        },
        Some(x) => {
            let payload = rlp_uint(x as nat);
            lemma_list_len(payload);
            lemma_list_round_trip(payload, rest);
            lemma_end(payload);
            lemma_pos_u64(x);
            rt_u64(x, Cursor { s: payload, b: sum(c.b, nodes(1)) }, context, Seq::empty());
        },
    }
}

proof fn cn_opt_u64(c: Cursor, context: &'static str)
    requires
        c.b.within(),
    ensures
        match p_opt_u64(c, context) {
            Ok((x, n)) => c.s == enc_opt_u64(x) + n.s && n.b == sum(c.b, cost_opt_u64(x))
                && n.b.within(),
            Err(_) => true,
        },
{
    reveal(p_opt_u64);
    lemma_item_canonical(c.s, true);
    if let Ok((payload, rest)) = p_list(c.s, context) {
        if let Ok(b) = claim_nodes(c.b, 1) {
            if payload.len() == 0 {
                lemma_no_rest(payload);
            } else {
                let inner = Cursor { s: payload, b };
                cn_u64(inner, context);
                if let Ok((x, n)) = p_u64(inner, context) {
                    if n.s.len() == 0 {
                        lemma_no_rest(n.s);
                        lemma_end(rlp_uint(x as nat));
                    }
                }
            }
        }
    }
}

pub open spec fn cost_opt_hash(value: Option<B256>) -> Budget {
    match value {
        Some(x) => sum(nodes(1), nodes(0)),
        None => nodes(1),
    }
}

proof fn rt_opt_hash(value: Option<B256>, c: Cursor, context: &'static str, rest: Seq<u8>)
    requires
        c.s == enc_opt_hash(value) + rest,
        enc_opt_hash(value).len() <= usize::MAX,
        sum(c.b, cost_opt_hash(value)).within(),
    ensures
        p_opt_hash(c, context) == Ok::<_, SubscriberError>(
            (value, Cursor { s: rest, b: sum(c.b, cost_opt_hash(value)) }),
        ),
{
    reveal(p_opt_hash);
    match value {
        None => {
            lemma_list_len(Seq::empty());
            lemma_list_round_trip(Seq::empty(), rest);
        },
        Some(x) => {
            let payload = enc_hash(x);
            lemma_list_len(payload);
            lemma_list_round_trip(payload, rest);
            lemma_end(payload);
            lemma_pos_hash(x);
            rt_hash(x, Cursor { s: payload, b: sum(c.b, nodes(1)) }, context, Seq::empty());
        },
    }
}

proof fn cn_opt_hash(c: Cursor, context: &'static str)
    requires
        c.b.within(),
    ensures
        match p_opt_hash(c, context) {
            Ok((x, n)) => c.s == enc_opt_hash(x) + n.s && n.b == sum(c.b, cost_opt_hash(x))
                && n.b.within(),
            Err(_) => true,
        },
{
    reveal(p_opt_hash);
    lemma_item_canonical(c.s, true);
    if let Ok((payload, rest)) = p_list(c.s, context) {
        if let Ok(b) = claim_nodes(c.b, 1) {
            if payload.len() == 0 {
                lemma_no_rest(payload);
            } else {
                let inner = Cursor { s: payload, b };
                cn_hash(inner, context);
                if let Ok((x, n)) = p_hash(inner, context) {
                    if n.s.len() == 0 {
                        lemma_no_rest(n.s);
                        lemma_end(enc_hash(x));
                    }
                }
            }
        }
    }
}

pub open spec fn cost_opt_bytes(value: Option<Seq<u8>>) -> Budget {
    match value {
        Some(x) => sum(nodes(1), cost_bytes(x)),
        None => nodes(1),
    }
}

pub open spec fn ok_opt_bytes(value: Option<Seq<u8>>) -> bool {
    value is Some ==> {
        let x = value->Some_0;
        x.len() <= MAX_CHECKPOINT_PAYLOAD_BYTES
    }
}

proof fn rt_opt_bytes(value: Option<Seq<u8>>, c: Cursor, context: &'static str, rest: Seq<u8>)
    requires
        c.s == enc_opt_bytes(value) + rest,
        enc_opt_bytes(value).len() <= usize::MAX,
        ok_opt_bytes(value),
        sum(c.b, cost_opt_bytes(value)).within(),
    ensures
        p_opt_bytes(c, context) == Ok::<_, SubscriberError>(
            (value, Cursor { s: rest, b: sum(c.b, cost_opt_bytes(value)) }),
        ),
{
    reveal(p_opt_bytes);
    match value {
        None => {
            lemma_list_len(Seq::empty());
            lemma_list_round_trip(Seq::empty(), rest);
        },
        Some(x) => {
            let payload = rlp_string(x);
            lemma_list_len(payload);
            lemma_list_round_trip(payload, rest);
            lemma_end(payload);
            lemma_pos_bytes(x);
            rt_bytes(x, Cursor { s: payload, b: sum(c.b, nodes(1)) }, context, Seq::empty());
        },
    }
}

proof fn cn_opt_bytes(c: Cursor, context: &'static str)
    requires
        c.b.within(),
    ensures
        match p_opt_bytes(c, context) {
            Ok((x, n)) => c.s == enc_opt_bytes(x) + n.s && n.b == sum(c.b, cost_opt_bytes(x))
                && n.b.within() && ok_opt_bytes(x),
            Err(_) => true,
        },
{
    reveal(p_opt_bytes);
    lemma_item_canonical(c.s, true);
    if let Ok((payload, rest)) = p_list(c.s, context) {
        if let Ok(b) = claim_nodes(c.b, 1) {
            if payload.len() == 0 {
                lemma_no_rest(payload);
            } else {
                let inner = Cursor { s: payload, b };
                cn_bytes(inner, context);
                if let Ok((x, n)) = p_bytes(inner, MAX_CHECKPOINT_PAYLOAD_BYTES, context) {
                    if n.s.len() == 0 {
                        lemma_no_rest(n.s);
                        lemma_end(rlp_string(x));
                    }
                }
            }
        }
    }
}

pub open spec fn cost_block(x: BlockRef) -> Budget {
    sum(sum(nodes(1), cost_opt_hash(x.parent_hash)), cost_opt_u64(x.timestamp))
}

proof fn rt_block(x: BlockRef, c: Cursor, rest: Seq<u8>)
    requires
        c.s == enc_block(x) + rest,
        enc_block(x).len() <= usize::MAX,
        sum(c.b, cost_block(x)).within(),
    ensures
        p_block(c) == Ok::<_, SubscriberError>(
            (x, Cursor { s: rest, b: sum(c.b, cost_block(x)) }),
        ),
{
    reveal(p_block);
    let t4 = Seq::<u8>::empty();
    let t3 = enc_opt_u64(x.timestamp);
    lemma_end(t3);
    let t2 = enc_opt_hash(x.parent_hash) + t3;
    let t1 = enc_hash(x.hash) + t2;
    let t0 = rlp_uint(x.number as nat) + t1;
    lemma_list_len(t0);
    lemma_list_round_trip(t0, rest);
    let b0 = sum(c.b, nodes(1));
    rt_u64(x.number, Cursor { s: t0, b: b0 }, "block number", t1);
    let b1 = b0;
    rt_hash(x.hash, Cursor { s: t1, b: b1 }, "block hash", t2);
    let b2 = b1;
    rt_opt_hash(x.parent_hash, Cursor { s: t2, b: b2 }, "block parent hash", t3);
    let b3 = sum(b2, cost_opt_hash(x.parent_hash));
    rt_opt_u64(x.timestamp, Cursor { s: t3, b: b3 }, "block timestamp", t4);
    let b4 = sum(b3, cost_opt_u64(x.timestamp));
    assert(b4 == sum(c.b, cost_block(x)));
}

proof fn cn_block(c: Cursor)
    requires
        c.b.within(),
    ensures
        match p_block(c) {
            Ok((x, n)) => c.s == enc_block(x) + n.s && n.b == sum(c.b, cost_block(x))
                && n.b.within(),
            Err(_) => true,
        },
{
    reveal(p_block);
    if let Ok((x, n)) = p_block(c) {
        lemma_item_canonical(c.s, true);
        let (t0, rest) = p_list(c.s, "block reference")->Ok_0;
        let c0 = Cursor { s: t0, b: sum(c.b, nodes(1)) };
        cn_u64(c0, "block number");
        let c1 = p_u64(c0, "block number")->Ok_0.1;
        cn_hash(c1, "block hash");
        let c2 = p_hash(c1, "block hash")->Ok_0.1;
        cn_opt_hash(c2, "block parent hash");
        let c3 = p_opt_hash(c2, "block parent hash")->Ok_0.1;
        cn_opt_u64(c3, "block timestamp");
        let c4 = p_opt_u64(c3, "block timestamp")->Ok_0.1;
        lemma_no_rest(c4.s);
        lemma_end(enc_opt_u64(x.timestamp));
        assert(t0 == rlp_uint(x.number as nat) + (enc_hash(x.hash) + (enc_opt_hash(x.parent_hash) + (enc_opt_u64(x.timestamp)))));
        assert(n.b == sum(c.b, cost_block(x)));
    }
}

proof fn lemma_pos_block(x: BlockRef)
    ensures
        enc_block(x).len() >= 1,
{
    lemma_list_len(rlp_uint(x.number as nat) + (enc_hash(x.hash) + (enc_opt_hash(x.parent_hash) + (enc_opt_u64(x.timestamp)))));
}

pub open spec fn cost_opt_block(value: Option<BlockRef>) -> Budget {
    match value {
        Some(x) => sum(nodes(1), cost_block(x)),
        None => nodes(1),
    }
}

proof fn rt_opt_block(value: Option<BlockRef>, c: Cursor, context: &'static str, rest: Seq<u8>)
    requires
        c.s == enc_opt_block(value) + rest,
        enc_opt_block(value).len() <= usize::MAX,
        sum(c.b, cost_opt_block(value)).within(),
    ensures
        p_opt_block(c, context) == Ok::<_, SubscriberError>(
            (value, Cursor { s: rest, b: sum(c.b, cost_opt_block(value)) }),
        ),
{
    reveal(p_opt_block);
    match value {
        None => {
            lemma_list_len(Seq::empty());
            lemma_list_round_trip(Seq::empty(), rest);
        },
        Some(x) => {
            let payload = enc_block(x);
            lemma_list_len(payload);
            lemma_list_round_trip(payload, rest);
            lemma_end(payload);
            lemma_pos_block(x);
            rt_block(x, Cursor { s: payload, b: sum(c.b, nodes(1)) }, Seq::empty());
        },
    }
}

proof fn cn_opt_block(c: Cursor, context: &'static str)
    requires
        c.b.within(),
    ensures
        match p_opt_block(c, context) {
            Ok((x, n)) => c.s == enc_opt_block(x) + n.s && n.b == sum(c.b, cost_opt_block(x))
                && n.b.within(),
            Err(_) => true,
        },
{
    reveal(p_opt_block);
    lemma_item_canonical(c.s, true);
    if let Ok((payload, rest)) = p_list(c.s, context) {
        if let Ok(b) = claim_nodes(c.b, 1) {
            if payload.len() == 0 {
                lemma_no_rest(payload);
            } else {
                let inner = Cursor { s: payload, b };
                cn_block(inner);
                if let Ok((x, n)) = p_block(inner) {
                    if n.s.len() == 0 {
                        lemma_no_rest(n.s);
                        lemma_end(enc_block(x));
                    }
                }
            }
        }
    }
}

/// The header of an item that was written leads to what follows it.
proof fn lemma_head_block(x: BlockRef, rest: Seq<u8>)
    requires
        (enc_block(x) + rest).len() <= usize::MAX,
    ensures
        header_decode(enc_block(x) + rest) is Ok,
        (enc_block(x) + rest).skip(
            (header_decode(enc_block(x) + rest)->Ok_0.consumed + header_decode(
                enc_block(x) + rest,
            )->Ok_0.payload) as int,
        ) == rest,
{
    let p = rlp_uint(x.number as nat) + (enc_hash(x.hash) + (enc_opt_hash(x.parent_hash) + enc_opt_u64(x.timestamp)));
    lemma_list_len(p);
    lemma_list_round_trip(p, rest);
    assert((enc_block(x) + rest).skip(rlp_list(p).len() as int) =~= rest);
}

/// What the items of a list cost.
pub open spec fn cost_block_items(s: Seq<BlockRef>) -> Budget
    decreases s.len(),
{
    if s.len() == 0 {
        nodes(0)
    } else {
        sum(cost_block(s[0]), cost_block_items(s.drop_first()))
    }
}

pub open spec fn cost_blocks(s: Seq<BlockRef>) -> Budget {
    sum(
        Budget {
            nodes: s.len(),
            heap: vstd::layout::size_of::<BlockRef>() * s.len(),
            owners: 0,
        },
        cost_block_items(s),
    )
}

pub open spec fn ok_blocks(s: Seq<BlockRef>) -> bool {
    s.len() <= MAX_CANONICAL_HISTORY
}

/// Counting items that were written gives their number.
proof fn lemma_count_blocks(s: Seq<BlockRef>, max: usize, context: &'static str, count: nat)
    requires
        flat_blocks(s).len() <= usize::MAX,
    ensures
        count + s.len() <= max ==> counted_items(flat_blocks(s), max, context, count) == Ok::<
            _,
            SubscriberError,
        >(count + s.len()),
        count + s.len() > max ==> counted_items(flat_blocks(s), max, context, count) is Err || s.len()
            == 0,
    decreases s.len(),
{
    if s.len() > 0 {
        let rest = flat_blocks(s.drop_first());
        lemma_pos_block(s[0]);
        lemma_head_block(s[0], rest);
        if count + 1 <= max {
            lemma_count_blocks(s.drop_first(), max, context, count + 1);
        }
    }
}

proof fn rt_block_items(s: Seq<BlockRef>, c: Cursor)
    requires
        c.s == flat_blocks(s),
        c.s.len() <= usize::MAX,
        ok_blocks(s) || s.len() <= MAX_CANONICAL_HISTORY,
        sum(c.b, cost_block_items(s)).within(),
    ensures
        p_block_items(c) == Ok::<_, SubscriberError>(
            (s, Cursor { s: Seq::empty(), b: sum(c.b, cost_block_items(s)) }),
        ),
    decreases s.len(),
{
    if s.len() == 0 {
        assert(s =~= Seq::<BlockRef>::empty());
        assert(c.b == sum(c.b, nodes(0)));
    } else {
        let tail = s.drop_first();
        lemma_pos_block(s[0]);
        rt_block(s[0], c, flat_blocks(tail));
        let next = Cursor { s: flat_blocks(tail), b: sum(c.b, cost_block(s[0])) };
        
        rt_block_items(tail, next);
        assert(sum(next.b, cost_block_items(tail)) == sum(c.b, cost_block_items(s)));
        assert(seq![s[0]] + tail =~= s);
    }
}

#[verifier::rlimit(60)]
proof fn cn_block_items(c: Cursor)
    requires
        c.b.within(),
    ensures
        match p_block_items(c) {
            Ok((s, end)) => c.s == flat_blocks(s) && end.s.len() == 0 && end.b == sum(
                c.b,
                cost_block_items(s),
            ) && end.b.within(),
            Err(_) => true,
        },
    decreases c.s.len(),
{
    if c.s.len() == 0 {
        lemma_no_rest(c.s);
        assert(c.b == sum(c.b, nodes(0)));
    } else {
        cn_block(c);
        lemma_block_shrinks(c);
        if let Ok((x, next)) = p_block(c) {
            cn_block_items(next);
            if let Ok((xs, end)) = p_block_items(next) {
                let s = seq![x] + xs;
                assert(s.drop_first() =~= xs);
                assert(s[0] == x);
                assert(end.b == sum(c.b, cost_block_items(s)));
                
            }
        }
    }
}

proof fn rt_blocks(s: Seq<BlockRef>, c: Cursor, context: &'static str, rest: Seq<u8>)
    requires
        c.s == rlp_list(flat_blocks(s)) + rest,
        rlp_list(flat_blocks(s)).len() <= usize::MAX,
        ok_blocks(s),
        sum(c.b, cost_blocks(s)).within(),
    ensures
        p_blocks(c, context) == Ok::<_, SubscriberError>(
            (s, Cursor { s: rest, b: sum(c.b, cost_blocks(s)) }),
        ),
{
    reveal(p_blocks);
    let payload = flat_blocks(s);
    lemma_list_len(payload);
    lemma_list_round_trip(payload, rest);
    lemma_count_blocks(s, MAX_CANONICAL_HISTORY, context, 0);
    let here = Cursor {
        s: payload,
        b: c.b.plus(s.len(), vstd::layout::size_of::<BlockRef>() * s.len(), 0),
    };
    rt_block_items(s, here);
    assert(sum(here.b, cost_block_items(s)) == sum(c.b, cost_blocks(s)));
}

proof fn cn_blocks(c: Cursor, context: &'static str)
    requires
        c.b.within(),
    ensures
        match p_blocks(c, context) {
            Ok((x, n)) => c.s == rlp_list(flat_blocks(x)) + n.s && n.b == sum(c.b, cost_blocks(x))
                && n.b.within() && ok_blocks(x),
            Err(_) => true,
        },
{
    reveal(p_blocks);
    if let Ok((x, n)) = p_blocks(c, context) {
        lemma_item_canonical(c.s, true);
        let (payload, rest) = p_list(c.s, context)->Ok_0;
        let count = counted_items(payload, MAX_CANONICAL_HISTORY, context, 0)->Ok_0;
        let here = Cursor {
            s: payload,
            b: c.b.plus(count, vstd::layout::size_of::<BlockRef>() * count, 0),
        };
        cn_block_items(here);
        lemma_count_blocks(x, MAX_CANONICAL_HISTORY, context, 0);
        assert(n.b == sum(c.b, cost_blocks(x)));
    }
}

pub open spec fn cost_generations_entry(x: (Seq<u8>, u64)) -> Budget {
    sum(nodes(1), cost_bytes(x.0))
}

/// What the entries of an owner map cost.
pub open spec fn cost_generations_items(s: Seq<(Seq<u8>, u64)>) -> Budget
    decreases s.len(),
{
    if s.len() == 0 {
        nodes(0)
    } else {
        sum(cost_generations_entry(s[0]), cost_generations_items(s.drop_first()))
    }
}

pub open spec fn cost_generations(s: Seq<(Seq<u8>, u64)>) -> Budget {
    sum(
        Budget {
            nodes: s.len() + 1,
            heap: owner_heap(vstd::layout::size_of::<OwnerEntry<u64>>(), s.len()),
            owners: s.len(),
        },
        cost_generations_items(s),
    )
}

pub open spec fn ok_generations(s: Seq<(Seq<u8>, u64)>) -> bool {
    s.len() <= MAX_OWNER_ENTRIES && sorted_keys(s) && forall|i: int|
        0 <= i < s.len() ==> handler_ok((#[trigger] s[i]).0)
}

proof fn rt_generations_entry(x: (Seq<u8>, u64), c: Cursor, prior: Option<Seq<u8>>, rest: Seq<u8>)
    requires
        c.s == enc_generation(x) + rest,
        enc_generation(x).len() <= usize::MAX,
        handler_ok(x.0),
        prior is Some ==> bytes_lt(prior->Some_0, x.0),
        sum(c.b, cost_generations_entry(x)).within(),
    ensures
        p_generations_entry(c, prior) == Ok::<_, SubscriberError>(
            (x, Cursor { s: rest, b: sum(c.b, cost_generations_entry(x)) }),
        ),
{
    reveal(p_generations_entry);
    let last = rlp_uint(x.1 as nat);
    let payload = rlp_string(x.0) + last;
    lemma_list_len(payload);
    lemma_list_round_trip(payload, rest);
    lemma_end(last);
    let b = sum(c.b, nodes(1));
    rt_handler(x.0, Cursor { s: payload, b }, "handler id", last);
    rt_u64(x.1, Cursor { s: last, b: sum(b, cost_bytes(x.0)) }, "owner generation", Seq::empty());
    assert(sum(b, cost_bytes(x.0)) == sum(c.b, cost_generations_entry(x)));
}

proof fn cn_generations_entry(c: Cursor, prior: Option<Seq<u8>>)
    requires
        c.b.within(),
    ensures
        match p_generations_entry(c, prior) {
            Ok((x, n)) => c.s == enc_generation(x) + n.s && n.b == sum(c.b, cost_generations_entry(x))
                && n.b.within() && handler_ok(x.0) && (prior is Some ==> bytes_lt(
                prior->Some_0,
                x.0,
            )),
            Err(_) => true,
        },
{
    reveal(p_generations_entry);
    if let Ok((x, n)) = p_generations_entry(c, prior) {
        lemma_item_canonical(c.s, true);
        let (payload, rest) = p_list(c.s, "owner generations")->Ok_0;
        let c0 = Cursor { s: payload, b: sum(c.b, nodes(1)) };
        cn_handler(c0, "handler id");
        let c1 = p_handler(c0, "handler id")->Ok_0.1;
        cn_u64(c1, "owner generation");
        let c2 = p_u64(c1, "owner generation")->Ok_0.1;
        lemma_no_rest(c2.s);
        lemma_end(rlp_uint(x.1 as nat));
        assert(n.b == sum(c.b, cost_generations_entry(x)));
    }
}

proof fn lemma_head_generations(x: (Seq<u8>, u64), rest: Seq<u8>)
    requires
        (enc_generation(x) + rest).len() <= usize::MAX,
    ensures
        enc_generation(x).len() >= 1,
        header_decode(enc_generation(x) + rest) is Ok,
        (enc_generation(x) + rest).skip(
            (header_decode(enc_generation(x) + rest)->Ok_0.consumed + header_decode(
                enc_generation(x) + rest,
            )->Ok_0.payload) as int,
        ) == rest,
{
    let p = rlp_string(x.0) + rlp_uint(x.1 as nat);
    lemma_list_len(p);
    lemma_list_round_trip(p, rest);
    assert((enc_generation(x) + rest).skip(rlp_list(p).len() as int) =~= rest);
}

/// Counting entries that were written gives their number.
proof fn lemma_count_generations(
    s: Seq<(Seq<u8>, u64)>,
    max: usize,
    context: &'static str,
    count: nat,
)
    requires
        flat_generations(s).len() <= usize::MAX,
    ensures
        count + s.len() <= max ==> counted_items(flat_generations(s), max, context, count) == Ok::<
            _,
            SubscriberError,
        >(count + s.len()),
        count + s.len() > max ==> counted_items(flat_generations(s), max, context, count) is Err || s.len()
            == 0,
    decreases s.len(),
{
    if s.len() > 0 {
        let rest = flat_generations(s.drop_first());
        lemma_head_generations(s[0], rest);
        if count + 1 <= max {
            lemma_count_generations(s.drop_first(), max, context, count + 1);
        }
    }
}

proof fn rt_generations_items(s: Seq<(Seq<u8>, u64)>, c: Cursor, prior: Option<Seq<u8>>)
    requires
        c.s == flat_generations(s),
        c.s.len() <= usize::MAX,
        ok_generations(s),
        prior is Some && s.len() > 0 ==> bytes_lt(prior->Some_0, s[0].0),
        sum(c.b, cost_generations_items(s)).within(),
    ensures
        p_generations_items(c, prior) == Ok::<_, SubscriberError>(
            (s, Cursor { s: Seq::empty(), b: sum(c.b, cost_generations_items(s)) }),
        ),
    decreases s.len(),
{
    if s.len() == 0 {
        assert(s =~= Seq::<(Seq<u8>, u64)>::empty());
        assert(c.b == sum(c.b, nodes(0)));
    } else {
        let tail = s.drop_first();
        lemma_head_generations(s[0], flat_generations(tail));
        rt_generations_entry(s[0], c, prior, flat_generations(tail));
        let next = Cursor { s: flat_generations(tail), b: sum(c.b, cost_generations_entry(s[0])) };
        assert forall|i: int| 0 <= i < tail.len() implies handler_ok((#[trigger] tail[i]).0) by {
            assert(tail[i] == s[i + 1]);
        }
        assert(sorted_keys(tail)) by {
            assert forall|i: int, j: int| 0 <= i < j < tail.len() implies bytes_lt(
                #[trigger] tail[i].0,
                #[trigger] tail[j].0,
            ) by {
                assert(tail[i] == s[i + 1] && tail[j] == s[j + 1]);
            }
        }
        if tail.len() > 0 {
            assert(tail[0] == s[1]);
            assert(bytes_lt(s[0].0, s[1].0));
        }
        rt_generations_items(tail, next, Some(s[0].0));
        assert(sum(next.b, cost_generations_items(tail)) == sum(c.b, cost_generations_items(s)));
        assert(seq![s[0]] + tail =~= s);
    }
}

proof fn cn_generations_items(c: Cursor, prior: Option<Seq<u8>>)
    requires
        c.b.within(),
    ensures
        match p_generations_items(c, prior) {
            Ok((s, end)) => c.s == flat_generations(s) && end.s.len() == 0 && end.b == sum(
                c.b,
                cost_generations_items(s),
            ) && end.b.within() && sorted_keys(s) && (forall|i: int|
                0 <= i < s.len() ==> handler_ok((#[trigger] s[i]).0)) && (prior is Some && s.len()
                > 0 ==> bytes_lt(prior->Some_0, s[0].0)),
            Err(_) => true,
        },
    decreases c.s.len(),
{
    if c.s.len() == 0 {
        lemma_no_rest(c.s);
        assert(c.b == sum(c.b, nodes(0)));
    } else {
        cn_generations_entry(c, prior);
        lemma_generations_shrinks(c, prior);
        if let Ok((x, next)) = p_generations_entry(c, prior) {
            cn_generations_items(next, Some(x.0));
            if let Ok((xs, end)) = p_generations_items(next, Some(x.0)) {
                let s = seq![x] + xs;
                assert(s.drop_first() =~= xs);
                assert(s[0] == x);
                assert(end.b == sum(c.b, cost_generations_items(s)));
                assert forall|i: int| 0 <= i < s.len() implies handler_ok(
                    (#[trigger] s[i]).0,
                ) by {
                    if i > 0 {
                        assert(s[i] == xs[i - 1]);
                    }
                }
                assert forall|i: int, j: int| 0 <= i < j < s.len() implies bytes_lt(
                    #[trigger] s[i].0,
                    #[trigger] s[j].0,
                ) by {
                    assert(s[j] == xs[j - 1]);
                    if i > 0 {
                        assert(s[i] == xs[i - 1]);
                    } else if j > 1 {
                        assert(bytes_lt(xs[0].0, xs[j - 1].0));
                        lemma_bytes_lt_transitive(x.0, xs[0].0, xs[j - 1].0);
                    }
                }
            }
        }
    }
}

proof fn rt_generations(s: Seq<(Seq<u8>, u64)>, c: Cursor, rest: Seq<u8>)
    requires
        c.s == rlp_list(flat_generations(s)) + rest,
        rlp_list(flat_generations(s)).len() <= usize::MAX,
        ok_generations(s),
        sum(c.b, cost_generations(s)).within(),
    ensures
        p_generations(c) == Ok::<_, SubscriberError>(
            (s, Cursor { s: rest, b: sum(c.b, cost_generations(s)) }),
        ),
{
    reveal(p_generations);
    let payload = flat_generations(s);
    lemma_list_len(payload);
    lemma_list_round_trip(payload, rest);
    lemma_count_generations(s, MAX_OWNER_ENTRIES, "owner generations", 0);
    let here = Cursor {
        s: payload,
        b: c.b.plus(
            s.len() + 1,
            owner_heap(vstd::layout::size_of::<OwnerEntry<u64>>(), s.len()),
            s.len(),
        ),
    };
    rt_generations_items(s, here, None);
    assert(sum(here.b, cost_generations_items(s)) == sum(c.b, cost_generations(s)));
}

proof fn cn_generations(c: Cursor)
    requires
        c.b.within(),
    ensures
        match p_generations(c) {
            Ok((x, n)) => c.s == rlp_list(flat_generations(x)) + n.s && n.b == sum(c.b, cost_generations(x))
                && n.b.within() && ok_generations(x),
            Err(_) => true,
        },
{
    reveal(p_generations);
    if let Ok((x, n)) = p_generations(c) {
        lemma_item_canonical(c.s, true);
        let (payload, rest) = p_list(c.s, "owner generations")->Ok_0;
        let count = counted_items(payload, MAX_OWNER_ENTRIES, "owner generations", 0)->Ok_0;
        let here = Cursor {
            s: payload,
            b: c.b.plus(
                count + 1,
                owner_heap(vstd::layout::size_of::<OwnerEntry<u64>>(), count),
                count,
            ),
        };
        cn_generations_items(here, None);
        lemma_count_generations(x, MAX_OWNER_ENTRIES, "owner generations", 0);
        assert(n.b == sum(c.b, cost_generations(x)));
    }
}

pub open spec fn cost_digests_entry(x: (Seq<u8>, B256)) -> Budget {
    sum(nodes(1), cost_bytes(x.0))
}

/// What the entries of an owner map cost.
pub open spec fn cost_digests_items(s: Seq<(Seq<u8>, B256)>) -> Budget
    decreases s.len(),
{
    if s.len() == 0 {
        nodes(0)
    } else {
        sum(cost_digests_entry(s[0]), cost_digests_items(s.drop_first()))
    }
}

pub open spec fn cost_digests(s: Seq<(Seq<u8>, B256)>) -> Budget {
    sum(
        Budget {
            nodes: s.len() + 1,
            heap: owner_heap(vstd::layout::size_of::<OwnerEntry<B256>>(), s.len()),
            owners: s.len(),
        },
        cost_digests_items(s),
    )
}

pub open spec fn ok_digests(s: Seq<(Seq<u8>, B256)>) -> bool {
    s.len() <= MAX_OWNER_ENTRIES && sorted_keys(s) && forall|i: int|
        0 <= i < s.len() ==> handler_ok((#[trigger] s[i]).0)
}

proof fn rt_digests_entry(x: (Seq<u8>, B256), c: Cursor, prior: Option<Seq<u8>>, rest: Seq<u8>)
    requires
        c.s == enc_digest_entry(x) + rest,
        enc_digest_entry(x).len() <= usize::MAX,
        handler_ok(x.0),
        prior is Some ==> bytes_lt(prior->Some_0, x.0),
        sum(c.b, cost_digests_entry(x)).within(),
    ensures
        p_digests_entry(c, prior) == Ok::<_, SubscriberError>(
            (x, Cursor { s: rest, b: sum(c.b, cost_digests_entry(x)) }),
        ),
{
    reveal(p_digests_entry);
    let last = enc_hash(x.1);
    let payload = rlp_string(x.0) + last;
    lemma_list_len(payload);
    lemma_list_round_trip(payload, rest);
    lemma_end(last);
    let b = sum(c.b, nodes(1));
    rt_handler(x.0, Cursor { s: payload, b }, "handler id", last);
    rt_hash(x.1, Cursor { s: last, b: sum(b, cost_bytes(x.0)) }, "lifecycle owner fingerprint", Seq::empty());
    assert(sum(b, cost_bytes(x.0)) == sum(c.b, cost_digests_entry(x)));
}

proof fn cn_digests_entry(c: Cursor, prior: Option<Seq<u8>>)
    requires
        c.b.within(),
    ensures
        match p_digests_entry(c, prior) {
            Ok((x, n)) => c.s == enc_digest_entry(x) + n.s && n.b == sum(c.b, cost_digests_entry(x))
                && n.b.within() && handler_ok(x.0) && (prior is Some ==> bytes_lt(
                prior->Some_0,
                x.0,
            )),
            Err(_) => true,
        },
{
    reveal(p_digests_entry);
    if let Ok((x, n)) = p_digests_entry(c, prior) {
        lemma_item_canonical(c.s, true);
        let (payload, rest) = p_list(c.s, "lifecycle owner fingerprints")->Ok_0;
        let c0 = Cursor { s: payload, b: sum(c.b, nodes(1)) };
        cn_handler(c0, "handler id");
        let c1 = p_handler(c0, "handler id")->Ok_0.1;
        cn_hash(c1, "lifecycle owner fingerprint");
        let c2 = p_hash(c1, "lifecycle owner fingerprint")->Ok_0.1;
        lemma_no_rest(c2.s);
        lemma_end(enc_hash(x.1));
        assert(n.b == sum(c.b, cost_digests_entry(x)));
    }
}

proof fn lemma_head_digests(x: (Seq<u8>, B256), rest: Seq<u8>)
    requires
        (enc_digest_entry(x) + rest).len() <= usize::MAX,
    ensures
        enc_digest_entry(x).len() >= 1,
        header_decode(enc_digest_entry(x) + rest) is Ok,
        (enc_digest_entry(x) + rest).skip(
            (header_decode(enc_digest_entry(x) + rest)->Ok_0.consumed + header_decode(
                enc_digest_entry(x) + rest,
            )->Ok_0.payload) as int,
        ) == rest,
{
    let p = rlp_string(x.0) + enc_hash(x.1);
    lemma_list_len(p);
    lemma_list_round_trip(p, rest);
    assert((enc_digest_entry(x) + rest).skip(rlp_list(p).len() as int) =~= rest);
}

/// Counting entries that were written gives their number.
proof fn lemma_count_digests(
    s: Seq<(Seq<u8>, B256)>,
    max: usize,
    context: &'static str,
    count: nat,
)
    requires
        flat_digests(s).len() <= usize::MAX,
    ensures
        count + s.len() <= max ==> counted_items(flat_digests(s), max, context, count) == Ok::<
            _,
            SubscriberError,
        >(count + s.len()),
        count + s.len() > max ==> counted_items(flat_digests(s), max, context, count) is Err || s.len()
            == 0,
    decreases s.len(),
{
    if s.len() > 0 {
        let rest = flat_digests(s.drop_first());
        lemma_head_digests(s[0], rest);
        if count + 1 <= max {
            lemma_count_digests(s.drop_first(), max, context, count + 1);
        }
    }
}

proof fn rt_digests_items(s: Seq<(Seq<u8>, B256)>, c: Cursor, prior: Option<Seq<u8>>)
    requires
        c.s == flat_digests(s),
        c.s.len() <= usize::MAX,
        ok_digests(s),
        prior is Some && s.len() > 0 ==> bytes_lt(prior->Some_0, s[0].0),
        sum(c.b, cost_digests_items(s)).within(),
    ensures
        p_digests_items(c, prior) == Ok::<_, SubscriberError>(
            (s, Cursor { s: Seq::empty(), b: sum(c.b, cost_digests_items(s)) }),
        ),
    decreases s.len(),
{
    if s.len() == 0 {
        assert(s =~= Seq::<(Seq<u8>, B256)>::empty());
        assert(c.b == sum(c.b, nodes(0)));
    } else {
        let tail = s.drop_first();
        lemma_head_digests(s[0], flat_digests(tail));
        rt_digests_entry(s[0], c, prior, flat_digests(tail));
        let next = Cursor { s: flat_digests(tail), b: sum(c.b, cost_digests_entry(s[0])) };
        assert forall|i: int| 0 <= i < tail.len() implies handler_ok((#[trigger] tail[i]).0) by {
            assert(tail[i] == s[i + 1]);
        }
        assert(sorted_keys(tail)) by {
            assert forall|i: int, j: int| 0 <= i < j < tail.len() implies bytes_lt(
                #[trigger] tail[i].0,
                #[trigger] tail[j].0,
            ) by {
                assert(tail[i] == s[i + 1] && tail[j] == s[j + 1]);
            }
        }
        if tail.len() > 0 {
            assert(tail[0] == s[1]);
            assert(bytes_lt(s[0].0, s[1].0));
        }
        rt_digests_items(tail, next, Some(s[0].0));
        assert(sum(next.b, cost_digests_items(tail)) == sum(c.b, cost_digests_items(s)));
        assert(seq![s[0]] + tail =~= s);
    }
}

proof fn cn_digests_items(c: Cursor, prior: Option<Seq<u8>>)
    requires
        c.b.within(),
    ensures
        match p_digests_items(c, prior) {
            Ok((s, end)) => c.s == flat_digests(s) && end.s.len() == 0 && end.b == sum(
                c.b,
                cost_digests_items(s),
            ) && end.b.within() && sorted_keys(s) && (forall|i: int|
                0 <= i < s.len() ==> handler_ok((#[trigger] s[i]).0)) && (prior is Some && s.len()
                > 0 ==> bytes_lt(prior->Some_0, s[0].0)),
            Err(_) => true,
        },
    decreases c.s.len(),
{
    if c.s.len() == 0 {
        lemma_no_rest(c.s);
        assert(c.b == sum(c.b, nodes(0)));
    } else {
        cn_digests_entry(c, prior);
        lemma_digests_shrinks(c, prior);
        if let Ok((x, next)) = p_digests_entry(c, prior) {
            cn_digests_items(next, Some(x.0));
            if let Ok((xs, end)) = p_digests_items(next, Some(x.0)) {
                let s = seq![x] + xs;
                assert(s.drop_first() =~= xs);
                assert(s[0] == x);
                assert(end.b == sum(c.b, cost_digests_items(s)));
                assert forall|i: int| 0 <= i < s.len() implies handler_ok(
                    (#[trigger] s[i]).0,
                ) by {
                    if i > 0 {
                        assert(s[i] == xs[i - 1]);
                    }
                }
                assert forall|i: int, j: int| 0 <= i < j < s.len() implies bytes_lt(
                    #[trigger] s[i].0,
                    #[trigger] s[j].0,
                ) by {
                    assert(s[j] == xs[j - 1]);
                    if i > 0 {
                        assert(s[i] == xs[i - 1]);
                    } else if j > 1 {
                        assert(bytes_lt(xs[0].0, xs[j - 1].0));
                        lemma_bytes_lt_transitive(x.0, xs[0].0, xs[j - 1].0);
                    }
                }
            }
        }
    }
}

proof fn rt_digests(s: Seq<(Seq<u8>, B256)>, c: Cursor, rest: Seq<u8>)
    requires
        c.s == rlp_list(flat_digests(s)) + rest,
        rlp_list(flat_digests(s)).len() <= usize::MAX,
        ok_digests(s),
        sum(c.b, cost_digests(s)).within(),
    ensures
        p_digests(c) == Ok::<_, SubscriberError>(
            (s, Cursor { s: rest, b: sum(c.b, cost_digests(s)) }),
        ),
{
    reveal(p_digests);
    let payload = flat_digests(s);
    lemma_list_len(payload);
    lemma_list_round_trip(payload, rest);
    lemma_count_digests(s, MAX_OWNER_ENTRIES, "lifecycle owner fingerprints", 0);
    let here = Cursor {
        s: payload,
        b: c.b.plus(
            s.len() + 1,
            owner_heap(vstd::layout::size_of::<OwnerEntry<B256>>(), s.len()),
            s.len(),
        ),
    };
    rt_digests_items(s, here, None);
    assert(sum(here.b, cost_digests_items(s)) == sum(c.b, cost_digests(s)));
}

proof fn cn_digests(c: Cursor)
    requires
        c.b.within(),
    ensures
        match p_digests(c) {
            Ok((x, n)) => c.s == rlp_list(flat_digests(x)) + n.s && n.b == sum(c.b, cost_digests(x))
                && n.b.within() && ok_digests(x),
            Err(_) => true,
        },
{
    reveal(p_digests);
    if let Ok((x, n)) = p_digests(c) {
        lemma_item_canonical(c.s, true);
        let (payload, rest) = p_list(c.s, "lifecycle owner fingerprints")->Ok_0;
        let count = counted_items(payload, MAX_OWNER_ENTRIES, "lifecycle owner fingerprints", 0)->Ok_0;
        let here = Cursor {
            s: payload,
            b: c.b.plus(
                count + 1,
                owner_heap(vstd::layout::size_of::<OwnerEntry<B256>>(), count),
                count,
            ),
        };
        cn_digests_items(here, None);
        lemma_count_digests(x, MAX_OWNER_ENTRIES, "lifecycle owner fingerprints", 0);
        assert(n.b == sum(c.b, cost_digests(x)));
    }
}

pub open spec fn input_tag(x: InputRef) -> u8 {
    match x {
        InputRef::Log { .. } => 1,
        InputRef::PendingTx { .. } => 2,
        InputRef::Block { .. } => 3,
    }
}

/// The fields behind the tag of an input reference.
pub open spec fn enc_input_body(x: InputRef) -> Seq<u8> {
    match x {
        InputRef::Log { chain_id, block_hash, transaction_hash, log_index } => enc_opt_u64(chain_id)
            + (enc_hash(block_hash) + (enc_hash(transaction_hash) + rlp_uint(log_index as nat))),
        InputRef::PendingTx { chain_id, hash } => enc_opt_u64(chain_id) + enc_hash(hash),
        InputRef::Block { chain_id, hash, number } => enc_opt_u64(chain_id) + (enc_hash(hash)
            + rlp_uint(number as nat)),
    }
}

proof fn lemma_opt_u64_len(x: Option<u64>)
    ensures
        1 <= enc_opt_u64(x).len() <= 30,
{
    match x {
        Some(v) => {
            crate::rlp::lemma_be_len_words(v as nat);
            lemma_header_len(false, crate::rlp::be_bytes(v as nat).len());
            lemma_header_len(true, rlp_uint(v as nat).len());
        },
        None => {
            lemma_header_len(true, 0);
        },
    }
}

proof fn rt_input_body(x: InputRef, c: Cursor)
    requires
        c.s == enc_input_body(x),
        sum(c.b, nodes(1)).within(),
    ensures
        p_input_body(c, input_tag(x)) == Ok::<_, SubscriberError>(
            (x, Cursor { s: Seq::empty(), b: sum(c.b, nodes(1)) }),
        ),
{
    reveal(p_input_body);
    let b = sum(c.b, nodes(1));
    match x {
        InputRef::Log { chain_id, block_hash, transaction_hash, log_index } => {
            let t3 = rlp_uint(log_index as nat);
            let t2 = enc_hash(transaction_hash) + t3;
            let t1 = enc_hash(block_hash) + t2;
            lemma_end(t3);
            lemma_opt_u64_len(chain_id);
            rt_opt_u64(chain_id, c, "log chain id", t1);
            rt_hash(block_hash, Cursor { s: t1, b }, "log block hash", t2);
            rt_hash(transaction_hash, Cursor { s: t2, b }, "log transaction hash", t3);
            rt_u64(log_index, Cursor { s: t3, b }, "log index", Seq::empty());
        },
        InputRef::PendingTx { chain_id, hash } => {
            let t1 = enc_hash(hash);
            lemma_end(t1);
            lemma_opt_u64_len(chain_id);
            rt_opt_u64(chain_id, c, "pending transaction chain id", t1);
            rt_hash(hash, Cursor { s: t1, b }, "pending transaction hash", Seq::empty());
        },
        InputRef::Block { chain_id, hash, number } => {
            let t2 = rlp_uint(number as nat);
            let t1 = enc_hash(hash) + t2;
            lemma_end(t2);
            lemma_opt_u64_len(chain_id);
            rt_opt_u64(chain_id, c, "block input chain id", t1);
            rt_hash(hash, Cursor { s: t1, b }, "block input hash", t2);
            rt_u64(number, Cursor { s: t2, b }, "block input number", Seq::empty());
        },
    }
}

/// Concatenation is associative.
proof fn lemma_regroup(a: Seq<u8>, b: Seq<u8>, c: Seq<u8>)
    ensures
        a + (b + c) == (a + b) + c,
{
    assert(a + (b + c) =~= (a + b) + c);
}

#[verifier::rlimit(40)]
proof fn cn_input_body(c: Cursor, tag: u8)
    requires
        c.b.within(),
    ensures
        match p_input_body(c, tag) {
            Ok((x, n)) => c.s == enc_input_body(x) + n.s && n.b == sum(c.b, nodes(1))
                && n.b.within() && tag == input_tag(x),
            Err(_) => true,
        },
{
    reveal(p_input_body);
    if let Ok((x, n)) = p_input_body(c, tag) {
        if tag == 1 {
            cn_opt_u64(c, "log chain id");
            let c1 = p_opt_u64(c, "log chain id")->Ok_0.1;
            cn_hash(c1, "log block hash");
            let c2 = p_hash(c1, "log block hash")->Ok_0.1;
            cn_hash(c2, "log transaction hash");
            let c3 = p_hash(c2, "log transaction hash")->Ok_0.1;
            cn_u64(c3, "log index");
            let a = enc_opt_u64(x->Log_chain_id);
            let b = enc_hash(x->Log_block_hash);
            let d = enc_hash(x->transaction_hash);
            let e = rlp_uint(x->log_index as nat);
            lemma_regroup(b, d, e + n.s);
            lemma_regroup(d, e, n.s);
            lemma_regroup(b, d + e, n.s);
            lemma_regroup(a, b + (d + e), n.s);
        } else if tag == 2 {
            cn_opt_u64(c, "pending transaction chain id");
            let c1 = p_opt_u64(c, "pending transaction chain id")->Ok_0.1;
            cn_hash(c1, "pending transaction hash");
            let a = enc_opt_u64(x->PendingTx_chain_id);
            let b = enc_hash(x->PendingTx_hash);
            lemma_regroup(a, b, n.s);
        } else {
            cn_opt_u64(c, "block input chain id");
            let c1 = p_opt_u64(c, "block input chain id")->Ok_0.1;
            cn_hash(c1, "block input hash");
            let c2 = p_hash(c1, "block input hash")->Ok_0.1;
            cn_u64(c2, "block input number");
            let a = enc_opt_u64(x->Block_chain_id);
            let b = enc_hash(x->Block_hash);
            let d = rlp_uint(x->number as nat);
            lemma_regroup(b, d, n.s);
            lemma_regroup(a, b + d, n.s);
        }
    }
}

pub open spec fn cost_input_ref(x: InputRef) -> Budget {
    nodes(2)
}

proof fn rt_input_ref(x: InputRef, c: Cursor, rest: Seq<u8>)
    requires
        c.s == enc_input_ref(x) + rest,
        enc_input_ref(x).len() <= usize::MAX,
        sum(c.b, cost_input_ref(x)).within(),
    ensures
        p_input_ref(c) == Ok::<_, SubscriberError>(
            (x, Cursor { s: rest, b: sum(c.b, cost_input_ref(x)) }),
        ),
{
    reveal(p_input_ref);
    let t1 = enc_input_body(x);
    let t0 = rlp_uint(input_tag(x) as nat) + t1;
    assert(enc_input_ref(x) == rlp_list(t0));
    lemma_list_len(t0);
    lemma_list_round_trip(t0, rest);
    let b = sum(c.b, nodes(1));
    rt_u8(input_tag(x), Cursor { s: t0, b }, "input-reference tag", t1);
    rt_input_body(x, Cursor { s: t1, b });
    assert(sum(b, nodes(1)) == sum(c.b, cost_input_ref(x)));
}

proof fn cn_input_ref(c: Cursor)
    requires
        c.b.within(),
    ensures
        match p_input_ref(c) {
            Ok((x, n)) => c.s == enc_input_ref(x) + n.s && n.b == sum(c.b, cost_input_ref(x))
                && n.b.within(),
            Err(_) => true,
        },
{
    reveal(p_input_ref);
    if let Ok((x, n)) = p_input_ref(c) {
        lemma_item_canonical(c.s, true);
        let (t0, rest) = p_list(c.s, "input reference")->Ok_0;
        let c0 = Cursor { s: t0, b: sum(c.b, nodes(1)) };
        cn_u8(c0, "input-reference tag");
        let (tag, c1) = p_u8(c0, "input-reference tag")->Ok_0;
        cn_input_body(c1, tag);
        let c2 = p_input_body(c1, tag)->Ok_0.1;
        lemma_no_rest(c2.s);
        lemma_end(enc_input_body(x));
        assert(enc_input_ref(x) == rlp_list(t0));
    }
}

pub open spec fn cost_identity(x: ReactiveInputIdentity) -> Budget {
    sum(nodes(1), cost_input_ref(x.input_ref))
}

pub open spec fn ok_identity(x: ReactiveInputIdentity) -> bool {
    x.compatible()
}

proof fn rt_identity(x: ReactiveInputIdentity, c: Cursor, rest: Seq<u8>)
    requires
        c.s == enc_identity(x) + rest,
        enc_identity(x).len() <= usize::MAX,
        ok_identity(x),
        sum(c.b, cost_identity(x)).within(),
    ensures
        p_identity(c) == Ok::<_, SubscriberError>(
            (x, Cursor { s: rest, b: sum(c.b, cost_identity(x)) }),
        ),
{
    reveal(p_identity);
    let t2 = Seq::<u8>::empty();
    let t1 = rlp_uint(kind_tag(x.kind) as nat);
    lemma_end(t1);
    let t0 = enc_input_ref(x.input_ref) + t1;
    lemma_list_len(t0);
    lemma_list_round_trip(t0, rest);
    let b0 = sum(c.b, nodes(1));
    rt_input_ref(x.input_ref, Cursor { s: t0, b: b0 }, t1);
    let b1 = sum(b0, cost_input_ref(x.input_ref));
    rt_kind(x.kind, Cursor { s: t1, b: b1 }, t2);
    let b2 = b1;
    assert(b2 == sum(c.b, cost_identity(x)));
}

proof fn cn_identity(c: Cursor)
    requires
        c.b.within(),
    ensures
        match p_identity(c) {
            Ok((x, n)) => c.s == enc_identity(x) + n.s && n.b == sum(c.b, cost_identity(x))
                && n.b.within() && ok_identity(x),
            Err(_) => true,
        },
{
    reveal(p_identity);
    if let Ok((x, n)) = p_identity(c) {
        lemma_item_canonical(c.s, true);
        let (t0, rest) = p_list(c.s, "reactive-input identity")->Ok_0;
        let c0 = Cursor { s: t0, b: sum(c.b, nodes(1)) };
        cn_input_ref(c0);
        let c1 = p_input_ref(c0)->Ok_0.1;
        cn_kind(c1);
        let c2 = p_kind(c1)->Ok_0.1;
        lemma_no_rest(c2.s);
        lemma_end(rlp_uint(kind_tag(x.kind) as nat));
        assert(t0 == enc_input_ref(x.input_ref) + (rlp_uint(kind_tag(x.kind) as nat)));
        assert(n.b == sum(c.b, cost_identity(x)));
    }
}

pub open spec fn cost_witness(x: RecordWitness) -> Budget {
    sum(sum(sum(sum(nodes(1), cost_opt_block(x.block)), cost_opt_u64(x.transaction_index)), cost_opt_u64(x.log_index)), cost_opt_u64(x.log_block_timestamp))
}

proof fn rt_witness(x: RecordWitness, c: Cursor, rest: Seq<u8>)
    requires
        c.s == enc_witness(x) + rest,
        enc_witness(x).len() <= usize::MAX,
        sum(c.b, cost_witness(x)).within(),
    ensures
        p_witness(c) == Ok::<_, SubscriberError>(
            (x, Cursor { s: rest, b: sum(c.b, cost_witness(x)) }),
        ),
{
    reveal(p_witness);
    let t7 = Seq::<u8>::empty();
    let t6 = enc_opt_u64(x.log_block_timestamp);
    lemma_end(t6);
    let t5 = enc_opt_u64(x.log_index) + t6;
    let t4 = enc_opt_u64(x.transaction_index) + t5;
    let t3 = enc_opt_block(x.block) + t4;
    let t2 = rlp_uint(lifecycle_tag(x.lifecycle) as nat) + t3;
    let t1 = rlp_uint(x.chain_id as nat) + t2;
    let t0 = enc_hash(x.payload_digest) + t1;
    lemma_list_len(t0);
    lemma_list_round_trip(t0, rest);
    let b0 = sum(c.b, nodes(1));
    rt_hash(x.payload_digest, Cursor { s: t0, b: b0 }, "record payload digest", t1);
    let b1 = b0;
    rt_u64(x.chain_id, Cursor { s: t1, b: b1 }, "record witness chain id", t2);
    let b2 = b1;
    rt_lifecycle(x.lifecycle, Cursor { s: t2, b: b2 }, t3);
    let b3 = b2;
    rt_opt_block(x.block, Cursor { s: t3, b: b3 }, "record witness block", t4);
    let b4 = sum(b3, cost_opt_block(x.block));
    rt_opt_u64(x.transaction_index, Cursor { s: t4, b: b4 }, "record transaction index", t5);
    let b5 = sum(b4, cost_opt_u64(x.transaction_index));
    rt_opt_u64(x.log_index, Cursor { s: t5, b: b5 }, "record log index", t6);
    let b6 = sum(b5, cost_opt_u64(x.log_index));
    rt_opt_u64(x.log_block_timestamp, Cursor { s: t6, b: b6 }, "record log block timestamp", t7);
    let b7 = sum(b6, cost_opt_u64(x.log_block_timestamp));
    assert(b7 == sum(c.b, cost_witness(x)));
}

proof fn cn_witness(c: Cursor)
    requires
        c.b.within(),
    ensures
        match p_witness(c) {
            Ok((x, n)) => c.s == enc_witness(x) + n.s && n.b == sum(c.b, cost_witness(x))
                && n.b.within(),
            Err(_) => true,
        },
{
    reveal(p_witness);
    if let Ok((x, n)) = p_witness(c) {
        lemma_item_canonical(c.s, true);
        let (t0, rest) = p_list(c.s, "record witness")->Ok_0;
        let c0 = Cursor { s: t0, b: sum(c.b, nodes(1)) };
        cn_hash(c0, "record payload digest");
        let c1 = p_hash(c0, "record payload digest")->Ok_0.1;
        cn_u64(c1, "record witness chain id");
        let c2 = p_u64(c1, "record witness chain id")->Ok_0.1;
        cn_lifecycle(c2);
        let c3 = p_lifecycle(c2)->Ok_0.1;
        cn_opt_block(c3, "record witness block");
        let c4 = p_opt_block(c3, "record witness block")->Ok_0.1;
        cn_opt_u64(c4, "record transaction index");
        let c5 = p_opt_u64(c4, "record transaction index")->Ok_0.1;
        cn_opt_u64(c5, "record log index");
        let c6 = p_opt_u64(c5, "record log index")->Ok_0.1;
        cn_opt_u64(c6, "record log block timestamp");
        let c7 = p_opt_u64(c6, "record log block timestamp")->Ok_0.1;
        lemma_no_rest(c7.s);
        lemma_end(enc_opt_u64(x.log_block_timestamp));
        assert(t0 == enc_hash(x.payload_digest) + (rlp_uint(x.chain_id as nat) + (rlp_uint(lifecycle_tag(x.lifecycle) as nat) + (enc_opt_block(x.block) + (enc_opt_u64(x.transaction_index) + (enc_opt_u64(x.log_index) + (enc_opt_u64(x.log_block_timestamp))))))));
        assert(n.b == sum(c.b, cost_witness(x)));
    }
}

proof fn lemma_pos_witness(x: RecordWitness)
    ensures
        enc_witness(x).len() >= 1,
{
    lemma_list_len(enc_hash(x.payload_digest) + (rlp_uint(x.chain_id as nat) + (rlp_uint(lifecycle_tag(x.lifecycle) as nat) + (enc_opt_block(x.block) + (enc_opt_u64(x.transaction_index) + (enc_opt_u64(x.log_index) + (enc_opt_u64(x.log_block_timestamp))))))));
}

pub open spec fn cost_opt_witness(value: Option<RecordWitness>) -> Budget {
    match value {
        Some(x) => sum(nodes(1), cost_witness(x)),
        None => nodes(1),
    }
}

proof fn rt_opt_witness(value: Option<RecordWitness>, c: Cursor, context: &'static str, rest: Seq<u8>)
    requires
        c.s == enc_opt_witness(value) + rest,
        enc_opt_witness(value).len() <= usize::MAX,
        sum(c.b, cost_opt_witness(value)).within(),
    ensures
        p_opt_witness(c, context) == Ok::<_, SubscriberError>(
            (value, Cursor { s: rest, b: sum(c.b, cost_opt_witness(value)) }),
        ),
{
    reveal(p_opt_witness);
    match value {
        None => {
            lemma_list_len(Seq::empty());
            lemma_list_round_trip(Seq::empty(), rest);
        },
        Some(x) => {
            let payload = enc_witness(x);
            lemma_list_len(payload);
            lemma_list_round_trip(payload, rest);
            lemma_end(payload);
            lemma_pos_witness(x);
            rt_witness(x, Cursor { s: payload, b: sum(c.b, nodes(1)) }, Seq::empty());
        },
    }
}

proof fn cn_opt_witness(c: Cursor, context: &'static str)
    requires
        c.b.within(),
    ensures
        match p_opt_witness(c, context) {
            Ok((x, n)) => c.s == enc_opt_witness(x) + n.s && n.b == sum(c.b, cost_opt_witness(x))
                && n.b.within(),
            Err(_) => true,
        },
{
    reveal(p_opt_witness);
    lemma_item_canonical(c.s, true);
    if let Ok((payload, rest)) = p_list(c.s, context) {
        if let Ok(b) = claim_nodes(c.b, 1) {
            if payload.len() == 0 {
                lemma_no_rest(payload);
            } else {
                let inner = Cursor { s: payload, b };
                cn_witness(inner);
                if let Ok((x, n)) = p_witness(inner) {
                    if n.s.len() == 0 {
                        lemma_no_rest(n.s);
                        lemma_end(enc_witness(x));
                    }
                }
            }
        }
    }
}

pub open spec fn cost_coverage(x: CoverageView) -> Budget {
    sum(sum(sum(nodes(1), cost_generations(x.owners)), cost_opt_block(x.block)), cost_opt_witness(x.witness))
}

pub open spec fn ok_coverage(x: CoverageView) -> bool {
    ok_generations(x.owners)
}

proof fn rt_coverage(x: CoverageView, c: Cursor, rest: Seq<u8>)
    requires
        c.s == enc_coverage(x) + rest,
        enc_coverage(x).len() <= usize::MAX,
        ok_coverage(x),
        sum(c.b, cost_coverage(x)).within(),
    ensures
        p_coverage(c) == Ok::<_, SubscriberError>(
            (x, Cursor { s: rest, b: sum(c.b, cost_coverage(x)) }),
        ),
{
    reveal(p_coverage);
    let t4 = Seq::<u8>::empty();
    let t3 = enc_opt_witness(x.witness);
    lemma_end(t3);
    let t2 = enc_opt_block(x.block) + t3;
    let t1 = rlp_list(flat_generations(x.owners)) + t2;
    let t0 = rlp_bool(x.base) + t1;
    lemma_list_len(t0);
    lemma_list_round_trip(t0, rest);
    let b0 = sum(c.b, nodes(1));
    rt_bool(x.base, Cursor { s: t0, b: b0 }, "base audience coverage", t1);
    let b1 = b0;
    rt_generations(x.owners, Cursor { s: t1, b: b1 }, t2);
    let b2 = sum(b1, cost_generations(x.owners));
    rt_opt_block(x.block, Cursor { s: t2, b: b2 }, "audience coverage block", t3);
    let b3 = sum(b2, cost_opt_block(x.block));
    rt_opt_witness(x.witness, Cursor { s: t3, b: b3 }, "audience coverage witness", t4);
    let b4 = sum(b3, cost_opt_witness(x.witness));
    assert(b4 == sum(c.b, cost_coverage(x)));
}

proof fn cn_coverage(c: Cursor)
    requires
        c.b.within(),
    ensures
        match p_coverage(c) {
            Ok((x, n)) => c.s == enc_coverage(x) + n.s && n.b == sum(c.b, cost_coverage(x))
                && n.b.within() && ok_coverage(x),
            Err(_) => true,
        },
{
    reveal(p_coverage);
    if let Ok((x, n)) = p_coverage(c) {
        lemma_item_canonical(c.s, true);
        let (t0, rest) = p_list(c.s, "audience coverage")->Ok_0;
        let c0 = Cursor { s: t0, b: sum(c.b, nodes(1)) };
        cn_bool(c0, "base audience coverage");
        let c1 = p_bool(c0, "base audience coverage")->Ok_0.1;
        cn_generations(c1);
        let c2 = p_generations(c1)->Ok_0.1;
        cn_opt_block(c2, "audience coverage block");
        let c3 = p_opt_block(c2, "audience coverage block")->Ok_0.1;
        cn_opt_witness(c3, "audience coverage witness");
        let c4 = p_opt_witness(c3, "audience coverage witness")->Ok_0.1;
        lemma_no_rest(c4.s);
        lemma_end(enc_opt_witness(x.witness));
        assert(t0 == rlp_bool(x.base) + (rlp_list(flat_generations(x.owners)) + (enc_opt_block(x.block) + (enc_opt_witness(x.witness)))));
        assert(n.b == sum(c.b, cost_coverage(x)));
    }
}

pub open spec fn cost_recent(x: RecentView) -> Budget {
    sum(sum(nodes(1), cost_identity(x.identity)), cost_coverage(x.coverage))
}

pub open spec fn ok_recent(x: RecentView) -> bool {
    ok_identity(x.identity) && ok_coverage(x.coverage)
}

proof fn rt_recent(x: RecentView, c: Cursor, rest: Seq<u8>)
    requires
        c.s == enc_recent(x) + rest,
        enc_recent(x).len() <= usize::MAX,
        ok_recent(x),
        sum(c.b, cost_recent(x)).within(),
    ensures
        p_recent(c) == Ok::<_, SubscriberError>(
            (x, Cursor { s: rest, b: sum(c.b, cost_recent(x)) }),
        ),
{
    reveal(p_recent);
    let t2 = Seq::<u8>::empty();
    let t1 = enc_coverage(x.coverage);
    lemma_end(t1);
    let t0 = enc_identity(x.identity) + t1;
    lemma_list_len(t0);
    lemma_list_round_trip(t0, rest);
    let b0 = sum(c.b, nodes(1));
    rt_identity(x.identity, Cursor { s: t0, b: b0 }, t1);
    let b1 = sum(b0, cost_identity(x.identity));
    rt_coverage(x.coverage, Cursor { s: t1, b: b1 }, t2);
    let b2 = sum(b1, cost_coverage(x.coverage));
    assert(b2 == sum(c.b, cost_recent(x)));
}

proof fn cn_recent(c: Cursor)
    requires
        c.b.within(),
    ensures
        match p_recent(c) {
            Ok((x, n)) => c.s == enc_recent(x) + n.s && n.b == sum(c.b, cost_recent(x))
                && n.b.within() && ok_recent(x),
            Err(_) => true,
        },
{
    reveal(p_recent);
    if let Ok((x, n)) = p_recent(c) {
        lemma_item_canonical(c.s, true);
        let (t0, rest) = p_list(c.s, "recent input")->Ok_0;
        let c0 = Cursor { s: t0, b: sum(c.b, nodes(1)) };
        cn_identity(c0);
        let c1 = p_identity(c0)->Ok_0.1;
        cn_coverage(c1);
        let c2 = p_coverage(c1)->Ok_0.1;
        lemma_no_rest(c2.s);
        lemma_end(enc_coverage(x.coverage));
        assert(t0 == enc_identity(x.identity) + (enc_coverage(x.coverage)));
        assert(n.b == sum(c.b, cost_recent(x)));
    }
}

proof fn lemma_pos_recent(x: RecentView)
    ensures
        enc_recent(x).len() >= 1,
{
    lemma_list_len(enc_identity(x.identity) + (enc_coverage(x.coverage)));
}

/// The header of an item that was written leads to what follows it.
proof fn lemma_head_recent(x: RecentView, rest: Seq<u8>)
    requires
        (enc_recent(x) + rest).len() <= usize::MAX,
    ensures
        header_decode(enc_recent(x) + rest) is Ok,
        (enc_recent(x) + rest).skip(
            (header_decode(enc_recent(x) + rest)->Ok_0.consumed + header_decode(
                enc_recent(x) + rest,
            )->Ok_0.payload) as int,
        ) == rest,
{
    let p = enc_identity(x.identity) + enc_coverage(x.coverage);
    lemma_list_len(p);
    lemma_list_round_trip(p, rest);
    assert((enc_recent(x) + rest).skip(rlp_list(p).len() as int) =~= rest);
}

/// What the items of a list cost.
pub open spec fn cost_recent_items(s: Seq<RecentView>) -> Budget
    decreases s.len(),
{
    if s.len() == 0 {
        nodes(0)
    } else {
        sum(cost_recent(s[0]), cost_recent_items(s.drop_first()))
    }
}

pub open spec fn cost_recents(s: Seq<RecentView>) -> Budget {
    sum(
        Budget {
            nodes: s.len(),
            heap: vstd::layout::size_of::<StoredRecentInput>() * s.len(),
            owners: 0,
        },
        cost_recent_items(s),
    )
}

pub open spec fn ok_recents(s: Seq<RecentView>) -> bool {
    s.len() <= MAX_RECENT_INPUTS && forall|i: int| 0 <= i < s.len() ==> ok_recent(#[trigger] s[i])
}

/// Counting items that were written gives their number.
proof fn lemma_count_recents(s: Seq<RecentView>, max: usize, context: &'static str, count: nat)
    requires
        flat_recent(s).len() <= usize::MAX,
    ensures
        count + s.len() <= max ==> counted_items(flat_recent(s), max, context, count) == Ok::<
            _,
            SubscriberError,
        >(count + s.len()),
        count + s.len() > max ==> counted_items(flat_recent(s), max, context, count) is Err || s.len()
            == 0,
    decreases s.len(),
{
    if s.len() > 0 {
        let rest = flat_recent(s.drop_first());
        lemma_pos_recent(s[0]);
        lemma_head_recent(s[0], rest);
        if count + 1 <= max {
            lemma_count_recents(s.drop_first(), max, context, count + 1);
        }
    }
}

proof fn rt_recent_items(s: Seq<RecentView>, c: Cursor)
    requires
        c.s == flat_recent(s),
        c.s.len() <= usize::MAX,
        ok_recents(s) || s.len() <= MAX_RECENT_INPUTS && forall|i: int| 0 <= i < s.len() ==> ok_recent(#[trigger] s[i]),
        sum(c.b, cost_recent_items(s)).within(),
    ensures
        p_recent_items(c) == Ok::<_, SubscriberError>(
            (s, Cursor { s: Seq::empty(), b: sum(c.b, cost_recent_items(s)) }),
        ),
    decreases s.len(),
{
    if s.len() == 0 {
        assert(s =~= Seq::<RecentView>::empty());
        assert(c.b == sum(c.b, nodes(0)));
    } else {
        let tail = s.drop_first();
        lemma_pos_recent(s[0]);
        rt_recent(s[0], c, flat_recent(tail));
        let next = Cursor { s: flat_recent(tail), b: sum(c.b, cost_recent(s[0])) };
        assert forall|i: int| 0 <= i < tail.len() implies ok_recent(#[trigger] tail[i]) by { assert(tail[i] == s[i + 1]); }
        rt_recent_items(tail, next);
        assert(sum(next.b, cost_recent_items(tail)) == sum(c.b, cost_recent_items(s)));
        assert(seq![s[0]] + tail =~= s);
    }
}

#[verifier::rlimit(60)]
proof fn cn_recent_items(c: Cursor)
    requires
        c.b.within(),
    ensures
        match p_recent_items(c) {
            Ok((s, end)) => c.s == flat_recent(s) && end.s.len() == 0 && end.b == sum(
                c.b,
                cost_recent_items(s),
            ) && end.b.within() && (forall|i: int| 0 <= i < s.len() ==> ok_recent(#[trigger] s[i])),
            Err(_) => true,
        },
    decreases c.s.len(),
{
    if c.s.len() == 0 {
        lemma_no_rest(c.s);
        assert(c.b == sum(c.b, nodes(0)));
    } else {
        cn_recent(c);
        lemma_recent_shrinks(c);
        if let Ok((x, next)) = p_recent(c) {
            cn_recent_items(next);
            if let Ok((xs, end)) = p_recent_items(next) {
                let s = seq![x] + xs;
                assert(s.drop_first() =~= xs);
                assert(s[0] == x);
                assert(end.b == sum(c.b, cost_recent_items(s)));
                assert forall|i: int| 0 <= i < s.len() implies ok_recent(#[trigger] s[i]) by { if i > 0 { assert(s[i] == xs[i - 1]); } }
            }
        }
    }
}

proof fn rt_recents(s: Seq<RecentView>, c: Cursor, context: &'static str, rest: Seq<u8>)
    requires
        c.s == rlp_list(flat_recent(s)) + rest,
        rlp_list(flat_recent(s)).len() <= usize::MAX,
        ok_recents(s),
        sum(c.b, cost_recents(s)).within(),
    ensures
        p_recents(c, context) == Ok::<_, SubscriberError>(
            (s, Cursor { s: rest, b: sum(c.b, cost_recents(s)) }),
        ),
{
    reveal(p_recents);
    let payload = flat_recent(s);
    lemma_list_len(payload);
    lemma_list_round_trip(payload, rest);
    lemma_count_recents(s, MAX_RECENT_INPUTS, context, 0);
    let here = Cursor {
        s: payload,
        b: c.b.plus(s.len(), vstd::layout::size_of::<StoredRecentInput>() * s.len(), 0),
    };
    rt_recent_items(s, here);
    assert(sum(here.b, cost_recent_items(s)) == sum(c.b, cost_recents(s)));
}

proof fn cn_recents(c: Cursor, context: &'static str)
    requires
        c.b.within(),
    ensures
        match p_recents(c, context) {
            Ok((x, n)) => c.s == rlp_list(flat_recent(x)) + n.s && n.b == sum(c.b, cost_recents(x))
                && n.b.within() && ok_recents(x),
            Err(_) => true,
        },
{
    reveal(p_recents);
    if let Ok((x, n)) = p_recents(c, context) {
        lemma_item_canonical(c.s, true);
        let (payload, rest) = p_list(c.s, context)->Ok_0;
        let count = counted_items(payload, MAX_RECENT_INPUTS, context, 0)->Ok_0;
        let here = Cursor {
            s: payload,
            b: c.b.plus(count, vstd::layout::size_of::<StoredRecentInput>() * count, 0),
        };
        cn_recent_items(here);
        lemma_count_recents(x, MAX_RECENT_INPUTS, context, 0);
        assert(n.b == sum(c.b, cost_recents(x)));
    }
}

pub open spec fn cost_source(x: SourceView) -> Budget {
    sum(sum(sum(sum(sum(nodes(1), cost_opt_bytes(x.delivery_token)), cost_opt_bytes(x.checkpoint)), cost_opt_block(x.coverage_head)), cost_blocks(x.canonical_history)), cost_opt_hash(x.delivery_digest))
}

pub open spec fn ok_source(x: SourceView) -> bool {
    ok_opt_bytes(x.delivery_token) && ok_opt_bytes(x.checkpoint) && ok_blocks(x.canonical_history)
}

proof fn rt_source(x: SourceView, c: Cursor, rest: Seq<u8>)
    requires
        c.s == enc_source(x) + rest,
        enc_source(x).len() <= usize::MAX,
        ok_source(x),
        sum(c.b, cost_source(x)).within(),
    ensures
        p_source(c) == Ok::<_, SubscriberError>(
            (x, Cursor { s: rest, b: sum(c.b, cost_source(x)) }),
        ),
{
    reveal(p_source);
    let t5 = Seq::<u8>::empty();
    let t4 = enc_opt_hash(x.delivery_digest);
    lemma_end(t4);
    let t3 = rlp_list(flat_blocks(x.canonical_history)) + t4;
    let t2 = enc_opt_block(x.coverage_head) + t3;
    let t1 = enc_opt_bytes(x.checkpoint) + t2;
    let t0 = enc_opt_bytes(x.delivery_token) + t1;
    lemma_list_len(t0);
    lemma_list_round_trip(t0, rest);
    let b0 = sum(c.b, nodes(1));
    rt_opt_bytes(x.delivery_token, Cursor { s: t0, b: b0 }, "source delivery token", t1);
    let b1 = sum(b0, cost_opt_bytes(x.delivery_token));
    rt_opt_bytes(x.checkpoint, Cursor { s: t1, b: b1 }, "child subscriber checkpoint", t2);
    let b2 = sum(b1, cost_opt_bytes(x.checkpoint));
    rt_opt_block(x.coverage_head, Cursor { s: t2, b: b2 }, "source coverage head", t3);
    let b3 = sum(b2, cost_opt_block(x.coverage_head));
    rt_blocks(x.canonical_history, Cursor { s: t3, b: b3 }, "source canonical history", t4);
    let b4 = sum(b3, cost_blocks(x.canonical_history));
    rt_opt_hash(x.delivery_digest, Cursor { s: t4, b: b4 }, "source delivery digest", t5);
    let b5 = sum(b4, cost_opt_hash(x.delivery_digest));
    assert(b5 == sum(c.b, cost_source(x)));
}

proof fn cn_source(c: Cursor)
    requires
        c.b.within(),
    ensures
        match p_source(c) {
            Ok((x, n)) => c.s == enc_source(x) + n.s && n.b == sum(c.b, cost_source(x))
                && n.b.within() && ok_source(x),
            Err(_) => true,
        },
{
    reveal(p_source);
    if let Ok((x, n)) = p_source(c) {
        lemma_item_canonical(c.s, true);
        let (t0, rest) = p_list(c.s, "source position")->Ok_0;
        let c0 = Cursor { s: t0, b: sum(c.b, nodes(1)) };
        cn_opt_bytes(c0, "source delivery token");
        let c1 = p_opt_bytes(c0, "source delivery token")->Ok_0.1;
        cn_opt_bytes(c1, "child subscriber checkpoint");
        let c2 = p_opt_bytes(c1, "child subscriber checkpoint")->Ok_0.1;
        cn_opt_block(c2, "source coverage head");
        let c3 = p_opt_block(c2, "source coverage head")->Ok_0.1;
        cn_blocks(c3, "source canonical history");
        let c4 = p_blocks(c3, "source canonical history")->Ok_0.1;
        cn_opt_hash(c4, "source delivery digest");
        let c5 = p_opt_hash(c4, "source delivery digest")->Ok_0.1;
        lemma_no_rest(c5.s);
        lemma_end(enc_opt_hash(x.delivery_digest));
        assert(t0 == enc_opt_bytes(x.delivery_token) + (enc_opt_bytes(x.checkpoint) + (enc_opt_block(x.coverage_head) + (rlp_list(flat_blocks(x.canonical_history)) + (enc_opt_hash(x.delivery_digest))))));
        assert(n.b == sum(c.b, cost_source(x)));
    }
}

pub open spec fn cost_token(x: TokenView) -> Budget {
    sum(nodes(1), cost_bytes(x.inner))
}

pub open spec fn ok_token(x: TokenView) -> bool {
    x.inner.len() <= MAX_CHECKPOINT_PAYLOAD_BYTES
}

proof fn rt_token(x: TokenView, c: Cursor, rest: Seq<u8>)
    requires
        c.s == enc_token(x) + rest,
        enc_token(x).len() <= usize::MAX,
        ok_token(x),
        sum(c.b, cost_token(x)).within(),
    ensures
        p_token(c) == Ok::<_, SubscriberError>(
            (x, Cursor { s: rest, b: sum(c.b, cost_token(x)) }),
        ),
{
    reveal(p_token);
    let t3 = Seq::<u8>::empty();
    let t2 = rlp_string(x.inner);
    lemma_end(t2);
    let t1 = rlp_uint(x.kind.spec_tag() as nat) + t2;
    let t0 = rlp_uint(x.source.spec_tag() as nat) + t1;
    lemma_list_len(t0);
    lemma_list_round_trip(t0, rest);
    let b0 = sum(c.b, nodes(1));
    rt_source_tag(x.source, Cursor { s: t0, b: b0 }, t1);
    let b1 = b0;
    rt_token_kind(x.kind, Cursor { s: t1, b: b1 }, t2);
    let b2 = b1;
    rt_bytes(x.inner, Cursor { s: t2, b: b2 }, "committed token payload", t3);
    let b3 = sum(b2, cost_bytes(x.inner));
    assert(b3 == sum(c.b, cost_token(x)));
}

proof fn cn_token(c: Cursor)
    requires
        c.b.within(),
    ensures
        match p_token(c) {
            Ok((x, n)) => c.s == enc_token(x) + n.s && n.b == sum(c.b, cost_token(x))
                && n.b.within() && ok_token(x),
            Err(_) => true,
        },
{
    reveal(p_token);
    if let Ok((x, n)) = p_token(c) {
        lemma_item_canonical(c.s, true);
        let (t0, rest) = p_list(c.s, "committed token")->Ok_0;
        let c0 = Cursor { s: t0, b: sum(c.b, nodes(1)) };
        cn_source_tag(c0);
        let c1 = p_source_tag(c0)->Ok_0.1;
        cn_token_kind(c1);
        let c2 = p_token_kind(c1)->Ok_0.1;
        cn_bytes(c2, "committed token payload");
        let c3 = p_bytes(c2, MAX_CHECKPOINT_PAYLOAD_BYTES, "committed token payload")->Ok_0.1;
        lemma_no_rest(c3.s);
        lemma_end(rlp_string(x.inner));
        assert(t0 == rlp_uint(x.source.spec_tag() as nat) + (rlp_uint(x.kind.spec_tag() as nat) + (rlp_string(x.inner))));
        assert(n.b == sum(c.b, cost_token(x)));
    }
}

proof fn lemma_pos_token(x: TokenView)
    ensures
        enc_token(x).len() >= 1,
{
    lemma_list_len(rlp_uint(x.source.spec_tag() as nat) + (rlp_uint(x.kind.spec_tag() as nat) + (rlp_string(x.inner))));
}

pub open spec fn cost_opt_token(value: Option<TokenView>) -> Budget {
    match value {
        Some(x) => sum(nodes(1), cost_token(x)),
        None => nodes(1),
    }
}

pub open spec fn ok_opt_token(value: Option<TokenView>) -> bool {
    value is Some ==> {
        let x = value->Some_0;
        ok_token(x)
    }
}

proof fn rt_opt_token(value: Option<TokenView>, c: Cursor, context: &'static str, rest: Seq<u8>)
    requires
        c.s == enc_opt_token(value) + rest,
        enc_opt_token(value).len() <= usize::MAX,
        ok_opt_token(value),
        sum(c.b, cost_opt_token(value)).within(),
    ensures
        p_opt_token(c, context) == Ok::<_, SubscriberError>(
            (value, Cursor { s: rest, b: sum(c.b, cost_opt_token(value)) }),
        ),
{
    reveal(p_opt_token);
    match value {
        None => {
            lemma_list_len(Seq::empty());
            lemma_list_round_trip(Seq::empty(), rest);
        },
        Some(x) => {
            let payload = enc_token(x);
            lemma_list_len(payload);
            lemma_list_round_trip(payload, rest);
            lemma_end(payload);
            lemma_pos_token(x);
            rt_token(x, Cursor { s: payload, b: sum(c.b, nodes(1)) }, Seq::empty());
        },
    }
}

proof fn cn_opt_token(c: Cursor, context: &'static str)
    requires
        c.b.within(),
    ensures
        match p_opt_token(c, context) {
            Ok((x, n)) => c.s == enc_opt_token(x) + n.s && n.b == sum(c.b, cost_opt_token(x))
                && n.b.within() && ok_opt_token(x),
            Err(_) => true,
        },
{
    reveal(p_opt_token);
    lemma_item_canonical(c.s, true);
    if let Ok((payload, rest)) = p_list(c.s, context) {
        if let Ok(b) = claim_nodes(c.b, 1) {
            if payload.len() == 0 {
                lemma_no_rest(payload);
            } else {
                let inner = Cursor { s: payload, b };
                cn_token(inner);
                if let Ok((x, n)) = p_token(inner) {
                    if n.s.len() == 0 {
                        lemma_no_rest(n.s);
                        lemma_end(enc_token(x));
                    }
                }
            }
        }
    }
}

pub open spec fn cost_intent(x: IntentView) -> Budget {
    sum(nodes(1), cost_digests(x.owners))
}

pub open spec fn ok_intent(x: IntentView) -> bool {
    ok_digests(x.owners)
}

proof fn rt_intent(x: IntentView, c: Cursor, rest: Seq<u8>)
    requires
        c.s == enc_intent(x) + rest,
        enc_intent(x).len() <= usize::MAX,
        ok_intent(x),
        sum(c.b, cost_intent(x)).within(),
    ensures
        p_intent(c) == Ok::<_, SubscriberError>(
            (x, Cursor { s: rest, b: sum(c.b, cost_intent(x)) }),
        ),
{
    reveal(p_intent);
    let t2 = Seq::<u8>::empty();
    let t1 = rlp_list(flat_digests(x.owners));
    lemma_end(t1);
    let t0 = enc_hash(x.base) + t1;
    lemma_list_len(t0);
    lemma_list_round_trip(t0, rest);
    let b0 = sum(c.b, nodes(1));
    rt_hash(x.base, Cursor { s: t0, b: b0 }, "base lifecycle fingerprint", t1);
    let b1 = b0;
    rt_digests(x.owners, Cursor { s: t1, b: b1 }, t2);
    let b2 = sum(b1, cost_digests(x.owners));
    assert(b2 == sum(c.b, cost_intent(x)));
}

proof fn cn_intent(c: Cursor)
    requires
        c.b.within(),
    ensures
        match p_intent(c) {
            Ok((x, n)) => c.s == enc_intent(x) + n.s && n.b == sum(c.b, cost_intent(x))
                && n.b.within() && ok_intent(x),
            Err(_) => true,
        },
{
    reveal(p_intent);
    if let Ok((x, n)) = p_intent(c) {
        lemma_item_canonical(c.s, true);
        let (t0, rest) = p_list(c.s, "lifecycle intent")->Ok_0;
        let c0 = Cursor { s: t0, b: sum(c.b, nodes(1)) };
        cn_hash(c0, "base lifecycle fingerprint");
        let c1 = p_hash(c0, "base lifecycle fingerprint")->Ok_0.1;
        cn_digests(c1);
        let c2 = p_digests(c1)->Ok_0.1;
        lemma_no_rest(c2.s);
        lemma_end(rlp_list(flat_digests(x.owners)));
        assert(t0 == enc_hash(x.base) + (rlp_list(flat_digests(x.owners))));
        assert(n.b == sum(c.b, cost_intent(x)));
    }
}

pub open spec fn cost_certified(x: CertifiedHistoricalCoverage) -> Budget {
    sum(nodes(1), cost_block(x.through))
}

proof fn rt_certified(x: CertifiedHistoricalCoverage, c: Cursor, rest: Seq<u8>)
    requires
        c.s == enc_certified(x) + rest,
        enc_certified(x).len() <= usize::MAX,
        sum(c.b, cost_certified(x)).within(),
    ensures
        p_certified(c) == Ok::<_, SubscriberError>(
            (x, Cursor { s: rest, b: sum(c.b, cost_certified(x)) }),
        ),
{
    reveal(p_certified);
    let t2 = Seq::<u8>::empty();
    let t1 = enc_block(x.through);
    lemma_end(t1);
    let t0 = rlp_uint(x.lifecycle_generation as nat) + t1;
    lemma_list_len(t0);
    lemma_list_round_trip(t0, rest);
    let b0 = sum(c.b, nodes(1));
    rt_u64(x.lifecycle_generation, Cursor { s: t0, b: b0 }, "certified historical lifecycle generation", t1);
    let b1 = b0;
    rt_block(x.through, Cursor { s: t1, b: b1 }, t2);
    let b2 = sum(b1, cost_block(x.through));
    assert(b2 == sum(c.b, cost_certified(x)));
}

proof fn cn_certified(c: Cursor)
    requires
        c.b.within(),
    ensures
        match p_certified(c) {
            Ok((x, n)) => c.s == enc_certified(x) + n.s && n.b == sum(c.b, cost_certified(x))
                && n.b.within(),
            Err(_) => true,
        },
{
    reveal(p_certified);
    if let Ok((x, n)) = p_certified(c) {
        lemma_item_canonical(c.s, true);
        let (t0, rest) = p_list(c.s, "certified historical coverage")->Ok_0;
        let c0 = Cursor { s: t0, b: sum(c.b, nodes(1)) };
        cn_u64(c0, "certified historical lifecycle generation");
        let c1 = p_u64(c0, "certified historical lifecycle generation")->Ok_0.1;
        cn_block(c1);
        let c2 = p_block(c1)->Ok_0.1;
        lemma_no_rest(c2.s);
        lemma_end(enc_block(x.through));
        assert(t0 == rlp_uint(x.lifecycle_generation as nat) + (enc_block(x.through)));
        assert(n.b == sum(c.b, cost_certified(x)));
    }
}

proof fn lemma_pos_certified(x: CertifiedHistoricalCoverage)
    ensures
        enc_certified(x).len() >= 1,
{
    lemma_list_len(rlp_uint(x.lifecycle_generation as nat) + (enc_block(x.through)));
}

pub open spec fn cost_opt_certified(value: Option<CertifiedHistoricalCoverage>) -> Budget {
    match value {
        Some(x) => sum(nodes(1), cost_certified(x)),
        None => nodes(1),
    }
}

proof fn rt_opt_certified(value: Option<CertifiedHistoricalCoverage>, c: Cursor, context: &'static str, rest: Seq<u8>)
    requires
        c.s == enc_opt_certified(value) + rest,
        enc_opt_certified(value).len() <= usize::MAX,
        sum(c.b, cost_opt_certified(value)).within(),
    ensures
        p_opt_certified(c, context) == Ok::<_, SubscriberError>(
            (value, Cursor { s: rest, b: sum(c.b, cost_opt_certified(value)) }),
        ),
{
    reveal(p_opt_certified);
    match value {
        None => {
            lemma_list_len(Seq::empty());
            lemma_list_round_trip(Seq::empty(), rest);
        },
        Some(x) => {
            let payload = enc_certified(x);
            lemma_list_len(payload);
            lemma_list_round_trip(payload, rest);
            lemma_end(payload);
            lemma_pos_certified(x);
            rt_certified(x, Cursor { s: payload, b: sum(c.b, nodes(1)) }, Seq::empty());
        },
    }
}

proof fn cn_opt_certified(c: Cursor, context: &'static str)
    requires
        c.b.within(),
    ensures
        match p_opt_certified(c, context) {
            Ok((x, n)) => c.s == enc_opt_certified(x) + n.s && n.b == sum(c.b, cost_opt_certified(x))
                && n.b.within(),
            Err(_) => true,
        },
{
    reveal(p_opt_certified);
    lemma_item_canonical(c.s, true);
    if let Ok((payload, rest)) = p_list(c.s, context) {
        if let Ok(b) = claim_nodes(c.b, 1) {
            if payload.len() == 0 {
                lemma_no_rest(payload);
            } else {
                let inner = Cursor { s: payload, b };
                cn_certified(inner);
                if let Ok((x, n)) = p_certified(inner) {
                    if n.s.len() == 0 {
                        lemma_no_rest(n.s);
                        lemma_end(enc_certified(x));
                    }
                }
            }
        }
    }
}

#[verifier::opaque]
pub open spec fn cost_body(x: CheckpointView) -> Budget {
    sum(sum(sum(cost_generations(x.owner_generations), cost_intent(x.lifecycle_intent)), cost_recents(x.recent_inputs)), cost_blocks(x.canonical_history))
}

#[verifier::opaque]
pub open spec fn cost_tail(x: CheckpointView) -> Budget {
    sum(sum(sum(sum(sum(sum(cost_opt_block(x.coverage_head), cost_opt_block(x.safe_head)), cost_opt_block(x.finalized_head)), cost_opt_certified(x.certified_historical)), cost_source(x.historical_position)), cost_source(x.live_position)), cost_opt_token(x.last_committed_token))
}

/// What reading a checkpoint payload uses up.
pub open spec fn cost_checkpoint(x: CheckpointView) -> Budget {
    sum(sum(nodes(1), cost_body(x)), cost_tail(x))
}

#[verifier::opaque]
pub open spec fn ok_body(x: CheckpointView) -> bool {
    ok_generations(x.owner_generations) && ok_intent(x.lifecycle_intent) && ok_recents(x.recent_inputs) && ok_blocks(x.canonical_history)
}

#[verifier::opaque]
pub open spec fn ok_tail(x: CheckpointView) -> bool {
    ok_source(x.historical_position) && ok_source(x.live_position) && ok_opt_token(x.last_committed_token)
}

/// Whether a checkpoint respects every count, identifier and length limit of
/// the wire form.
pub open spec fn ok_checkpoint(x: CheckpointView) -> bool {
    ok_body(x) && ok_tail(x)
}

#[verifier::rlimit(60)]
proof fn rt_body(x: CheckpointView, c: Cursor, rest: Seq<u8>)
    requires
        c.s == rlp_list(flat_generations(x.owner_generations)) + (enc_intent(x.lifecycle_intent) + (rlp_list(flat_recent(x.recent_inputs)) + (rlp_list(flat_blocks(x.canonical_history)) + rest))),
        c.s.len() <= usize::MAX,
        ok_body(x),
        sum(c.b, cost_body(x)).within(),
    ensures
        p_body(c) == Ok::<_, SubscriberError>(
            (body_fields(x), Cursor { s: rest, b: sum(c.b, cost_body(x)) }),
        ),
{
    reveal(p_body);
    reveal(cost_body);
    reveal(ok_body);
    let t4 = rest;
    let t3 = rlp_list(flat_blocks(x.canonical_history)) + t4;
    let t2 = rlp_list(flat_recent(x.recent_inputs)) + t3;
    let t1 = enc_intent(x.lifecycle_intent) + t2;
    let t0 = rlp_list(flat_generations(x.owner_generations)) + t1;
    let b0 = c.b;
    rt_generations(x.owner_generations, Cursor { s: t0, b: b0 }, t1);
    let b1 = sum(b0, cost_generations(x.owner_generations));
    rt_intent(x.lifecycle_intent, Cursor { s: t1, b: b1 }, t2);
    let b2 = sum(b1, cost_intent(x.lifecycle_intent));
    rt_recents(x.recent_inputs, Cursor { s: t2, b: b2 }, "recent inputs", t3);
    let b3 = sum(b2, cost_recents(x.recent_inputs));
    rt_blocks(x.canonical_history, Cursor { s: t3, b: b3 }, "coordinator canonical history", t4);
    let b4 = sum(b3, cost_blocks(x.canonical_history));
    assert(b4 == sum(c.b, cost_body(x)));
}

#[verifier::rlimit(60)]
proof fn cn_body(c: Cursor)
    requires
        c.b.within(),
    ensures
        match p_body(c) {
            Ok((f, n)) => forall|x: CheckpointView| body_fields(x) == f ==> c.s == rlp_list(flat_generations(x.owner_generations)) + (enc_intent(x.lifecycle_intent) + (rlp_list(flat_recent(x.recent_inputs)) + (rlp_list(flat_blocks(x.canonical_history)) + n.s))) && n.b == #[trigger] sum(
                c.b,
                cost_body(x),
            ) && n.b.within() && ok_body(x),
            Err(_) => true,
        },
{
    reveal(p_body);
    reveal(cost_body);
    reveal(ok_body);
    if let Ok((f, n)) = p_body(c) {
        let c0 = c;
        cn_generations(c0);
        let c1 = p_generations(c0)->Ok_0.1;
        cn_intent(c1);
        let c2 = p_intent(c1)->Ok_0.1;
        cn_recents(c2, "recent inputs");
        let c3 = p_recents(c2, "recent inputs")->Ok_0.1;
        cn_blocks(c3, "coordinator canonical history");
            assert forall|x: CheckpointView| body_fields(x) == f implies c.s == rlp_list(flat_generations(x.owner_generations)) + (enc_intent(x.lifecycle_intent) + (rlp_list(flat_recent(x.recent_inputs)) + (rlp_list(flat_blocks(x.canonical_history)) + n.s))) && n.b == #[trigger] sum(
            c.b,
            cost_body(x),
        ) && n.b.within() && ok_body(x) by {
        }
    }
}

#[verifier::rlimit(60)]
proof fn rt_tail(x: CheckpointView, c: Cursor, rest: Seq<u8>)
    requires
        c.s == enc_opt_block(x.coverage_head) + (enc_opt_block(x.safe_head) + (enc_opt_block(x.finalized_head) + (enc_opt_certified(x.certified_historical) + (enc_source(x.historical_position) + (enc_source(x.live_position) + (enc_opt_token(x.last_committed_token) + rest)))))),
        c.s.len() <= usize::MAX,
        ok_tail(x),
        sum(c.b, cost_tail(x)).within(),
    ensures
        p_tail(c) == Ok::<_, SubscriberError>(
            (tail_fields(x), Cursor { s: rest, b: sum(c.b, cost_tail(x)) }),
        ),
{
    reveal(p_tail);
    reveal(cost_tail);
    reveal(ok_tail);
    let t7 = rest;
    let t6 = enc_opt_token(x.last_committed_token) + t7;
    let t5 = enc_source(x.live_position) + t6;
    let t4 = enc_source(x.historical_position) + t5;
    let t3 = enc_opt_certified(x.certified_historical) + t4;
    let t2 = enc_opt_block(x.finalized_head) + t3;
    let t1 = enc_opt_block(x.safe_head) + t2;
    let t0 = enc_opt_block(x.coverage_head) + t1;
    let b0 = c.b;
    rt_opt_block(x.coverage_head, Cursor { s: t0, b: b0 }, "coverage head", t1);
    let b1 = sum(b0, cost_opt_block(x.coverage_head));
    rt_opt_block(x.safe_head, Cursor { s: t1, b: b1 }, "safe head", t2);
    let b2 = sum(b1, cost_opt_block(x.safe_head));
    rt_opt_block(x.finalized_head, Cursor { s: t2, b: b2 }, "finalized head", t3);
    let b3 = sum(b2, cost_opt_block(x.finalized_head));
    rt_opt_certified(x.certified_historical, Cursor { s: t3, b: b3 }, "certified historical coverage", t4);
    let b4 = sum(b3, cost_opt_certified(x.certified_historical));
    rt_source(x.historical_position, Cursor { s: t4, b: b4 }, t5);
    let b5 = sum(b4, cost_source(x.historical_position));
    rt_source(x.live_position, Cursor { s: t5, b: b5 }, t6);
    let b6 = sum(b5, cost_source(x.live_position));
    rt_opt_token(x.last_committed_token, Cursor { s: t6, b: b6 }, "last committed token", t7);
    let b7 = sum(b6, cost_opt_token(x.last_committed_token));
    assert(b7 == sum(c.b, cost_tail(x)));
}

#[verifier::rlimit(60)]
proof fn cn_tail(c: Cursor)
    requires
        c.b.within(),
    ensures
        match p_tail(c) {
            Ok((f, n)) => forall|x: CheckpointView| tail_fields(x) == f ==> c.s == enc_opt_block(x.coverage_head) + (enc_opt_block(x.safe_head) + (enc_opt_block(x.finalized_head) + (enc_opt_certified(x.certified_historical) + (enc_source(x.historical_position) + (enc_source(x.live_position) + (enc_opt_token(x.last_committed_token) + n.s)))))) && n.b == #[trigger] sum(
                c.b,
                cost_tail(x),
            ) && n.b.within() && ok_tail(x),
            Err(_) => true,
        },
{
    reveal(p_tail);
    reveal(cost_tail);
    reveal(ok_tail);
    if let Ok((f, n)) = p_tail(c) {
        let c0 = c;
        cn_opt_block(c0, "coverage head");
        let c1 = p_opt_block(c0, "coverage head")->Ok_0.1;
        cn_opt_block(c1, "safe head");
        let c2 = p_opt_block(c1, "safe head")->Ok_0.1;
        cn_opt_block(c2, "finalized head");
        let c3 = p_opt_block(c2, "finalized head")->Ok_0.1;
        cn_opt_certified(c3, "certified historical coverage");
        let c4 = p_opt_certified(c3, "certified historical coverage")->Ok_0.1;
        cn_source(c4);
        let c5 = p_source(c4)->Ok_0.1;
        cn_source(c5);
        let c6 = p_source(c5)->Ok_0.1;
        cn_opt_token(c6, "last committed token");
            assert forall|x: CheckpointView| tail_fields(x) == f implies c.s == enc_opt_block(x.coverage_head) + (enc_opt_block(x.safe_head) + (enc_opt_block(x.finalized_head) + (enc_opt_certified(x.certified_historical) + (enc_source(x.historical_position) + (enc_source(x.live_position) + (enc_opt_token(x.last_committed_token) + n.s)))))) && n.b == #[trigger] sum(
            c.b,
            cost_tail(x),
        ) && n.b.within() && ok_tail(x) by {
        }
    }
}

/// The fields of a checkpoint from the owner generations to the canonical
/// history.
pub open spec fn body_fields(x: CheckpointView) -> BodyFields {
    BodyFields {
        owner_generations: x.owner_generations,
        lifecycle_intent: x.lifecycle_intent,
        recent_inputs: x.recent_inputs,
        canonical_history: x.canonical_history,
    }
}

/// The last fields of a checkpoint.
pub open spec fn tail_fields(x: CheckpointView) -> TailFields {
    TailFields {
        coverage_head: x.coverage_head,
        safe_head: x.safe_head,
        finalized_head: x.finalized_head,
        certified_historical: x.certified_historical,
        historical_position: x.historical_position,
        live_position: x.live_position,
        last_committed_token: x.last_committed_token,
    }
}

/// The first fields of a checkpoint.
pub open spec fn head_fields(x: CheckpointView) -> HeadFields {
    HeadFields {
        chain_id: x.chain_id,
        epoch: x.epoch,
        next_synthetic_token: x.next_synthetic_token,
        lifecycle_generation: x.lifecycle_generation,
    }
}

/// The first fields of a checkpoint as they are written.
pub open spec fn enc_head(x: CheckpointView) -> Seq<u8> {
    rlp_uint(x.chain_id as nat) + (rlp_string(x.epoch.bytes()) + (rlp_uint(
        x.next_synthetic_token as nat,
    ) + rlp_uint(x.lifecycle_generation as nat)))
}

/// A checkpoint is written as its first fields followed by the others.
proof fn lemma_head_grouped(x: CheckpointView)
    ensures
        enc_checkpoint(x) == rlp_list(enc_head(x) + enc_middle(x)),
{
    let a = rlp_uint(x.chain_id as nat);
    let b = rlp_string(x.epoch.bytes());
    let d = rlp_uint(x.next_synthetic_token as nat);
    let e = rlp_uint(x.lifecycle_generation as nat);
    let m = enc_middle(x);
    lemma_regroup(d, e, m);
    lemma_regroup(b, d + e, m);
    lemma_regroup(a, b + (d + e), m);
}

proof fn rt_head(x: CheckpointView, c: Cursor, rest: Seq<u8>)
    requires
        c.s == enc_head(x) + rest,
    ensures
        p_head(c) == Ok::<_, SubscriberError>((head_fields(x), Cursor { s: rest, b: c.b })),
{
    reveal(p_head);
    let e = rlp_uint(x.lifecycle_generation as nat);
    let d = rlp_uint(x.next_synthetic_token as nat);
    let g = rlp_string(x.epoch.bytes());
    let a = rlp_uint(x.chain_id as nat);
    let t3 = e + rest;
    let t2 = d + t3;
    let t1 = g + t2;
    let t0 = a + t1;
    lemma_regroup(d, e, rest);
    lemma_regroup(g, d + e, rest);
    lemma_regroup(a, g + (d + e), rest);
    assert(c.s == t0);
    rt_u64(x.chain_id, c, "chain id", t1);
    rt_epoch(x.epoch, Cursor { s: t1, b: c.b }, "epoch", t2);
    rt_u64(x.next_synthetic_token, Cursor { s: t2, b: c.b }, "next synthetic token", t3);
    rt_u64(x.lifecycle_generation, Cursor { s: t3, b: c.b }, "lifecycle generation", rest);
}

proof fn cn_head(c: Cursor)
    ensures
        match p_head(c) {
            Ok((f, n)) => n.b == c.b && forall|x: CheckpointView|
                #[trigger] head_fields(x) == f ==> c.s == enc_head(x) + n.s,
            Err(_) => true,
        },
{
    reveal(p_head);
    if let Ok((f, n)) = p_head(c) {
        cn_u64(c, "chain id");
        let c1 = p_u64(c, "chain id")->Ok_0.1;
        cn_epoch(c1, "epoch");
        let c2 = p_epoch(c1, "epoch")->Ok_0.1;
        cn_u64(c2, "next synthetic token");
        let c3 = p_u64(c2, "next synthetic token")->Ok_0.1;
        cn_u64(c3, "lifecycle generation");
        assert forall|x: CheckpointView| #[trigger] head_fields(x) == f implies c.s == enc_head(x)
            + n.s by {
            let e = rlp_uint(x.lifecycle_generation as nat);
            let d = rlp_uint(x.next_synthetic_token as nat);
            let g = rlp_string(x.epoch.bytes());
            let a = rlp_uint(x.chain_id as nat);
            lemma_regroup(d, e, n.s);
            lemma_regroup(g, d + e, n.s);
            lemma_regroup(a, g + (d + e), n.s);
        }
    }
}

proof fn lemma_tail_in_middle(x: CheckpointView)
    ensures
        enc_tail(x).len() <= enc_middle(x).len(),
{
    reveal(enc_middle);
}

proof fn rt_end(x: CheckpointView, b: Budget)
    requires
        enc_tail(x).len() <= usize::MAX,
        ok_tail(x),
        sum(b, cost_tail(x)).within(),
    ensures
        p_tail(Cursor { s: enc_tail(x), b }) == Ok::<_, SubscriberError>(
            (tail_fields(x), Cursor { s: Seq::empty(), b: sum(b, cost_tail(x)) }),
        ),
{
    reveal(enc_tail);
    lemma_end(enc_opt_token(x.last_committed_token));
    rt_tail(x, Cursor { s: enc_tail(x), b }, Seq::empty());
}

proof fn rt_middle(x: CheckpointView, b: Budget)
    requires
        enc_middle(x).len() <= usize::MAX,
        ok_body(x),
        sum(b, cost_body(x)).within(),
    ensures
        p_body(Cursor { s: enc_middle(x), b }) == Ok::<_, SubscriberError>(
            (body_fields(x), Cursor { s: enc_tail(x), b: sum(b, cost_body(x)) }),
        ),
{
    reveal(enc_middle);
    rt_body(x, Cursor { s: enc_middle(x), b }, enc_tail(x));
}

proof fn cn_end(x: CheckpointView, c: Cursor)
    requires
        c.b.within(),
        p_tail(c) is Ok,
        p_tail(c)->Ok_0.0 == tail_fields(x),
        p_tail(c)->Ok_0.1.s == Seq::<u8>::empty(),
    ensures
        c.s == enc_tail(x),
{
    reveal(enc_tail);
    cn_tail(c);
    assert(p_tail(c)->Ok_0.1.b == sum(c.b, cost_tail(x)));
    lemma_end(enc_opt_token(x.last_committed_token));
}

proof fn cn_middle(x: CheckpointView, c: Cursor)
    requires
        c.b.within(),
        p_body(c) is Ok,
        p_body(c)->Ok_0.0 == body_fields(x),
        p_body(c)->Ok_0.1.s == enc_tail(x),
    ensures
        c.s == enc_middle(x),
{
    reveal(enc_middle);
    cn_body(c);
    assert(p_body(c)->Ok_0.1.b == sum(c.b, cost_body(x)));
}

/// A checkpoint payload that was written is read back as it was, within the
/// limits that `ok_checkpoint` and the budget set.
#[verifier::rlimit(60)]
pub proof fn law_payload_round_trip(x: CheckpointView, rest: Seq<u8>)
    requires
        (enc_checkpoint(x) + rest).len() <= usize::MAX,
        ok_checkpoint(x),
        cost_checkpoint(x).within(),
    ensures
        p_checkpoint(Cursor { s: enc_checkpoint(x) + rest, b: no_budget() }) == Ok::<
            _,
            SubscriberError,
        >((x, Cursor { s: rest, b: cost_checkpoint(x) })),
{
    let c = Cursor { s: enc_checkpoint(x) + rest, b: no_budget() };
    let t0 = enc_head(x) + enc_middle(x);
    lemma_head_grouped(x);
    lemma_tail_in_middle(x);
    lemma_list_len(t0);
    lemma_list_round_trip(t0, rest);
    let b = sum(c.b, nodes(1));
    rt_head(x, Cursor { s: t0, b }, enc_middle(x));
    rt_middle(x, b);
    let b1 = sum(b, cost_body(x));
    rt_end(x, b1);
    assert(sum(b1, cost_tail(x)) == cost_checkpoint(x));
    assert(checkpoint_of(head_fields(x), body_fields(x), tail_fields(x)) == x);
}

/// A payload that was read is exactly what would be written for the checkpoint
/// that was read, and respects every limit of the wire form.
pub proof fn law_payload_is_canonical(s: Seq<u8>)
    ensures
        match p_checkpoint(Cursor { s, b: no_budget() }) {
            Ok((x, n)) => s == enc_checkpoint(x) + n.s && n.b == cost_checkpoint(x)
                && n.b.within() && ok_checkpoint(x),
            Err(_) => true,
        },
{
    let c = Cursor { s, b: no_budget() };
    if let Ok((x, n)) = p_checkpoint(c) {
        lemma_item_canonical(s, true);
        let (t0, rest) = p_list(s, "v5 payload")->Ok_0;
        let c0 = Cursor { s: t0, b: sum(c.b, nodes(1)) };
        cn_head(c0);
        let (head, c4) = p_head(c0)->Ok_0;
        assert(head_fields(x) == head);
        lemma_head_grouped(x);
        cn_body(c4);
        let (body, c5) = p_body(c4)->Ok_0;
        assert(body_fields(x) == body);
        assert(c5.b == sum(c4.b, cost_body(x)));
        cn_tail(c5);
        let (tail, c6) = p_tail(c5)->Ok_0;
        assert(tail_fields(x) == tail);
        assert(c6.b == sum(c5.b, cost_tail(x)));
        lemma_no_rest(c6.s);
        cn_end(x, c5);
        cn_middle(x, c4);
    }
}

} // verus!
