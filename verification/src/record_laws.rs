//! What the digests of records and deliveries tell.
use crate::audience::{AudienceView, RecordWitness};
use crate::framing::{
    in_a_row, lemma_regroup_3, lemma_regroup_4, lemma_regroup_5, lemma_regroup_6, lemma_regroup_7,
    lemma_regroup_8, lemma_row_tells, tells,
};
use crate::model::{BlockRef, InputRef, ReactiveInputIdentity};
use crate::records::{
    delivery_digest, scope_tag, source_tag_of, t_audience, t_body, t_commitment, t_context,
    t_control, t_controls, t_identity, t_ids, t_log, t_option_bytes, t_records, t_routed, t_status,
    t_topics, t_witness, validated, witness_of, ChainStatus, ControlView, InputView, LogView,
    ReactiveContext, RecordView, RoutedView,
};
use crate::transcript::{
    keccak_digest, law_block_framing, law_bytes_framing, law_hash_framing, law_integer_framing,
    law_option_hash_framing, law_option_u64_framing, lemma_cancel, t_block, t_bool, t_bytes, t_hash,
    t_len, t_option_block, t_option_hash, t_option_u64, t_start, t_tag, t_u64,
};
use crate::wire::{kind_tag, lifecycle_tag};
use crate::words::B256;
use vstd::prelude::*;
use vstd::string::StringSliceAdditionalSpecFns;

verus! {

proof fn lemma_tag(a: u8, b: u8, x: Seq<u8>, y: Seq<u8>)
    requires
        t_tag(a) + x == t_tag(b) + y,
    ensures
        a == b,
        x == y,
{
    assert((t_tag(a) + x)[0] == a && (t_tag(b) + y)[0] == b);
    lemma_cancel(t_tag(a), t_tag(b), x, y);
}

proof fn lemma_option_block(a: Option<BlockRef>, b: Option<BlockRef>, x: Seq<u8>, y: Seq<u8>)
    requires
        t_option_block(a) + x == t_option_block(b) + y,
    ensures
        a == b,
        x == y,
{
    match (a, b) {
        (Some(p), Some(q)) => {
            lemma_regroup_3(t_bool(true), t_block(p), x);
            lemma_regroup_3(t_bool(true), t_block(q), y);
            lemma_tag(1, 1, t_block(p) + x, t_block(q) + y);
            law_block_framing(p, q, x, y);
        },
        (None, None) => {
            lemma_tag(0, 0, x, y);
        },
        (Some(p), None) => {
            lemma_regroup_3(t_bool(true), t_block(p), x);
            lemma_tag(1, 0, t_block(p) + x, y);
        },
        (None, Some(q)) => {
            lemma_regroup_3(t_bool(true), t_block(q), y);
            lemma_tag(0, 1, x, t_block(q) + y);
        },
    }
}

/// An identity is told by the bytes it takes, whatever follows.
pub proof fn law_identity_framing(
    a: ReactiveInputIdentity,
    b: ReactiveInputIdentity,
    x: Seq<u8>,
    y: Seq<u8>,
)
    requires
        t_identity(a) + x == t_identity(b) + y,
    ensures
        a == b,
        x == y,
{
    let (ka, kb) = (t_tag(kind_tag(a.kind)), t_tag(kind_tag(b.kind)));
    lemma_identity_first(a, x);
    lemma_identity_first(b, y);
    match (a.input_ref, b.input_ref) {
        (
            InputRef::Log { chain_id: c, block_hash: h, transaction_hash: t, log_index: l },
            InputRef::Log { chain_id: d, block_hash: i, transaction_hash: u, log_index: m },
        ) => {
            lemma_regroup_7(t_tag(1), t_option_u64(c), t_hash(h), t_hash(t), t_u64(l), ka, x);
            lemma_regroup_7(t_tag(1), t_option_u64(d), t_hash(i), t_hash(u), t_u64(m), kb, y);
            let (a4, b4) = (t_u64(l) + (ka + x), t_u64(m) + (kb + y));
            let (a3, b3) = (t_hash(t) + a4, t_hash(u) + b4);
            let (a2, b2) = (t_hash(h) + a3, t_hash(i) + b3);
            lemma_tag(1, 1, t_option_u64(c) + a2, t_option_u64(d) + b2);
            law_option_u64_framing(c, d, a2, b2);
            law_hash_framing(h, i, a3, b3);
            law_hash_framing(t, u, a4, b4);
            law_integer_framing(l, m, ka + x, kb + y);
        },
        (
            InputRef::PendingTx { chain_id: c, hash: h },
            InputRef::PendingTx { chain_id: d, hash: i },
        ) => {
            lemma_regroup_5(t_tag(2), t_option_u64(c), t_hash(h), ka, x);
            lemma_regroup_5(t_tag(2), t_option_u64(d), t_hash(i), kb, y);
            let (a2, b2) = (t_hash(h) + (ka + x), t_hash(i) + (kb + y));
            lemma_tag(2, 2, t_option_u64(c) + a2, t_option_u64(d) + b2);
            law_option_u64_framing(c, d, a2, b2);
            law_hash_framing(h, i, ka + x, kb + y);
        },
        (
            InputRef::Block { chain_id: c, hash: h, number: n },
            InputRef::Block { chain_id: d, hash: i, number: m },
        ) => {
            lemma_regroup_6(t_tag(3), t_option_u64(c), t_hash(h), t_u64(n), ka, x);
            lemma_regroup_6(t_tag(3), t_option_u64(d), t_hash(i), t_u64(m), kb, y);
            let (a3, b3) = (t_u64(n) + (ka + x), t_u64(m) + (kb + y));
            let (a2, b2) = (t_hash(h) + a3, t_hash(i) + b3);
            lemma_tag(3, 3, t_option_u64(c) + a2, t_option_u64(d) + b2);
            law_option_u64_framing(c, d, a2, b2);
            law_hash_framing(h, i, a3, b3);
            law_integer_framing(n, m, ka + x, kb + y);
        },
        _ => {
            assert(false);
        },
    }
    lemma_tag(kind_tag(a.kind), kind_tag(b.kind), x, y);
}

proof fn lemma_identity_first(a: ReactiveInputIdentity, x: Seq<u8>)
    ensures
        (t_identity(a) + x)[0] == (match a.input_ref {
            InputRef::Log { .. } => 1u8,
            InputRef::PendingTx { .. } => 2u8,
            InputRef::Block { .. } => 3u8,
        }),
{
}

/// A witness is told by the bytes it takes, whatever follows.
pub proof fn law_witness_framing(a: RecordWitness, b: RecordWitness, x: Seq<u8>, y: Seq<u8>)
    requires
        t_witness(a) + x == t_witness(b) + y,
    ensures
        a == b,
        x == y,
{
    let (pa, pb) = (a.payload_digest.bytes(), b.payload_digest.bytes());
    let (ta, tb) = (t_option_u64(a.log_block_timestamp), t_option_u64(b.log_block_timestamp));
    let (la, lb) = (t_option_u64(a.log_index), t_option_u64(b.log_index));
    let (ia, ib) = (t_option_u64(a.transaction_index), t_option_u64(b.transaction_index));
    lemma_regroup_8(
        t_bytes(pa),
        t_u64(a.chain_id),
        t_tag(lifecycle_tag(a.lifecycle)),
        t_option_block(a.block),
        ia,
        la,
        ta,
        x,
    );
    lemma_regroup_8(
        t_bytes(pb),
        t_u64(b.chain_id),
        t_tag(lifecycle_tag(b.lifecycle)),
        t_option_block(b.block),
        ib,
        lb,
        tb,
        y,
    );
    let (a5, b5) = (la + (ta + x), lb + (tb + y));
    let (a4, b4) = (ia + a5, ib + b5);
    let (a3, b3) = (t_option_block(a.block) + a4, t_option_block(b.block) + b4);
    let (a2, b2) = (
        t_tag(lifecycle_tag(a.lifecycle)) + a3,
        t_tag(lifecycle_tag(b.lifecycle)) + b3,
    );
    let (a1, b1) = (t_u64(a.chain_id) + a2, t_u64(b.chain_id) + b2);
    law_bytes_framing(pa, pb, a1, b1);
    B256::lemma_bytes_injective(a.payload_digest, b.payload_digest);
    law_integer_framing(a.chain_id, b.chain_id, a2, b2);
    lemma_tag(lifecycle_tag(a.lifecycle), lifecycle_tag(b.lifecycle), a3, b3);
    lemma_option_block(a.block, b.block, a4, b4);
    law_option_u64_framing(a.transaction_index, b.transaction_index, a5, b5);
    law_option_u64_framing(a.log_index, b.log_index, ta + x, tb + y);
    law_option_u64_framing(a.log_block_timestamp, b.log_block_timestamp, x, y);
}

/// A chain status is told by the bytes it takes, whatever follows.
pub proof fn law_status_framing(a: ChainStatus, b: ChainStatus, x: Seq<u8>, y: Seq<u8>)
    requires
        t_status(a) + x == t_status(b) + y,
    ensures
        a == b,
        x == y,
{
    assert((t_status(a) + x)[0] == t_status(a)[0]);
    assert((t_status(b) + y)[0] == t_status(b)[0]);
    match (a, b) {
        (ChainStatus::Pending, ChainStatus::Pending) => {
            lemma_tag(1, 1, x, y);
        },
        (
            ChainStatus::Included { block: p, confirmations: m },
            ChainStatus::Included { block: q, confirmations: n },
        ) => {
            lemma_regroup_4(t_tag(2), t_block(p), t_u64(m), x);
            lemma_regroup_4(t_tag(2), t_block(q), t_u64(n), y);
            lemma_tag(2, 2, t_block(p) + (t_u64(m) + x), t_block(q) + (t_u64(n) + y));
            law_block_framing(p, q, t_u64(m) + x, t_u64(n) + y);
            law_integer_framing(m, n, x, y);
        },
        (ChainStatus::Safe { block: p }, ChainStatus::Safe { block: q }) => {
            lemma_tagged_block(3, p, q, x, y);
        },
        (ChainStatus::Finalized { block: p }, ChainStatus::Finalized { block: q }) => {
            lemma_tagged_block(4, p, q, x, y);
        },
        (ChainStatus::Reorged { dropped_from: p }, ChainStatus::Reorged { dropped_from: q }) => {
            lemma_tagged_block(5, p, q, x, y);
        },
        _ => {
            assert(false);
        },
    }
}

proof fn lemma_tagged_block(tag: u8, p: BlockRef, q: BlockRef, x: Seq<u8>, y: Seq<u8>)
    requires
        (t_tag(tag) + t_block(p)) + x == (t_tag(tag) + t_block(q)) + y,
    ensures
        p == q,
        x == y,
{
    lemma_regroup_3(t_tag(tag), t_block(p), x);
    lemma_regroup_3(t_tag(tag), t_block(q), y);
    lemma_tag(tag, tag, t_block(p) + x, t_block(q) + y);
    law_block_framing(p, q, x, y);
}

/// A context is told by the bytes it takes, whatever follows.
pub proof fn law_context_framing(a: ReactiveContext, b: ReactiveContext, x: Seq<u8>, y: Seq<u8>)
    requires
        t_context(a) + x == t_context(b) + y,
    ensures
        a == b,
        x == y,
{
    let (la, lb) = (t_option_u64(a.log_index), t_option_u64(b.log_index));
    let (ia, ib) = (t_option_u64(a.transaction_index), t_option_u64(b.transaction_index));
    lemma_regroup_7(
        t_option_u64(a.chain_id),
        t_tag(source_tag_of(a.source)),
        t_status(a.chain_status),
        t_option_block(a.block),
        ia,
        la,
        x,
    );
    lemma_regroup_7(
        t_option_u64(b.chain_id),
        t_tag(source_tag_of(b.source)),
        t_status(b.chain_status),
        t_option_block(b.block),
        ib,
        lb,
        y,
    );
    let (a4, b4) = (ia + (la + x), ib + (lb + y));
    let (a3, b3) = (t_option_block(a.block) + a4, t_option_block(b.block) + b4);
    let (a2, b2) = (t_status(a.chain_status) + a3, t_status(b.chain_status) + b3);
    let (a1, b1) = (t_tag(source_tag_of(a.source)) + a2, t_tag(source_tag_of(b.source)) + b2);
    law_option_u64_framing(a.chain_id, b.chain_id, a1, b1);
    lemma_tag(source_tag_of(a.source), source_tag_of(b.source), a2, b2);
    law_status_framing(a.chain_status, b.chain_status, a3, b3);
    lemma_option_block(a.block, b.block, a4, b4);
    law_option_u64_framing(a.transaction_index, b.transaction_index, la + x, lb + y);
    law_option_u64_framing(a.log_index, b.log_index, x, y);
}

// ---------------------------------------------------------------------------
// Audiences and controls
// ---------------------------------------------------------------------------

/// Whether every length in an audience can be counted.
pub open spec fn countable_audience(a: AudienceView) -> bool {
    match a {
        AudienceView::All => true,
        AudienceView::Owners(ids) => crate::intent_laws::countable(ids),
        AudienceView::AllExcept(ids) => crate::intent_laws::countable(ids),
    }
}

spec fn one_id() -> spec_fn(Seq<u8>) -> Seq<u8> {
    |s: Seq<u8>| t_bytes(s)
}

spec fn short_id() -> spec_fn(Seq<u8>) -> bool {
    |s: Seq<u8>| s.len() <= u64::MAX
}

proof fn lemma_ids_row(s: Seq<Seq<u8>>)
    ensures
        t_ids(s) == in_a_row(s, one_id()),
    decreases s.len(),
{
    if s.len() > 0 {
        lemma_ids_row(s.drop_last());
    }
}

proof fn lemma_listed(tag: u8, p: Seq<Seq<u8>>, q: Seq<Seq<u8>>, x: Seq<u8>, y: Seq<u8>)
    requires
        crate::intent_laws::countable(p),
        crate::intent_laws::countable(q),
        t_tag(tag) + t_len(p.len()) + t_ids(p) + x == t_tag(tag) + t_len(q.len()) + t_ids(q) + y,
    ensures
        p == q,
        x == y,
{
    lemma_regroup_4(t_tag(tag), t_len(p.len()), t_ids(p), x);
    lemma_regroup_4(t_tag(tag), t_len(q.len()), t_ids(q), y);
    lemma_tag(tag, tag, t_len(p.len()) + (t_ids(p) + x), t_len(q.len()) + (t_ids(q) + y));
    law_integer_framing(p.len() as u64, q.len() as u64, t_ids(p) + x, t_ids(q) + y);
    lemma_ids_row(p);
    lemma_ids_row(q);
    assert(tells(one_id(), short_id())) by {
        assert forall|a: Seq<u8>, b: Seq<u8>, u: Seq<u8>, v: Seq<u8>|
            short_id()(a) && short_id()(b) && #[trigger] (one_id()(a) + u) == #[trigger] (one_id()(
            b,
        ) + v) implies a == b && u == v by {
            law_bytes_framing(a, b, u, v);
        }
    }
    lemma_row_tells(p, q, one_id(), short_id(), x, y);
}

/// An audience is told by the bytes it takes, whatever follows.
pub proof fn law_audience_framing(a: AudienceView, b: AudienceView, x: Seq<u8>, y: Seq<u8>)
    requires
        countable_audience(a),
        countable_audience(b),
        t_audience(a) + x == t_audience(b) + y,
    ensures
        a == b,
        x == y,
{
    assert((t_audience(a) + x)[0] == t_audience(a)[0]);
    assert((t_audience(b) + y)[0] == t_audience(b)[0]);
    match (a, b) {
        (AudienceView::All, AudienceView::All) => {
            lemma_tag(1, 1, x, y);
        },
        (AudienceView::Owners(p), AudienceView::Owners(q)) => {
            lemma_listed(2, p, q, x, y);
        },
        (AudienceView::AllExcept(p), AudienceView::AllExcept(q)) => {
            lemma_listed(3, p, q, x, y);
        },
        _ => {
            assert(false);
        },
    }
}

/// Whether the length in a control can be counted.
pub open spec fn countable_control(c: ControlView) -> bool {
    match c {
        ControlView::Barrier { id, .. } => id.len() <= u64::MAX,
        _ => true,
    }
}

/// A control is told by the bytes it takes, whatever follows.
pub proof fn law_control_framing(a: ControlView, b: ControlView, x: Seq<u8>, y: Seq<u8>)
    requires
        countable_control(a),
        countable_control(b),
        t_control(a) + x == t_control(b) + y,
    ensures
        a == b,
        x == y,
{
    assert((t_control(a) + x)[0] == t_control(a)[0]);
    assert((t_control(b) + y)[0] == t_control(b)[0]);
    match (a, b) {
        (
            ControlView::Reorg { common_ancestor: p, old_tip: q, new_tip: r },
            ControlView::Reorg { common_ancestor: u, old_tip: v, new_tip: w },
        ) => {
            lemma_regroup_5(t_tag(1), t_block(p), t_block(q), t_block(r), x);
            lemma_regroup_5(t_tag(1), t_block(u), t_block(v), t_block(w), y);
            let (a2, b2) = (t_block(r) + x, t_block(w) + y);
            let (a1, b1) = (t_block(q) + a2, t_block(v) + b2);
            lemma_tag(1, 1, t_block(p) + a1, t_block(u) + b1);
            law_block_framing(p, u, a1, b1);
            law_block_framing(q, v, a2, b2);
            law_block_framing(r, w, x, y);
        },
        (ControlView::CanonicalProgress(p), ControlView::CanonicalProgress(q)) => {
            lemma_tagged_block(2, p, q, x, y);
        },
        (ControlView::Safe(p), ControlView::Safe(q)) => {
            lemma_tagged_block(3, p, q, x, y);
        },
        (ControlView::Finalized(p), ControlView::Finalized(q)) => {
            lemma_tagged_block(4, p, q, x, y);
        },
        (ControlView::Barrier { id: p, block: u }, ControlView::Barrier { id: q, block: v }) => {
            lemma_regroup_4(t_tag(5), t_bytes(p), t_option_block(u), x);
            lemma_regroup_4(t_tag(5), t_bytes(q), t_option_block(v), y);
            lemma_tag(
                5,
                5,
                t_bytes(p) + (t_option_block(u) + x),
                t_bytes(q) + (t_option_block(v) + y),
            );
            law_bytes_framing(p, q, t_option_block(u) + x, t_option_block(v) + y);
            lemma_option_block(u, v, x, y);
        },
        _ => {
            assert(false);
        },
    }
}

spec fn one_control() -> spec_fn(ControlView) -> Seq<u8> {
    |c: ControlView| t_control(c)
}

spec fn short_control() -> spec_fn(ControlView) -> bool {
    |c: ControlView| countable_control(c)
}

proof fn lemma_controls_row(s: Seq<ControlView>)
    ensures
        t_controls(s) == in_a_row(s, one_control()),
    decreases s.len(),
{
    if s.len() > 0 {
        lemma_controls_row(s.drop_last());
    }
}

/// As many controls are told by the bytes they take, whatever follows.
pub proof fn law_controls_framing(
    a: Seq<ControlView>,
    b: Seq<ControlView>,
    x: Seq<u8>,
    y: Seq<u8>,
)
    requires
        a.len() == b.len(),
        forall|i: int| 0 <= i < a.len() ==> countable_control(#[trigger] a[i]),
        forall|i: int| 0 <= i < b.len() ==> countable_control(#[trigger] b[i]),
        t_controls(a) + x == t_controls(b) + y,
    ensures
        a == b,
        x == y,
{
    lemma_controls_row(a);
    lemma_controls_row(b);
    assert(tells(one_control(), short_control())) by {
        assert forall|p: ControlView, q: ControlView, u: Seq<u8>, v: Seq<u8>|
            short_control()(p) && short_control()(q) && #[trigger] (one_control()(p) + u)
                == #[trigger] (one_control()(q) + v) implies p == q && u == v by {
            law_control_framing(p, q, u, v);
        }
    }
    lemma_row_tells(a, b, one_control(), short_control(), x, y);
}

// ---------------------------------------------------------------------------
// Bodies
// ---------------------------------------------------------------------------

/// Whether every length in a log can be counted.
pub open spec fn countable_log(l: LogView) -> bool {
    l.address.len() <= u64::MAX && l.topics.len() <= u64::MAX && l.data.len() <= u64::MAX
}

spec fn one_topic() -> spec_fn(B256) -> Seq<u8> {
    |h: B256| t_hash(h)
}

spec fn any_topic() -> spec_fn(B256) -> bool {
    |h: B256| true
}

proof fn lemma_topics_row(s: Seq<B256>)
    ensures
        t_topics(s) == in_a_row(s, one_topic()),
    decreases s.len(),
{
    if s.len() > 0 {
        lemma_topics_row(s.drop_last());
    }
}

proof fn lemma_topics(a: Seq<B256>, b: Seq<B256>, x: Seq<u8>, y: Seq<u8>)
    requires
        a.len() == b.len(),
        t_topics(a) + x == t_topics(b) + y,
    ensures
        a == b,
        x == y,
{
    lemma_topics_row(a);
    lemma_topics_row(b);
    assert(tells(one_topic(), any_topic())) by {
        assert forall|p: B256, q: B256, u: Seq<u8>, v: Seq<u8>|
            any_topic()(p) && any_topic()(q) && #[trigger] (one_topic()(p) + u) == #[trigger] (
            one_topic()(q) + v) implies p == q && u == v by {
            law_hash_framing(p, q, u, v);
        }
    }
    lemma_row_tells(a, b, one_topic(), any_topic(), x, y);
}

spec fn log_front(l: LogView, rest: Seq<u8>) -> Seq<u8> {
    t_tag(1) + (t_bytes(l.address) + (t_len(l.topics.len()) + (t_topics(l.topics) + (t_bytes(l.data)
        + rest))))
}

spec fn log_back(l: LogView) -> Seq<u8> {
    t_hash(l.block_hash) + (t_u64(l.block_number) + (t_hash(l.transaction_hash) + (t_u64(
        l.transaction_index,
    ) + (t_u64(l.log_index) + t_bool(l.removed)))))
}

proof fn lemma_log_parts(l: LogView)
    ensures
        t_log(l) == log_front(l, log_back(l)),
{
    let (p, q, r, s, t) = (
        t_tag(1),
        t_bytes(l.address),
        t_len(l.topics.len()),
        t_topics(l.topics),
        t_bytes(l.data),
    );
    let front = p + q + r + s + t;
    lemma_regroup_7(
        front,
        t_hash(l.block_hash),
        t_u64(l.block_number),
        t_hash(l.transaction_hash),
        t_u64(l.transaction_index),
        t_u64(l.log_index),
        t_bool(l.removed),
    );
    lemma_regroup_6(p, q, r, s, t, log_back(l));
}

/// The body of a log is told by its transcript, but for its block timestamp.
pub proof fn law_log_is_told_by_its_transcript(a: LogView, b: LogView)
    requires
        countable_log(a),
        countable_log(b),
        t_log(a) == t_log(b),
    ensures
        a == (LogView { block_timestamp: a.block_timestamp, ..b }),
{
    lemma_log_parts(a);
    lemma_log_parts(b);
    let (xa, xb) = (log_back(a), log_back(b));
    let (a3, b3) = (t_bytes(a.data) + xa, t_bytes(b.data) + xb);
    let (a2, b2) = (t_topics(a.topics) + a3, t_topics(b.topics) + b3);
    let (a1, b1) = (t_len(a.topics.len()) + a2, t_len(b.topics.len()) + b2);
    lemma_tag(1, 1, t_bytes(a.address) + a1, t_bytes(b.address) + b1);
    law_bytes_framing(a.address, b.address, a1, b1);
    law_integer_framing(a.topics.len() as u64, b.topics.len() as u64, a2, b2);
    lemma_topics(a.topics, b.topics, a3, b3);
    law_bytes_framing(a.data, b.data, xa, xb);
    lemma_log_back(a, b);
}

proof fn lemma_log_back(a: LogView, b: LogView)
    requires
        log_back(a) == log_back(b),
    ensures
        a.block_hash == b.block_hash,
        a.block_number == b.block_number,
        a.transaction_hash == b.transaction_hash,
        a.transaction_index == b.transaction_index,
        a.log_index == b.log_index,
        a.removed == b.removed,
{
    let (a5, b5) = (t_bool(a.removed), t_bool(b.removed));
    let (a4, b4) = (t_u64(a.log_index) + a5, t_u64(b.log_index) + b5);
    let (a3, b3) = (t_u64(a.transaction_index) + a4, t_u64(b.transaction_index) + b4);
    let (a2, b2) = (t_hash(a.transaction_hash) + a3, t_hash(b.transaction_hash) + b3);
    let (a1, b1) = (t_u64(a.block_number) + a2, t_u64(b.block_number) + b2);
    law_hash_framing(a.block_hash, b.block_hash, a1, b1);
    law_integer_framing(a.block_number, b.block_number, a2, b2);
    law_hash_framing(a.transaction_hash, b.transaction_hash, a3, b3);
    law_integer_framing(a.transaction_index, b.transaction_index, a4, b4);
    law_integer_framing(a.log_index, b.log_index, a5, b5);
    assert(a5[0] == b5[0]);
}

/// What the payload digest of a record is the digest of.
pub open spec fn payload_transcript(identity: ReactiveInputIdentity, body: Seq<u8>) -> Seq<u8> {
    t_start("EFCHY-RECORD-PAYLOAD-V1".spec_bytes()) + t_identity(identity) + body
}

/// Whether every length in a body can be counted.
pub open spec fn countable_input(input: InputView) -> bool {
    match input {
        InputView::Log(l) => countable_log(l),
        _ => true,
    }
}

/// A witness tells the body of its record: two records with the same payload
/// digest are of the same identity, and their bodies are equal logs, but for the
/// block timestamp, equal transaction hashes, or headers of equal digests. It
/// holds the chain, the position and the block of the record as they are. (Two
/// transcripts of the same digest would be an exception.)
pub proof fn law_witness_tells_its_record(a: RecordView, b: RecordView, chain_id: u64)
    requires
        countable_input(a.input),
        countable_input(b.input),
        validated(a, chain_id) is Ok,
        validated(b, chain_id) is Ok,
        ({
            let (p, q) = (
                payload_transcript(validated(a, chain_id)->Ok_0.0, t_body(a.input)->Ok_0),
                payload_transcript(validated(b, chain_id)->Ok_0.0, t_body(b.input)->Ok_0),
            );
            keccak_digest(p) == keccak_digest(q) ==> p == q
        }),
        validated(a, chain_id)->Ok_0.1.payload_digest == validated(
            b,
            chain_id,
        )->Ok_0.1.payload_digest,
    ensures
        validated(a, chain_id)->Ok_0.0 == validated(b, chain_id)->Ok_0.0,
        match (a.input, b.input) {
            (InputView::Log(p), InputView::Log(q)) => p == (LogView {
                block_timestamp: p.block_timestamp,
                ..q
            }),
            (InputView::PendingTxHash(p), InputView::PendingTxHash(q)) => p == q,
            (InputView::BlockHeader(p), InputView::BlockHeader(q)) => crate::header::header_digest(
                p,
                usize::MAX,
            )->Ok_0.0 == crate::header::header_digest(q, usize::MAX)->Ok_0.0,
            _ => false,
        },
{
    let start = t_start("EFCHY-RECORD-PAYLOAD-V1".spec_bytes());
    let (d, e) = (validated(a, chain_id)->Ok_0.0, validated(b, chain_id)->Ok_0.0);
    let (p, q) = (t_body(a.input)->Ok_0, t_body(b.input)->Ok_0);
    lemma_regroup_3(start, t_identity(d), p);
    lemma_regroup_3(start, t_identity(e), q);
    lemma_cancel(start, start, t_identity(d) + p, t_identity(e) + q);
    law_identity_framing(d, e, p, q);
    match (a.input, b.input) {
        (InputView::Log(l), InputView::Log(m)) => {
            law_log_is_told_by_its_transcript(l, m);
        },
        (InputView::PendingTxHash(g), InputView::PendingTxHash(h)) => {
            let none = Seq::<u8>::empty();
            lemma_tag(3, 3, t_hash(g), t_hash(h));
            B256::lemma_bytes_injective(g, h);
        },
        (InputView::BlockHeader(g), InputView::BlockHeader(h)) => {
            let (u, v) = (
                crate::header::header_digest(g, usize::MAX)->Ok_0.0,
                crate::header::header_digest(h, usize::MAX)->Ok_0.0,
            );
            lemma_tag(2, 2, t_hash(u), t_hash(v));
            B256::lemma_bytes_injective(u, v);
        },
        _ => {
            lemma_body_first(a.input);
            lemma_body_first(b.input);
        },
    }
}

proof fn lemma_body_first(input: InputView)
    requires
        t_body(input) is Ok,
        !(input is FullBlock),
        !(input is PendingTx),
    ensures
        t_body(input)->Ok_0.len() > 0,
        t_body(input)->Ok_0[0] == (match input {
            InputView::Log(_) => 1u8,
            InputView::BlockHeader(_) => 2u8,
            _ => 3u8,
        }),
{
    if let InputView::Log(l) = input {
        lemma_log_parts(l);
    }
}

/// A witness holds the chain it is for, how settled its record is, and the
/// block and positions that the record names.
pub proof fn law_witness_holds_the_position(r: RecordView, chain_id: u64)
    ensures
        match witness_of(r, chain_id) {
            Ok(w) => {
                &&& w.chain_id == chain_id
                &&& w.block == r.context.block
                &&& w.transaction_index == r.context.transaction_index
                &&& w.log_index == r.context.log_index
                &&& w.lifecycle is Pending <==> r.context.chain_status is Pending
                &&& w.lifecycle is Included <==> r.context.chain_status is Included
                &&& w.lifecycle is Safe <==> r.context.chain_status is Safe
                &&& w.lifecycle is Finalized <==> r.context.chain_status is Finalized
                &&& w.lifecycle is Reorg <==> r.context.chain_status is Reorged
                &&& r.input is Log ==> w.log_block_timestamp == r.input->Log_0.block_timestamp
                &&& !(r.input is Log) ==> w.log_block_timestamp is None
            },
            Err(_) => true,
        },
{
}

/// A record is accepted exactly where it is a log, a header or the hash of a
/// pending transaction, names the chain, and its identity does; a header must
/// also have a digest. It is accepted under its own identity.
pub proof fn law_accepted_records_are_of_the_chain(r: RecordView, chain_id: u64)
    ensures
        validated(r, chain_id) is Ok <==> {
            &&& match r.input {
                InputView::Log(_) => true,
                InputView::PendingTxHash(_) => true,
                InputView::BlockHeader(json) => crate::header::header_digest(
                    json,
                    usize::MAX,
                ) is Ok,
                _ => false,
            }
            &&& r.context.chain_id == Some(chain_id)
            &&& r.identity is Ok
            &&& match r.identity->Ok_0.input_ref {
                InputRef::Log { chain_id: c, .. } => c == Some(chain_id),
                InputRef::PendingTx { chain_id: c, .. } => c == Some(chain_id),
                InputRef::Block { chain_id: c, .. } => c == Some(chain_id),
            }
        },
        validated(r, chain_id) is Ok ==> r.identity == Ok::<_, String>(
            validated(r, chain_id)->Ok_0.0,
        ),
{
}

// ---------------------------------------------------------------------------
// Deliveries
// ---------------------------------------------------------------------------

/// Whether two records of a delivery read the same: the same identity, witness,
/// context, audience and scope.
pub open spec fn read_the_same(a: RoutedView, b: RoutedView, chain_id: u64) -> bool {
    &&& validated(a.record, chain_id) == validated(b.record, chain_id)
    &&& a.record.context == b.record.context
    &&& a.audience == b.audience
    &&& a.scope == b.scope
}

/// A routed record is told by the bytes it takes, whatever follows.
pub proof fn law_routed_framing(
    a: RoutedView,
    b: RoutedView,
    chain_id: u64,
    x: Seq<u8>,
    y: Seq<u8>,
)
    requires
        countable_audience(a.audience),
        countable_audience(b.audience),
        t_routed(a, chain_id) is Ok,
        t_routed(b, chain_id) is Ok,
        t_routed(a, chain_id)->Ok_0 + x == t_routed(b, chain_id)->Ok_0 + y,
    ensures
        read_the_same(a, b, chain_id),
        x == y,
{
    let (d, v) = validated(a.record, chain_id)->Ok_0;
    let (e, w) = validated(b.record, chain_id)->Ok_0;
    let (ca, cb) = (t_context(a.record.context), t_context(b.record.context));
    let (ua, ub) = (t_audience(a.audience), t_audience(b.audience));
    let (sa, sb) = (t_tag(scope_tag(a.scope)), t_tag(scope_tag(b.scope)));
    lemma_regroup_6(t_identity(d), t_witness(v), ca, ua, sa, x);
    lemma_regroup_6(t_identity(e), t_witness(w), cb, ub, sb, y);
    let (a3, b3) = (ua + (sa + x), ub + (sb + y));
    let (a2, b2) = (ca + a3, cb + b3);
    let (a1, b1) = (t_witness(v) + a2, t_witness(w) + b2);
    law_identity_framing(d, e, a1, b1);
    law_witness_framing(v, w, a2, b2);
    law_context_framing(a.record.context, b.record.context, a3, b3);
    law_audience_framing(a.audience, b.audience, sa + x, sb + y);
    lemma_tag(scope_tag(a.scope), scope_tag(b.scope), x, y);
}

proof fn lemma_records_front(s: Seq<RoutedView>, chain_id: u64)
    requires
        s.len() > 0,
        t_records(s, chain_id) is Ok,
    ensures
        t_routed(s[0], chain_id) is Ok,
        t_records(s.drop_first(), chain_id) is Ok,
        t_records(s, chain_id)->Ok_0 == t_routed(s[0], chain_id)->Ok_0 + t_records(
            s.drop_first(),
            chain_id,
        )->Ok_0,
    decreases s.len(),
{
    let rest = s.drop_first();
    if s.len() == 1 {
        assert(s.drop_last() =~= Seq::<RoutedView>::empty());
        assert(rest =~= Seq::<RoutedView>::empty());
        assert(s.last() == s[0]);
        let none = Seq::<u8>::empty();
        let only = t_routed(s[0], chain_id)->Ok_0;
        assert(none + only =~= only + none);
    } else {
        lemma_records_front(s.drop_last(), chain_id);
        assert(s.drop_last().drop_first() =~= rest.drop_last());
        assert(rest.last() == s.last());
        assert(s.drop_last()[0] == s[0]);
        lemma_regroup_3(
            t_routed(s[0], chain_id)->Ok_0,
            t_records(rest.drop_last(), chain_id)->Ok_0,
            t_routed(s.last(), chain_id)->Ok_0,
        );
    }
}

/// As many routed records are told by the bytes they take, whatever follows.
pub proof fn law_records_framing(
    a: Seq<RoutedView>,
    b: Seq<RoutedView>,
    chain_id: u64,
    x: Seq<u8>,
    y: Seq<u8>,
)
    requires
        a.len() == b.len(),
        forall|i: int| 0 <= i < a.len() ==> countable_audience((#[trigger] a[i]).audience),
        forall|i: int| 0 <= i < b.len() ==> countable_audience((#[trigger] b[i]).audience),
        t_records(a, chain_id) is Ok,
        t_records(b, chain_id) is Ok,
        t_records(a, chain_id)->Ok_0 + x == t_records(b, chain_id)->Ok_0 + y,
    ensures
        forall|i: int|
            0 <= i < a.len() ==> read_the_same(#[trigger] a[i], b[i], chain_id),
        x == y,
    decreases a.len(),
{
    if a.len() == 0 {
        assert(t_records(a, chain_id)->Ok_0 + x =~= x);
        assert(t_records(b, chain_id)->Ok_0 + y =~= y);
    } else {
        lemma_records_front(a, chain_id);
        lemma_records_front(b, chain_id);
        let (p, q) = (a.drop_first(), b.drop_first());
        let (u, v) = (t_records(p, chain_id)->Ok_0, t_records(q, chain_id)->Ok_0);
        lemma_regroup_3(t_routed(a[0], chain_id)->Ok_0, u, x);
        lemma_regroup_3(t_routed(b[0], chain_id)->Ok_0, v, y);
        assert(countable_audience(a[0].audience) && countable_audience(b[0].audience));
        law_routed_framing(a[0], b[0], chain_id, u + x, v + y);
        assert forall|i: int| 0 <= i < p.len() implies countable_audience(
            (#[trigger] p[i]).audience,
        ) by {
            assert(p[i] == a[i + 1]);
        }
        assert forall|i: int| 0 <= i < q.len() implies countable_audience(
            (#[trigger] q[i]).audience,
        ) by {
            assert(q[i] == b[i + 1]);
        }
        law_records_framing(p, q, chain_id, x, y);
        assert forall|i: int| 0 <= i < a.len() implies read_the_same(
            #[trigger] a[i],
            b[i],
            chain_id,
        ) by {
            if i > 0 {
                assert(a[i] == p[i - 1] && b[i] == q[i - 1]);
            }
        }
    }
}

/// A delivery as its source hands it in.
pub struct HandedIn {
    pub records: Seq<RoutedView>,
    pub controls: Seq<ControlView>,
    pub checkpoint: Option<Seq<u8>>,
    pub commitment: Option<B256>,
}

/// Whether every length in a delivery can be counted.
pub open spec fn countable_delivery(d: HandedIn) -> bool {
    &&& d.records.len() <= u64::MAX
    &&& d.controls.len() <= u64::MAX
    &&& d.checkpoint is Some ==> d.checkpoint->Some_0.len() <= u64::MAX
    &&& forall|i: int| 0 <= i < d.records.len() ==> countable_audience(
        (#[trigger] d.records[i]).audience,
    )
    &&& forall|i: int| 0 <= i < d.controls.len() ==> countable_control(#[trigger] d.controls[i])
}

/// What the digest of a delivery is the digest of.
pub open spec fn delivery_transcript(d: HandedIn, chain_id: u64) -> Seq<u8> {
    t_start("EFCHY-SOURCE-DELIVERY-V1".spec_bytes()) + t_u64(chain_id) + t_len(d.records.len())
        + t_records(d.records, chain_id)->Ok_0 + t_len(d.controls.len()) + t_controls(d.controls)
        + t_option_bytes(d.checkpoint) + t_commitment(d.commitment)
}

proof fn lemma_option_bytes(
    a: Option<Seq<u8>>,
    b: Option<Seq<u8>>,
    x: Seq<u8>,
    y: Seq<u8>,
)
    requires
        a is Some ==> a->Some_0.len() <= u64::MAX,
        b is Some ==> b->Some_0.len() <= u64::MAX,
        t_option_bytes(a) + x == t_option_bytes(b) + y,
    ensures
        a == b,
        x == y,
{
    match (a, b) {
        (Some(p), Some(q)) => {
            lemma_regroup_3(t_bool(true), t_bytes(p), x);
            lemma_regroup_3(t_bool(true), t_bytes(q), y);
            lemma_tag(1, 1, t_bytes(p) + x, t_bytes(q) + y);
            law_bytes_framing(p, q, x, y);
        },
        (None, None) => {
            lemma_tag(0, 0, x, y);
        },
        (Some(p), None) => {
            lemma_regroup_3(t_bool(true), t_bytes(p), x);
            lemma_tag(1, 0, t_bytes(p) + x, y);
        },
        (None, Some(q)) => {
            lemma_regroup_3(t_bool(true), t_bytes(q), y);
            lemma_tag(0, 1, x, t_bytes(q) + y);
        },
    }
}

/// The digest of a delivery tells it from every other: two deliveries with the
/// same one hold the same controls, the same cursor and commitment, and as many
/// records, which read the same one by one. (Two transcripts of the same digest
/// would be an exception.)
pub proof fn law_delivery_is_told_by_its_digest(a: HandedIn, b: HandedIn, chain_id: u64)
    requires
        countable_delivery(a),
        countable_delivery(b),
        delivery_digest(a.records, a.controls, a.checkpoint, a.commitment, chain_id) is Ok,
        delivery_digest(a.records, a.controls, a.checkpoint, a.commitment, chain_id)
            == delivery_digest(b.records, b.controls, b.checkpoint, b.commitment, chain_id),
        keccak_digest(delivery_transcript(a, chain_id)) == keccak_digest(
            delivery_transcript(b, chain_id),
        ) ==> delivery_transcript(a, chain_id) == delivery_transcript(b, chain_id),
    ensures
        a.records.len() == b.records.len(),
        forall|i: int|
            0 <= i < a.records.len() ==> read_the_same(
                #[trigger] a.records[i],
                b.records[i],
                chain_id,
            ),
        a.controls == b.controls,
        a.checkpoint == b.checkpoint,
        a.commitment == b.commitment,
{
    let start = t_start("EFCHY-SOURCE-DELIVERY-V1".spec_bytes());
    let (ra, rb) = (t_records(a.records, chain_id)->Ok_0, t_records(b.records, chain_id)->Ok_0);
    let (ka, kb) = (t_controls(a.controls), t_controls(b.controls));
    let (pa, pb) = (t_option_bytes(a.checkpoint), t_option_bytes(b.checkpoint));
    let (ma, mb) = (t_commitment(a.commitment), t_commitment(b.commitment));
    let (na, nb) = (t_len(a.records.len()), t_len(b.records.len()));
    let (la, lb) = (t_len(a.controls.len()), t_len(b.controls.len()));
    lemma_regroup_8(start, t_u64(chain_id), na, ra, la, ka, pa, ma);
    lemma_regroup_8(start, t_u64(chain_id), nb, rb, lb, kb, pb, mb);
    let (a5, b5) = (pa + ma, pb + mb);
    let (a4, b4) = (ka + a5, kb + b5);
    let (a3, b3) = (la + a4, lb + b4);
    let (a2, b2) = (ra + a3, rb + b3);
    let (a1, b1) = (na + a2, nb + b2);
    lemma_cancel(start, start, t_u64(chain_id) + a1, t_u64(chain_id) + b1);
    law_integer_framing(chain_id, chain_id, a1, b1);
    law_integer_framing(a.records.len() as u64, b.records.len() as u64, a2, b2);
    law_records_framing(a.records, b.records, chain_id, a3, b3);
    law_integer_framing(a.controls.len() as u64, b.controls.len() as u64, a4, b4);
    law_controls_framing(a.controls, b.controls, a5, b5);
    lemma_option_bytes(a.checkpoint, b.checkpoint, ma, mb);
    let none = Seq::<u8>::empty();
    assert(t_option_hash(a.commitment) + none =~= ma);
    assert(t_option_hash(b.commitment) + none =~= mb);
    law_option_hash_framing(a.commitment, b.commitment, none, none);
}

} // verus!
