//! What is let in, and what it is charged.
use crate::audience::{
    first_long_id, routing_error, AudienceView, DeliveryScope, HYBRID_MAX_HANDLER_ID_BYTES,
};
use crate::config::{control_ceiling, BATCH_ACCOUNTING_OVERHEAD, HybridIngressLimits};
use crate::error::SubscriberError;
use crate::header::header_digest;
use crate::ingress::{
    admitted, associations, audience_charge, batch_charge, controls_charged, controls_height,
    first_unknown, has_header, has_whole_body, ids_charge, record_charge, records_charged,
    records_height, routed_height, routing_refused, BatchView,
};
use crate::model::BlockRef;
use crate::owners::lookup;
use crate::records::{
    control_error, controls_error, delivery_digest, each_control_error, t_records, validated,
    ControlView, InputView, RoutedView,
};
use crate::recovery_laws::{agree, block_of, law_accounts_join_where_they_agree};
use vstd::prelude::*;

verus! {

// ---------------------------------------------------------------------------
// What is kept of a batch
// ---------------------------------------------------------------------------

/// A batch that is let in is kept whole, with its digest; nothing is planned of
/// it yet.
pub proof fn law_admission_keeps_the_batch(
    batch: BatchView,
    chain_id: u64,
    limits: HybridIngressLimits,
    generations: Seq<(Seq<u8>, u64)>,
)
    ensures
        match admitted(batch, chain_id, limits, generations) {
            Ok(b) => {
                &&& b.records == batch.deliveries
                &&& b.controls == batch.chain_controls
                &&& b.token == batch.delivery_token
                &&& b.checkpoint == batch.subscriber_checkpoint
                &&& b.payload_commitment == batch.payload_commitment
                &&& delivery_digest(
                    batch.deliveries,
                    batch.chain_controls,
                    batch.subscriber_checkpoint,
                    batch.payload_commitment,
                    chain_id,
                ) == Ok::<_, SubscriberError>(b.delivery_digest)
                &&& b.source_progress is None
                &&& b.canonical.len() == 0
                &&& b.next_canonical_history.len() == 0
                &&& b.next_coverage_head is None
                &&& b.next_safe_head is None
                &&& b.next_finalized_head is None
            },
            Err(_) => true,
        },
{
}

// ---------------------------------------------------------------------------
// The height of a batch
// ---------------------------------------------------------------------------

/// Whether a record covers a height: it advances the chain, in a block there.
pub open spec fn record_covers(r: RoutedView, height: u64) -> bool {
    (r.scope == DeliveryScope::Canonical || r.scope == DeliveryScope::CanonicalProgress)
        && block_of(r.record) is Some && block_of(r.record)->Some_0.number == height
}

/// Whether a control covers a height: it is progress to there, or a barrier
/// there.
pub open spec fn control_covers(c: ControlView, height: u64) -> bool {
    match c {
        ControlView::CanonicalProgress(block) => block.number == height,
        ControlView::Barrier { block: Some(block), .. } => block.number == height,
        _ => false,
    }
}

/// Whether records or controls cover a height.
pub open spec fn covered_height(
    records: Seq<RoutedView>,
    controls: Seq<ControlView>,
    height: u64,
) -> bool {
    (exists|i: int| 0 <= i < records.len() && record_covers(#[trigger] records[i], height)) || (
    exists|i: int| 0 <= i < controls.len() && control_covers(#[trigger] controls[i], height))
}

spec fn tops_records(top: Option<u64>, s: Seq<RoutedView>) -> bool {
    &&& top is Some ==> exists|i: int|
        0 <= i < s.len() && record_covers(#[trigger] s[i], top->Some_0)
    &&& forall|i: int, h: u64|
        0 <= i < s.len() && #[trigger] record_covers(s[i], h) ==> top is Some && h <= top->Some_0
}

spec fn tops_controls(top: Option<u64>, s: Seq<ControlView>) -> bool {
    &&& top is Some ==> exists|i: int|
        0 <= i < s.len() && control_covers(#[trigger] s[i], top->Some_0)
    &&& forall|i: int, h: u64|
        0 <= i < s.len() && #[trigger] control_covers(s[i], h) ==> top is Some && h <= top->Some_0
}

proof fn lemma_records_height(s: Seq<RoutedView>)
    ensures
        tops_records(records_height(s), s),
    decreases s.len(),
{
    if s.len() > 0 {
        let front = s.drop_last();
        lemma_records_height(front);
        let top = records_height(s);
        let n = s.len() - 1;
        if top is Some {
            if records_height(front) == top {
                let i = choose|i: int|
                    0 <= i < front.len() && record_covers(#[trigger] front[i], top->Some_0);
                assert(record_covers(s[i], top->Some_0));
            } else {
                assert(record_covers(s[n], top->Some_0));
            }
        }
        assert forall|i: int, h: u64|
            0 <= i < s.len() && #[trigger] record_covers(s[i], h) implies top is Some && h
            <= top->Some_0 by {
            if i < n {
                assert(record_covers(front[i], h));
            } else {
                assert(routed_height(s.last()) == Some(h));
            }
        }
    }
}

proof fn lemma_controls_height(s: Seq<ControlView>)
    ensures
        tops_controls(controls_height(s), s),
    decreases s.len(),
{
    if s.len() > 0 {
        let front = s.drop_last();
        lemma_controls_height(front);
        let top = controls_height(s);
        let n = s.len() - 1;
        if top is Some {
            if controls_height(front) == top {
                let i = choose|i: int|
                    0 <= i < front.len() && control_covers(#[trigger] front[i], top->Some_0);
                assert(control_covers(s[i], top->Some_0));
            } else {
                assert(control_covers(s[n], top->Some_0));
            }
        }
        assert forall|i: int, h: u64|
            0 <= i < s.len() && #[trigger] control_covers(s[i], h) implies top is Some && h
            <= top->Some_0 by {
            if i < n {
                assert(control_covers(front[i], h));
            } else {
                assert(crate::records::control_height(s.last()) == Some(h));
            }
        }
    }
}

/// The height of a batch is the greatest that its records and controls cover;
/// it has none where they cover none.
pub proof fn law_height_is_the_greatest_covered(
    batch: BatchView,
    chain_id: u64,
    limits: HybridIngressLimits,
    generations: Seq<(Seq<u8>, u64)>,
    height: u64,
)
    ensures
        match admitted(batch, chain_id, limits, generations) {
            Ok(b) => {
                &&& b.max_canonical_block is Some ==> covered_height(
                    b.records,
                    b.controls,
                    b.max_canonical_block->Some_0,
                )
                &&& covered_height(b.records, b.controls, height) ==> b.max_canonical_block is Some
                    && height <= b.max_canonical_block->Some_0
            },
            Err(_) => true,
        },
{
    if let Ok(b) = admitted(batch, chain_id, limits, generations) {
        lemma_records_height(b.records);
        lemma_controls_height(b.controls);
        if exists|i: int| 0 <= i < b.records.len() && record_covers(#[trigger] b.records[i], height) {
            let i = choose|i: int|
                0 <= i < b.records.len() && record_covers(#[trigger] b.records[i], height);
            assert(record_covers(b.records[i], height));
        }
        if exists|i: int| 0 <= i < b.controls.len() && control_covers(
            #[trigger] b.controls[i],
            height,
        ) {
            let i = choose|i: int|
                0 <= i < b.controls.len() && control_covers(#[trigger] b.controls[i], height);
            assert(control_covers(b.controls[i], height));
        }
    }
}

// ---------------------------------------------------------------------------
// Routing
// ---------------------------------------------------------------------------

/// Whether ids can be kept and are registered, and none occurs twice.
pub open spec fn known_ids(ids: Seq<Seq<u8>>, generations: Seq<(Seq<u8>, u64)>) -> bool {
    &&& forall|i: int|
        0 <= i < ids.len() ==> (#[trigger] ids[i]).len() <= HYBRID_MAX_HANDLER_ID_BYTES && lookup(
            generations,
            ids[i],
        ) is Some
    &&& forall|i: int, j: int|
        0 <= i < j < ids.len() ==> #[trigger] ids[i] != #[trigger] ids[j]
}

/// Whether a record is routed as it may be: to everyone, to some registered
/// owners, or to all but some registered owners; and to listed owners where it
/// only catches owners up.
pub open spec fn routed_fairly(r: RoutedView, generations: Seq<(Seq<u8>, u64)>) -> bool {
    &&& match r.audience {
        AudienceView::All => true,
        AudienceView::Owners(ids) => ids.len() > 0 && known_ids(ids, generations),
        AudienceView::AllExcept(ids) => known_ids(ids, generations),
    }
    &&& r.scope == DeliveryScope::OwnerCatchup ==> r.audience is Owners
}

/// How many owners records from `from` on are projected to: everyone counts as
/// all registered owners, and excluded owners count besides.
pub open spec fn projected_from(s: Seq<RoutedView>, registered: nat, from: int) -> nat
    decreases s.len() - from,
{
    if from < 0 || from >= s.len() {
        0
    } else {
        (match s[from].audience {
            AudienceView::All => registered,
            AudienceView::Owners(ids) => ids.len(),
            AudienceView::AllExcept(ids) => registered + ids.len(),
        }) + projected_from(s, registered, from + 1)
    }
}

proof fn lemma_long_id(ids: Seq<Seq<u8>>, from: int)
    requires
        0 <= from <= ids.len(),
    ensures
        first_long_id(ids, from) is None <==> forall|i: int|
            from <= i < ids.len() ==> (#[trigger] ids[i]).len() <= HYBRID_MAX_HANDLER_ID_BYTES,
    decreases ids.len() - from,
{
    if from < ids.len() && ids[from].len() <= HYBRID_MAX_HANDLER_ID_BYTES {
        lemma_long_id(ids, from + 1);
    }
}

proof fn lemma_unknown(ids: Seq<Seq<u8>>, generations: Seq<(Seq<u8>, u64)>, from: int)
    requires
        0 <= from <= ids.len(),
    ensures
        first_unknown(ids, generations, from) is None <==> forall|i: int|
            from <= i < ids.len() ==> lookup(generations, #[trigger] ids[i]) is Some,
    decreases ids.len() - from,
{
    if from < ids.len() && lookup(generations, ids[from]) is Some {
        lemma_unknown(ids, generations, from + 1);
    }
}

proof fn lemma_distinct(ids: Seq<Seq<u8>>)
    ensures
        ids.no_duplicates() <==> forall|i: int, j: int|
            0 <= i < j < ids.len() ==> #[trigger] ids[i] != #[trigger] ids[j],
{
    if forall|i: int, j: int| 0 <= i < j < ids.len() ==> #[trigger] ids[i] != #[trigger] ids[j] {
        assert forall|i: int, j: int| 0 <= i < ids.len() && 0 <= j < ids.len() && i != j implies
            ids[i] != ids[j] by {
            if i < j {
                assert(ids[i] != ids[j]);
            } else {
                assert(ids[j] != ids[i]);
            }
        }
    }
}

proof fn lemma_routed_fairly(r: RoutedView, generations: Seq<(Seq<u8>, u64)>)
    ensures
        routed_fairly(r, generations) <==> routing_error(r.audience, r.scope) is None
            && first_unknown(r.audience.explicit(), generations, 0) is None,
{
    let ids = r.audience.explicit();
    lemma_long_id(ids, 0);
    lemma_unknown(ids, generations, 0);
    lemma_distinct(ids);
}

proof fn lemma_routing(
    s: Seq<RoutedView>,
    generations: Seq<(Seq<u8>, u64)>,
    max: usize,
    from: int,
    projected: nat,
)
    requires
        0 <= from <= s.len(),
        projected <= max,
    ensures
        routing_refused(s, generations, max, from, projected) is None <==> (forall|i: int|
            from <= i < s.len() ==> routed_fairly(#[trigger] s[i], generations)) && projected
            + projected_from(s, generations.len(), from) <= max,
    decreases s.len() - from,
{
    if from < s.len() {
        lemma_routed_fairly(s[from], generations);
        let charged = associations(s[from].audience, generations.len());
        if projected + charged <= max {
            lemma_routing(s, generations, max, from + 1, projected + charged);
        }
    }
}

/// Records are let in by their routing exactly where each is routed as it may
/// be, and together they reach no more owners than allowed.
pub proof fn law_routing_is_fair_and_bounded(
    s: Seq<RoutedView>,
    generations: Seq<(Seq<u8>, u64)>,
    max: usize,
)
    ensures
        routing_refused(s, generations, max, 0, 0) is None <==> (forall|i: int|
            0 <= i < s.len() ==> routed_fairly(#[trigger] s[i], generations)) && projected_from(
            s,
            generations.len(),
            0,
        ) <= max,
{
    lemma_routing(s, generations, max, 0, 0);
}

// ---------------------------------------------------------------------------
// Controls
// ---------------------------------------------------------------------------

/// Whether a tip can stand on an ancestor: above it, or it is the same block.
pub open spec fn stands_on(ancestor: BlockRef, tip: BlockRef) -> bool {
    ancestor.number < tip.number || agree(ancestor, tip)
}

/// Whether a control says something that can be: a barrier has a name, and both
/// tips of a reorganization stand on its ancestor.
pub open spec fn can_be(c: ControlView) -> bool {
    match c {
        ControlView::Barrier { id, .. } => id.len() > 0,
        ControlView::Reorg { common_ancestor, old_tip, new_tip } => stands_on(
            common_ancestor,
            old_tip,
        ) && stands_on(common_ancestor, new_tip),
        _ => true,
    }
}

proof fn lemma_each_control(s: Seq<ControlView>, from: int)
    requires
        0 <= from <= s.len(),
    ensures
        each_control_error(s, from) is None <==> forall|i: int|
            from <= i < s.len() ==> can_be(#[trigger] s[i]),
    decreases s.len() - from,
{
    if from < s.len() {
        if let ControlView::Reorg { common_ancestor, old_tip, new_tip } = s[from] {
            law_accounts_join_where_they_agree(common_ancestor, old_tip);
            law_accounts_join_where_they_agree(common_ancestor, new_tip);
        }
        assert(control_error(s[from]) is None <==> can_be(s[from]));
        lemma_each_control(s, from + 1);
    }
}

/// Controls are let in exactly where reorganizations come before all others, and
/// each says something that can be.
pub proof fn law_controls_are_ordered_and_sane(s: Seq<ControlView>)
    ensures
        controls_error(s) is None <==> (forall|i: int, j: int|
            0 <= i < j < s.len() && #[trigger] s[j] is Reorg ==> #[trigger] s[i] is Reorg) && (
        forall|i: int| 0 <= i < s.len() ==> can_be(#[trigger] s[i])),
{
    lemma_each_control(s, 0);
}

// ---------------------------------------------------------------------------
// Charges
// ---------------------------------------------------------------------------

/// The bytes of ids, with a fixed amount for each.
pub open spec fn ids_weight(ids: Seq<Seq<u8>>) -> nat
    decreases ids.len(),
{
    if ids.len() == 0 {
        0
    } else {
        ids[0].len() + 32 + ids_weight(ids.drop_first())
    }
}

proof fn lemma_ids_weight(ids: Seq<Seq<u8>>)
    ensures
        ids_charge(ids) == ids_weight(ids),
    decreases ids.len(),
{
    if ids.len() == 1 {
        assert(ids.drop_last() =~= Seq::<Seq<u8>>::empty());
        assert(ids.drop_first() =~= Seq::<Seq<u8>>::empty());
        assert(ids_weight(ids.drop_first()) == 0);
        assert(ids_charge(ids.drop_last()) == 0);
    } else if ids.len() > 1 {
        lemma_ids_weight(ids.drop_last());
        lemma_ids_weight(ids.drop_first());
        lemma_ids_weight(ids.drop_first().drop_last());
        assert(ids.drop_last().drop_first() =~= ids.drop_first().drop_last());
        assert(ids.drop_first().last() == ids.last());
    }
}

/// The bytes of an audience: a fixed amount, and its ids.
pub open spec fn audience_weight(a: AudienceView) -> nat {
    64 + (match a {
        AudienceView::All => 0,
        AudienceView::Owners(ids) => ids_weight(ids),
        AudienceView::AllExcept(ids) => ids_weight(ids),
    })
}

/// The bytes of a record: a fixed amount, its audience, and its body as it is,
/// 32 for each topic; of a header, the length of its canonical form.
pub open spec fn record_weight(r: RoutedView) -> nat {
    512 + audience_weight(r.audience) + (match r.record.input {
        InputView::Log(log) => 32 * log.topics.len() + log.data.len(),
        InputView::BlockHeader(json) => header_digest(json, usize::MAX)->Ok_0.1 as nat,
        _ => 0,
    })
}

/// The bytes of the records from `from` on.
pub open spec fn records_weight(s: Seq<RoutedView>, from: int) -> nat
    decreases s.len() - from,
{
    if from < 0 || from >= s.len() {
        0
    } else {
        record_weight(s[from]) + records_weight(s, from + 1)
    }
}

/// The bytes of the controls from `from` on: a fixed amount each, and the names
/// of barriers.
pub open spec fn controls_weight(s: Seq<ControlView>, from: int) -> nat
    decreases s.len() - from,
{
    if from < 0 || from >= s.len() {
        0
    } else {
        256 + (match s[from] {
            ControlView::Barrier { id, .. } => id.len(),
            _ => 0,
        }) + controls_weight(s, from + 1)
    }
}

/// The bytes of an optional string.
pub open spec fn string_weight(s: Option<Seq<u8>>) -> nat {
    match s {
        Some(bytes) => bytes.len(),
        None => 0,
    }
}

proof fn lemma_header_length(json: Seq<u8>, limit: usize)
    requires
        header_digest(json, limit) is Ok,
    ensures
        header_digest(json, usize::MAX) == header_digest(json, limit),
{
}

proof fn lemma_audience_weight(a: AudienceView)
    ensures
        audience_charge(a) == (if audience_weight(a) > usize::MAX {
            usize::MAX as nat
        } else {
            audience_weight(a)
        }),
{
    lemma_ids_weight(a.explicit());
}

proof fn lemma_records_weight(s: Seq<RoutedView>, from: int, total: nat, max: usize)
    requires
        0 <= from <= s.len(),
        0 < total <= usize::MAX,
        !has_whole_body(s),
    ensures
        match records_charged(s, from, total, max) {
            Ok(n) => n == total + records_weight(s, from) && (from < s.len() ==> n <= max),
            Err(_) => has_header(s) || total + records_weight(s, from) > max,
        },
    decreases s.len() - from,
{
    if from < s.len() {
        let r = s[from];
        lemma_audience_weight(r.audience);
        assert(!(r.record.input is FullBlock) && !(r.record.input is PendingTx));
        let left = (if max >= total {
            max - total
        } else {
            0
        }) as usize;
        if let InputView::BlockHeader(json) = r.record.input {
            assert(has_header(s));
            let fixed = crate::wire::capped(512 + audience_charge(r.audience));
            let limit = (if left >= fixed {
                left - fixed
            } else {
                0
            }) as usize;
            if header_digest(json, limit) is Ok {
                lemma_header_length(json, limit);
            }
        }
        if let Ok(n) = record_charge(r.record.input, r.audience, left) {
            assert(n == (if record_weight(r) > usize::MAX {
                usize::MAX as nat
            } else {
                record_weight(r)
            }));
            if total + n <= max {
                lemma_records_weight(s, from + 1, total + n, max);
            }
        }
    }
}

proof fn lemma_controls_weight(s: Seq<ControlView>, from: int, total: nat, max: usize)
    requires
        0 <= from <= s.len(),
        0 < total <= usize::MAX,
    ensures
        match controls_charged(s, from, total, max) {
            Ok(n) => n == total + controls_weight(s, from) && n <= usize::MAX,
            Err(_) => total + controls_weight(s, from) > max,
        },
    decreases s.len() - from,
{
    if from < s.len() {
        let n = crate::ingress::control_charge(s[from]);
        if total + n <= max {
            lemma_controls_weight(s, from + 1, total + n, max);
        }
    }
}

/// A batch is charged for everything that it holds, to the byte, with a fixed
/// amount for each part; and a batch without headers whose charge is within the
/// limit is not refused for it.
pub proof fn law_batch_is_charged_for_all_it_holds(batch: BatchView, max: usize)
    requires
        !has_whole_body(batch.deliveries),
    ensures
        ({
            let whole = BATCH_ACCOUNTING_OVERHEAD + records_weight(batch.deliveries, 0)
                + controls_weight(batch.chain_controls, 0) + string_weight(batch.delivery_token)
                + string_weight(batch.subscriber_checkpoint) + (if batch.payload_commitment is Some {
                32nat
            } else {
                0nat
            });
            match batch_charge(batch, max) {
                Ok(n) => n == whole && n <= max,
                Err(_) => has_header(batch.deliveries) || whole > max,
            }
        }),
{
    let start = BATCH_ACCOUNTING_OVERHEAD as nat;
    lemma_records_weight(batch.deliveries, 0, start, max);
    if let Ok(n) = records_charged(batch.deliveries, 0, start, max) {
        lemma_controls_weight(batch.chain_controls, 0, n, max);
    }
}

// ---------------------------------------------------------------------------
// Admission
// ---------------------------------------------------------------------------

proof fn lemma_records_accepted(s: Seq<RoutedView>, chain_id: u64)
    ensures
        t_records(s, chain_id) is Ok <==> forall|i: int|
            0 <= i < s.len() ==> validated((#[trigger] s[i]).record, chain_id) is Ok,
    decreases s.len(),
{
    if s.len() > 0 {
        let front = s.drop_last();
        let n = s.len() - 1;
        lemma_records_accepted(front, chain_id);
        if t_records(s, chain_id) is Ok {
            assert forall|i: int| 0 <= i < s.len() implies validated(
                (#[trigger] s[i]).record,
                chain_id,
            ) is Ok by {
                if i < n {
                    assert(front[i] == s[i]);
                }
            }
        } else if forall|i: int|
            0 <= i < s.len() ==> validated((#[trigger] s[i]).record, chain_id) is Ok {
            assert forall|i: int| 0 <= i < front.len() implies validated(
                (#[trigger] front[i]).record,
                chain_id,
            ) is Ok by {
                assert(front[i] == s[i]);
            }
            assert(validated(s[n].record, chain_id) is Ok);
        }
    }
}

/// A batch is let in exactly where it names the chain, is not empty, keeps to
/// every limit, is routed as it may be, holds no whole blocks or transactions,
/// commits to its payload where it holds headers, and its records and controls
/// are acceptable one by one.
pub proof fn law_admission_takes_every_check(
    batch: BatchView,
    chain_id: u64,
    limits: HybridIngressLimits,
    generations: Seq<(Seq<u8>, u64)>,
)
    ensures
        admitted(batch, chain_id, limits, generations) is Ok <==> {
            &&& batch.chain_id == Some(chain_id)
            &&& batch.deliveries.len() > 0 || batch.chain_controls.len() > 0
                || batch.delivery_token is Some
            &&& string_weight(batch.delivery_token) <= limits.max_delivery_token_bytes
            &&& string_weight(batch.subscriber_checkpoint) <= limits.max_checkpoint_bytes
            &&& batch.deliveries.len() <= limits.max_records
            &&& batch.chain_controls.len() <= control_ceiling(limits.max_accounted_bytes)
            &&& routing_refused(
                batch.deliveries,
                generations,
                limits.max_projected_owner_associations,
                0,
                0,
            ) is None
            &&& !has_whole_body(batch.deliveries)
            &&& has_header(batch.deliveries) ==> batch.payload_commitment is Some
            &&& batch_charge(batch, limits.max_accounted_bytes) is Ok
            &&& forall|i: int|
                0 <= i < batch.deliveries.len() ==> validated(
                    (#[trigger] batch.deliveries[i]).record,
                    chain_id,
                ) is Ok
            &&& controls_error(batch.chain_controls) is None
        },
        match admitted(batch, chain_id, limits, generations) {
            Ok(b) => batch_charge(batch, limits.max_accounted_bytes) == Ok::<_, SubscriberError>(
                b.accounted_bytes as nat,
            ),
            Err(_) => true,
        },
{
    lemma_records_accepted(batch.deliveries, chain_id);
    if !has_whole_body(batch.deliveries) {
        law_batch_is_charged_for_all_it_holds(batch, limits.max_accounted_bytes);
    }
}

} // verus!
