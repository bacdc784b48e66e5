//! What a batch must be to enter the coordinator.
use crate::audience::{
    routing_error, scope_advances_canonical, validate_routing, AudienceView, DeliveryAudience,
    DeliveryScope,
};
use crate::checkpoint::opt_bytes;
use crate::config::{
    control_ceiling, maximum_ingress_control_count, BATCH_ACCOUNTING_OVERHEAD, HybridIngressLimits,
};
use crate::error::SubscriberError;
use crate::header::{header_body_digest, header_digest};
use crate::history::CanonicalMutation;
use crate::model::{shown_id, BlockRef, HandlerId};
use crate::owners::{has_key, ids_view, OwnerMap};
use crate::records::{
    canonical_block, canonical_block_number, control_height, controls_error, controls_view,
    coverage_control_block_number, delivery_digest, routed_view, source_delivery_digest, t_records,
    validate_chain_controls, validated, validated_record, ChainControl, ControlView, InputView,
    ReactiveInput, ReactiveInputRecord, RoutedRecord, RoutedView,
};
use crate::validate::first;
use crate::wire::capped;
use crate::words::B256;
use vstd::prelude::*;

verus! {

/// What a source hands over at once.
#[derive(Debug, PartialEq, Eq)]
pub struct ReactiveInputBatch {
    pub chain_id: Option<u64>,
    pub deliveries: Vec<RoutedRecord>,
    pub chain_controls: Vec<ChainControl>,
    pub delivery_token: Option<Vec<u8>>,
    pub subscriber_checkpoint: Option<Vec<u8>>,
    pub payload_commitment: Option<B256>,
}

/// A batch over sequences.
pub struct BatchView {
    pub chain_id: Option<u64>,
    pub deliveries: Seq<RoutedView>,
    pub chain_controls: Seq<ControlView>,
    pub delivery_token: Option<Seq<u8>>,
    pub subscriber_checkpoint: Option<Seq<u8>>,
    pub payload_commitment: Option<B256>,
}

impl View for ReactiveInputBatch {
    type V = BatchView;

    open spec fn view(&self) -> BatchView {
        BatchView {
            chain_id: self.chain_id,
            deliveries: routed_view(self.deliveries@),
            chain_controls: controls_view(self.chain_controls@),
            delivery_token: opt_bytes(self.delivery_token),
            subscriber_checkpoint: opt_bytes(self.subscriber_checkpoint),
            payload_commitment: self.payload_commitment,
        }
    }
}

/// A batch that was admitted: its parts, what it was charged, its digest, and
/// what it will do to the canonical chain once that is known.
#[derive(Debug, PartialEq, Eq)]
pub struct BufferedBatch {
    pub records: Vec<RoutedRecord>,
    pub controls: Vec<ChainControl>,
    pub token: Option<Vec<u8>>,
    pub checkpoint: Option<Vec<u8>>,
    pub payload_commitment: Option<B256>,
    pub max_canonical_block: Option<u64>,
    pub source_progress: Option<BlockRef>,
    pub accounted_bytes: usize,
    pub delivery_digest: B256,
    pub canonical: Vec<CanonicalMutation>,
    pub next_safe_head: Option<BlockRef>,
    pub next_finalized_head: Option<BlockRef>,
    pub next_canonical_history: Vec<BlockRef>,
    pub next_coverage_head: Option<BlockRef>,
}

/// An admitted batch over sequences.
pub struct BufferedView {
    pub records: Seq<RoutedView>,
    pub controls: Seq<ControlView>,
    pub token: Option<Seq<u8>>,
    pub checkpoint: Option<Seq<u8>>,
    pub payload_commitment: Option<B256>,
    pub max_canonical_block: Option<u64>,
    pub source_progress: Option<BlockRef>,
    pub accounted_bytes: usize,
    pub delivery_digest: B256,
    pub canonical: Seq<CanonicalMutation>,
    pub next_safe_head: Option<BlockRef>,
    pub next_finalized_head: Option<BlockRef>,
    pub next_canonical_history: Seq<BlockRef>,
    pub next_coverage_head: Option<BlockRef>,
}

impl View for BufferedBatch {
    type V = BufferedView;

    open spec fn view(&self) -> BufferedView {
        BufferedView {
            records: routed_view(self.records@),
            controls: controls_view(self.controls@),
            token: opt_bytes(self.token),
            checkpoint: opt_bytes(self.checkpoint),
            payload_commitment: self.payload_commitment,
            max_canonical_block: self.max_canonical_block,
            source_progress: self.source_progress,
            accounted_bytes: self.accounted_bytes,
            delivery_digest: self.delivery_digest,
            canonical: self.canonical@,
            next_safe_head: self.next_safe_head,
            next_finalized_head: self.next_finalized_head,
            next_canonical_history: self.next_canonical_history@,
            next_coverage_head: self.next_coverage_head,
        }
    }
}

// ---------------------------------------------------------------------------
// Routing
// ---------------------------------------------------------------------------

/// The position of the first id, from `from` on, that is not registered.
pub open spec fn first_unknown(ids: Seq<Seq<u8>>, generations: Seq<(Seq<u8>, u64)>, from: int) -> Option<
    int,
>
    decreases ids.len() - from,
{
    if from < 0 || from >= ids.len() {
        None
    } else if !has_key(generations, ids[from]) {
        Some(from)
    } else {
        first_unknown(ids, generations, from + 1)
    }
}

/// How many owners a delivery is charged for.
pub open spec fn associations(audience: AudienceView, registered: nat) -> nat {
    match audience {
        AudienceView::All => registered,
        AudienceView::AllExcept(ids) => registered + ids.len(),
        AudienceView::Owners(ids) => ids.len(),
    }
}

/// The error of the first delivery, from `from` on, that is routed in a way
/// which is refused; `projected` owners were charged before it.
pub open spec fn routing_refused(
    deliveries: Seq<RoutedView>,
    generations: Seq<(Seq<u8>, u64)>,
    max: usize,
    from: int,
    projected: nat,
) -> Option<SubscriberError>
    decreases deliveries.len() - from,
{
    if from < 0 || from >= deliveries.len() {
        None
    } else {
        let audience = deliveries[from].audience;
        let ids = audience.explicit();
        let charged = associations(audience, generations.len());
        if ids.len() > max {
            Some(SubscriberError::ExplicitOwnersExceeded { count: ids.len() as usize, max })
        } else if charged > usize::MAX {
            Some(
                SubscriberError::Provider(
                    "hybrid child batch projected AllExcept owner work overflowed",
                ),
            )
        } else if projected + charged > usize::MAX {
            Some(
                SubscriberError::Provider(
                    "hybrid child batch projected owner associations overflowed",
                ),
            )
        } else if projected + charged > max {
            Some(
                SubscriberError::ProjectedOwnersExceeded {
                    count: (projected + charged) as usize,
                    max,
                },
            )
        } else if routing_error(audience, deliveries[from].scope) is Some {
            routing_error(audience, deliveries[from].scope)
        } else if first_unknown(ids, generations, 0) is Some {
            Some(
                SubscriberError::UnknownOwner {
                    owner: shown_id(ids[first_unknown(ids, generations, 0)->Some_0]),
                },
            )
        } else {
            routing_refused(deliveries, generations, max, from + 1, projected + charged)
        }
    }
}

fn find_unknown(ids: &Vec<HandlerId>, generations: &OwnerMap<u64>) -> (r: Option<usize>)
    ensures
        match r {
            Some(i) => i < ids@.len() && first_unknown(ids_view(ids@), generations@, 0) == Some(i as int),
            None => first_unknown(ids_view(ids@), generations@, 0) is None,
        },
{
    let mut i: usize = 0;
    while i < ids.len()
        invariant
            i <= ids@.len(),
            first_unknown(ids_view(ids@), generations@, 0) == first_unknown(
                ids_view(ids@),
                generations@,
                i as int,
            ),
        decreases ids@.len() - i,
    {
        if !generations.contains_key(&ids[i]) {
            return Some(i);
        }
        i += 1;
    }
    None
}

/// Refuses deliveries that reach too many owners, are ill-routed, or name an
/// owner that is not registered.
pub fn preflight_ingress_routing(
    deliveries: &Vec<RoutedRecord>,
    owner_generations: &OwnerMap<u64>,
    max_projected_owner_associations: usize,
) -> (r: Result<(), SubscriberError>)
    ensures
        match r {
            Ok(_) => routing_refused(
                routed_view(deliveries@),
                owner_generations@,
                max_projected_owner_associations,
                0,
                0,
            ) is None,
            Err(e) => routing_refused(
                routed_view(deliveries@),
                owner_generations@,
                max_projected_owner_associations,
                0,
                0,
            ) == Some(e),
        },
{
    let ghost all = routed_view(deliveries@);
    let max: usize = max_projected_owner_associations;
    let mut projected: usize = 0;
    let mut i: usize = 0;
    while i < deliveries.len()
        invariant
            i <= deliveries@.len(),
            max == max_projected_owner_associations,
            all == routed_view(deliveries@),
            routing_refused(all, owner_generations@, max, 0, 0) == routing_refused(
                all,
                owner_generations@,
                max,
                i as int,
                projected as nat,
            ),
        decreases deliveries@.len() - i,
    {
        let delivery: &RoutedRecord = &deliveries[i];
        assert(all[i as int] == delivery@);
        let listed: usize = match &delivery.audience {
            DeliveryAudience::All => 0,
            DeliveryAudience::Owners(ids) => ids.len(),
            DeliveryAudience::AllExcept(ids) => ids.len(),
        };
        if listed > max {
            return Err(SubscriberError::ExplicitOwnersExceeded { count: listed, max });
        }
        let charged: usize = match &delivery.audience {
            DeliveryAudience::All => owner_generations.len(),
            DeliveryAudience::Owners(_) => listed,
            DeliveryAudience::AllExcept(_) => match owner_generations.len().checked_add(listed) {
                Some(sum) => sum,
                None => {
                    return Err(
                        SubscriberError::Provider(
                            "hybrid child batch projected AllExcept owner work overflowed",
                        ),
                    );
                },
            },
        };
        projected =
        match projected.checked_add(charged) {
            Some(sum) => sum,
            None => {
                return Err(
                    SubscriberError::Provider(
                        "hybrid child batch projected owner associations overflowed",
                    ),
                );
            },
        };
        if projected > max {
            return Err(SubscriberError::ProjectedOwnersExceeded { count: projected, max });
        }
        validate_routing(&delivery.audience, delivery.scope)?;
        match &delivery.audience {
            DeliveryAudience::All => {},
            DeliveryAudience::Owners(ids) | DeliveryAudience::AllExcept(ids) => {
                if let Some(position) = find_unknown(ids, owner_generations) {
                    return Err(SubscriberError::UnknownOwner { owner: ids[position].shown() });
                }
            },
        }
        i += 1;
    }
    Ok(())
}

// ---------------------------------------------------------------------------
// Accounting
// ---------------------------------------------------------------------------

/// The bytes that ids are charged: their own and a fixed amount each.
pub open spec fn ids_charge(ids: Seq<Seq<u8>>) -> nat
    decreases ids.len(),
{
    if ids.len() == 0 {
        0
    } else {
        ids_charge(ids.drop_last()) + ids.last().len() + 32
    }
}

/// The bytes that an audience is charged.
pub open spec fn audience_charge(audience: AudienceView) -> nat {
    capped(64 + ids_charge(audience.explicit()))
}

fn charge_ids(ids: &Vec<HandlerId>) -> (r: usize)
    ensures
        r == capped(64 + ids_charge(ids_view(ids@))),
{
    let ghost all = ids_view(ids@);
    let mut total: usize = 64;
    let mut i: usize = 0;
    assert(all.take(0) =~= Seq::<Seq<u8>>::empty());
    while i < ids.len()
        invariant
            i <= ids@.len(),
            all == ids_view(ids@),
            total == capped(64 + ids_charge(all.take(i as int))),
        decreases ids@.len() - i,
    {
        proof {
            let next = all.take(i + 1);
            assert(next.drop_last() =~= all.take(i as int));
            assert(next.last() == all[i as int]);
        }
        total = total.saturating_add(ids[i].byte_len().saturating_add(32));
        i += 1;
    }
    assert(all.take(i as int) =~= all);
    total
}

/// The bytes that an audience is charged.
pub fn accounted_audience_bytes(audience: &DeliveryAudience) -> (r: usize)
    ensures
        r == audience_charge(audience@),
{
    match audience {
        DeliveryAudience::All => 64,
        DeliveryAudience::Owners(ids) => charge_ids(ids),
        DeliveryAudience::AllExcept(ids) => charge_ids(ids),
    }
}

/// The bytes that a record is charged when `remaining` are left, or why it has
/// no charge.
pub open spec fn record_charge(input: InputView, audience: AudienceView, remaining: usize) -> Result<
    nat,
    SubscriberError,
> {
    let routed = audience_charge(audience);
    match input {
        InputView::Log(log) => Ok(
            capped(512 + 32 * log.topics.len() + log.data.len() + routed),
        ),
        InputView::BlockHeader(json) => {
            let fixed = capped(512 + routed);
            match header_digest(
                json,
                (if remaining >= fixed {
                    remaining - fixed
                } else {
                    0
                }) as usize,
            ) {
                Err(e) => Err(e),
                Ok((_, length)) => Ok(capped(512 + length as nat + routed)),
            }
        },
        InputView::PendingTxHash(_) => Ok(capped(512 + routed)),
        InputView::FullBlock => Ok(capped((usize::MAX / 2) as nat + routed)),
        InputView::PendingTx => Ok(capped((usize::MAX / 2) as nat + routed)),
    }
}

/// The bytes that a record is charged when `remaining` are left.
pub fn accounted_record_bytes(
    record: &ReactiveInputRecord,
    audience: &DeliveryAudience,
    remaining: usize,
) -> (r: Result<usize, SubscriberError>)
    ensures
        match r {
            Ok(n) => record_charge(record@.input, audience@, remaining) == Ok::<_, SubscriberError>(
                n as nat,
            ),
            Err(e) => record_charge(record@.input, audience@, remaining) == Err::<nat, _>(e),
        },
{
    let routed: usize = accounted_audience_bytes(audience);
    let input_bytes: usize = match &record.input {
        ReactiveInput::Log(log) => {
            let topics: usize = match log.topics.len().checked_mul(32) {
                Some(bytes) => bytes,
                None => usize::MAX,
            };
            topics.saturating_add(512).saturating_add(log.data.len())
        },
        ReactiveInput::BlockHeader(json) => {
            let fixed: usize = routed.saturating_add(512);
            let limit: usize = remaining.saturating_sub(fixed);
            let (_, length) = header_body_digest(json.as_slice(), limit)?;
            length.saturating_add(512)
        },
        ReactiveInput::PendingTxHash(_) => 512,
        ReactiveInput::FullBlock => usize::MAX / 2,
        ReactiveInput::PendingTx => usize::MAX / 2,
    };
    Ok(input_bytes.saturating_add(routed))
}

/// The bytes that a control is charged.
pub open spec fn control_charge(control: ControlView) -> nat {
    match control {
        ControlView::Barrier { id, .. } => capped(256 + id.len()),
        _ => 256,
    }
}

/// The bytes that a control is charged.
pub fn accounted_control_bytes(control: &ChainControl) -> (r: usize)
    ensures
        r == control_charge(control@),
{
    match control {
        ChainControl::Barrier { id, .. } => id.len().saturating_add(256),
        _ => 256,
    }
}

/// `total` charged with `more`.
pub open spec fn charged(total: nat, more: nat) -> Result<nat, SubscriberError> {
    if total + more > usize::MAX {
        Err(SubscriberError::Provider("hybrid child batch ingress byte accounting overflowed"))
    } else {
        Ok(total + more)
    }
}

/// `total` charged with `more`, which may not exceed `max`.
pub open spec fn charged_within(total: nat, more: nat, max: usize) -> Result<nat, SubscriberError> {
    match charged(total, more) {
        Err(e) => Err(e),
        Ok(n) => if n > max {
            Err(SubscriberError::IngressBytes { bytes: n as usize, max })
        } else {
            Ok(n)
        },
    }
}

fn charge(total: usize, more: usize) -> (r: Result<usize, SubscriberError>)
    ensures
        match r {
            Ok(n) => charged(total as nat, more as nat) == Ok::<_, SubscriberError>(n as nat),
            Err(e) => charged(total as nat, more as nat) == Err::<nat, _>(e),
        },
{
    match total.checked_add(more) {
        Some(sum) => Ok(sum),
        None => Err(
            SubscriberError::Provider("hybrid child batch ingress byte accounting overflowed"),
        ),
    }
}

fn charge_within(total: usize, more: usize, max: usize) -> (r: Result<usize, SubscriberError>)
    ensures
        match r {
            Ok(n) => charged_within(total as nat, more as nat, max) == Ok::<_, SubscriberError>(
                n as nat,
            ),
            Err(e) => charged_within(total as nat, more as nat, max) == Err::<nat, _>(e),
        },
{
    let sum: usize = charge(total, more)?;
    if sum > max {
        return Err(SubscriberError::IngressBytes { bytes: sum, max });
    }
    Ok(sum)
}

/// `total` charged with the records from `from` on.
pub open spec fn records_charged(deliveries: Seq<RoutedView>, from: int, total: nat, max: usize) -> Result<
    nat,
    SubscriberError,
>
    decreases deliveries.len() - from,
{
    if from < 0 || from >= deliveries.len() {
        Ok(total)
    } else {
        match record_charge(
            deliveries[from].record.input,
            deliveries[from].audience,
            (if max >= total {
                max - total
            } else {
                0
            }) as usize,
        ) {
            Err(e) => Err(e),
            Ok(n) => match charged_within(total, n, max) {
                Err(e) => Err(e),
                Ok(sum) => records_charged(deliveries, from + 1, sum, max),
            },
        }
    }
}

/// `total` charged with the controls from `from` on.
pub open spec fn controls_charged(controls: Seq<ControlView>, from: int, total: nat, max: usize) -> Result<
    nat,
    SubscriberError,
>
    decreases controls.len() - from,
{
    if from < 0 || from >= controls.len() {
        Ok(total)
    } else {
        match charged_within(total, control_charge(controls[from]), max) {
            Err(e) => Err(e),
            Ok(sum) => controls_charged(controls, from + 1, sum, max),
        }
    }
}

/// The length of an optional byte string.
pub open spec fn opt_len(value: Option<Seq<u8>>) -> nat {
    match value {
        Some(bytes) => bytes.len(),
        None => 0,
    }
}

/// The bytes that a batch is charged, or why it is refused.
pub open spec fn batch_charge(batch: BatchView, max: usize) -> Result<nat, SubscriberError> {
    match records_charged(batch.deliveries, 0, BATCH_ACCOUNTING_OVERHEAD as nat, max) { Err(e) => Err(e), Ok(n) =>
    match controls_charged(batch.chain_controls, 0, n, max) { Err(e) => Err(e), Ok(n) =>
    match charged(n, opt_len(batch.delivery_token)) { Err(e) => Err(e), Ok(n) =>
    match charged(n, opt_len(batch.subscriber_checkpoint)) { Err(e) => Err(e), Ok(n) =>
    charged_within(n, if batch.payload_commitment is Some { 32 } else { 0 }, max) } } } }
}

fn charge_records(deliveries: &Vec<RoutedRecord>, total: usize, max: usize) -> (r: Result<
    usize,
    SubscriberError,
>)
    ensures
        match r {
            Ok(n) => records_charged(routed_view(deliveries@), 0, total as nat, max) == Ok::<
                _,
                SubscriberError,
            >(n as nat),
            Err(e) => records_charged(routed_view(deliveries@), 0, total as nat, max) == Err::<
                nat,
                _,
            >(e),
        },
{
    let ghost all = routed_view(deliveries@);
    let mut sum: usize = total;
    let mut i: usize = 0;
    while i < deliveries.len()
        invariant
            i <= deliveries@.len(),
            all == routed_view(deliveries@),
            records_charged(all, 0, total as nat, max) == records_charged(
                all,
                i as int,
                sum as nat,
                max,
            ),
        decreases deliveries@.len() - i,
    {
        assert(all[i as int] == deliveries@[i as int]@);
        let remaining: usize = max.saturating_sub(sum);
        let bytes: usize = accounted_record_bytes(
            &deliveries[i].record,
            &deliveries[i].audience,
            remaining,
        )?;
        sum = charge_within(sum, bytes, max)?;
        i += 1;
    }
    Ok(sum)
}

fn charge_controls(controls: &Vec<ChainControl>, total: usize, max: usize) -> (r: Result<
    usize,
    SubscriberError,
>)
    ensures
        match r {
            Ok(n) => controls_charged(controls_view(controls@), 0, total as nat, max) == Ok::<
                _,
                SubscriberError,
            >(n as nat),
            Err(e) => controls_charged(controls_view(controls@), 0, total as nat, max) == Err::<
                nat,
                _,
            >(e),
        },
{
    let ghost all = controls_view(controls@);
    let mut sum: usize = total;
    let mut i: usize = 0;
    while i < controls.len()
        invariant
            i <= controls@.len(),
            all == controls_view(controls@),
            controls_charged(all, 0, total as nat, max) == controls_charged(
                all,
                i as int,
                sum as nat,
                max,
            ),
        decreases controls@.len() - i,
    {
        assert(all[i as int] == controls@[i as int]@);
        sum = charge_within(sum, accounted_control_bytes(&controls[i]), max)?;
        i += 1;
    }
    Ok(sum)
}

fn charge_batch(batch: &ReactiveInputBatch, max: usize) -> (r: Result<usize, SubscriberError>)
    ensures
        match r {
            Ok(n) => batch_charge(batch@, max) == Ok::<_, SubscriberError>(n as nat),
            Err(e) => batch_charge(batch@, max) == Err::<nat, _>(e),
        },
{
    let total: usize = charge_records(&batch.deliveries, BATCH_ACCOUNTING_OVERHEAD, max)?;
    let total: usize = charge_controls(&batch.chain_controls, total, max)?;
    let token: usize = match &batch.delivery_token {
        Some(bytes) => bytes.len(),
        None => 0,
    };
    let total: usize = charge(total, token)?;
    let checkpoint: usize = match &batch.subscriber_checkpoint {
        Some(bytes) => bytes.len(),
        None => 0,
    };
    let total: usize = charge(total, checkpoint)?;
    let commitment: usize = if batch.payload_commitment.is_some() {
        32
    } else {
        0
    };
    charge_within(total, commitment, max)
}

// ---------------------------------------------------------------------------
// Admission
// ---------------------------------------------------------------------------

/// The larger of two optional heights.
pub open spec fn higher(a: Option<u64>, b: Option<u64>) -> Option<u64> {
    match (a, b) {
        (Some(x), Some(y)) => Some(
            if x >= y {
                x
            } else {
                y
            },
        ),
        (Some(x), None) => Some(x),
        (None, y) => y,
    }
}

fn higher_of(a: Option<u64>, b: Option<u64>) -> (r: Option<u64>)
    ensures
        r == higher(a, b),
{
    match (a, b) {
        (Some(x), Some(y)) => Some(
            if x >= y {
                x
            } else {
                y
            },
        ),
        (Some(x), None) => Some(x),
        (None, y) => y,
    }
}

/// The height that a routed record covers.
pub open spec fn routed_height(r: RoutedView) -> Option<u64> {
    if r.scope == DeliveryScope::OwnerCatchup {
        None
    } else {
        match canonical_block(r.record.context) {
            Some(block) => Some(block.number),
            None => None,
        }
    }
}

/// The largest height that records cover.
pub open spec fn records_height(s: Seq<RoutedView>) -> Option<u64>
    decreases s.len(),
{
    if s.len() == 0 {
        None
    } else {
        higher(records_height(s.drop_last()), routed_height(s.last()))
    }
}

/// The largest height that controls cover.
pub open spec fn controls_height(s: Seq<ControlView>) -> Option<u64>
    decreases s.len(),
{
    if s.len() == 0 {
        None
    } else {
        higher(controls_height(s.drop_last()), control_height(s.last()))
    }
}

fn max_height(records: &Vec<RoutedRecord>, controls: &Vec<ChainControl>) -> (r: Option<u64>)
    ensures
        r == higher(records_height(routed_view(records@)), controls_height(controls_view(controls@))),
{
    let ghost all = routed_view(records@);
    let mut top: Option<u64> = None;
    let mut i: usize = 0;
    assert(all.take(0) =~= Seq::<RoutedView>::empty());
    while i < records.len()
        invariant
            i <= records@.len(),
            all == routed_view(records@),
            top == records_height(all.take(i as int)),
        decreases records@.len() - i,
    {
        proof {
            let next = all.take(i + 1);
            assert(next.drop_last() =~= all.take(i as int));
            assert(next.last() == all[i as int]);
        }
        if scope_advances_canonical(records[i].scope) {
            top = higher_of(top, canonical_block_number(&records[i].record));
        }
        i += 1;
    }
    assert(all.take(i as int) =~= all);
    let ghost said = controls_view(controls@);
    let mut high: Option<u64> = None;
    let mut k: usize = 0;
    assert(said.take(0) =~= Seq::<ControlView>::empty());
    while k < controls.len()
        invariant
            k <= controls@.len(),
            said == controls_view(controls@),
            high == controls_height(said.take(k as int)),
        decreases controls@.len() - k,
    {
        proof {
            let next = said.take(k + 1);
            assert(next.drop_last() =~= said.take(k as int));
            assert(next.last() == said[k as int]);
        }
        high = higher_of(high, coverage_control_block_number(&controls[k]));
        k += 1;
    }
    assert(said.take(k as int) =~= said);
    higher_of(top, high)
}

/// Whether some record is a whole block or transaction.
pub open spec fn has_whole_body(s: Seq<RoutedView>) -> bool {
    exists|i: int|
        0 <= i < s.len() && ((#[trigger] s[i]).record.input is FullBlock
            || s[i].record.input is PendingTx)
}

/// Whether some record is a block header.
pub open spec fn has_header(s: Seq<RoutedView>) -> bool {
    exists|i: int| 0 <= i < s.len() && (#[trigger] s[i]).record.input is BlockHeader
}

fn contains_whole_body(records: &Vec<RoutedRecord>) -> (r: bool)
    ensures
        r == has_whole_body(routed_view(records@)),
{
    let ghost all = routed_view(records@);
    let mut i: usize = 0;
    while i < records.len()
        invariant
            i <= records@.len(),
            all == routed_view(records@),
            forall|j: int|
                0 <= j < i ==> !((#[trigger] all[j]).record.input is FullBlock) && !(
                all[j].record.input is PendingTx),
        decreases records@.len() - i,
    {
        assert(all[i as int] == records@[i as int]@);
        match &records[i].record.input {
            ReactiveInput::FullBlock => {
                return true;
            },
            ReactiveInput::PendingTx => {
                return true;
            },
            _ => {},
        }
        i += 1;
    }
    false
}

fn contains_header(records: &Vec<RoutedRecord>) -> (r: bool)
    ensures
        r == has_header(routed_view(records@)),
{
    let ghost all = routed_view(records@);
    let mut i: usize = 0;
    while i < records.len()
        invariant
            i <= records@.len(),
            all == routed_view(records@),
            forall|j: int| 0 <= j < i ==> !((#[trigger] all[j]).record.input is BlockHeader),
        decreases records@.len() - i,
    {
        assert(all[i as int] == records@[i as int]@);
        if let ReactiveInput::BlockHeader(_) = &records[i].record.input {
            return true;
        }
        i += 1;
    }
    false
}

/// The error that a batch earns before it is charged.
pub open spec fn shape_error(
    batch: BatchView,
    chain_id: u64,
    limits: HybridIngressLimits,
    generations: Seq<(Seq<u8>, u64)>,
) -> Option<SubscriberError> {
    if batch.chain_id != Some(chain_id) {
        Some(SubscriberError::BatchChain { named: batch.chain_id, expected: chain_id })
    } else if batch.deliveries.len() == 0 && batch.chain_controls.len() == 0
        && batch.delivery_token is None {
        Some(
            SubscriberError::Provider(
                "hybrid source emitted an empty child batch; return None for idle/keepalive state or emit an explicit chain control",
            ),
        )
    } else if opt_len(batch.delivery_token) > limits.max_delivery_token_bytes {
        Some(
            SubscriberError::IngressToken {
                length: opt_len(batch.delivery_token) as usize,
                max: limits.max_delivery_token_bytes,
            },
        )
    } else if opt_len(batch.subscriber_checkpoint) > limits.max_checkpoint_bytes {
        Some(
            SubscriberError::IngressCheckpoint {
                length: opt_len(batch.subscriber_checkpoint) as usize,
                max: limits.max_checkpoint_bytes,
            },
        )
    } else if batch.deliveries.len() > limits.max_records {
        Some(
            SubscriberError::IngressRecords {
                count: batch.deliveries.len() as usize,
                max: limits.max_records,
            },
        )
    } else if batch.chain_controls.len() > control_ceiling(limits.max_accounted_bytes) {
        Some(
            SubscriberError::IngressControls {
                count: batch.chain_controls.len() as usize,
                max: control_ceiling(limits.max_accounted_bytes),
            },
        )
    } else if routing_refused(
        batch.deliveries,
        generations,
        limits.max_projected_owner_associations,
        0,
        0,
    ) is Some {
        routing_refused(
            batch.deliveries,
            generations,
            limits.max_projected_owner_associations,
            0,
            0,
        )
    } else if has_whole_body(batch.deliveries) {
        Some(
            SubscriberError::Unsupported(
                "hybrid delivery does not accept full blocks or hydrated pending transactions until their complete bodies can be verified generically",
            ),
        )
    } else if batch.payload_commitment is None && has_header(batch.deliveries) {
        Some(
            SubscriberError::Unsupported(
                "hybrid block-header delivery requires a subscriber payload commitment covering the exact canonical wire body",
            ),
        )
    } else {
        None
    }
}

/// What admitting a batch gives.
pub open spec fn admitted(
    batch: BatchView,
    chain_id: u64,
    limits: HybridIngressLimits,
    generations: Seq<(Seq<u8>, u64)>,
) -> Result<BufferedView, SubscriberError> {
    match shape_error(batch, chain_id, limits, generations) { Some(e) => Err(e), None =>
    match batch_charge(batch, limits.max_accounted_bytes) { Err(e) => Err(e), Ok(bytes) =>
    match t_records(batch.deliveries, chain_id) { Err(e) => Err(e), Ok(_) =>
    match controls_error(batch.chain_controls) { Some(e) => Err(e), None =>
    match delivery_digest(
        batch.deliveries,
        batch.chain_controls,
        batch.subscriber_checkpoint,
        batch.payload_commitment,
        chain_id,
    ) { Err(e) => Err(e), Ok(digest) =>
    Ok(BufferedView {
        records: batch.deliveries,
        controls: batch.chain_controls,
        token: batch.delivery_token,
        checkpoint: batch.subscriber_checkpoint,
        payload_commitment: batch.payload_commitment,
        max_canonical_block: higher(
            records_height(batch.deliveries),
            controls_height(batch.chain_controls),
        ),
        source_progress: None,
        accounted_bytes: bytes as usize,
        delivery_digest: digest,
        canonical: Seq::empty(),
        next_safe_head: None,
        next_finalized_head: None,
        next_canonical_history: Seq::empty(),
        next_coverage_head: None,
    }) } } } } }
}

fn check_shape(
    batch: &ReactiveInputBatch,
    expected_chain_id: u64,
    limits: &HybridIngressLimits,
    owner_generations: &OwnerMap<u64>,
) -> (r: Result<(), SubscriberError>)
    ensures
        match r {
            Ok(_) => shape_error(batch@, expected_chain_id, *limits, owner_generations@) is None,
            Err(e) => shape_error(batch@, expected_chain_id, *limits, owner_generations@) == Some(
                e,
            ),
        },
{
    match batch.chain_id {
        Some(found) if found == expected_chain_id => {},
        found => {
            return Err(SubscriberError::BatchChain { named: found, expected: expected_chain_id });
        },
    }
    if batch.deliveries.len() == 0 && batch.chain_controls.len() == 0
        && batch.delivery_token.is_none() {
        return Err(
            SubscriberError::Provider(
                "hybrid source emitted an empty child batch; return None for idle/keepalive state or emit an explicit chain control",
            ),
        );
    }
    if let Some(token) = &batch.delivery_token {
        if token.len() > limits.max_delivery_token_bytes {
            return Err(
                SubscriberError::IngressToken {
                    length: token.len(),
                    max: limits.max_delivery_token_bytes,
                },
            );
        }
    }
    if let Some(checkpoint) = &batch.subscriber_checkpoint {
        if checkpoint.len() > limits.max_checkpoint_bytes {
            return Err(
                SubscriberError::IngressCheckpoint {
                    length: checkpoint.len(),
                    max: limits.max_checkpoint_bytes,
                },
            );
        }
    }
    if batch.deliveries.len() > limits.max_records {
        return Err(
            SubscriberError::IngressRecords {
                count: batch.deliveries.len(),
                max: limits.max_records,
            },
        );
    }
    let max_controls: usize = maximum_ingress_control_count(limits.max_accounted_bytes);
    if batch.chain_controls.len() > max_controls {
        return Err(
            SubscriberError::IngressControls {
                count: batch.chain_controls.len(),
                max: max_controls,
            },
        );
    }
    preflight_ingress_routing(
        &batch.deliveries,
        owner_generations,
        limits.max_projected_owner_associations,
    )?;
    if contains_whole_body(&batch.deliveries) {
        return Err(
            SubscriberError::Unsupported(
                "hybrid delivery does not accept full blocks or hydrated pending transactions until their complete bodies can be verified generically",
            ),
        );
    }
    if batch.payload_commitment.is_none() && contains_header(&batch.deliveries) {
        return Err(
            SubscriberError::Unsupported(
                "hybrid block-header delivery requires a subscriber payload commitment covering the exact canonical wire body",
            ),
        );
    }
    Ok(())
}

/// Refuses records that cannot be validated, in their order.
fn check_records(records: &Vec<RoutedRecord>, chain_id: u64) -> (r: Result<(), SubscriberError>)
    ensures
        match r {
            Ok(_) => t_records(routed_view(records@), chain_id) is Ok,
            Err(e) => t_records(routed_view(records@), chain_id) == Err::<Seq<u8>, _>(e),
        },
{
    let ghost all = routed_view(records@);
    let mut i: usize = 0;
    assert(all.take(0) =~= Seq::<RoutedView>::empty());
    while i < records.len()
        invariant
            i <= records@.len(),
            all == routed_view(records@),
            t_records(all.take(i as int), chain_id) is Ok,
        decreases records@.len() - i,
    {
        proof {
            let next = all.take(i + 1);
            assert(next.drop_last() =~= all.take(i as int));
            assert(next.last() == records@[i as int]@);
        }
        match validated_record(&records[i].record, chain_id) {
            Ok(_) => {},
            Err(e) => {
                proof {
                    crate::records::lemma_records_error(all, i + 1, chain_id, e);
                }
                return Err(e);
            },
        }
        i += 1;
    }
    assert(all.take(i as int) =~= all);
    Ok(())
}

impl BufferedBatch {
    /// Admits a batch of a source, or says why it is refused: the wrong chain,
    /// nothing in it, a part beyond its limit, an ill-routed or unverifiable
    /// record, or controls that contradict themselves.
    pub fn from_batch(
        batch: ReactiveInputBatch,
        expected_chain_id: u64,
        limits: HybridIngressLimits,
        owner_generations: &OwnerMap<u64>,
    ) -> (r: Result<BufferedBatch, SubscriberError>)
        ensures
            match r {
                Ok(b) => admitted(batch@, expected_chain_id, limits, owner_generations@) == Ok::<
                    _,
                    SubscriberError,
                >(b@),
                Err(e) => admitted(batch@, expected_chain_id, limits, owner_generations@) == Err::<
                    BufferedView,
                    _,
                >(e),
            },
    {
        check_shape(&batch, expected_chain_id, &limits, owner_generations)?;
        let accounted_bytes: usize = charge_batch(&batch, limits.max_accounted_bytes)?;
        check_records(&batch.deliveries, expected_chain_id)?;
        validate_chain_controls(&batch.chain_controls)?;
        let delivery_digest: B256 = source_delivery_digest(
            &batch.deliveries,
            &batch.chain_controls,
            &batch.subscriber_checkpoint,
            &batch.payload_commitment,
            expected_chain_id,
        )?;
        let max_canonical_block: Option<u64> = max_height(
            &batch.deliveries,
            &batch.chain_controls,
        );
        Ok(
            BufferedBatch {
                records: batch.deliveries,
                controls: batch.chain_controls,
                token: batch.delivery_token,
                checkpoint: batch.subscriber_checkpoint,
                payload_commitment: batch.payload_commitment,
                max_canonical_block,
                source_progress: None,
                accounted_bytes,
                delivery_digest,
                canonical: Vec::new(),
                next_safe_head: None,
                next_finalized_head: None,
                next_canonical_history: Vec::new(),
                next_coverage_head: None,
            },
        )
    }
}

/// A batch that is admitted was charged no more than its limit, and holds no
/// more records and controls than its limits allow.
pub proof fn law_admitted_batch_is_bounded(
    batch: BatchView,
    chain_id: u64,
    limits: HybridIngressLimits,
    generations: Seq<(Seq<u8>, u64)>,
)
    ensures
        match admitted(batch, chain_id, limits, generations) {
            Ok(b) => b.accounted_bytes <= limits.max_accounted_bytes && b.records.len()
                <= limits.max_records && b.controls.len() <= control_ceiling(
                limits.max_accounted_bytes,
            ) && opt_len(b.token) <= limits.max_delivery_token_bytes && opt_len(b.checkpoint)
                <= limits.max_checkpoint_bytes,
            Err(_) => true,
        },
{
}

} // verus!
