//! What the two sources say twice: overlaps, replays and late batches.
use crate::audience::{
    ensure_witness_compatible, merged_witness, scope_advances_canonical, DeliveryAudience,
    DeliveryScope,
};
use crate::checkpoint::{recent_view, CheckpointView, HybridCheckpointV5};
use crate::commit::{find_entry, stored_coverage};
use crate::error::SubscriberError;
use crate::header::{header_body_digest, header_digest};
use crate::ingress::{BufferedBatch, BufferedView};
use crate::model::{
    compatible_block_ref, copy_bytes, merged_block, same_bytes, BlockRef, HandlerId,
    ReactiveInputIdentity,
};
use crate::owners::ids_view;
use crate::records::{
    canonical_block, canonical_block_ref, controls_view, dropped_block, dropped_block_ref,
    routed_view, validated, validated_record, ChainControl, ControlView, InputView, LogBody,
    ReactiveInput, ReactiveInputRecord, RecordView, RoutedRecord, RoutedView,
};
use crate::state::same_opt_bytes;
use crate::validate::{block_at, find_block};
use crate::words::B256;
use vstd::prelude::*;

verus! {

// ---------------------------------------------------------------------------
// Copies
// ---------------------------------------------------------------------------

fn copy_hashes(items: &Vec<B256>) -> (r: Vec<B256>)
    ensures
        r@ == items@,
{
    let mut out: Vec<B256> = Vec::with_capacity(items.len());
    let mut i: usize = 0;
    while i < items.len()
        invariant
            i <= items@.len(),
            out@ =~= items@.take(i as int),
        decreases items@.len() - i,
    {
        out.push(items[i]);
        i += 1;
    }
    assert(items@.take(i as int) =~= items@);
    out
}

impl ReactiveInput {
    /// Another body with the same contents.
    pub fn duplicate(&self) -> (r: ReactiveInput)
        ensures
            r@ == self@,
    {
        match self {
            ReactiveInput::Log(log) => ReactiveInput::Log(
                LogBody {
                    address: copy_bytes(log.address.as_slice()),
                    topics: copy_hashes(&log.topics),
                    data: copy_bytes(log.data.as_slice()),
                    block_hash: log.block_hash,
                    block_number: log.block_number,
                    transaction_hash: log.transaction_hash,
                    transaction_index: log.transaction_index,
                    log_index: log.log_index,
                    removed: log.removed,
                    block_timestamp: log.block_timestamp,
                },
            ),
            ReactiveInput::BlockHeader(json) => ReactiveInput::BlockHeader(
                copy_bytes(json.as_slice()),
            ),
            ReactiveInput::PendingTxHash(hash) => ReactiveInput::PendingTxHash(*hash),
            ReactiveInput::FullBlock => ReactiveInput::FullBlock,
            ReactiveInput::PendingTx => ReactiveInput::PendingTx,
        }
    }
}

impl ReactiveInputRecord {
    /// Another record with the same contents.
    pub fn duplicate(&self) -> (r: ReactiveInputRecord)
        ensures
            r@ == self@,
    {
        let identity: Result<ReactiveInputIdentity, String> = match &self.identity {
            Ok(identity) => Ok(*identity),
            Err(reason) => Err(reason.clone()),
        };
        ReactiveInputRecord {
            input: self.input.duplicate(),
            context: self.context,
            identity,
            payload_deduplicable: self.payload_deduplicable,
        }
    }
}

impl RoutedRecord {
    /// Another routed record with the same contents.
    pub fn duplicate(&self) -> (r: RoutedRecord)
        ensures
            r@ == self@,
    {
        RoutedRecord {
            record: self.record.duplicate(),
            audience: self.audience.duplicate(),
            scope: self.scope,
        }
    }
}

impl ChainControl {
    /// Another control with the same contents.
    pub fn duplicate(&self) -> (r: ChainControl)
        ensures
            r@ == self@,
    {
        match self {
            ChainControl::Reorg { common_ancestor, old_tip, new_tip } => ChainControl::Reorg {
                common_ancestor: *common_ancestor,
                old_tip: *old_tip,
                new_tip: *new_tip,
            },
            ChainControl::CanonicalProgress(block) => ChainControl::CanonicalProgress(*block),
            ChainControl::Safe(block) => ChainControl::Safe(*block),
            ChainControl::Finalized(block) => ChainControl::Finalized(*block),
            ChainControl::Barrier { id, block } => ChainControl::Barrier {
                id: copy_bytes(id.as_slice()),
                block: *block,
            },
        }
    }
}

// ---------------------------------------------------------------------------
// The same delivery twice
// ---------------------------------------------------------------------------

fn same_hashes(a: &Vec<B256>, b: &Vec<B256>) -> (r: bool)
    ensures
        r == (a@ == b@),
{
    if a.len() != b.len() {
        return false;
    }
    let mut i: usize = 0;
    while i < a.len()
        invariant
            i <= a@.len(),
            a@.len() == b@.len(),
            forall|j: int| 0 <= j < i ==> a@[j] == b@[j],
        decreases a@.len() - i,
    {
        if a[i] != b[i] {
            return false;
        }
        i += 1;
    }
    assert(a@ =~= b@);
    true
}

fn same_ids(a: &Vec<HandlerId>, b: &Vec<HandlerId>) -> (r: bool)
    ensures
        r == (ids_view(a@) == ids_view(b@)),
{
    if a.len() != b.len() {
        assert(ids_view(a@).len() != ids_view(b@).len());
        return false;
    }
    let mut i: usize = 0;
    while i < a.len()
        invariant
            i <= a@.len(),
            a@.len() == b@.len(),
            forall|j: int| 0 <= j < i ==> a@[j]@ == b@[j]@,
        decreases a@.len() - i,
    {
        if !a[i].same(&b[i]) {
            assert(ids_view(a@)[i as int] != ids_view(b@)[i as int]);
            return false;
        }
        i += 1;
    }
    assert(ids_view(a@) =~= ids_view(b@));
    true
}

fn same_audience(a: &DeliveryAudience, b: &DeliveryAudience) -> (r: bool)
    ensures
        r == (a@ == b@),
{
    match (a, b) {
        (DeliveryAudience::All, DeliveryAudience::All) => true,
        (DeliveryAudience::Owners(x), DeliveryAudience::Owners(y)) => same_ids(x, y),
        (DeliveryAudience::AllExcept(x), DeliveryAudience::AllExcept(y)) => same_ids(x, y),
        _ => false,
    }
}

fn same_log(a: &LogBody, b: &LogBody) -> (r: bool)
    ensures
        r == (a@ == b@),
{
    same_bytes(a.address.as_slice(), b.address.as_slice()) && same_hashes(&a.topics, &b.topics)
        && same_bytes(a.data.as_slice(), b.data.as_slice()) && a.block_hash == b.block_hash
        && a.block_number == b.block_number && a.transaction_hash == b.transaction_hash
        && a.transaction_index == b.transaction_index && a.log_index == b.log_index && a.removed
        == b.removed && a.block_timestamp == b.block_timestamp
}

fn same_control(a: &ChainControl, b: &ChainControl) -> (r: bool)
    ensures
        r == (a@ == b@),
{
    match (a, b) {
        (
            ChainControl::Reorg { common_ancestor: x, old_tip: y, new_tip: z },
            ChainControl::Reorg { common_ancestor: u, old_tip: v, new_tip: w },
        ) => *x == *u && *y == *v && *z == *w,
        (ChainControl::CanonicalProgress(x), ChainControl::CanonicalProgress(y)) => *x == *y,
        (ChainControl::Safe(x), ChainControl::Safe(y)) => *x == *y,
        (ChainControl::Finalized(x), ChainControl::Finalized(y)) => *x == *y,
        (
            ChainControl::Barrier { id: x, block: y },
            ChainControl::Barrier { id: u, block: v },
        ) => same_bytes(x.as_slice(), u.as_slice()) && *y == *v,
        _ => false,
    }
}

fn same_controls(a: &Vec<ChainControl>, b: &Vec<ChainControl>) -> (r: bool)
    ensures
        r == (controls_view(a@) == controls_view(b@)),
{
    if a.len() != b.len() {
        assert(controls_view(a@).len() != controls_view(b@).len());
        return false;
    }
    let mut i: usize = 0;
    while i < a.len()
        invariant
            i <= a@.len(),
            a@.len() == b@.len(),
            forall|j: int| 0 <= j < i ==> a@[j]@ == b@[j]@,
        decreases a@.len() - i,
    {
        if !same_control(&a[i], &b[i]) {
            assert(controls_view(a@)[i as int] != controls_view(b@)[i as int]);
            return false;
        }
        i += 1;
    }
    assert(controls_view(a@) =~= controls_view(b@));
    true
}

/// Whether two records are the same delivery: the same context and reference,
/// and bodies that are shown to be equal. Whole blocks and transactions never
/// are.
pub open spec fn same_record(a: RecordView, b: RecordView) -> bool {
    a.context == b.context && a.identity is Ok && b.identity is Ok && a.identity->Ok_0.input_ref
        == b.identity->Ok_0.input_ref && match (a.input, b.input) {
        (InputView::Log(x), InputView::Log(y)) => x == y,
        (InputView::PendingTxHash(x), InputView::PendingTxHash(y)) => x == y,
        (InputView::BlockHeader(x), InputView::BlockHeader(y)) => header_digest(
            x,
            usize::MAX,
        ) is Ok && header_digest(x, usize::MAX) == header_digest(y, usize::MAX),
        _ => false,
    }
}

/// Whether two records are the same delivery.
pub fn same_supported_record(left: &ReactiveInputRecord, right: &ReactiveInputRecord) -> (r: bool)
    ensures
        r == same_record(left@, right@),
{
    if left.context != right.context {
        return false;
    }
    match (&left.identity, &right.identity) {
        (Ok(a), Ok(b)) => {
            if a.input_ref != b.input_ref {
                return false;
            }
        },
        _ => {
            return false;
        },
    }
    match (&left.input, &right.input) {
        (ReactiveInput::Log(a), ReactiveInput::Log(b)) => same_log(a, b),
        (ReactiveInput::PendingTxHash(a), ReactiveInput::PendingTxHash(b)) => *a == *b,
        (ReactiveInput::BlockHeader(a), ReactiveInput::BlockHeader(b)) => {
            match (
                header_body_digest(a.as_slice(), usize::MAX),
                header_body_digest(b.as_slice(), usize::MAX),
            ) {
                (Ok((x, n)), Ok((y, m))) => x == y && n == m,
                _ => false,
            }
        },
        _ => false,
    }
}

/// Whether two admitted batches are the same delivery.
pub open spec fn same_delivery(a: BufferedView, b: BufferedView) -> bool {
    a.records.len() == b.records.len() && (forall|i: int|
        0 <= i < a.records.len() ==> same_record(
            (#[trigger] a.records[i]).record,
            b.records[i].record,
        ) && a.records[i].audience == b.records[i].audience && a.records[i].scope
            == b.records[i].scope) && a.controls == b.controls && a.checkpoint == b.checkpoint
        && a.payload_commitment == b.payload_commitment
}

/// Whether two admitted batches are the same delivery.
pub fn same_buffered_delivery(left: &BufferedBatch, right: &BufferedBatch) -> (r: bool)
    ensures
        r == same_delivery(left@, right@),
{
    if left.records.len() != right.records.len() {
        return false;
    }
    let ghost a = left@.records;
    let ghost b = right@.records;
    let mut i: usize = 0;
    while i < left.records.len()
        invariant
            i <= left.records@.len(),
            left.records@.len() == right.records@.len(),
            a == left@.records,
            b == right@.records,
            forall|j: int|
                0 <= j < i ==> same_record((#[trigger] a[j]).record, b[j].record) && a[j].audience
                    == b[j].audience && a[j].scope == b[j].scope,
        decreases left.records@.len() - i,
    {
        let x: &RoutedRecord = &left.records[i];
        let y: &RoutedRecord = &right.records[i];
        assert(a[i as int] == x@ && b[i as int] == y@);
        if !same_supported_record(&x.record, &y.record) || !same_audience(&x.audience, &y.audience)
            || x.scope != y.scope {
            return false;
        }
        i += 1;
    }
    same_controls(&left.controls, &right.controls) && same_opt_bytes(
        &left.checkpoint,
        &right.checkpoint,
    ) && left.payload_commitment == right.payload_commitment
}

// ---------------------------------------------------------------------------
// Overlap with what is retained
// ---------------------------------------------------------------------------

/// The retained block at a height, the head counted in.
pub open spec fn retained_at(c: CheckpointView, number: u64) -> Option<BlockRef> {
    if block_at(c.canonical_history, number) is Some {
        block_at(c.canonical_history, number)
    } else if c.coverage_head is Some && c.coverage_head->Some_0.number == number {
        c.coverage_head
    } else {
        None
    }
}

/// The error that a block earns which must already be retained.
pub open spec fn overlap_error(c: CheckpointView, block: BlockRef) -> Option<SubscriberError> {
    match retained_at(c, block.number) {
        None => Some(SubscriberError::OverlapOutside { number: block.number }),
        Some(known) => if merged_block(known, block) is Ok {
            None
        } else {
            Some(SubscriberError::OverlapConflict { number: block.number })
        },
    }
}

/// Refuses a block that is not retained, or contradicts the retained one.
pub fn validate_overlap_block(state: &HybridCheckpointV5, block: &BlockRef) -> (r: Result<
    (),
    SubscriberError,
>)
    ensures
        match r {
            Ok(_) => overlap_error(state@, *block) is None,
            Err(e) => overlap_error(state@, *block) == Some(e),
        },
{
    let known: Option<BlockRef> = match find_block(
        state.canonical_history.as_slice(),
        block.number,
    ) {
        Some(known) => Some(known),
        None => match &state.coverage_head {
            Some(head) => if head.number == block.number {
                Some(*head)
            } else {
                None
            },
            None => None,
        },
    };
    match known {
        None => Err(SubscriberError::OverlapOutside { number: block.number }),
        Some(known) => match compatible_block_ref(&known, block) {
            Ok(_) => Ok(()),
            Err(_) => Err(SubscriberError::OverlapConflict { number: block.number }),
        },
    }
}

/// The error that a record earns which must already have been committed.
pub open spec fn witness_error(c: CheckpointView, record: RecordView) -> Option<SubscriberError> {
    match validated(record, c.chain_id) {
        Err(e) => Some(e),
        Ok((identity, witness)) => match stored_coverage(c.recent_inputs, identity) {
            None => Some(
                SubscriberError::Provider(
                    "historical overlap is outside the retained hybrid payload-witness window; a full resynchronization is required",
                ),
            ),
            Some(coverage) => match coverage.witness {
                None => Some(
                    SubscriberError::Provider(
                        "hybrid recent-input journal is missing its payload witness",
                    ),
                ),
                Some(stored) => match merged_witness(stored, witness) {
                    Ok(_) => None,
                    Err(e) => Some(e),
                },
            },
        },
    }
}

/// Refuses a record whose witness is not retained, or contradicts the retained
/// one.
pub fn validate_recent_witness(state: &HybridCheckpointV5, record: &ReactiveInputRecord) -> (r: Result<
    (),
    SubscriberError,
>)
    ensures
        match r {
            Ok(_) => witness_error(state@, record@) is None,
            Err(e) => witness_error(state@, record@) == Some(e),
        },
{
    let (identity, witness) = validated_record(record, state.chain_id)?;
    let at: usize = find_entry(state.recent_inputs.as_slice(), &identity);
    if at >= state.recent_inputs.len() {
        return Err(
            SubscriberError::Provider(
                "historical overlap is outside the retained hybrid payload-witness window; a full resynchronization is required",
            ),
        );
    }
    assert(recent_view(state.recent_inputs@)[at as int] == state.recent_inputs@[at as int]@);
    match &state.recent_inputs[at].coverage.witness {
        None => Err(
            SubscriberError::Provider("hybrid recent-input journal is missing its payload witness"),
        ),
        Some(stored) => ensure_witness_compatible(stored, &witness),
    }
}

/// The error of the first owner catch-up, from `from` on, that is not at a
/// retained block.
pub open spec fn catchup_error(c: CheckpointView, records: Seq<RoutedView>, from: int) -> Option<
    SubscriberError,
>
    decreases records.len() - from,
{
    if from < 0 || from >= records.len() {
        None
    } else if records[from].scope != DeliveryScope::OwnerCatchup {
        catchup_error(c, records, from + 1)
    } else {
        match canonical_block(records[from].record.context) {
            None => Some(
                SubscriberError::Provider(
                    "hybrid owner-catchup input is missing an included canonical block",
                ),
            ),
            Some(block) => match overlap_error(c, block) {
                Some(cause) => Some(
                    SubscriberError::OwnerCatchupOverlap {
                        number: block.number,
                        cause: Box::new(cause),
                    },
                ),
                None => catchup_error(c, records, from + 1),
            },
        }
    }
}

/// Refuses an owner catch-up that is not at a retained block: it cannot advance
/// what is canonical.
pub fn validate_owner_catchup_overlap(state: &HybridCheckpointV5, batch: &BufferedBatch) -> (r: Result<
    (),
    SubscriberError,
>)
    ensures
        match r {
            Ok(_) => catchup_error(state@, batch@.records, 0) is None,
            Err(e) => catchup_error(state@, batch@.records, 0) == Some(e),
        },
{
    let ghost all = batch@.records;
    let mut i: usize = 0;
    while i < batch.records.len()
        invariant
            i <= batch.records@.len(),
            all == batch@.records,
            catchup_error(state@, all, 0) == catchup_error(state@, all, i as int),
        decreases batch.records@.len() - i,
    {
        let routed: &RoutedRecord = &batch.records[i];
        assert(all[i as int] == routed@);
        if routed.scope == DeliveryScope::OwnerCatchup {
            match canonical_block_ref(&routed.record) {
                None => {
                    return Err(
                        SubscriberError::Provider(
                            "hybrid owner-catchup input is missing an included canonical block",
                        ),
                    );
                },
                Some(block) => {
                    if let Err(cause) = validate_overlap_block(state, &block) {
                        return Err(
                            SubscriberError::OwnerCatchupOverlap {
                                number: block.number,
                                cause: Box::new(cause),
                            },
                        );
                    }
                },
            }
        }
        i += 1;
    }
    Ok(())
}

/// The error that the ancestor of a reorganization earns during recovery.
pub open spec fn ancestor_error(c: CheckpointView, ancestor: BlockRef) -> Option<SubscriberError> {
    match block_at(c.canonical_history, ancestor.number) {
        Some(known) => if known.hash == ancestor.hash {
            None
        } else {
            Some(SubscriberError::RecoveryAncestorConflict { number: ancestor.number })
        },
        None => if c.canonical_history.len() == 0 {
            Some(
                SubscriberError::Provider(
                    "historical recovery reorg has no retained rollback horizon",
                ),
            )
        } else if ancestor.number < c.canonical_history[0].number {
            Some(SubscriberError::RecoveryAncestorTooOld { number: ancestor.number })
        } else {
            None
        },
    }
}

/// Refuses a reorganization during recovery that goes back to another block
/// than the retained one, or behind all of them.
pub fn validate_reorg_ancestor(state: &HybridCheckpointV5, ancestor: &BlockRef) -> (r: Result<
    (),
    SubscriberError,
>)
    ensures
        match r {
            Ok(_) => ancestor_error(state@, *ancestor) is None,
            Err(e) => ancestor_error(state@, *ancestor) == Some(e),
        },
{
    match find_block(state.canonical_history.as_slice(), ancestor.number) {
        Some(known) => {
            if known.hash != ancestor.hash {
                return Err(
                    SubscriberError::RecoveryAncestorConflict { number: ancestor.number },
                );
            }
        },
        None => {
            if state.canonical_history.len() == 0 {
                return Err(
                    SubscriberError::Provider(
                        "historical recovery reorg has no retained rollback horizon",
                    ),
                );
            }
            if ancestor.number < state.canonical_history[0].number {
                return Err(SubscriberError::RecoveryAncestorTooOld { number: ancestor.number });
            }
        },
    }
    Ok(())
}

// ---------------------------------------------------------------------------
// What recovery keeps of a historical batch
// ---------------------------------------------------------------------------

/// What recovery makes of one control: the block up to which everything was
/// delivered before, and the control where it is kept.
pub open spec fn control_recovered(c: CheckpointView, anchor: BlockRef, control: ControlView) -> Result<
    (BlockRef, Option<ControlView>),
    SubscriberError,
> {
    match control {
        ControlView::Reorg { common_ancestor, old_tip, new_tip } => match ancestor_error(
            c,
            common_ancestor,
        ) {
            Some(e) => Err(e),
            None => Ok(
                (
                    common_ancestor,
                    Some(
                        ControlView::Reorg {
                            common_ancestor,
                            old_tip: if c.coverage_head is Some {
                                c.coverage_head->Some_0
                            } else {
                                old_tip
                            },
                            new_tip,
                        },
                    ),
                ),
            ),
        },
        ControlView::CanonicalProgress(block) => if block.number <= anchor.number {
            match overlap_error(c, block) {
                Some(e) => Err(e),
                None => Ok((anchor, None)),
            }
        } else {
            Ok((anchor, Some(control)))
        },
        ControlView::Barrier { block, .. } => if block is Some && block->Some_0.number
            <= anchor.number {
            match overlap_error(c, block->Some_0) {
                Some(e) => Err(e),
                None => Ok((anchor, None)),
            }
        } else {
            Ok((anchor, Some(control)))
        },
        ControlView::Safe(block) => if block.number <= anchor.number && overlap_error(
            c,
            block,
        ) is Some {
            Err(overlap_error(c, block)->Some_0)
        } else {
            Ok((anchor, Some(control)))
        },
        ControlView::Finalized(block) => if block.number <= anchor.number && overlap_error(
            c,
            block,
        ) is Some {
            Err(overlap_error(c, block)->Some_0)
        } else {
            Ok((anchor, Some(control)))
        },
    }
}

/// `kept` with an optional control behind it.
pub open spec fn with_control(kept: Seq<ControlView>, control: Option<ControlView>) -> Seq<
    ControlView,
> {
    match control {
        Some(x) => kept.push(x),
        None => kept,
    }
}

/// What recovery makes of the controls from `from` on, behind those in `kept`.
pub open spec fn controls_recovered(
    c: CheckpointView,
    anchor: BlockRef,
    controls: Seq<ControlView>,
    from: int,
    kept: Seq<ControlView>,
) -> Result<(BlockRef, Seq<ControlView>), SubscriberError>
    decreases controls.len() - from,
{
    if from < 0 || from >= controls.len() {
        Ok((anchor, kept))
    } else {
        match control_recovered(c, anchor, controls[from]) {
            Err(e) => Err(e),
            Ok((next, control)) => controls_recovered(
                c,
                next,
                controls,
                from + 1,
                with_control(kept, control),
            ),
        }
    }
}

fn recover_control(state: &HybridCheckpointV5, anchor: BlockRef, control: &ChainControl) -> (r: Result<
    (BlockRef, Option<ChainControl>),
    SubscriberError,
>)
    ensures
        match r {
            Ok((next, kept)) => control_recovered(state@, anchor, control@) == Ok::<
                _,
                SubscriberError,
            >(
                (
                    next,
                    match kept {
                        Some(x) => Some(x@),
                        None => None,
                    },
                ),
            ),
            Err(e) => control_recovered(state@, anchor, control@) == Err::<
                (BlockRef, Option<ControlView>),
                _,
            >(e),
        },
{
    match control {
        ChainControl::Reorg { common_ancestor, old_tip, new_tip } => {
            validate_reorg_ancestor(state, common_ancestor)?;
            let tip: BlockRef = match state.coverage_head {
                Some(head) => head,
                None => *old_tip,
            };
            Ok(
                (
                    *common_ancestor,
                    Some(
                        ChainControl::Reorg {
                            common_ancestor: *common_ancestor,
                            old_tip: tip,
                            new_tip: *new_tip,
                        },
                    ),
                ),
            )
        },
        ChainControl::CanonicalProgress(block) => {
            if block.number <= anchor.number {
                validate_overlap_block(state, block)?;
                return Ok((anchor, None));
            }
            Ok((anchor, Some(control.duplicate())))
        },
        ChainControl::Barrier { block, .. } => {
            if let Some(covered) = block {
                if covered.number <= anchor.number {
                    validate_overlap_block(state, covered)?;
                    return Ok((anchor, None));
                }
            }
            Ok((anchor, Some(control.duplicate())))
        },
        ChainControl::Safe(block) => {
            if block.number <= anchor.number {
                validate_overlap_block(state, block)?;
            }
            Ok((anchor, Some(control.duplicate())))
        },
        ChainControl::Finalized(block) => {
            if block.number <= anchor.number {
                validate_overlap_block(state, block)?;
            }
            Ok((anchor, Some(control.duplicate())))
        },
    }
}

fn recover_controls(state: &HybridCheckpointV5, anchor: BlockRef, controls: &Vec<ChainControl>) -> (r:
    Result<(BlockRef, Vec<ChainControl>), SubscriberError>)
    ensures
        match r {
            Ok((next, kept)) => controls_recovered(
                state@,
                anchor,
                controls_view(controls@),
                0,
                Seq::empty(),
            ) == Ok::<_, SubscriberError>((next, controls_view(kept@))),
            Err(e) => controls_recovered(
                state@,
                anchor,
                controls_view(controls@),
                0,
                Seq::empty(),
            ) == Err::<(BlockRef, Seq<ControlView>), _>(e),
        },
{
    let ghost all = controls_view(controls@);
    let mut here: BlockRef = anchor;
    let mut kept: Vec<ChainControl> = Vec::new();
    let mut i: usize = 0;
    assert(controls_view(kept@) =~= Seq::<ControlView>::empty());
    while i < controls.len()
        invariant
            i <= controls@.len(),
            all == controls_view(controls@),
            controls_recovered(state@, anchor, all, 0, Seq::empty()) == controls_recovered(
                state@,
                here,
                all,
                i as int,
                controls_view(kept@),
            ),
        decreases controls@.len() - i,
    {
        assert(all[i as int] == controls@[i as int]@);
        let (next, control) = recover_control(state, here, &controls[i])?;
        here = next;
        if let Some(control) = control {
            let ghost before = controls_view(kept@);
            let ghost last = control@;
            kept.push(control);
            assert(controls_view(kept@) =~= before.push(last));
        }
        i += 1;
    }
    Ok((here, kept))
}

/// Whether a record repeats what was delivered up to a height.
pub open spec fn repeats(r: RoutedView, through: u64) -> bool {
    r.scope != DeliveryScope::OwnerCatchup && canonical_block(r.record.context) is Some
        && canonical_block(r.record.context)->Some_0.number <= through
}

/// The error that a record earns which repeats what was delivered.
pub open spec fn repeat_error(c: CheckpointView, record: RecordView) -> Option<SubscriberError> {
    if canonical_block(record.context) is Some && overlap_error(
        c,
        canonical_block(record.context)->Some_0,
    ) is Some {
        overlap_error(c, canonical_block(record.context)->Some_0)
    } else {
        witness_error(c, record)
    }
}

/// What recovery keeps of the records from `from` on, behind those in `kept`:
/// records at or below the anchor must repeat what was delivered, and go.
pub open spec fn records_recovered(
    c: CheckpointView,
    anchor: BlockRef,
    records: Seq<RoutedView>,
    from: int,
    kept: Seq<RoutedView>,
) -> Result<Seq<RoutedView>, SubscriberError>
    decreases records.len() - from,
{
    if from < 0 || from >= records.len() {
        Ok(kept)
    } else if repeats(records[from], anchor.number) {
        match repeat_error(c, records[from].record) {
            Some(e) => Err(e),
            None => records_recovered(c, anchor, records, from + 1, kept),
        }
    } else {
        records_recovered(c, anchor, records, from + 1, kept.push(records[from]))
    }
}

fn record_repeats(routed: &RoutedRecord, through: u64) -> (r: bool)
    ensures
        r == repeats(routed@, through),
{
    if !scope_advances_canonical(routed.scope) {
        return false;
    }
    match canonical_block_ref(&routed.record) {
        Some(block) => block.number <= through,
        None => false,
    }
}

fn check_repeat(state: &HybridCheckpointV5, record: &ReactiveInputRecord) -> (r: Result<
    (),
    SubscriberError,
>)
    ensures
        match r {
            Ok(_) => repeat_error(state@, record@) is None,
            Err(e) => repeat_error(state@, record@) == Some(e),
        },
{
    if let Some(block) = canonical_block_ref(record) {
        validate_overlap_block(state, &block)?;
    }
    validate_recent_witness(state, record)
}

fn recover_records(state: &HybridCheckpointV5, anchor: BlockRef, records: &Vec<RoutedRecord>) -> (r:
    Result<Vec<RoutedRecord>, SubscriberError>)
    ensures
        match r {
            Ok(kept) => records_recovered(
                state@,
                anchor,
                routed_view(records@),
                0,
                Seq::empty(),
            ) == Ok::<_, SubscriberError>(routed_view(kept@)),
            Err(e) => records_recovered(
                state@,
                anchor,
                routed_view(records@),
                0,
                Seq::empty(),
            ) == Err::<Seq<RoutedView>, _>(e),
        },
{
    let ghost all = routed_view(records@);
    let mut kept: Vec<RoutedRecord> = Vec::new();
    let mut i: usize = 0;
    assert(routed_view(kept@) =~= Seq::<RoutedView>::empty());
    while i < records.len()
        invariant
            i <= records@.len(),
            all == routed_view(records@),
            records_recovered(state@, anchor, all, 0, Seq::empty()) == records_recovered(
                state@,
                anchor,
                all,
                i as int,
                routed_view(kept@),
            ),
        decreases records@.len() - i,
    {
        let routed: &RoutedRecord = &records[i];
        assert(all[i as int] == routed@);
        if record_repeats(routed, anchor.number) {
            check_repeat(state, &routed.record)?;
        } else {
            let ghost before = routed_view(kept@);
            kept.push(routed.duplicate());
            assert(routed_view(kept@) =~= before.push(routed@));
        }
        i += 1;
    }
    Ok(kept)
}

/// What recovery makes of a batch of the historical source, and the block up to
/// which everything was delivered before.
pub open spec fn batch_recovered(c: CheckpointView, anchor: Option<BlockRef>, b: BufferedView) -> Result<
    (Option<BlockRef>, BufferedView),
    SubscriberError,
> {
    match anchor {
        None => Ok((None, b)),
        Some(start) => match controls_recovered(c, start, b.controls, 0, Seq::empty()) {
            Err(e) => Err(e),
            Ok((next, controls)) => match records_recovered(c, next, b.records, 0, Seq::empty()) {
                Err(e) => Err(e),
                Ok(records) => Ok((Some(next), BufferedView { controls, records, ..b })),
            },
        },
    }
}

/// Takes out of a batch of the historical source what was delivered before the
/// gap that it fills.
pub fn reconcile_historical_recovery(
    state: &HybridCheckpointV5,
    recovery_anchor: Option<BlockRef>,
    batch: BufferedBatch,
) -> (r: Result<(Option<BlockRef>, BufferedBatch), SubscriberError>)
    ensures
        match r {
            Ok((anchor, b)) => batch_recovered(state@, recovery_anchor, batch@) == Ok::<
                _,
                SubscriberError,
            >((anchor, b@)),
            Err(e) => batch_recovered(state@, recovery_anchor, batch@) == Err::<
                (Option<BlockRef>, BufferedView),
                _,
            >(e),
        },
{
    let start: BlockRef = match recovery_anchor {
        None => {
            return Ok((None, batch));
        },
        Some(anchor) => anchor,
    };
    let (anchor, controls) = recover_controls(state, start, &batch.controls)?;
    let records: Vec<RoutedRecord> = recover_records(state, anchor, &batch.records)?;
    let mut batch = batch;
    batch.controls = controls;
    batch.records = records;
    Ok((Some(anchor), batch))
}

// ---------------------------------------------------------------------------
// What is left of a buffered live batch
// ---------------------------------------------------------------------------

/// Whether one control of a buffered batch is kept once everything up to
/// `through` was delivered.
pub open spec fn control_drained(c: CheckpointView, through: u64, control: ControlView) -> Result<
    bool,
    SubscriberError,
> {
    match control {
        ControlView::CanonicalProgress(block) => if block.number <= through {
            match overlap_error(c, block) {
                Some(e) => Err(e),
                None => Ok(false),
            }
        } else {
            Ok(true)
        },
        ControlView::Barrier { block, .. } => if block is Some && block->Some_0.number <= through {
            match overlap_error(c, block->Some_0) {
                Some(e) => Err(e),
                None => Ok(false),
            }
        } else {
            Ok(true)
        },
        ControlView::Reorg { common_ancestor, old_tip, .. } => Ok(
            old_tip.number > through && common_ancestor.number >= through,
        ),
        ControlView::Safe(block) => if block.number <= through && overlap_error(c, block) is Some {
            Err(overlap_error(c, block)->Some_0)
        } else {
            Ok(true)
        },
        ControlView::Finalized(block) => if block.number <= through && overlap_error(
            c,
            block,
        ) is Some {
            Err(overlap_error(c, block)->Some_0)
        } else {
            Ok(true)
        },
    }
}

/// What is left of the controls from `from` on, behind those in `kept`.
pub open spec fn controls_drained(
    c: CheckpointView,
    through: u64,
    controls: Seq<ControlView>,
    from: int,
    kept: Seq<ControlView>,
) -> Result<Seq<ControlView>, SubscriberError>
    decreases controls.len() - from,
{
    if from < 0 || from >= controls.len() {
        Ok(kept)
    } else {
        match control_drained(c, through, controls[from]) {
            Err(e) => Err(e),
            Ok(keep) => controls_drained(
                c,
                through,
                controls,
                from + 1,
                if keep {
                    kept.push(controls[from])
                } else {
                    kept
                },
            ),
        }
    }
}

fn drain_control(state: &HybridCheckpointV5, through: u64, control: &ChainControl) -> (r: Result<
    bool,
    SubscriberError,
>)
    ensures
        r == control_drained(state@, through, control@),
{
    match control {
        ChainControl::CanonicalProgress(block) => {
            if block.number <= through {
                validate_overlap_block(state, block)?;
                return Ok(false);
            }
            Ok(true)
        },
        ChainControl::Barrier { block, .. } => {
            if let Some(covered) = block {
                if covered.number <= through {
                    validate_overlap_block(state, covered)?;
                    return Ok(false);
                }
            }
            Ok(true)
        },
        ChainControl::Reorg { common_ancestor, old_tip, .. } => Ok(
            old_tip.number > through && common_ancestor.number >= through,
        ),
        ChainControl::Safe(block) => {
            if block.number <= through {
                validate_overlap_block(state, block)?;
            }
            Ok(true)
        },
        ChainControl::Finalized(block) => {
            if block.number <= through {
                validate_overlap_block(state, block)?;
            }
            Ok(true)
        },
    }
}

/// Takes out of the controls of a buffered batch what was delivered up to
/// `through`.
pub fn reconcile_buffered_controls(
    state: &HybridCheckpointV5,
    controls: &Vec<ChainControl>,
    through: u64,
) -> (r: Result<Vec<ChainControl>, SubscriberError>)
    ensures
        match r {
            Ok(kept) => controls_drained(
                state@,
                through,
                controls_view(controls@),
                0,
                Seq::empty(),
            ) == Ok::<_, SubscriberError>(controls_view(kept@)),
            Err(e) => controls_drained(
                state@,
                through,
                controls_view(controls@),
                0,
                Seq::empty(),
            ) == Err::<Seq<ControlView>, _>(e),
        },
{
    let ghost all = controls_view(controls@);
    let mut kept: Vec<ChainControl> = Vec::new();
    let mut i: usize = 0;
    assert(controls_view(kept@) =~= Seq::<ControlView>::empty());
    while i < controls.len()
        invariant
            i <= controls@.len(),
            all == controls_view(controls@),
            controls_drained(state@, through, all, 0, Seq::empty()) == controls_drained(
                state@,
                through,
                all,
                i as int,
                controls_view(kept@),
            ),
        decreases controls@.len() - i,
    {
        assert(all[i as int] == controls@[i as int]@);
        if drain_control(state, through, &controls[i])? {
            let ghost before = controls_view(kept@);
            kept.push(controls[i].duplicate());
            assert(controls_view(kept@) =~= before.push(all[i as int]));
        }
        i += 1;
    }
    Ok(kept)
}

/// Whether a history holds exactly this block at its height.
pub open spec fn retains(history: Seq<BlockRef>, block: BlockRef) -> bool {
    exists|i: int|
        0 <= i < history.len() && (#[trigger] history[i]).number == block.number && history[i].hash
            == block.hash
}

fn history_retains(history: &Vec<BlockRef>, block: &BlockRef) -> (r: bool)
    ensures
        r == retains(history@, *block),
{
    let mut i: usize = 0;
    while i < history.len()
        invariant
            i <= history@.len(),
            forall|j: int|
                0 <= j < i ==> !((#[trigger] history@[j]).number == block.number && history@[j].hash
                    == block.hash),
        decreases history@.len() - i,
    {
        if history[i].number == block.number && history[i].hash == block.hash {
            return true;
        }
        i += 1;
    }
    false
}

/// Whether a record takes a block back that the delivered branch up to
/// `through` already replaced.
pub open spec fn drop_resolved(c: CheckpointView, r: RoutedView, through: u64) -> bool {
    r.scope != DeliveryScope::OwnerCatchup && dropped_block(r.record) is Some && dropped_block(
        r.record,
    )->Some_0.number <= through && !retains(c.canonical_history, dropped_block(r.record)->Some_0)
}

fn record_drop_resolved(state: &HybridCheckpointV5, routed: &RoutedRecord, through: u64) -> (r: bool)
    ensures
        r == drop_resolved(state@, routed@, through),
{
    if !scope_advances_canonical(routed.scope) {
        return false;
    }
    match dropped_block_ref(&routed.record) {
        Some(dropped) => dropped.number <= through && !history_retains(
            &state.canonical_history,
            &dropped,
        ),
        None => false,
    }
}

/// What is left of the records from `from` on, behind those in `kept`.
pub open spec fn records_drained(
    c: CheckpointView,
    through: u64,
    records: Seq<RoutedView>,
    from: int,
    kept: Seq<RoutedView>,
) -> Result<Seq<RoutedView>, SubscriberError>
    decreases records.len() - from,
{
    if from < 0 || from >= records.len() {
        Ok(kept)
    } else if repeats(records[from], through) {
        match repeat_error(c, records[from].record) {
            Some(e) => Err(e),
            None => records_drained(c, through, records, from + 1, kept),
        }
    } else if drop_resolved(c, records[from], through) {
        records_drained(c, through, records, from + 1, kept)
    } else {
        records_drained(c, through, records, from + 1, kept.push(records[from]))
    }
}

fn drain_records(state: &HybridCheckpointV5, through: u64, records: &Vec<RoutedRecord>) -> (r: Result<
    Vec<RoutedRecord>,
    SubscriberError,
>)
    ensures
        match r {
            Ok(kept) => records_drained(
                state@,
                through,
                routed_view(records@),
                0,
                Seq::empty(),
            ) == Ok::<_, SubscriberError>(routed_view(kept@)),
            Err(e) => records_drained(
                state@,
                through,
                routed_view(records@),
                0,
                Seq::empty(),
            ) == Err::<Seq<RoutedView>, _>(e),
        },
{
    let ghost all = routed_view(records@);
    let mut kept: Vec<RoutedRecord> = Vec::new();
    let mut i: usize = 0;
    assert(routed_view(kept@) =~= Seq::<RoutedView>::empty());
    while i < records.len()
        invariant
            i <= records@.len(),
            all == routed_view(records@),
            records_drained(state@, through, all, 0, Seq::empty()) == records_drained(
                state@,
                through,
                all,
                i as int,
                routed_view(kept@),
            ),
        decreases records@.len() - i,
    {
        let routed: &RoutedRecord = &records[i];
        assert(all[i as int] == routed@);
        if record_repeats(routed, through) {
            check_repeat(state, &routed.record)?;
        } else if !record_drop_resolved(state, routed, through) {
            let ghost before = routed_view(kept@);
            kept.push(routed.duplicate());
            assert(routed_view(kept@) =~= before.push(routed@));
        }
        i += 1;
    }
    Ok(kept)
}

/// What is left of a buffered live batch once everything up to `through` was
/// delivered.
pub open spec fn batch_drained(c: CheckpointView, through: Option<u64>, b: BufferedView) -> Result<
    BufferedView,
    SubscriberError,
> {
    match through {
        None => Ok(b),
        Some(t) => match controls_drained(c, t, b.controls, 0, Seq::empty()) {
            Err(e) => Err(e),
            Ok(controls) => match records_drained(c, t, b.records, 0, Seq::empty()) {
                Err(e) => Err(e),
                Ok(records) => Ok(BufferedView { controls, records, ..b }),
            },
        },
    }
}

/// Takes out of a buffered live batch what was delivered up to `through`.
pub fn drain_batch(state: &HybridCheckpointV5, through: Option<u64>, batch: BufferedBatch) -> (r: Result<
    BufferedBatch,
    SubscriberError,
>)
    ensures
        match r {
            Ok(b) => batch_drained(state@, through, batch@) == Ok::<_, SubscriberError>(b@),
            Err(e) => batch_drained(state@, through, batch@) == Err::<BufferedView, _>(e),
        },
{
    match through {
        None => Ok(batch),
        Some(through) => {
            let controls: Vec<ChainControl> = reconcile_buffered_controls(
                state,
                &batch.controls,
                through,
            )?;
            let records: Vec<RoutedRecord> = drain_records(state, through, &batch.records)?;
            let mut batch = batch;
            batch.controls = controls;
            batch.records = records;
            Ok(batch)
        },
    }
}

} // verus!
