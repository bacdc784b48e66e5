//! Records and controls of a batch, and digests of them.
use crate::audience::{
    AudienceView, DeliveryAudience, DeliveryScope, RecordWitness, WitnessLifecycle,
};
use crate::error::SubscriberError;
use crate::header::{header_body_digest, header_digest};
use crate::model::{
    chain_of, compatible_same_height_metadata, input_ref_chain_id, same_height_conflict, BlockRef,
    InputRef, ReactiveInputIdentity,
};
use crate::owners::ids_view;
use crate::transcript::{
    keccak_digest, t_block, t_bool, t_bytes, t_hash, t_len, t_option_block, t_option_u64, t_start,
    t_tag, t_u64, CanonicalHasher,
};
use crate::validate::first;
use crate::wire::{input_kind_tag, kind_tag, lifecycle_tag, witness_lifecycle_tag};
use crate::words::B256;
use vstd::prelude::*;
use vstd::string::StringSliceAdditionalSpecFns;

verus! {

/// Where an input came from.
#[derive(Clone, Copy, Debug, PartialEq, Eq, Structural)]
pub enum InputSource {
    Batch,
    Subscription,
    Poll,
    Backfill,
    Synthetic,
}

/// How settled the chain position of a record is.
#[derive(Clone, Copy, Debug, PartialEq, Eq, Structural)]
pub enum ChainStatus {
    Pending,
    Included { block: BlockRef, confirmations: u64 },
    Safe { block: BlockRef },
    Finalized { block: BlockRef },
    Reorged { dropped_from: BlockRef },
}

/// What is known of a record beside its body.
#[derive(Clone, Copy, Debug, PartialEq, Eq, Structural)]
pub struct ReactiveContext {
    pub chain_id: Option<u64>,
    pub source: InputSource,
    pub chain_status: ChainStatus,
    pub block: Option<BlockRef>,
    pub transaction_index: Option<u64>,
    pub log_index: Option<u64>,
}

/// A log with its position.
#[derive(Debug, PartialEq, Eq)]
pub struct LogBody {
    pub address: Vec<u8>,
    pub topics: Vec<B256>,
    pub data: Vec<u8>,
    pub block_hash: B256,
    pub block_number: u64,
    pub transaction_hash: B256,
    pub transaction_index: u64,
    pub log_index: u64,
    pub removed: bool,
    pub block_timestamp: Option<u64>,
}

/// A log over sequences.
pub struct LogView {
    pub address: Seq<u8>,
    pub topics: Seq<B256>,
    pub data: Seq<u8>,
    pub block_hash: B256,
    pub block_number: u64,
    pub transaction_hash: B256,
    pub transaction_index: u64,
    pub log_index: u64,
    pub removed: bool,
    pub block_timestamp: Option<u64>,
}

impl View for LogBody {
    type V = LogView;

    open spec fn view(&self) -> LogView {
        LogView {
            address: self.address@,
            topics: self.topics@,
            data: self.data@,
            block_hash: self.block_hash,
            block_number: self.block_number,
            transaction_hash: self.transaction_hash,
            transaction_index: self.transaction_index,
            log_index: self.log_index,
            removed: self.removed,
            block_timestamp: self.block_timestamp,
        }
    }
}

/// The body of a record. A header is handed over as the JSON that it serializes
/// to.
#[derive(Debug, PartialEq, Eq)]
pub enum ReactiveInput {
    Log(LogBody),
    BlockHeader(Vec<u8>),
    PendingTxHash(B256),
    FullBlock,
    PendingTx,
}

/// The body of a record over sequences.
pub enum InputView {
    Log(LogView),
    BlockHeader(Seq<u8>),
    PendingTxHash(B256),
    FullBlock,
    PendingTx,
}

impl View for ReactiveInput {
    type V = InputView;

    open spec fn view(&self) -> InputView {
        match self {
            ReactiveInput::Log(log) => InputView::Log(log@),
            ReactiveInput::BlockHeader(json) => InputView::BlockHeader(json@),
            ReactiveInput::PendingTxHash(hash) => InputView::PendingTxHash(*hash),
            ReactiveInput::FullBlock => InputView::FullBlock,
            ReactiveInput::PendingTx => InputView::PendingTx,
        }
    }
}

/// A record: a body, its context, and the identity under which its producer
/// validated it. A log whose position is not fully known has no identity, only
/// the reason why.
#[derive(Debug, PartialEq, Eq)]
pub struct ReactiveInputRecord {
    pub input: ReactiveInput,
    pub context: ReactiveContext,
    pub identity: Result<ReactiveInputIdentity, String>,
    /// Whether the same body may be delivered once for all.
    pub payload_deduplicable: bool,
}

/// A record over sequences.
pub struct RecordView {
    pub input: InputView,
    pub context: ReactiveContext,
    pub identity: Result<ReactiveInputIdentity, String>,
    pub payload_deduplicable: bool,
}

impl View for ReactiveInputRecord {
    type V = RecordView;

    open spec fn view(&self) -> RecordView {
        RecordView {
            input: self.input@,
            context: self.context,
            identity: self.identity,
            payload_deduplicable: self.payload_deduplicable,
        }
    }
}

/// A record with who it is for and how far it reaches.
#[derive(Debug, PartialEq, Eq)]
pub struct RoutedRecord {
    pub record: ReactiveInputRecord,
    pub audience: DeliveryAudience,
    pub scope: DeliveryScope,
}

/// A routed record over sequences.
pub struct RoutedView {
    pub record: RecordView,
    pub audience: AudienceView,
    pub scope: DeliveryScope,
}

impl View for RoutedRecord {
    type V = RoutedView;

    open spec fn view(&self) -> RoutedView {
        RoutedView { record: self.record@, audience: self.audience@, scope: self.scope }
    }
}

/// Routed records over sequences.
pub open spec fn routed_view(s: Seq<RoutedRecord>) -> Seq<RoutedView> {
    Seq::new(s.len(), |i: int| s[i]@)
}

/// A statement about the chain beside its records.
#[derive(Debug, PartialEq, Eq)]
pub enum ChainControl {
    Reorg { common_ancestor: BlockRef, old_tip: BlockRef, new_tip: BlockRef },
    CanonicalProgress(BlockRef),
    Safe(BlockRef),
    Finalized(BlockRef),
    Barrier { id: Vec<u8>, block: Option<BlockRef> },
}

/// A control over sequences.
pub enum ControlView {
    Reorg { common_ancestor: BlockRef, old_tip: BlockRef, new_tip: BlockRef },
    CanonicalProgress(BlockRef),
    Safe(BlockRef),
    Finalized(BlockRef),
    Barrier { id: Seq<u8>, block: Option<BlockRef> },
}

impl View for ChainControl {
    type V = ControlView;

    open spec fn view(&self) -> ControlView {
        match self {
            ChainControl::Reorg { common_ancestor, old_tip, new_tip } => ControlView::Reorg {
                common_ancestor: *common_ancestor,
                old_tip: *old_tip,
                new_tip: *new_tip,
            },
            ChainControl::CanonicalProgress(block) => ControlView::CanonicalProgress(*block),
            ChainControl::Safe(block) => ControlView::Safe(*block),
            ChainControl::Finalized(block) => ControlView::Finalized(*block),
            ChainControl::Barrier { id, block } => ControlView::Barrier { id: id@, block: *block },
        }
    }
}

/// Controls over sequences.
pub open spec fn controls_view(s: Seq<ChainControl>) -> Seq<ControlView> {
    Seq::new(s.len(), |i: int| s[i]@)
}

// ---------------------------------------------------------------------------
// What a record says of blocks
// ---------------------------------------------------------------------------

/// The canonical block of a record, if it has one.
pub open spec fn canonical_block(context: ReactiveContext) -> Option<BlockRef> {
    match context.chain_status {
        ChainStatus::Included { block, .. } => Some(block),
        ChainStatus::Safe { block } => Some(block),
        ChainStatus::Finalized { block } => Some(block),
        ChainStatus::Pending => None,
        ChainStatus::Reorged { .. } => None,
    }
}

/// The canonical block of a record, if it has one.
pub fn canonical_block_ref(record: &ReactiveInputRecord) -> (r: Option<BlockRef>)
    ensures
        r == canonical_block(record@.context),
{
    match &record.context.chain_status {
        ChainStatus::Included { block, .. } => Some(*block),
        ChainStatus::Safe { block } => Some(*block),
        ChainStatus::Finalized { block } => Some(*block),
        ChainStatus::Pending => None,
        ChainStatus::Reorged { .. } => None,
    }
}

/// The height of the canonical block of a record.
pub fn canonical_block_number(record: &ReactiveInputRecord) -> (r: Option<u64>)
    ensures
        r == (match canonical_block(record@.context) {
            Some(block) => Some(block.number),
            None => None,
        }),
{
    match canonical_block_ref(record) {
        Some(block) => Some(block.number),
        None => None,
    }
}

/// Whether a record is a log that was taken back.
pub open spec fn is_removed_log(input: InputView) -> bool {
    match input {
        InputView::Log(log) => log.removed,
        _ => false,
    }
}

/// The block that a record is dropped with, if it is dropped.
pub open spec fn dropped_block(record: RecordView) -> Option<BlockRef> {
    match record.context.chain_status {
        ChainStatus::Reorged { dropped_from } => Some(dropped_from),
        _ => if is_removed_log(record.input) {
            record.context.block
        } else {
            None
        },
    }
}

/// The block that a record is dropped with, if it is dropped.
pub fn dropped_block_ref(record: &ReactiveInputRecord) -> (r: Option<BlockRef>)
    ensures
        r == dropped_block(record@),
{
    if let ChainStatus::Reorged { dropped_from } = &record.context.chain_status {
        return Some(*dropped_from);
    }
    if let ReactiveInput::Log(log) = &record.input {
        if log.removed {
            return record.context.block;
        }
    }
    None
}

/// The height that a control covers.
pub open spec fn control_height(control: ControlView) -> Option<u64> {
    match control {
        ControlView::CanonicalProgress(block) => Some(block.number),
        ControlView::Barrier { block, .. } => match block {
            Some(b) => Some(b.number),
            None => None,
        },
        _ => None,
    }
}

/// The height that a control covers.
pub fn coverage_control_block_number(control: &ChainControl) -> (r: Option<u64>)
    ensures
        r == control_height(control@),
{
    match control {
        ChainControl::CanonicalProgress(block) => Some(block.number),
        ChainControl::Barrier { block, .. } => match block {
            Some(b) => Some(b.number),
            None => None,
        },
        _ => None,
    }
}

/// Whether a record may be suppressed when it comes again. A record that takes
/// another back may not: the same log can be removed twice.
pub open spec fn is_deduplicable(record: RecordView) -> bool {
    record.payload_deduplicable && !(record.context.chain_status is Reorged) && !is_removed_log(
        record.input,
    )
}

/// Whether a record may be suppressed when it comes again.
pub fn deduplicable(record: &ReactiveInputRecord) -> (r: bool)
    ensures
        r == is_deduplicable(record@),
{
    if !record.payload_deduplicable {
        return false;
    }
    if let ChainStatus::Reorged { .. } = &record.context.chain_status {
        return false;
    }
    match &record.input {
        ReactiveInput::Log(log) => !log.removed,
        _ => true,
    }
}

// ---------------------------------------------------------------------------
// Transcripts
// ---------------------------------------------------------------------------

pub open spec fn t_identity(x: ReactiveInputIdentity) -> Seq<u8> {
    (match x.input_ref {
        InputRef::Log { chain_id, block_hash, transaction_hash, log_index } => t_tag(1)
            + t_option_u64(chain_id) + t_hash(block_hash) + t_hash(transaction_hash) + t_u64(
            log_index,
        ),
        InputRef::PendingTx { chain_id, hash } => t_tag(2) + t_option_u64(chain_id) + t_hash(hash),
        InputRef::Block { chain_id, hash, number } => t_tag(3) + t_option_u64(chain_id) + t_hash(
            hash,
        ) + t_u64(number),
    }) + t_tag(kind_tag(x.kind))
}

fn append_input_identity(hasher: &mut CanonicalHasher, identity: &ReactiveInputIdentity)
    ensures
        final(hasher)@ == old(hasher)@ + t_identity(*identity),
{
    match &identity.input_ref {
        InputRef::Log { chain_id, block_hash, transaction_hash, log_index } => {
            hasher.tag(1);
            hasher.option_u64(*chain_id);
            hasher.hash(block_hash);
            hasher.hash(transaction_hash);
            hasher.u64(*log_index);
        },
        InputRef::PendingTx { chain_id, hash } => {
            hasher.tag(2);
            hasher.option_u64(*chain_id);
            hasher.hash(hash);
        },
        InputRef::Block { chain_id, hash, number } => {
            hasher.tag(3);
            hasher.option_u64(*chain_id);
            hasher.hash(hash);
            hasher.u64(*number);
        },
    }
    hasher.tag(input_kind_tag(identity.kind));
    assert(hasher@ =~= old(hasher)@ + t_identity(*identity));
}

pub open spec fn t_witness(w: RecordWitness) -> Seq<u8> {
    t_bytes(w.payload_digest.bytes()) + t_u64(w.chain_id) + t_tag(lifecycle_tag(w.lifecycle))
        + t_option_block(w.block) + t_option_u64(w.transaction_index) + t_option_u64(w.log_index)
        + t_option_u64(w.log_block_timestamp)
}

fn append_record_witness(hasher: &mut CanonicalHasher, witness: &RecordWitness)
    ensures
        final(hasher)@ == old(hasher)@ + t_witness(*witness),
{
    let digest: Vec<u8> = witness.payload_digest.to_vec();
    hasher.bytes(digest.as_slice());
    hasher.u64(witness.chain_id);
    hasher.tag(witness_lifecycle_tag(witness.lifecycle));
    hasher.option_block_ref(&witness.block);
    hasher.option_u64(witness.transaction_index);
    hasher.option_u64(witness.log_index);
    hasher.option_u64(witness.log_block_timestamp);
    assert(hasher@ =~= old(hasher)@ + t_witness(*witness));
}

pub open spec fn source_tag_of(source: InputSource) -> u8 {
    match source {
        InputSource::Batch => 1,
        InputSource::Subscription => 2,
        InputSource::Poll => 3,
        InputSource::Backfill => 4,
        InputSource::Synthetic => 5,
    }
}

pub open spec fn t_status(status: ChainStatus) -> Seq<u8> {
    match status {
        ChainStatus::Pending => t_tag(1),
        ChainStatus::Included { block, confirmations } => t_tag(2) + t_block(block) + t_u64(
            confirmations,
        ),
        ChainStatus::Safe { block } => t_tag(3) + t_block(block),
        ChainStatus::Finalized { block } => t_tag(4) + t_block(block),
        ChainStatus::Reorged { dropped_from } => t_tag(5) + t_block(dropped_from),
    }
}

pub open spec fn t_context(c: ReactiveContext) -> Seq<u8> {
    t_option_u64(c.chain_id) + t_tag(source_tag_of(c.source)) + t_status(c.chain_status)
        + t_option_block(c.block) + t_option_u64(c.transaction_index) + t_option_u64(c.log_index)
}

fn append_status(hasher: &mut CanonicalHasher, status: &ChainStatus)
    ensures
        final(hasher)@ == old(hasher)@ + t_status(*status),
{
    match status {
        ChainStatus::Pending => {
            hasher.tag(1);
        },
        ChainStatus::Included { block, confirmations } => {
            hasher.tag(2);
            hasher.block_ref(block);
            hasher.u64(*confirmations);
        },
        ChainStatus::Safe { block } => {
            hasher.tag(3);
            hasher.block_ref(block);
        },
        ChainStatus::Finalized { block } => {
            hasher.tag(4);
            hasher.block_ref(block);
        },
        ChainStatus::Reorged { dropped_from } => {
            hasher.tag(5);
            hasher.block_ref(dropped_from);
        },
    }
    assert(hasher@ =~= old(hasher)@ + t_status(*status));
}

fn append_exact_context(hasher: &mut CanonicalHasher, context: &ReactiveContext)
    ensures
        final(hasher)@ == old(hasher)@ + t_context(*context),
{
    hasher.option_u64(context.chain_id);
    hasher.tag(
        match context.source {
            InputSource::Batch => 1,
            InputSource::Subscription => 2,
            InputSource::Poll => 3,
            InputSource::Backfill => 4,
            InputSource::Synthetic => 5,
        },
    );
    append_status(hasher, &context.chain_status);
    hasher.option_block_ref(&context.block);
    hasher.option_u64(context.transaction_index);
    hasher.option_u64(context.log_index);
    assert(hasher@ =~= old(hasher)@ + t_context(*context));
}

/// Ids one behind the other in a transcript.
pub open spec fn t_ids(s: Seq<Seq<u8>>) -> Seq<u8>
    decreases s.len(),
{
    if s.len() == 0 {
        Seq::empty()
    } else {
        t_ids(s.drop_last()) + t_bytes(s.last())
    }
}

pub open spec fn t_audience(audience: AudienceView) -> Seq<u8> {
    match audience {
        AudienceView::All => t_tag(1),
        AudienceView::Owners(ids) => t_tag(2) + t_len(ids.len()) + t_ids(ids),
        AudienceView::AllExcept(ids) => t_tag(3) + t_len(ids.len()) + t_ids(ids),
    }
}

fn append_ids(hasher: &mut CanonicalHasher, ids: &Vec<crate::model::HandlerId>)
    ensures
        final(hasher)@ == old(hasher)@ + t_len(ids@.len()) + t_ids(ids_view(ids@)),
{
    let ghost all = ids_view(ids@);
    hasher.sequence_len(ids.len());
    let ghost head = hasher@;
    let mut i: usize = 0;
    assert(all.take(0) =~= Seq::<Seq<u8>>::empty());
    assert(head + t_ids(all.take(0)) =~= head);
    while i < ids.len()
        invariant
            i <= ids@.len(),
            all == ids_view(ids@),
            hasher@ == head + t_ids(all.take(i as int)),
        decreases ids@.len() - i,
    {
        hasher.handler_id(&ids[i]);
        proof {
            let next = all.take(i + 1);
            assert(next.drop_last() =~= all.take(i as int));
            assert(next.last() == all[i as int]);
            assert(hasher@ =~= head + t_ids(next));
        }
        i += 1;
    }
    assert(all.take(i as int) =~= all);
}

fn append_audience(hasher: &mut CanonicalHasher, audience: &DeliveryAudience)
    ensures
        final(hasher)@ == old(hasher)@ + t_audience(audience@),
{
    match audience {
        DeliveryAudience::All => {
            hasher.tag(1);
        },
        DeliveryAudience::Owners(ids) => {
            hasher.tag(2);
            append_ids(hasher, ids);
        },
        DeliveryAudience::AllExcept(ids) => {
            hasher.tag(3);
            append_ids(hasher, ids);
        },
    }
    assert(hasher@ =~= old(hasher)@ + t_audience(audience@));
}

pub open spec fn scope_tag(scope: DeliveryScope) -> u8 {
    match scope {
        DeliveryScope::Canonical => 1,
        DeliveryScope::CanonicalProgress => 2,
        DeliveryScope::OwnerCatchup => 3,
    }
}

fn append_scope(hasher: &mut CanonicalHasher, scope: DeliveryScope)
    ensures
        final(hasher)@ == old(hasher)@ + t_tag(scope_tag(scope)),
{
    hasher.tag(
        match scope {
            DeliveryScope::Canonical => 1,
            DeliveryScope::CanonicalProgress => 2,
            DeliveryScope::OwnerCatchup => 3,
        },
    );
}

pub open spec fn t_control(control: ControlView) -> Seq<u8> {
    match control {
        ControlView::Reorg { common_ancestor, old_tip, new_tip } => t_tag(1) + t_block(
            common_ancestor,
        ) + t_block(old_tip) + t_block(new_tip),
        ControlView::CanonicalProgress(block) => t_tag(2) + t_block(block),
        ControlView::Safe(block) => t_tag(3) + t_block(block),
        ControlView::Finalized(block) => t_tag(4) + t_block(block),
        ControlView::Barrier { id, block } => t_tag(5) + t_bytes(id) + t_option_block(block),
    }
}

fn append_chain_control(hasher: &mut CanonicalHasher, control: &ChainControl)
    ensures
        final(hasher)@ == old(hasher)@ + t_control(control@),
{
    match control {
        ChainControl::Reorg { common_ancestor, old_tip, new_tip } => {
            hasher.tag(1);
            hasher.block_ref(common_ancestor);
            hasher.block_ref(old_tip);
            hasher.block_ref(new_tip);
        },
        ChainControl::CanonicalProgress(block) => {
            hasher.tag(2);
            hasher.block_ref(block);
        },
        ChainControl::Safe(block) => {
            hasher.tag(3);
            hasher.block_ref(block);
        },
        ChainControl::Finalized(block) => {
            hasher.tag(4);
            hasher.block_ref(block);
        },
        ChainControl::Barrier { id, block } => {
            hasher.tag(5);
            hasher.bytes(id.as_slice());
            hasher.option_block_ref(block);
        },
    }
    assert(hasher@ =~= old(hasher)@ + t_control(control@));
}

// ---------------------------------------------------------------------------
// Witnesses
// ---------------------------------------------------------------------------

/// Hashes one behind the other in a transcript.
pub open spec fn t_topics(s: Seq<B256>) -> Seq<u8>
    decreases s.len(),
{
    if s.len() == 0 {
        Seq::empty()
    } else {
        t_topics(s.drop_last()) + t_hash(s.last())
    }
}

pub open spec fn t_log(log: LogView) -> Seq<u8> {
    t_tag(1) + t_bytes(log.address) + t_len(log.topics.len()) + t_topics(log.topics) + t_bytes(
        log.data,
    ) + t_hash(log.block_hash) + t_u64(log.block_number) + t_hash(log.transaction_hash) + t_u64(
        log.transaction_index,
    ) + t_u64(log.log_index) + t_bool(log.removed)
}

fn append_log(hasher: &mut CanonicalHasher, log: &LogBody)
    ensures
        final(hasher)@ == old(hasher)@ + t_log(log@),
{
    let ghost start = hasher@;
    hasher.tag(1);
    hasher.bytes(log.address.as_slice());
    hasher.sequence_len(log.topics.len());
    let ghost head = hasher@;
    let ghost all = log.topics@;
    let mut i: usize = 0;
    assert(all.take(0) =~= Seq::<B256>::empty());
    assert(head + t_topics(all.take(0)) =~= head);
    while i < log.topics.len()
        invariant
            i <= log.topics@.len(),
            all == log.topics@,
            hasher@ == head + t_topics(all.take(i as int)),
        decreases log.topics@.len() - i,
    {
        hasher.hash(&log.topics[i]);
        proof {
            let next = all.take(i + 1);
            assert(next.drop_last() =~= all.take(i as int));
            assert(next.last() == all[i as int]);
            assert(hasher@ =~= head + t_topics(next));
        }
        i += 1;
    }
    assert(all.take(i as int) =~= all);
    hasher.bytes(log.data.as_slice());
    hasher.hash(&log.block_hash);
    hasher.u64(log.block_number);
    hasher.hash(&log.transaction_hash);
    hasher.u64(log.transaction_index);
    hasher.u64(log.log_index);
    hasher.bool(log.removed);
    assert(hasher@ =~= start + t_log(log@));
}

/// The transcript of the body of a record, or why it has none.
pub open spec fn t_body(input: InputView) -> Result<Seq<u8>, SubscriberError> {
    match input {
        InputView::Log(log) => Ok(t_log(log)),
        InputView::BlockHeader(json) => match header_digest(json, usize::MAX) {
            Err(e) => Err(e),
            Ok((digest, _)) => Ok(t_tag(2) + t_hash(digest)),
        },
        InputView::PendingTxHash(hash) => Ok(t_tag(3) + t_hash(hash)),
        InputView::FullBlock => Ok(Seq::empty()),
        InputView::PendingTx => Ok(Seq::empty()),
    }
}

/// The lifecycle that a chain status stands for.
pub open spec fn lifecycle_of(status: ChainStatus) -> WitnessLifecycle {
    match status {
        ChainStatus::Pending => WitnessLifecycle::Pending,
        ChainStatus::Included { .. } => WitnessLifecycle::Included,
        ChainStatus::Safe { .. } => WitnessLifecycle::Safe,
        ChainStatus::Finalized { .. } => WitnessLifecycle::Finalized,
        ChainStatus::Reorged { .. } => WitnessLifecycle::Reorg,
    }
}

/// The witness of a record, or why it has none.
pub open spec fn witness_of(record: RecordView, chain_id: u64) -> Result<
    RecordWitness,
    SubscriberError,
> {
    match record.identity {
        Err(reason) => Err(SubscriberError::Reported(reason)),
        Ok(identity) => match t_body(record.input) {
            Err(e) => Err(e),
            Ok(body) => Ok(
                RecordWitness {
                    payload_digest: keccak_digest(
                        t_start("EFCHY-RECORD-PAYLOAD-V1".spec_bytes()) + t_identity(identity)
                            + body,
                    ),
                    chain_id,
                    lifecycle: lifecycle_of(record.context.chain_status),
                    block: record.context.block,
                    transaction_index: record.context.transaction_index,
                    log_index: record.context.log_index,
                    log_block_timestamp: match record.input {
                        InputView::Log(log) => log.block_timestamp,
                        _ => None,
                    },
                },
            ),
        },
    }
}

/// The witness of a record.
pub fn record_witness(record: &ReactiveInputRecord, expected_chain_id: u64) -> (r: Result<
    RecordWitness,
    SubscriberError,
>)
    ensures
        r == witness_of(record@, expected_chain_id),
{
    let identity: ReactiveInputIdentity = match &record.identity {
        Ok(identity) => *identity,
        Err(reason) => {
            return Err(SubscriberError::Reported(reason.clone()));
        },
    };
    let lifecycle: WitnessLifecycle = match &record.context.chain_status {
        ChainStatus::Pending => WitnessLifecycle::Pending,
        ChainStatus::Included { .. } => WitnessLifecycle::Included,
        ChainStatus::Safe { .. } => WitnessLifecycle::Safe,
        ChainStatus::Finalized { .. } => WitnessLifecycle::Finalized,
        ChainStatus::Reorged { .. } => WitnessLifecycle::Reorg,
    };
    let mut payload = CanonicalHasher::new("EFCHY-RECORD-PAYLOAD-V1".as_bytes());
    append_input_identity(&mut payload, &identity);
    let ghost head = payload@;
    let log_block_timestamp: Option<u64> = match &record.input {
        ReactiveInput::Log(log) => {
            append_log(&mut payload, log);
            log.block_timestamp
        },
        ReactiveInput::BlockHeader(json) => {
            let (digest, _) = header_body_digest(json.as_slice(), usize::MAX)?;
            payload.tag(2);
            payload.hash(&digest);
            assert(payload@ =~= head + (t_tag(2) + t_hash(digest)));
            None
        },
        ReactiveInput::PendingTxHash(hash) => {
            payload.tag(3);
            payload.hash(hash);
            assert(payload@ =~= head + (t_tag(3) + t_hash(*hash)));
            None
        },
        ReactiveInput::FullBlock => {
            assert(payload@ =~= head + Seq::<u8>::empty());
            None
        },
        ReactiveInput::PendingTx => {
            assert(payload@ =~= head + Seq::<u8>::empty());
            None
        },
    };
    Ok(
        RecordWitness {
            payload_digest: payload.finish(),
            chain_id: expected_chain_id,
            lifecycle,
            block: record.context.block,
            transaction_index: record.context.transaction_index,
            log_index: record.context.log_index,
            log_block_timestamp,
        },
    )
}

/// The error that a record earns before it is witnessed.
pub open spec fn record_error(record: RecordView, chain_id: u64) -> Option<SubscriberError> {
    if record.input is FullBlock || record.input is PendingTx {
        Some(
            SubscriberError::Unsupported(
                "hybrid delivery does not accept full blocks or hydrated pending transactions until their complete bodies can be verified generically",
            ),
        )
    } else if record.context.chain_id != Some(chain_id) {
        Some(
            SubscriberError::RecordChain { named: record.context.chain_id, expected: chain_id },
        )
    } else {
        match record.identity {
            Err(reason) => Some(SubscriberError::Reported(reason)),
            Ok(identity) => if chain_of(identity.input_ref) != Some(chain_id) {
                Some(
                    SubscriberError::Provider(
                        "hybrid validated input identity has a wrong or missing chain id",
                    ),
                )
            } else {
                None
            },
        }
    }
}

/// The identity and the witness of a record, or why it is refused.
pub open spec fn validated(record: RecordView, chain_id: u64) -> Result<
    (ReactiveInputIdentity, RecordWitness),
    SubscriberError,
> {
    match record_error(record, chain_id) {
        Some(e) => Err(e),
        None => match witness_of(record, chain_id) {
            Err(e) => Err(e),
            Ok(w) => Ok((record.identity->Ok_0, w)),
        },
    }
}

/// The identity and the witness of a record of the expected chain.
pub fn validated_record(record: &ReactiveInputRecord, expected_chain_id: u64) -> (r: Result<
    (ReactiveInputIdentity, RecordWitness),
    SubscriberError,
>)
    ensures
        r == validated(record@, expected_chain_id),
{
    let whole: bool = match &record.input {
        ReactiveInput::FullBlock => true,
        ReactiveInput::PendingTx => true,
        _ => false,
    };
    if whole {
        return Err(
            SubscriberError::Unsupported(
                "hybrid delivery does not accept full blocks or hydrated pending transactions until their complete bodies can be verified generically",
            ),
        );
    }
    match record.context.chain_id {
        Some(found) if found == expected_chain_id => {},
        found => {
            return Err(SubscriberError::RecordChain { named: found, expected: expected_chain_id });
        },
    }
    let identity: ReactiveInputIdentity = match &record.identity {
        Ok(identity) => *identity,
        Err(reason) => {
            return Err(SubscriberError::Reported(reason.clone()));
        },
    };
    match input_ref_chain_id(identity.input_ref) {
        Some(found) if found == expected_chain_id => {},
        _ => {
            return Err(
                SubscriberError::Provider(
                    "hybrid validated input identity has a wrong or missing chain id",
                ),
            );
        },
    }
    let witness: RecordWitness = record_witness(record, expected_chain_id)?;
    Ok((identity, witness))
}

// ---------------------------------------------------------------------------
// The digest of a delivery
// ---------------------------------------------------------------------------

/// The transcript of one routed record, or why it has none.
pub open spec fn t_routed(r: RoutedView, chain_id: u64) -> Result<Seq<u8>, SubscriberError> {
    match validated(r.record, chain_id) {
        Err(e) => Err(e),
        Ok((identity, witness)) => Ok(
            t_identity(identity) + t_witness(witness) + t_context(r.record.context) + t_audience(
                r.audience,
            ) + t_tag(scope_tag(r.scope)),
        ),
    }
}

/// The transcript of routed records, or the error of the first that has none.
pub open spec fn t_records(s: Seq<RoutedView>, chain_id: u64) -> Result<Seq<u8>, SubscriberError>
    decreases s.len(),
{
    if s.len() == 0 {
        Ok(Seq::empty())
    } else {
        match t_records(s.drop_last(), chain_id) {
            Err(e) => Err(e),
            Ok(front) => match t_routed(s.last(), chain_id) {
                Err(e) => Err(e),
                Ok(last) => Ok(front + last),
            },
        }
    }
}

/// The transcript of controls.
pub open spec fn t_controls(s: Seq<ControlView>) -> Seq<u8>
    decreases s.len(),
{
    if s.len() == 0 {
        Seq::empty()
    } else {
        t_controls(s.drop_last()) + t_control(s.last())
    }
}

/// The transcript of an optional byte string.
pub open spec fn t_option_bytes(value: Option<Seq<u8>>) -> Seq<u8> {
    match value {
        Some(bytes) => t_bool(true) + t_bytes(bytes),
        None => t_bool(false),
    }
}

/// The transcript of an optional hash.
pub open spec fn t_commitment(value: Option<B256>) -> Seq<u8> {
    match value {
        Some(hash) => t_bool(true) + t_hash(hash),
        None => t_bool(false),
    }
}

/// The digest of a delivery, or why it has none.
pub open spec fn delivery_digest(
    records: Seq<RoutedView>,
    controls: Seq<ControlView>,
    checkpoint: Option<Seq<u8>>,
    commitment: Option<B256>,
    chain_id: u64,
) -> Result<B256, SubscriberError> {
    match t_records(records, chain_id) {
        Err(e) => Err(e),
        Ok(body) => Ok(
            keccak_digest(
                t_start("EFCHY-SOURCE-DELIVERY-V1".spec_bytes()) + t_u64(chain_id) + t_len(
                    records.len(),
                ) + body + t_len(controls.len()) + t_controls(controls) + t_option_bytes(checkpoint)
                    + t_commitment(commitment),
            ),
        ),
    }
}

pub proof fn lemma_records_error(all: Seq<RoutedView>, i: int, chain_id: u64, e: SubscriberError)
    requires
        0 <= i <= all.len(),
        t_records(all.take(i), chain_id) == Err::<Seq<u8>, _>(e),
    ensures
        t_records(all, chain_id) == Err::<Seq<u8>, _>(e),
    decreases all.len() - i,
{
    if i == all.len() {
        assert(all.take(i) =~= all);
    } else {
        assert(all.take(i + 1).drop_last() =~= all.take(i));
        lemma_records_error(all, i + 1, chain_id, e);
    }
}

proof fn lemma_five(s: Seq<u8>, a: Seq<u8>, b: Seq<u8>, c: Seq<u8>, d: Seq<u8>, e: Seq<u8>)
    ensures
        s + a + b + c + d + e == s + (a + b + c + d + e),
{
    assert(s + a + b + c + d + e =~= s + (a + b + c + d + e));
}

proof fn lemma_two(s: Seq<u8>, a: Seq<u8>, b: Seq<u8>)
    ensures
        s + a + b == s + (a + b),
{
    assert(s + a + b =~= s + (a + b));
}

fn append_routed(hasher: &mut CanonicalHasher, routed: &RoutedRecord, chain_id: u64) -> (r: Result<
    (),
    SubscriberError,
>)
    ensures
        match r {
            Ok(_) => t_routed(routed@, chain_id) is Ok && final(hasher)@ == old(hasher)@ + t_routed(
                routed@,
                chain_id,
            )->Ok_0,
            Err(e) => t_routed(routed@, chain_id) == Err::<Seq<u8>, _>(e),
        },
{
    let ghost start = hasher@;
    let (identity, witness) = validated_record(&routed.record, chain_id)?;
    append_input_identity(hasher, &identity);
    append_record_witness(hasher, &witness);
    append_exact_context(hasher, &routed.record.context);
    append_audience(hasher, &routed.audience);
    append_scope(hasher, routed.scope);
    proof {
        lemma_five(
            start,
            t_identity(identity),
            t_witness(witness),
            t_context(routed@.record.context),
            t_audience(routed@.audience),
            t_tag(scope_tag(routed@.scope)),
        );
    }
    Ok(())
}

fn append_records(hasher: &mut CanonicalHasher, records: &Vec<RoutedRecord>, chain_id: u64) -> (r:
    Result<(), SubscriberError>)
    ensures
        match r {
            Ok(_) => t_records(routed_view(records@), chain_id) is Ok && final(hasher)@ == old(
                hasher,
            )@ + t_records(routed_view(records@), chain_id)->Ok_0,
            Err(e) => t_records(routed_view(records@), chain_id) == Err::<Seq<u8>, _>(e),
        },
{
    let ghost all = routed_view(records@);
    let ghost start = hasher@;
    let mut i: usize = 0;
    assert(all.take(0) =~= Seq::<RoutedView>::empty());
    assert(start + Seq::<u8>::empty() =~= start);
    while i < records.len()
        invariant
            i <= records@.len(),
            all == routed_view(records@),
            start == old(hasher)@,
            t_records(all.take(i as int), chain_id) is Ok,
            hasher@ == start + t_records(all.take(i as int), chain_id)->Ok_0,
        decreases records@.len() - i,
    {
        proof {
            let next = all.take(i + 1);
            assert(next.drop_last() =~= all.take(i as int));
            assert(next.last() == records@[i as int]@);
        }
        match append_routed(hasher, &records[i], chain_id) {
            Ok(_) => {},
            Err(e) => {
                proof {
                    lemma_records_error(all, i + 1, chain_id, e);
                }
                return Err(e);
            },
        }
        proof {
            lemma_two(
                start,
                t_records(all.take(i as int), chain_id)->Ok_0,
                t_routed(records@[i as int]@, chain_id)->Ok_0,
            );
        }
        i += 1;
    }
    assert(all.take(i as int) =~= all);
    Ok(())
}

fn append_controls(hasher: &mut CanonicalHasher, controls: &Vec<ChainControl>)
    ensures
        final(hasher)@ == old(hasher)@ + t_controls(controls_view(controls@)),
{
    let ghost all = controls_view(controls@);
    let ghost start = hasher@;
    let mut i: usize = 0;
    assert(all.take(0) =~= Seq::<ControlView>::empty());
    assert(start + Seq::<u8>::empty() =~= start);
    while i < controls.len()
        invariant
            i <= controls@.len(),
            all == controls_view(controls@),
            hasher@ == start + t_controls(all.take(i as int)),
        decreases controls@.len() - i,
    {
        append_chain_control(hasher, &controls[i]);
        proof {
            let next = all.take(i + 1);
            assert(next.drop_last() =~= all.take(i as int));
            assert(next.last() == all[i as int]);
            assert(hasher@ =~= start + t_controls(next));
        }
        i += 1;
    }
    assert(all.take(i as int) =~= all);
}

/// The digest that tells one delivery of a source from every other.
pub fn source_delivery_digest(
    records: &Vec<RoutedRecord>,
    controls: &Vec<ChainControl>,
    checkpoint: &Option<Vec<u8>>,
    payload_commitment: &Option<B256>,
    expected_chain_id: u64,
) -> (r: Result<B256, SubscriberError>)
    ensures
        r == delivery_digest(
            routed_view(records@),
            controls_view(controls@),
            crate::checkpoint::opt_bytes(*checkpoint),
            *payload_commitment,
            expected_chain_id,
        ),
{
    let mut hasher = CanonicalHasher::new("EFCHY-SOURCE-DELIVERY-V1".as_bytes());
    hasher.u64(expected_chain_id);
    hasher.sequence_len(records.len());
    append_records(&mut hasher, records, expected_chain_id)?;
    hasher.sequence_len(controls.len());
    append_controls(&mut hasher, controls);
    let ghost head = hasher@;
    match checkpoint {
        Some(bytes) => {
            hasher.bool(true);
            hasher.bytes(bytes.as_slice());
        },
        None => {
            hasher.bool(false);
        },
    }
    assert(hasher@ =~= head + t_option_bytes(crate::checkpoint::opt_bytes(*checkpoint)));
    let ghost middle = hasher@;
    match payload_commitment {
        Some(hash) => {
            hasher.bool(true);
            hasher.hash(hash);
        },
        None => {
            hasher.bool(false);
        },
    }
    assert(hasher@ =~= middle + t_commitment(*payload_commitment));
    Ok(hasher.finish())
}

// ---------------------------------------------------------------------------
// Controls
// ---------------------------------------------------------------------------

/// Whether a reorganization stands behind a control of another kind.
pub open spec fn reorg_out_of_order(controls: Seq<ControlView>) -> bool {
    exists|i: int, j: int|
        0 <= i < j < controls.len() && !(#[trigger] controls[i] is Reorg) && #[trigger] controls[j] is Reorg
}

/// The error that one control earns.
pub open spec fn control_error(control: ControlView) -> Option<SubscriberError> {
    match control {
        ControlView::Barrier { id, .. } => if id.len() == 0 {
            Some(SubscriberError::Provider("hybrid source emitted an empty barrier id"))
        } else {
            None
        },
        ControlView::Reorg { common_ancestor, old_tip, new_tip } => if common_ancestor.number
            > old_tip.number || common_ancestor.number > new_tip.number || (common_ancestor.number
            == old_tip.number && common_ancestor.hash != old_tip.hash) || (common_ancestor.number
            == new_tip.number && common_ancestor.hash != new_tip.hash) {
            Some(
                SubscriberError::Provider("hybrid source emitted an invalid reorg ancestry triple"),
            )
        } else {
            first(
                same_height_conflict(common_ancestor, old_tip),
                same_height_conflict(common_ancestor, new_tip),
            )
        },
        _ => None,
    }
}

/// The error of the first control, from `from` on, that earns one.
pub open spec fn each_control_error(controls: Seq<ControlView>, from: int) -> Option<
    SubscriberError,
>
    decreases controls.len() - from,
{
    if from < 0 || from >= controls.len() {
        None
    } else {
        first(control_error(controls[from]), each_control_error(controls, from + 1))
    }
}

/// The error that the controls of a batch earn.
pub open spec fn controls_error(controls: Seq<ControlView>) -> Option<SubscriberError> {
    if reorg_out_of_order(controls) {
        Some(
            SubscriberError::Provider(
                "hybrid reorg controls must precede records and all post-record controls in a batch",
            ),
        )
    } else {
        each_control_error(controls, 0)
    }
}

fn check_control(control: &ChainControl) -> (r: Result<(), SubscriberError>)
    ensures
        match r {
            Ok(_) => control_error(control@) is None,
            Err(e) => control_error(control@) == Some(e),
        },
{
    match control {
        ChainControl::Barrier { id, .. } => {
            if id.len() == 0 {
                return Err(SubscriberError::Provider("hybrid source emitted an empty barrier id"));
            }
        },
        ChainControl::Reorg { common_ancestor, old_tip, new_tip } => {
            if common_ancestor.number > old_tip.number || common_ancestor.number > new_tip.number
                || (common_ancestor.number == old_tip.number && common_ancestor.hash
                != old_tip.hash) || (common_ancestor.number == new_tip.number
                && common_ancestor.hash != new_tip.hash) {
                return Err(
                    SubscriberError::Provider(
                        "hybrid source emitted an invalid reorg ancestry triple",
                    ),
                );
            }
            compatible_same_height_metadata(common_ancestor, old_tip)?;
            compatible_same_height_metadata(common_ancestor, new_tip)?;
        },
        _ => {},
    }
    Ok(())
}

/// Refuses controls that are out of order or contradict themselves.
pub fn validate_chain_controls(controls: &Vec<ChainControl>) -> (r: Result<(), SubscriberError>)
    ensures
        match r {
            Ok(_) => controls_error(controls_view(controls@)) is None,
            Err(e) => controls_error(controls_view(controls@)) == Some(e),
        },
{
    let ghost all = controls_view(controls@);
    let mut other: Option<usize> = None;
    let mut i: usize = 0;
    while i < controls.len()
        invariant
            i <= controls@.len(),
            all == controls_view(controls@),
            match other {
                Some(k) => k < i && !(all[k as int] is Reorg),
                None => forall|j: int| 0 <= j < i ==> #[trigger] all[j] is Reorg,
            },
            forall|a: int, b: int|
                0 <= a < b < i && !(#[trigger] all[a] is Reorg) ==> !(#[trigger] all[b] is Reorg),
        decreases controls@.len() - i,
    {
        assert(all[i as int] == controls@[i as int]@);
        let reorg: bool = match &controls[i] {
            ChainControl::Reorg { .. } => true,
            _ => false,
        };
        if reorg {
            if let Some(k) = other {
                assert(!(all[k as int] is Reorg) && all[i as int] is Reorg);
                return Err(
                    SubscriberError::Provider(
                        "hybrid reorg controls must precede records and all post-record controls in a batch",
                    ),
                );
            }
        } else if other.is_none() {
            other = Some(i);
        }
        i += 1;
    }
    let mut n: usize = 0;
    while n < controls.len()
        invariant
            n <= controls@.len(),
            all == controls_view(controls@),
            !reorg_out_of_order(all),
            each_control_error(all, 0) == each_control_error(all, n as int),
        decreases controls@.len() - n,
    {
        assert(all[n as int] == controls@[n as int]@);
        check_control(&controls[n])?;
        n += 1;
    }
    Ok(())
}

} // verus!
