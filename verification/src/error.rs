//! Errors of the coordinator and its codec.
use crate::checkpoint::HybridSource;
use crate::rlp::RlpError;
use vstd::prelude::*;

verus! {

/// Why a request, a batch or a checkpoint was refused.
///
/// `Provider`, `InvalidConfig` and `Unsupported` carry their whole text; the
/// other variants carry the values that `message` writes into theirs.
#[derive(Debug, PartialEq, Eq)]
pub enum SubscriberError {
    /// A source or a stored value breaks a rule of the coordinator.
    Provider(&'static str),
    /// The coordinator was configured in a way it cannot honour.
    InvalidConfig(&'static str),
    /// The request is outside what the coordinator accepts.
    Unsupported(&'static str),
    /// A text that a child source, or the embedding program, gave.
    Reported(String),
    /// A checkpoint item is not well-formed.
    Rlp { context: &'static str, error: RlpError },
    /// A checkpoint list has more fields than its schema.
    TrailingFields { context: &'static str },
    /// A checkpoint list has more entries than allowed.
    TooManyEntries { context: &'static str, max: usize },
    /// A checkpoint byte string is longer than allowed.
    TooManyBytes { context: &'static str, max: usize },
    /// A checkpoint text is not UTF-8.
    NotUtf8 { context: &'static str },
    /// A checkpoint handler id is empty.
    EmptyHandlerId { context: &'static str },
    /// A checkpoint owner map is not strictly sorted.
    UnsortedOwners { context: &'static str },
    /// A checkpoint tag is not known.
    UnknownTag { what: &'static str, tag: u8 },
    /// A checkpoint identity pairs a reference with a foreign representation.
    IncompatibleIdentity,
    /// A checkpoint version is not known.
    UnsupportedVersion { version: u16 },
    /// A checkpoint payload is longer than allowed.
    PayloadTooLarge { limit: usize },
    /// There are more recent inputs than a checkpoint can hold.
    RecentInputsExceeded { max: usize },
    /// A history is longer than a checkpoint can hold.
    HistoryTooLong { label: &'static str, max: usize },
    /// There are more owner entries than a checkpoint can hold.
    OwnerEntriesExceeded { max: usize },
    /// A handler id in a state, shown like this, is longer than a checkpoint can
    /// hold.
    StoredHandlerIdTooLong { context: &'static str, owner: String },
    /// A handler id, shown like this, is longer than a checkpoint can hold.
    HandlerIdTooLong { owner: String },
    /// An owner list is empty.
    EmptyOwners { label: &'static str },
    /// An owner occurs twice in a list.
    DuplicateOwner { label: &'static str },
    /// A delivery lists more owners than allowed.
    ExplicitOwnersExceeded { count: usize, max: usize },
    /// The deliveries of a batch reach more owners than allowed.
    ProjectedOwnersExceeded { count: usize, max: usize },
    /// A delivery names an owner, shown like this, that is not registered.
    UnknownOwner { owner: String },
    /// The canonical-sequence rules refuse the retained blocks and heads.
    SequenceRefused { reason: String },
    /// A history in a checkpoint is not what it must be.
    History { label: &'static str, fault: HistoryFault },
    /// A source position in a checkpoint is not what it must be.
    Source { label: &'static str, problem: SourceFault },
    /// A rewind goes behind the retained blocks.
    AncestorTooOld { number: u64 },
    /// A rewind names another block than the one retained.
    AncestorMismatch { number: u64 },
    /// A block below the head is not among the retained ones.
    OutsideHistory { number: u64 },
    /// A block does not name the head before it as parent.
    ParentMismatch { number: u64 },
    /// The witnesses of one delivery exceed the journal budgets by themselves.
    ProtectedSuffixExceedsBudgets { protected: usize, owners: usize },
    /// The witnesses of one delivery do not fit in a checkpoint payload.
    ProtectedSuffixTooLarge { limit: usize, needs: usize },
    /// A topology leaves no room for one more delivery in a checkpoint.
    NoRoomForDelivery {
        context: &'static str,
        kind: &'static str,
        origin: &'static str,
        cause: Box<SubscriberError>,
    },
    /// A block header is longer than allowed.
    HeaderTooLarge { limit: usize },
    /// A block header is not JSON.
    HeaderNotJson { reason: String },
    /// A record names another chain, or none.
    RecordChain { named: Option<u64>, expected: u64 },
    /// A batch names another chain, or none.
    BatchChain { named: Option<u64>, expected: u64 },
    /// A batch has a longer delivery token than allowed.
    IngressToken { length: usize, max: usize },
    /// A batch has a longer checkpoint than allowed.
    IngressCheckpoint { length: usize, max: usize },
    /// A batch has more records than allowed.
    IngressRecords { count: usize, max: usize },
    /// A batch has more controls than allowed.
    IngressControls { count: usize, max: usize },
    /// A batch has more accounted bytes than allowed.
    IngressBytes { bytes: usize, max: usize },
    /// A block that should overlap is not among the retained ones.
    OverlapOutside { number: u64 },
    /// A block that overlaps contradicts the retained one.
    OverlapConflict { number: u64 },
    /// An owner's catch-up is not at a retained block.
    OwnerCatchupOverlap { number: u64, cause: Box<SubscriberError> },
    /// A recovery goes back to another block than the one retained.
    RecoveryAncestorConflict { number: u64 },
    /// A recovery goes back behind the retained blocks.
    RecoveryAncestorTooOld { number: u64 },
    /// The live buffer is full.
    LiveBufferExceeded {
        batches: usize,
        max_batches: usize,
        records: usize,
        max_records: usize,
        bytes: usize,
        max_bytes: usize,
    },
    /// The coordinator stopped for good.
    Poisoned { reason: String },
    /// A source turned to another chain.
    SourceChainChanged { source: HybridSource, found: u64, expected: u64 },
    /// A source does not know its chain yet.
    SourceChainUnresolved { source: HybridSource, expected: u64 },
    /// A restore is for another chain.
    RestoreWrongChain { expected: u64 },
    /// A restore position is for another chain.
    RestoreChain { found: u64, expected: u64 },
    /// A restored checkpoint covers another block than the runtime.
    RestoreCoverage { checkpoint: u64, runtime: u64 },
    /// The runtime retained another block than the checkpoint.
    RuntimeHistoryConflict { number: u64 },
    /// The runtime retained another block than a recent input was in.
    RuntimeCoverageConflict { number: u64 },
    /// A restored acknowledgement has no token to give.
    MissingReplayToken { source: HybridSource },
    /// Only the historical source can tell how the chain moved.
    NeedsHistory { reason: String },
    /// A batch cannot follow what is canonical.
    SequenceFailed { reason: String },
    /// An owner is to be activated at a block that is not retained.
    ActivationBaseline { number: u64, cause: Box<SubscriberError> },
    /// A change failed, and so did taking it back.
    RollbackFailed { step: &'static str, cause: Box<SubscriberError>, rollback: Box<SubscriberError> },
    /// A subscription changed at the live source alone, above what was
    /// acknowledged.
    LifecycleGap { scope: &'static str, number: u64 },
    /// A change could not be taken back in both sources: what came of it at the
    /// historical source, and at the live one.
    RollbackPending { label: &'static str, first: String, second: String },
    /// Two references to one height disagree on the hash.
    BlockConflict { number: u64 },
    /// Two references to one block disagree on optional metadata.
    MetadataConflict { label: &'static str, number: u64 },
}

/// What is wrong with a history in a checkpoint.
#[derive(Clone, Copy, Debug, PartialEq, Eq)]
pub enum HistoryFault {
    /// There is coverage but no retained block.
    CoverageWithoutHistory,
    /// There are retained blocks but no coverage.
    HistoryWithoutCoverage,
    /// The blocks do not ascend.
    NotAscending,
    /// The block at this height does not name the block before it as parent.
    ParentMismatch { number: u64 },
    /// The last block is not the coverage head.
    EndsElsewhere,
    /// The certified coverage has no such head to stand under.
    ProofWithoutHead,
    /// The certified coverage is ahead of the head.
    ProofAhead,
}

/// What is wrong with a source position in a checkpoint.
#[derive(Clone, Copy, Debug, PartialEq, Eq)]
pub enum SourceFault {
    /// There is a delivery token but no digest of its delivery.
    TokenWithoutDigest,
    /// There is a delivery token but no coverage to restore it at.
    TokenWithoutCoverage,
    /// There is coverage but the coordinator has none.
    CoverageWithoutCoordinator,
    /// The coverage is ahead of the coordinator's.
    AheadOfCoordinator,
    /// The delivery token is longer than this coordinator accepts.
    TokenTooLong,
    /// The checkpoint is longer than this coordinator accepts.
    CheckpointTooLong,
}

} // verus!
