//! The state that a coordinator keeps across restarts.
use crate::audience::{AudienceCoverage, CoverageView};
use crate::error::SubscriberError;
use crate::model::{copy_bytes, BlockRef, ReactiveInputIdentity};
use crate::owners::OwnerMap;
use crate::words::{B256, Epoch};
use vstd::prelude::*;

verus! {

/// One of the two sources of a coordinator.
#[derive(Clone, Copy, Debug, PartialEq, Eq, Structural)]
#[non_exhaustive]
pub enum HybridSource {
    /// The durable source that serves finalized ranges and backfills.
    Historical,
    /// The low-latency source at the head of the chain.
    Live,
}

impl HybridSource {
    /// The byte that stands for the source.
    pub open spec fn spec_tag(self) -> u8 {
        match self {
            HybridSource::Historical => 1,
            HybridSource::Live => 2,
        }
    }

    /// The byte that stands for the source in a delivery token.
    pub fn tag(self) -> (r: u8)
        ensures
            r == self.spec_tag(),
    {
        match self {
            HybridSource::Historical => 1,
            HybridSource::Live => 2,
        }
    }

    /// The source that a byte of a delivery token stands for.
    pub fn from_tag(tag: u8) -> (r: Result<HybridSource, SubscriberError>)
        ensures
            match r {
                Ok(source) => source.spec_tag() == tag,
                Err(e) => tag != 1 && tag != 2 && e == SubscriberError::Provider(
                    "invalid hybrid delivery-token source",
                ),
            },
    {
        match tag {
            1 => Ok(HybridSource::Historical),
            2 => Ok(HybridSource::Live),
            _ => Err(SubscriberError::Provider("invalid hybrid delivery-token source")),
        }
    }
}

/// Where the inner part of a delivery token comes from.
#[derive(Clone, Copy, Debug, PartialEq, Eq, Structural)]
pub enum HybridTokenKind {
    /// The child source gave it.
    Forwarded,
    /// The coordinator counted it.
    Synthetic,
}

impl HybridTokenKind {
    /// The byte that stands for the kind.
    pub open spec fn spec_tag(self) -> u8 {
        match self {
            HybridTokenKind::Forwarded => 1,
            HybridTokenKind::Synthetic => 2,
        }
    }

    /// The byte that stands for the kind in a delivery token.
    pub fn tag(self) -> (r: u8)
        ensures
            r == self.spec_tag(),
    {
        match self {
            HybridTokenKind::Forwarded => 1,
            HybridTokenKind::Synthetic => 2,
        }
    }

    /// The kind that a byte of a delivery token stands for.
    pub fn from_tag(tag: u8) -> (r: Result<HybridTokenKind, SubscriberError>)
        ensures
            match r {
                Ok(kind) => kind.spec_tag() == tag,
                Err(e) => tag != 1 && tag != 2 && e == SubscriberError::Provider(
                    "invalid hybrid delivery-token kind",
                ),
            },
    {
        match tag {
            1 => Ok(HybridTokenKind::Forwarded),
            2 => Ok(HybridTokenKind::Synthetic),
            _ => Err(SubscriberError::Provider("invalid hybrid delivery-token kind")),
        }
    }
}

/// The bytes of an optional vector.
pub open spec fn opt_bytes(value: Option<Vec<u8>>) -> Option<Seq<u8>> {
    match value {
        Some(bytes) => Some(bytes@),
        None => None,
    }
}

/// Another optional vector with the same bytes.
pub fn copy_opt_bytes(value: &Option<Vec<u8>>) -> (r: Option<Vec<u8>>)
    ensures
        opt_bytes(r) == opt_bytes(*value),
{
    match value {
        Some(bytes) => Some(copy_bytes(bytes.as_slice())),
        None => None,
    }
}

/// Another vector with the same blocks.
pub fn copy_blocks(blocks: &[BlockRef]) -> (r: Vec<BlockRef>)
    ensures
        r@ == blocks@,
{
    let mut out: Vec<BlockRef> = Vec::with_capacity(blocks.len());
    let mut i: usize = 0;
    while i < blocks.len()
        invariant
            i <= blocks@.len(),
            out@ =~= blocks@.take(i as int),
        decreases blocks@.len() - i,
    {
        out.push(blocks[i]);
        i += 1;
    }
    assert(blocks@.take(i as int) =~= blocks@);
    out
}

/// How far one source has come: the cursors that it gave, what it covers, the
/// canonical blocks retained of it, and the digest of its last delivery.
#[derive(Debug, PartialEq, Eq)]
pub struct SourcePosition {
    pub delivery_token: Option<Vec<u8>>,
    pub checkpoint: Option<Vec<u8>>,
    pub coverage_head: Option<BlockRef>,
    pub canonical_history: Vec<BlockRef>,
    pub delivery_digest: Option<B256>,
}

/// A source position over sequences.
pub struct SourceView {
    pub delivery_token: Option<Seq<u8>>,
    pub checkpoint: Option<Seq<u8>>,
    pub coverage_head: Option<BlockRef>,
    pub canonical_history: Seq<BlockRef>,
    pub delivery_digest: Option<B256>,
}

impl View for SourcePosition {
    type V = SourceView;

    open spec fn view(&self) -> SourceView {
        SourceView {
            delivery_token: opt_bytes(self.delivery_token),
            checkpoint: opt_bytes(self.checkpoint),
            coverage_head: self.coverage_head,
            canonical_history: self.canonical_history@,
            delivery_digest: self.delivery_digest,
        }
    }
}

/// The position of a source that has delivered nothing.
pub open spec fn no_position() -> SourceView {
    SourceView {
        delivery_token: None,
        checkpoint: None,
        coverage_head: None,
        canonical_history: Seq::empty(),
        delivery_digest: None,
    }
}

impl SourcePosition {
    /// The position of a source that has delivered nothing.
    pub fn new() -> (r: SourcePosition)
        ensures
            r@ == no_position(),
    {
        SourcePosition {
            delivery_token: None,
            checkpoint: None,
            coverage_head: None,
            canonical_history: Vec::new(),
            delivery_digest: None,
        }
    }

    /// Another position with the same contents.
    pub fn duplicate(&self) -> (r: SourcePosition)
        ensures
            r@ == self@,
    {
        SourcePosition {
            delivery_token: copy_opt_bytes(&self.delivery_token),
            checkpoint: copy_opt_bytes(&self.checkpoint),
            coverage_head: self.coverage_head,
            canonical_history: copy_blocks(self.canonical_history.as_slice()),
            delivery_digest: self.delivery_digest,
        }
    }
}

/// An input that was delivered lately, and who has had it.
#[derive(Debug, PartialEq, Eq)]
pub struct StoredRecentInput {
    pub identity: ReactiveInputIdentity,
    pub coverage: AudienceCoverage,
}

/// A recent input over sequences.
pub struct RecentView {
    pub identity: ReactiveInputIdentity,
    pub coverage: CoverageView,
}

impl View for StoredRecentInput {
    type V = RecentView;

    open spec fn view(&self) -> RecentView {
        RecentView { identity: self.identity, coverage: self.coverage@ }
    }
}

impl StoredRecentInput {
    /// Another entry with the same contents.
    pub fn duplicate(&self) -> (r: StoredRecentInput)
        ensures
            r@ == self@,
    {
        StoredRecentInput { identity: self.identity, coverage: self.coverage.duplicate() }
    }
}

/// Recent inputs over sequences.
pub open spec fn recent_view(entries: Seq<StoredRecentInput>) -> Seq<RecentView> {
    Seq::new(entries.len(), |i: int| entries[i]@)
}

/// Another vector with the same recent inputs.
pub fn copy_recent(entries: &[StoredRecentInput]) -> (r: Vec<StoredRecentInput>)
    ensures
        recent_view(r@) == recent_view(entries@),
{
    let mut out: Vec<StoredRecentInput> = Vec::with_capacity(entries.len());
    let mut i: usize = 0;
    while i < entries.len()
        invariant
            i <= entries@.len(),
            out@.len() == i,
            forall|j: int| 0 <= j < i ==> (#[trigger] out@[j])@ == entries@[j]@,
        decreases entries@.len() - i,
    {
        out.push(entries[i].duplicate());
        i += 1;
    }
    assert(recent_view(out@) =~= recent_view(entries@));
    out
}

/// The delivery token that was committed last.
#[derive(Debug, PartialEq, Eq)]
pub struct StoredCommittedToken {
    pub source: HybridSource,
    pub kind: HybridTokenKind,
    pub inner: Vec<u8>,
}

/// A committed token over sequences.
pub struct TokenView {
    pub source: HybridSource,
    pub kind: HybridTokenKind,
    pub inner: Seq<u8>,
}

impl View for StoredCommittedToken {
    type V = TokenView;

    open spec fn view(&self) -> TokenView {
        TokenView { source: self.source, kind: self.kind, inner: self.inner@ }
    }
}

/// An optional committed token over sequences.
pub open spec fn opt_token(value: Option<StoredCommittedToken>) -> Option<TokenView> {
    match value {
        Some(token) => Some(token@),
        None => None,
    }
}

/// Another optional token with the same contents.
pub fn copy_opt_token(value: &Option<StoredCommittedToken>) -> (r: Option<StoredCommittedToken>)
    ensures
        opt_token(r) == opt_token(*value),
{
    match value {
        Some(token) => Some(
            StoredCommittedToken {
                source: token.source,
                kind: token.kind,
                inner: copy_bytes(token.inner.as_slice()),
            },
        ),
        None => None,
    }
}

/// How far the historical source has certified the chain, and in which
/// lifecycle generation.
#[derive(Clone, Copy, Debug, PartialEq, Eq, Structural)]
pub struct CertifiedHistoricalCoverage {
    pub lifecycle_generation: u64,
    pub through: BlockRef,
}

/// Fingerprints of what is subscribed: the base interests and each owner's.
#[derive(Debug, PartialEq, Eq)]
pub struct LifecycleIntent {
    pub base: B256,
    pub owners: OwnerMap<B256>,
}

/// A lifecycle intent over sequences.
pub struct IntentView {
    pub base: B256,
    pub owners: Seq<(Seq<u8>, B256)>,
}

impl View for LifecycleIntent {
    type V = IntentView;

    open spec fn view(&self) -> IntentView {
        IntentView { base: self.base, owners: self.owners@ }
    }
}

impl LifecycleIntent {
    /// Another intent with the same contents.
    pub fn duplicate(&self) -> (r: LifecycleIntent)
        ensures
            r@ == self@,
    {
        LifecycleIntent { base: self.base, owners: self.owners.duplicate() }
    }
}

/// The state of a coordinator at a durable checkpoint.
#[derive(Debug, PartialEq, Eq)]
pub struct HybridCheckpointV5 {
    pub chain_id: u64,
    pub epoch: Epoch,
    pub next_synthetic_token: u64,
    pub lifecycle_generation: u64,
    pub owner_generations: OwnerMap<u64>,
    pub lifecycle_intent: LifecycleIntent,
    pub recent_inputs: Vec<StoredRecentInput>,
    pub canonical_history: Vec<BlockRef>,
    pub coverage_head: Option<BlockRef>,
    pub safe_head: Option<BlockRef>,
    pub finalized_head: Option<BlockRef>,
    pub certified_historical: Option<CertifiedHistoricalCoverage>,
    pub historical_position: SourcePosition,
    pub live_position: SourcePosition,
    pub last_committed_token: Option<StoredCommittedToken>,
}

/// A checkpoint over sequences.
pub struct CheckpointView {
    pub chain_id: u64,
    pub epoch: Epoch,
    pub next_synthetic_token: u64,
    pub lifecycle_generation: u64,
    pub owner_generations: Seq<(Seq<u8>, u64)>,
    pub lifecycle_intent: IntentView,
    pub recent_inputs: Seq<RecentView>,
    pub canonical_history: Seq<BlockRef>,
    pub coverage_head: Option<BlockRef>,
    pub safe_head: Option<BlockRef>,
    pub finalized_head: Option<BlockRef>,
    pub certified_historical: Option<CertifiedHistoricalCoverage>,
    pub historical_position: SourceView,
    pub live_position: SourceView,
    pub last_committed_token: Option<TokenView>,
}

impl View for HybridCheckpointV5 {
    type V = CheckpointView;

    open spec fn view(&self) -> CheckpointView {
        CheckpointView {
            chain_id: self.chain_id,
            epoch: self.epoch,
            next_synthetic_token: self.next_synthetic_token,
            lifecycle_generation: self.lifecycle_generation,
            owner_generations: self.owner_generations@,
            lifecycle_intent: self.lifecycle_intent@,
            recent_inputs: recent_view(self.recent_inputs@),
            canonical_history: self.canonical_history@,
            coverage_head: self.coverage_head,
            safe_head: self.safe_head,
            finalized_head: self.finalized_head,
            certified_historical: self.certified_historical,
            historical_position: self.historical_position@,
            live_position: self.live_position@,
            last_committed_token: opt_token(self.last_committed_token),
        }
    }
}

impl CheckpointView {
    /// The position of one source.
    pub open spec fn position(self, source: HybridSource) -> SourceView {
        match source {
            HybridSource::Historical => self.historical_position,
            HybridSource::Live => self.live_position,
        }
    }

    /// The state with the oldest `dropped` recent inputs gone.
    pub open spec fn drop_recent(self, dropped: int) -> CheckpointView {
        CheckpointView { recent_inputs: self.recent_inputs.skip(dropped), ..self }
    }
}

impl HybridCheckpointV5 {
    /// Another state with the same contents.
    pub fn duplicate(&self) -> (r: HybridCheckpointV5)
        ensures
            r@ == self@,
    {
        HybridCheckpointV5 {
            chain_id: self.chain_id,
            epoch: self.epoch,
            next_synthetic_token: self.next_synthetic_token,
            lifecycle_generation: self.lifecycle_generation,
            owner_generations: self.owner_generations.duplicate(),
            lifecycle_intent: self.lifecycle_intent.duplicate(),
            recent_inputs: copy_recent(self.recent_inputs.as_slice()),
            canonical_history: copy_blocks(self.canonical_history.as_slice()),
            coverage_head: self.coverage_head,
            safe_head: self.safe_head,
            finalized_head: self.finalized_head,
            certified_historical: self.certified_historical,
            historical_position: self.historical_position.duplicate(),
            live_position: self.live_position.duplicate(),
            last_committed_token: copy_opt_token(&self.last_committed_token),
        }
    }
}

} // verus!
