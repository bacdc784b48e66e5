//! Deliveries: from a batch of a source to the batch that is handed out.
use crate::checkpoint::{
    copy_blocks, copy_opt_bytes, CheckpointView, HybridCheckpointV5, HybridSource, HybridTokenKind,
    SourcePosition,
};
use crate::codec::{encode_hybrid_checkpoint, encoded};
use crate::commit::{AudienceCommit, AudienceCommitView, CommitView, PendingCoordinatorCommit};
use crate::decode::MAX_CHECKPOINT_PAYLOAD_BYTES;
use crate::error::SubscriberError;
use crate::filter::{
    checkpoint_after, filter_recent, filtered, merges_view, state_after, Filtered, MergeOutcome,
    MergeView,
};
use crate::history::CanonicalMutation;
use crate::ingress::{BatchView, BufferedBatch, BufferedView, ReactiveInputBatch};
use crate::message::text;
use crate::model::{copy_bytes, BlockRef};
use crate::plan::{find_last_block, last_block, planned};
use crate::records::{
    controls_view, routed_view, ChainControl, ControlView, RoutedRecord, RoutedView,
};
use crate::state::{poisoned_by, same_opt_bytes, CoordView, Coordinator, InFlight, InFlightView};
use crate::token::{wrap_token, wrapped};
use crate::validate::{block_at, find_block, SequenceVerdict};
use crate::words::{push_word, word_bytes};
use vstd::prelude::*;

verus! {

// ---------------------------------------------------------------------------
// Batches
// ---------------------------------------------------------------------------

fn copy_routed(items: &Vec<RoutedRecord>) -> (r: Vec<RoutedRecord>)
    ensures
        routed_view(r@) == routed_view(items@),
{
    let mut out: Vec<RoutedRecord> = Vec::new();
    let mut i: usize = 0;
    while i < items.len()
        invariant
            i <= items@.len(),
            out@.len() == i,
            forall|j: int| 0 <= j < i ==> (#[trigger] out@[j])@ == items@[j]@,
        decreases items@.len() - i,
    {
        out.push(items[i].duplicate());
        i += 1;
    }
    assert(routed_view(out@) =~= routed_view(items@));
    out
}

fn copy_controls(items: &Vec<ChainControl>) -> (r: Vec<ChainControl>)
    ensures
        controls_view(r@) == controls_view(items@),
{
    let mut out: Vec<ChainControl> = Vec::new();
    let mut i: usize = 0;
    while i < items.len()
        invariant
            i <= items@.len(),
            out@.len() == i,
            forall|j: int| 0 <= j < i ==> (#[trigger] out@[j])@ == items@[j]@,
        decreases items@.len() - i,
    {
        out.push(items[i].duplicate());
        i += 1;
    }
    assert(controls_view(out@) =~= controls_view(items@));
    out
}

impl ReactiveInputBatch {
    /// Another batch with the same contents.
    pub fn duplicate(&self) -> (r: ReactiveInputBatch)
        ensures
            r@ == self@,
    {
        ReactiveInputBatch {
            chain_id: self.chain_id,
            deliveries: copy_routed(&self.deliveries),
            chain_controls: copy_controls(&self.chain_controls),
            delivery_token: copy_opt_bytes(&self.delivery_token),
            subscriber_checkpoint: copy_opt_bytes(&self.subscriber_checkpoint),
            payload_commitment: self.payload_commitment,
        }
    }
}

// ---------------------------------------------------------------------------
// What is handed out for a planned batch
// ---------------------------------------------------------------------------

/// Whether a batch is the last committed one of its source over again.
pub open spec fn comes_again(c: CheckpointView, source: HybridSource, b: BufferedView) -> bool {
    b.token is Some && c.position(source).delivery_token == b.token
}

/// Whether the last committed batch of a source may come again.
pub open spec fn may_come_again(v: CoordView, source: HybridSource) -> bool {
    match source {
        HybridSource::Historical => v.replay_historical,
        HybridSource::Live => v.replay_live,
    }
}

/// The state in which the next batch of a source must be a new one.
pub open spec fn quiet(v: CoordView, source: HybridSource) -> CoordView {
    match source {
        HybridSource::Historical => CoordView { replay_historical: false, ..v },
        HybridSource::Live => CoordView { replay_live: false, ..v },
    }
}

/// A delivery before its checkpoint is written.
pub struct OutgoingView {
    pub durable: CheckpointView,
    pub commit: CommitView,
    pub deliveries: Seq<RoutedView>,
    pub controls: Seq<ControlView>,
}

/// The block of this height that a planned batch makes canonical.
pub open spec fn observed_block(history: Seq<BlockRef>, head: Option<BlockRef>, number: Option<u64>) -> Option<
    BlockRef,
> {
    match number {
        None => None,
        Some(n) => match block_at(history, n) {
            Some(block) => Some(block),
            None => if head is Some && head->Some_0.number == n {
                head
            } else {
                None
            },
        },
    }
}

/// One value, or another where it is missing.
pub open spec fn one_or(a: Option<BlockRef>, b: Option<BlockRef>) -> Option<BlockRef> {
    if a is Some {
        a
    } else {
        b
    }
}

/// The commit of a planned batch whose records were sorted out. A batch that
/// comes again commits its token and nothing else.
pub open spec fn commit_for(
    c: CheckpointView,
    source: HybridSource,
    b: BufferedView,
    again: bool,
    audiences: Seq<AudienceCommitView>,
) -> CommitView {
    let canonical = if again {
        Seq::empty()
    } else {
        b.canonical
    };
    let history = if again {
        c.canonical_history
    } else {
        b.next_canonical_history
    };
    let head = if again {
        c.coverage_head
    } else {
        b.next_coverage_head
    };
    CommitView {
        audiences,
        canonical,
        source,
        source_token: b.token,
        source_checkpoint: b.checkpoint,
        source_progress: one_or(
            if again {
                None
            } else {
                b.source_progress
            },
            last_block(canonical),
        ),
        source_observed_through: observed_block(history, head, b.max_canonical_block),
        token_kind: if b.token is Some {
            HybridTokenKind::Forwarded
        } else {
            HybridTokenKind::Synthetic
        },
        token_bytes: match b.token {
            Some(token) => token,
            None => word_bytes(c.next_synthetic_token),
        },
        source_delivery_digest: b.delivery_digest,
        next_safe_head: if again {
            c.safe_head
        } else {
            b.next_safe_head
        },
        next_finalized_head: if again {
            c.finalized_head
        } else {
            b.next_finalized_head
        },
        next_canonical_history: history,
        next_coverage_head: head,
    }
}

/// What is to be handed out for a planned batch: nothing where nothing of it is
/// owed and nothing waits for an acknowledgement.
#[verifier::opaque]
pub open spec fn outgoing(v: CoordView, source: HybridSource, b: BufferedView, merges: Seq<MergeView>) -> Result<
    Option<OutgoingView>,
    SubscriberError,
> {
    let again = comes_again(v.durable, source, b);
    if again && v.durable.position(source).delivery_digest != Some(b.delivery_digest) {
        Err(
            SubscriberError::Provider(
                "hybrid source reused a committed delivery token for different data",
            ),
        )
    } else if again && !may_come_again(v, source) {
        Err(
            SubscriberError::Provider(
                "hybrid source reused one delivery token after it was committed",
            ),
        )
    } else {
        match (if again {
            Ok((Seq::empty(), Seq::empty()))
        } else {
            filtered(v.durable, b.records, merges)
        }) {
            Err(e) => Err(e),
            Ok((deliveries, audiences)) => {
                let controls = if again {
                    Seq::empty()
                } else {
                    b.controls
                };
                if deliveries.len() == 0 && controls.len() == 0 && b.token is None {
                    Ok(None)
                } else if b.token is None && v.durable.next_synthetic_token == u64::MAX {
                    Err(SubscriberError::Provider("hybrid synthetic token space exhausted"))
                } else {
                    Ok(
                        Some(
                            OutgoingView {
                                durable: if b.token is None {
                                    CheckpointView {
                                        next_synthetic_token: (v.durable.next_synthetic_token + 1) as u64,
                                        ..v.durable
                                    }
                                } else {
                                    v.durable
                                },
                                commit: commit_for(v.durable, source, b, again, audiences),
                                deliveries,
                                controls,
                            },
                        ),
                    )
                }
            },
        }
    }
}

/// What is handed out for a planned batch, and the durable state that it is
/// handed out from. Its checkpoint is the state that its acknowledgement will
/// lead to, and its token names the source and what that source will be told.
pub open spec fn built(
    v: CoordView,
    source: HybridSource,
    b: BufferedView,
    merges: Seq<MergeView>,
    sequence: SequenceVerdict,
) -> Result<Option<(CheckpointView, InFlightView)>, SubscriberError> {
    match outgoing(v, source, b, merges) {
        Err(e) => Err(e),
        Ok(None) => Ok(None),
        Ok(Some(out)) => match state_after(out.durable, v.config, out.commit, sequence) {
            Err(e) => Err(e),
            Ok(n) => match encoded(n, sequence, MAX_CHECKPOINT_PAYLOAD_BYTES) {
                Err(e) => Err(e),
                Ok(bytes) => Ok(
                    Some(
                        (
                            out.durable,
                            InFlightView {
                                commit: out.commit,
                                sequence,
                                output: BatchView {
                                    chain_id: Some(v.durable.chain_id),
                                    deliveries: out.deliveries,
                                    chain_controls: out.controls,
                                    delivery_token: Some(
                                        wrapped(
                                            v.durable.epoch,
                                            source,
                                            out.commit.token_kind,
                                            out.commit.token_bytes,
                                        ),
                                    ),
                                    subscriber_checkpoint: Some(bytes),
                                    payload_commitment: b.payload_commitment,
                                },
                            },
                        ),
                    ),
                ),
            },
        },
    }
}

/// Whether `after` follows from `before` where a planned batch of `source` is
/// built into `r`: a delivery is held until it is acknowledged, and a failure
/// stops the coordinator for good.
pub open spec fn emitted(
    before: CoordView,
    after: CoordView,
    source: HybridSource,
    result: Result<Option<(CheckpointView, InFlightView)>, SubscriberError>,
    r: Result<Option<ReactiveInputBatch>, SubscriberError>,
) -> bool {
    match result {
        Err(e) => r == Err::<Option<ReactiveInputBatch>, _>(e) && poisoned_by(
            before,
            after,
            text(e),
        ),
        Ok(None) => r == Ok::<Option<ReactiveInputBatch>, SubscriberError>(None) && after == quiet(
            before,
            source,
        ),
        Ok(Some((durable, f))) => r is Ok && r->Ok_0 is Some && r->Ok_0->Some_0@ == f.output
            && after == (CoordView { durable, in_flight: Some(f), ..quiet(before, source) }),
    }
}

fn find_observed(history: &Vec<BlockRef>, head: Option<BlockRef>, number: Option<u64>) -> (r: Option<
    BlockRef,
>)
    ensures
        r == observed_block(history@, head, number),
{
    match number {
        None => None,
        Some(n) => match find_block(history.as_slice(), n) {
            Some(block) => Some(block),
            None => match head {
                Some(top) if top.number == n => Some(top),
                _ => None,
            },
        },
    }
}

fn assemble_commit(
    state: &HybridCheckpointV5,
    source: HybridSource,
    batch: &BufferedBatch,
    again: bool,
    audiences: Vec<AudienceCommit>,
) -> (r: PendingCoordinatorCommit)
    requires
        again == comes_again(state@, source, batch@),
    ensures
        r@ == commit_for(
            state@,
            source,
            batch@,
            again,
            crate::commit::audiences_view(audiences@),
        ),
{
    let canonical: Vec<CanonicalMutation> = if again {
        Vec::new()
    } else {
        copy_mutations(&batch.canonical)
    };
    let history: Vec<BlockRef> = if again {
        copy_blocks(state.canonical_history.as_slice())
    } else {
        copy_blocks(batch.next_canonical_history.as_slice())
    };
    let head: Option<BlockRef> = if again {
        state.coverage_head
    } else {
        batch.next_coverage_head
    };
    let hint: Option<BlockRef> = if again {
        None
    } else {
        batch.source_progress
    };
    let source_progress: Option<BlockRef> = match hint {
        Some(block) => Some(block),
        None => find_last_block(&canonical),
    };
    let source_observed_through: Option<BlockRef> = find_observed(
        &history,
        head,
        batch.max_canonical_block,
    );
    let (token_kind, token_bytes) = match &batch.token {
        Some(token) => (HybridTokenKind::Forwarded, copy_bytes(token.as_slice())),
        None => {
            let mut bytes: Vec<u8> = Vec::new();
            push_word(&mut bytes, state.next_synthetic_token);
            assert(bytes@ =~= word_bytes(state.next_synthetic_token));
            (HybridTokenKind::Synthetic, bytes)
        },
    };
    let commit = PendingCoordinatorCommit {
        audiences,
        canonical,
        source,
        source_token: copy_opt_bytes(&batch.token),
        source_checkpoint: copy_opt_bytes(&batch.checkpoint),
        source_progress,
        source_observed_through,
        token_kind,
        token_bytes,
        source_delivery_digest: batch.delivery_digest,
        next_safe_head: if again {
            state.safe_head
        } else {
            batch.next_safe_head
        },
        next_finalized_head: if again {
            state.finalized_head
        } else {
            batch.next_finalized_head
        },
        next_canonical_history: history,
        next_coverage_head: head,
    };
    commit
}

/// Another verdict that says the same.
pub fn copy_verdict(verdict: &SequenceVerdict) -> (r: SequenceVerdict)
    ensures
        r == *verdict,
{
    match verdict {
        Ok(accepted) => Ok(*accepted),
        Err(reason) => Err(reason.clone()),
    }
}

fn copy_mutations(items: &Vec<CanonicalMutation>) -> (r: Vec<CanonicalMutation>)
    ensures
        r@ == items@,
{
    let mut out: Vec<CanonicalMutation> = Vec::new();
    let mut i: usize = 0;
    while i < items.len()
        invariant
            i <= items@.len(),
            out@ =~= items@.take(i as int),
        decreases items@.len() - i,
    {
        out.push(items[i]);
        i += 1;
    }
    assert(out@ =~= items@);
    out
}

/// A delivery and the durable state that it is handed out from.
struct Built {
    durable: HybridCheckpointV5,
    held: InFlight,
}

/// What `built` says, for a coordinator that is left as it is.
fn build(
    core: &Coordinator,
    source: HybridSource,
    batch: &BufferedBatch,
    merges: &Vec<MergeOutcome>,
    sequence: &SequenceVerdict,
) -> (r: Result<Option<Built>, SubscriberError>)
    requires
        merges@.len() == batch.records@.len(),
    ensures
        match r {
            Err(e) => built(core@, source, batch@, merges_view(merges@), *sequence) == Err::<
                Option<(CheckpointView, InFlightView)>,
                _,
            >(e),
            Ok(None) => built(core@, source, batch@, merges_view(merges@), *sequence) == Ok::<
                Option<(CheckpointView, InFlightView)>,
                SubscriberError,
            >(None),
            Ok(Some(b)) => built(core@, source, batch@, merges_view(merges@), *sequence) == Ok::<
                _,
                SubscriberError,
            >(Some((b.durable@, b.held@))),
        },
{
    reveal(outgoing);
    let position: &SourcePosition = match source {
        HybridSource::Historical => &core.durable.historical_position,
        HybridSource::Live => &core.durable.live_position,
    };
    assert(position@ == core@.durable.position(source));
    let again: bool = batch.token.is_some() && same_opt_bytes(&position.delivery_token, &batch.token);
    if again {
        let digest: bool = match position.delivery_digest {
            Some(digest) => digest == batch.delivery_digest,
            None => false,
        };
        if !digest {
            return Err(
                SubscriberError::Provider(
                    "hybrid source reused a committed delivery token for different data",
                ),
            );
        }
        let allowed: bool = match source {
            HybridSource::Historical => core.replay_historical,
            HybridSource::Live => core.replay_live,
        };
        if !allowed {
            return Err(
                SubscriberError::Provider(
                    "hybrid source reused one delivery token after it was committed",
                ),
            );
        }
    }
    let parts: Filtered = if again {
        let f = Filtered { records: Vec::new(), commits: Vec::new() };
        assert(routed_view(f.records@) =~= Seq::<RoutedView>::empty());
        assert(crate::commit::audiences_view(f.commits@) =~= Seq::<AudienceCommitView>::empty());
        f
    } else {
        filter_recent(&core.durable, &batch.records, merges)?
    };
    let controls: Vec<ChainControl> = if again {
        let none: Vec<ChainControl> = Vec::new();
        assert(controls_view(none@) =~= Seq::<ControlView>::empty());
        none
    } else {
        copy_controls(&batch.controls)
    };
    assert(routed_view(parts.records@).len() == parts.records@.len());
    assert(controls_view(controls@).len() == controls@.len());
    if parts.records.len() == 0 && controls.len() == 0 && batch.token.is_none() {
        return Ok(None);
    }
    let mut durable: HybridCheckpointV5 = core.durable.duplicate();
    if batch.token.is_none() {
        if durable.next_synthetic_token == u64::MAX {
            return Err(SubscriberError::Provider("hybrid synthetic token space exhausted"));
        }
        durable.next_synthetic_token = durable.next_synthetic_token + 1;
    }
    let commit: PendingCoordinatorCommit = assemble_commit(
        &core.durable,
        source,
        batch,
        again,
        parts.commits,
    );
    let next: HybridCheckpointV5 = checkpoint_after(&durable, &core.config, &commit, sequence)?;
    let bytes: Vec<u8> = encode_hybrid_checkpoint(&next, sequence)?;
    let token: Vec<u8> = wrap_token(
        core.durable.epoch,
        source,
        commit.token_kind,
        commit.token_bytes.as_slice(),
    );
    let output = ReactiveInputBatch {
        chain_id: Some(core.durable.chain_id),
        deliveries: parts.records,
        chain_controls: controls,
        delivery_token: Some(token),
        subscriber_checkpoint: Some(bytes),
        payload_commitment: batch.payload_commitment,
    };
    let held = InFlight { commit, sequence: copy_verdict(sequence), output };
    Ok(Some(Built { durable, held }))
}

impl Coordinator {
    /// Hands out what is owed of a planned batch, and holds it until it is
    /// acknowledged.
    pub fn build_output(
        &mut self,
        source: HybridSource,
        batch: &BufferedBatch,
        merges: &Vec<MergeOutcome>,
        sequence: &SequenceVerdict,
    ) -> (r: Result<Option<ReactiveInputBatch>, SubscriberError>)
        requires
            merges@.len() == batch.records@.len(),
        ensures
            emitted(
                old(self)@,
                final(self)@,
                source,
                built(old(self)@, source, batch@, merges_view(merges@), *sequence),
                r,
            ),
    {
        let result: Option<Built> = match build(self, source, batch, merges, sequence) {
            Err(e) => {
                self.poison(&e);
                return Err(e);
            },
            Ok(result) => result,
        };
        match source {
            HybridSource::Historical => {
                self.replay_historical = false;
            },
            HybridSource::Live => {
                self.replay_live = false;
            },
        }
        match result {
            None => Ok(None),
            Some(b) => {
                let output: ReactiveInputBatch = b.held.output.duplicate();
                self.durable = b.durable;
                self.in_flight = Some(b.held);
                Ok(Some(output))
            },
        }
    }
}

} // verus!
