//! What a batch does to the canonical chain, given what the chain's own rules
//! made of it.
use crate::checkpoint::copy_blocks;
use crate::error::SubscriberError;
use crate::history::{by_height, newest, sort_by_height, truncate_front_to, CanonicalMutation};
use crate::ingress::{BufferedBatch, BufferedView};
use crate::model::{compatible_block_ref, merged_block, BlockRef};
use crate::records::{controls_view, ChainControl, ControlView};
use crate::validate::{find_index, index_of};
use vstd::prelude::*;

verus! {

/// One step that the canonical-sequence rules found in a batch.
#[derive(Clone, Copy, Debug, PartialEq, Eq, Structural)]
pub enum SequenceMutation {
    /// Back to an ancestor, or to before everything retained.
    Rewind { common_ancestor: Option<BlockRef> },
    Canonical(BlockRef),
    Safe(BlockRef),
    Finalized(BlockRef),
}

/// What the canonical-sequence rules made of a batch: its controls in normal
/// form, the state that it leads to, and the steps to it.
#[derive(Debug, PartialEq, Eq)]
pub struct CanonicalPlan {
    pub controls: Vec<ChainControl>,
    pub safe_head: Option<BlockRef>,
    pub finalized_head: Option<BlockRef>,
    pub history: Vec<BlockRef>,
    pub coverage_head: Option<BlockRef>,
    pub mutations: Vec<SequenceMutation>,
}

/// A plan over sequences.
pub struct PlanView {
    pub controls: Seq<ControlView>,
    pub safe_head: Option<BlockRef>,
    pub finalized_head: Option<BlockRef>,
    pub history: Seq<BlockRef>,
    pub coverage_head: Option<BlockRef>,
    pub mutations: Seq<SequenceMutation>,
}

impl View for CanonicalPlan {
    type V = PlanView;

    open spec fn view(&self) -> PlanView {
        PlanView {
            controls: controls_view(self.controls@),
            safe_head: self.safe_head,
            finalized_head: self.finalized_head,
            history: self.history@,
            coverage_head: self.coverage_head,
            mutations: self.mutations@,
        }
    }
}

/// What the canonical-sequence rules say of a batch.
#[derive(Debug, PartialEq, Eq)]
pub enum CanonicalOutcome {
    /// It follows what is canonical.
    Accepted(CanonicalPlan),
    /// Whether it follows cannot be told from what is retained.
    NeedsHistory(String),
    /// It contradicts itself or what is canonical.
    Refused(String),
}

/// An outcome over sequences.
pub enum OutcomeView {
    Accepted(PlanView),
    NeedsHistory(String),
    Refused(String),
}

impl View for CanonicalOutcome {
    type V = OutcomeView;

    open spec fn view(&self) -> OutcomeView {
        match self {
            CanonicalOutcome::Accepted(plan) => OutcomeView::Accepted(plan@),
            CanonicalOutcome::NeedsHistory(reason) => OutcomeView::NeedsHistory(*reason),
            CanonicalOutcome::Refused(reason) => OutcomeView::Refused(*reason),
        }
    }
}

/// Why a batch has no place in the canonical chain.
#[derive(Debug, PartialEq, Eq)]
pub enum CanonicalPlanError {
    /// The live source moved in a way that only the historical source can
    /// explain. It must fill the gap before anything of the batch is shown.
    NeedsHistoricalRecovery(SubscriberError),
    /// The batch is wrong, whatever the historical source says.
    Invalid(SubscriberError),
}

impl CanonicalPlanError {
    /// The error, whichever it is.
    pub open spec fn cause(self) -> SubscriberError {
        match self {
            CanonicalPlanError::NeedsHistoricalRecovery(e) => e,
            CanonicalPlanError::Invalid(e) => e,
        }
    }

    /// The error, whichever it is.
    pub fn into_subscriber_error(self) -> (r: SubscriberError)
        ensures
            r == self.cause(),
    {
        match self {
            CanonicalPlanError::NeedsHistoricalRecovery(e) => e,
            CanonicalPlanError::Invalid(e) => e,
        }
    }
}

/// A history that ends at its head, and holds at most `capacity` blocks.
pub open spec fn completed_history(
    history: Seq<BlockRef>,
    head: Option<BlockRef>,
    capacity: nat,
) -> Result<Seq<BlockRef>, SubscriberError> {
    match head {
        None => Ok(newest(history, capacity)),
        Some(h) => {
            let i = index_of(history, h.number, 0);
            if i < history.len() {
                match merged_block(history[i], h) {
                    Err(e) => Err(e),
                    Ok(m) => Ok(newest(history.update(i, m), capacity)),
                }
            } else {
                Ok(newest(by_height(history.push(h)), capacity))
            }
        },
    }
}

fn complete_history(history: &mut Vec<BlockRef>, head: &Option<BlockRef>, capacity: usize) -> (r: Result<
    (),
    SubscriberError,
>)
    ensures
        match r {
            Ok(_) => completed_history(old(history)@, *head, capacity as nat) == Ok::<
                _,
                SubscriberError,
            >(final(history)@),
            Err(e) => completed_history(old(history)@, *head, capacity as nat) == Err::<
                Seq<BlockRef>,
                _,
            >(e),
        },
{
    if let Some(top) = head {
        let i: usize = find_index(history.as_slice(), top.number);
        if i < history.len() {
            let merged: BlockRef = compatible_block_ref(&history[i], top)?;
            history[i] = merged;
        } else {
            history.push(*top);
            sort_by_height(history);
        }
    }
    truncate_front_to(history, capacity);
    Ok(())
}

/// The steps that move retained blocks.
pub open spec fn projected(mutations: Seq<SequenceMutation>) -> Seq<CanonicalMutation>
    decreases mutations.len(),
{
    if mutations.len() == 0 {
        Seq::empty()
    } else {
        let front = projected(mutations.drop_last());
        match mutations.last() {
            SequenceMutation::Rewind { common_ancestor } => match common_ancestor {
                Some(ancestor) => front.push(CanonicalMutation::Rewind(ancestor)),
                None => front.push(CanonicalMutation::Reset),
            },
            SequenceMutation::Canonical(block) => front.push(CanonicalMutation::Advance(block)),
            SequenceMutation::Safe(_) => front,
            SequenceMutation::Finalized(_) => front,
        }
    }
}

fn project_mutations(mutations: &Vec<SequenceMutation>) -> (r: Vec<CanonicalMutation>)
    ensures
        r@ == projected(mutations@),
{
    let ghost all = mutations@;
    let mut out: Vec<CanonicalMutation> = Vec::new();
    let mut i: usize = 0;
    assert(all.take(0) =~= Seq::<SequenceMutation>::empty());
    while i < mutations.len()
        invariant
            i <= mutations@.len(),
            all == mutations@,
            out@ == projected(all.take(i as int)),
        decreases mutations@.len() - i,
    {
        proof {
            let next = all.take(i + 1);
            assert(next.drop_last() =~= all.take(i as int));
            assert(next.last() == all[i as int]);
        }
        match mutations[i] {
            SequenceMutation::Rewind { common_ancestor: Some(ancestor) } => {
                out.push(CanonicalMutation::Rewind(ancestor));
            },
            SequenceMutation::Rewind { common_ancestor: None } => {
                out.push(CanonicalMutation::Reset);
            },
            SequenceMutation::Canonical(block) => {
                out.push(CanonicalMutation::Advance(block));
            },
            SequenceMutation::Safe(_) => {},
            SequenceMutation::Finalized(_) => {},
        }
        i += 1;
    }
    assert(all.take(i as int) =~= all);
    out
}

/// The last block that mutations go to.
pub open spec fn last_block(mutations: Seq<CanonicalMutation>) -> Option<BlockRef>
    decreases mutations.len(),
{
    if mutations.len() == 0 {
        None
    } else {
        match mutations.last() {
            CanonicalMutation::Rewind(block) => Some(block),
            CanonicalMutation::Advance(block) => Some(block),
            CanonicalMutation::Reset => last_block(mutations.drop_last()),
        }
    }
}

/// The last block that mutations go to.
pub fn find_last_block(mutations: &Vec<CanonicalMutation>) -> (r: Option<BlockRef>)
    ensures
        r == last_block(mutations@),
{
    let ghost all = mutations@;
    let mut i: usize = mutations.len();
    assert(all.take(i as int) =~= all);
    while i > 0
        invariant
            i <= mutations@.len(),
            all == mutations@,
            last_block(all) == last_block(all.take(i as int)),
        decreases i,
    {
        proof {
            let front = all.take(i as int);
            assert(front.last() == all[i - 1]);
            assert(front.drop_last() =~= all.take(i - 1));
        }
        match mutations[i - 1] {
            CanonicalMutation::Rewind(block) => {
                return Some(block);
            },
            CanonicalMutation::Advance(block) => {
                return Some(block);
            },
            CanonicalMutation::Reset => {},
        }
        i -= 1;
    }
    None
}

/// An admitted batch once it is known what it does to the canonical chain.
pub open spec fn planned(b: BufferedView, outcome: OutcomeView, capacity: nat) -> Result<
    BufferedView,
    CanonicalPlanError,
> {
    match outcome {
        OutcomeView::NeedsHistory(reason) => Err(
            CanonicalPlanError::NeedsHistoricalRecovery(SubscriberError::NeedsHistory { reason }),
        ),
        OutcomeView::Refused(reason) => Err(
            CanonicalPlanError::Invalid(SubscriberError::SequenceFailed { reason }),
        ),
        OutcomeView::Accepted(plan) => match completed_history(
            plan.history,
            plan.coverage_head,
            capacity,
        ) {
            Err(e) => Err(CanonicalPlanError::Invalid(e)),
            Ok(history) => Ok(
                BufferedView {
                    controls: plan.controls,
                    next_safe_head: plan.safe_head,
                    next_finalized_head: plan.finalized_head,
                    next_canonical_history: history,
                    next_coverage_head: plan.coverage_head,
                    canonical: projected(plan.mutations),
                    source_progress: last_block(projected(plan.mutations)),
                    ..b
                },
            ),
        },
    }
}

/// Takes over what the canonical-sequence rules made of an admitted batch.
pub fn prepare_canonical_batch(batch: BufferedBatch, outcome: CanonicalOutcome, capacity: usize) -> (r:
    Result<BufferedBatch, CanonicalPlanError>)
    ensures
        match r {
            Ok(b) => planned(batch@, outcome@, capacity as nat) == Ok::<_, CanonicalPlanError>(b@),
            Err(e) => planned(batch@, outcome@, capacity as nat) == Err::<BufferedView, _>(e),
        },
{
    let plan: CanonicalPlan = match outcome {
        CanonicalOutcome::NeedsHistory(reason) => {
            return Err(
                CanonicalPlanError::NeedsHistoricalRecovery(
                    SubscriberError::NeedsHistory { reason },
                ),
            );
        },
        CanonicalOutcome::Refused(reason) => {
            return Err(CanonicalPlanError::Invalid(SubscriberError::SequenceFailed { reason }));
        },
        CanonicalOutcome::Accepted(plan) => plan,
    };
    let mut history: Vec<BlockRef> = copy_blocks(plan.history.as_slice());
    match complete_history(&mut history, &plan.coverage_head, capacity) {
        Ok(_) => {},
        Err(e) => {
            return Err(CanonicalPlanError::Invalid(e));
        },
    }
    let canonical: Vec<CanonicalMutation> = project_mutations(&plan.mutations);
    let source_progress: Option<BlockRef> = find_last_block(&canonical);
    let mut batch = batch;
    batch.controls = plan.controls;
    batch.next_safe_head = plan.safe_head;
    batch.next_finalized_head = plan.finalized_head;
    batch.next_canonical_history = history;
    batch.next_coverage_head = plan.coverage_head;
    batch.canonical = canonical;
    batch.source_progress = source_progress;
    Ok(batch)
}

} // verus!
