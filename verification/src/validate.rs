//! What a checkpoint must hold to be accepted.
use crate::audience::WitnessLifecycle;
use crate::checkpoint::{
    CertifiedHistoricalCoverage, CheckpointView, HybridCheckpointV5, HybridSource, HybridTokenKind,
    RecentView, SourcePosition, SourceView, StoredRecentInput,
};
use crate::error::{HistoryFault, SourceFault, SubscriberError};
use crate::identities::{has_duplicate_identities, identities};
use crate::intent::{empty_fingerprint, empty_interest_fingerprint};
use crate::model::{
    chain_of, compatible_block_ref, input_ref_chain_id, merged_block, same_bytes, BlockRef,
    InputRef, ReactiveInputKind,
};
use crate::owners::{keys_of, lookup, OwnerMap};
use crate::words::B256;
use vstd::prelude::*;

verus! {

/// What the chain's own rules say of retained blocks and heads, as the caller
/// established it: accepted, or refused for a reason.
pub type SequenceVerdict = Result<(), String>;

// ---------------------------------------------------------------------------
// Blocks by height
// ---------------------------------------------------------------------------

/// The index of the first block at `number` from `from` on; the length where
/// there is none.
pub open spec fn index_of(history: Seq<BlockRef>, number: u64, from: int) -> int
    decreases history.len() - from,
{
    if from < 0 || from >= history.len() {
        history.len() as int
    } else if history[from].number == number {
        from
    } else {
        index_of(history, number, from + 1)
    }
}

/// The first block at `number`.
pub open spec fn block_at(history: Seq<BlockRef>, number: u64) -> Option<BlockRef> {
    let i = index_of(history, number, 0);
    if i < history.len() {
        Some(history[i])
    } else {
        None
    }
}

/// Where `index_of` points.
pub proof fn lemma_index_of(history: Seq<BlockRef>, number: u64, from: int)
    requires
        0 <= from <= history.len(),
    ensures
        from <= index_of(history, number, from) <= history.len(),
        index_of(history, number, from) < history.len() ==> history[index_of(
            history,
            number,
            from,
        )].number == number,
        forall|j: int|
            from <= j < index_of(history, number, from) ==> (#[trigger] history[j]).number
                != number,
    decreases history.len() - from,
{
    if from < history.len() && history[from].number != number {
        lemma_index_of(history, number, from + 1);
    }
}

/// The index of the first block at `number`; the length where there is none.
pub fn find_index(history: &[BlockRef], number: u64) -> (r: usize)
    ensures
        r == index_of(history@, number, 0),
        r <= history@.len(),
        r < history@.len() ==> history@[r as int].number == number,
{
    let mut i: usize = 0;
    while i < history.len()
        invariant
            i <= history@.len(),
            index_of(history@, number, 0) == index_of(history@, number, i as int),
        decreases history@.len() - i,
    {
        if history[i].number == number {
            return i;
        }
        i += 1;
    }
    i
}

/// The first block at `number`.
pub fn find_block(history: &[BlockRef], number: u64) -> (r: Option<BlockRef>)
    ensures
        r == block_at(history@, number),
{
    let i: usize = find_index(history, number);
    if i < history.len() {
        Some(history[i])
    } else {
        None
    }
}

/// The error of joining a retained block with another account of it.
pub open spec fn conflict(known: Option<BlockRef>, block: BlockRef) -> Option<SubscriberError> {
    match known {
        None => None,
        Some(k) => match merged_block(k, block) {
            Ok(_) => None,
            Err(e) => Some(e),
        },
    }
}

/// The first of two errors.
pub open spec fn first(a: Option<SubscriberError>, b: Option<SubscriberError>) -> Option<
    SubscriberError,
> {
    if a is Some {
        a
    } else {
        b
    }
}

// ---------------------------------------------------------------------------
// Generations and topology
// ---------------------------------------------------------------------------

/// Whether an owner generation is outside the lifecycle.
pub open spec fn bad_generation(generation: u64, lifecycle: u64) -> bool {
    generation == 0 || generation > lifecycle
}

/// The error that the counters and the topology of a state earn.
pub open spec fn topology_error(c: CheckpointView) -> Option<SubscriberError> {
    if c.next_synthetic_token == 0 {
        Some(
            SubscriberError::Provider("hybrid checkpoint synthetic token sequence must be non-zero"),
        )
    } else if c.lifecycle_generation == 0 {
        Some(SubscriberError::Provider("hybrid checkpoint lifecycle generation must be non-zero"))
    } else if c.lifecycle_intent.owners.len() > 0 && c.lifecycle_intent.base
        != empty_fingerprint() {
        Some(
            SubscriberError::Provider(
                "hybrid checkpoint combines base/unowned and owner-managed interests; mixed topology cannot be restored atomically",
            ),
        )
    } else if exists|i: int|
        0 <= i < c.owner_generations.len() && bad_generation(
            (#[trigger] c.owner_generations[i]).1,
            c.lifecycle_generation,
        ) {
        Some(SubscriberError::Provider("hybrid checkpoint contains an invalid owner generation"))
    } else if keys_of(c.owner_generations) != keys_of(c.lifecycle_intent.owners) {
        Some(
            SubscriberError::Provider(
                "hybrid checkpoint owner generations do not match its lifecycle intent",
            ),
        )
    } else if !identities(c.recent_inputs).no_duplicates() {
        Some(
            SubscriberError::Provider("hybrid checkpoint contains duplicate recent input identities"),
        )
    } else {
        None
    }
}

/// Whether two maps have the same owners.
fn same_owners(a: &OwnerMap<u64>, b: &OwnerMap<B256>) -> (r: bool)
    ensures
        r == (keys_of(a@) == keys_of(b@)),
{
    if a.len() != b.len() {
        assert(keys_of(a@).len() != keys_of(b@).len());
        return false;
    }
    let mut i: usize = 0;
    while i < a.len()
        invariant
            i <= a@.len(),
            a@.len() == b@.len(),
            forall|j: int| 0 <= j < i ==> a@[j].0 == b@[j].0,
        decreases a@.len() - i,
    {
        if !a.owner_at(i).same(b.owner_at(i)) {
            assert(keys_of(a@)[i as int] != keys_of(b@)[i as int]);
            return false;
        }
        i += 1;
    }
    assert(keys_of(a@) =~= keys_of(b@));
    true
}

/// Whether some owner generation is outside the lifecycle.
fn has_bad_generation(owners: &OwnerMap<u64>, lifecycle: u64) -> (r: bool)
    ensures
        r == exists|i: int|
            0 <= i < owners@.len() && bad_generation((#[trigger] owners@[i]).1, lifecycle),
{
    let mut i: usize = 0;
    while i < owners.len()
        invariant
            i <= owners@.len(),
            forall|j: int| 0 <= j < i ==> !bad_generation((#[trigger] owners@[j]).1, lifecycle),
        decreases owners@.len() - i,
    {
        let generation: u64 = *owners.value_at(i);
        if generation == 0 || generation > lifecycle {
            assert(bad_generation(owners@[i as int].1, lifecycle));
            return true;
        }
        i += 1;
    }
    false
}

fn check_topology(state: &HybridCheckpointV5) -> (r: Result<(), SubscriberError>)
    ensures
        match r {
            Ok(_) => topology_error(state@) is None,
            Err(e) => topology_error(state@) == Some(e),
        },
{
    if state.next_synthetic_token == 0 {
        return Err(
            SubscriberError::Provider("hybrid checkpoint synthetic token sequence must be non-zero"),
        );
    }
    if state.lifecycle_generation == 0 {
        return Err(
            SubscriberError::Provider("hybrid checkpoint lifecycle generation must be non-zero"),
        );
    }
    if !state.lifecycle_intent.owners.is_empty() && state.lifecycle_intent.base
        != empty_interest_fingerprint() {
        return Err(
            SubscriberError::Provider(
                "hybrid checkpoint combines base/unowned and owner-managed interests; mixed topology cannot be restored atomically",
            ),
        );
    }
    if has_bad_generation(&state.owner_generations, state.lifecycle_generation) {
        return Err(
            SubscriberError::Provider("hybrid checkpoint contains an invalid owner generation"),
        );
    }
    if !same_owners(&state.owner_generations, &state.lifecycle_intent.owners) {
        return Err(
            SubscriberError::Provider(
                "hybrid checkpoint owner generations do not match its lifecycle intent",
            ),
        );
    }
    if has_duplicate_identities(state.recent_inputs.as_slice()) {
        return Err(
            SubscriberError::Provider("hybrid checkpoint contains duplicate recent input identities"),
        );
    }
    Ok(())
}

// ---------------------------------------------------------------------------
// Recent inputs
// ---------------------------------------------------------------------------

/// Whether an owner is said to have had an input in a generation that it never
/// was in.
pub open spec fn bad_coverage(c: CheckpointView, entry: (Seq<u8>, u64)) -> bool {
    bad_generation(entry.1, c.lifecycle_generation) || match lookup(c.owner_generations, entry.0) {
        None => true,
        Some(current) => entry.1 > current,
    }
}

/// The error that the witness of an input earns for its lifecycle.
pub open spec fn lifecycle_error(
    kind: ReactiveInputKind,
    lifecycle: WitnessLifecycle,
    has_block: bool,
) -> Option<SubscriberError> {
    match kind {
        ReactiveInputKind::CanonicalLog | ReactiveInputKind::BlockHeader => if (lifecycle
            == WitnessLifecycle::Included || lifecycle == WitnessLifecycle::Safe || lifecycle
            == WitnessLifecycle::Finalized) && has_block {
            None
        } else {
            Some(
                SubscriberError::Provider(
                    "hybrid checkpoint canonical input witness has an invalid lifecycle",
                ),
            )
        },
        ReactiveInputKind::ReorgSignalLog => if lifecycle == WitnessLifecycle::Reorg {
            None
        } else {
            Some(
                SubscriberError::Provider(
                    "hybrid checkpoint reorg input witness has an invalid lifecycle",
                ),
            )
        },
        ReactiveInputKind::PendingTxHash => if lifecycle == WitnessLifecycle::Pending
            && !has_block {
            None
        } else {
            Some(
                SubscriberError::Provider(
                    "hybrid checkpoint pending input witness has an invalid lifecycle",
                ),
            )
        },
        ReactiveInputKind::FullBlock | ReactiveInputKind::PendingTx => Some(
            SubscriberError::Provider(
                "hybrid checkpoint contains a representation without a complete payload proof",
            ),
        ),
    }
}

/// The error that an identity earns against the block of its witness.
pub open spec fn identity_error(input_ref: InputRef, block: Option<BlockRef>) -> Option<
    SubscriberError,
> {
    match input_ref {
        InputRef::Log { block_hash, .. } => if block is Some && block->Some_0.hash != block_hash {
            Some(
                SubscriberError::Provider(
                    "hybrid checkpoint log identity conflicts with its witness block",
                ),
            )
        } else {
            None
        },
        InputRef::Block { hash, number, .. } => if block is None || block->Some_0.hash != hash
            || block->Some_0.number != number {
            Some(
                SubscriberError::Provider(
                    "hybrid checkpoint block identity conflicts with its witness",
                ),
            )
        } else {
            None
        },
        InputRef::PendingTx { .. } => None,
    }
}

/// The error that the block of a recent input earns against the coverage and
/// the history of the state.
pub open spec fn coverage_error(c: CheckpointView, block: Option<BlockRef>) -> Option<
    SubscriberError,
> {
    match block {
        None => None,
        Some(b) => if c.coverage_head is None || b.number > c.coverage_head->Some_0.number {
            Some(
                SubscriberError::Provider(
                    "hybrid checkpoint recent-input coverage is ahead of canonical coverage",
                ),
            )
        } else {
            conflict(block_at(c.canonical_history, b.number), b)
        },
    }
}

/// The error that one recent input earns.
pub open spec fn entry_error(c: CheckpointView, entry: RecentView) -> Option<SubscriberError> {
    if chain_of(entry.identity.input_ref) != Some(c.chain_id) {
        Some(
            SubscriberError::Provider(
                "hybrid checkpoint contains a recent identity for the wrong or missing chain",
            ),
        )
    } else {
        match entry.coverage.witness {
            None => Some(
                SubscriberError::Provider(
                    "hybrid checkpoint recent-input coverage is missing its payload witness",
                ),
            ),
            Some(w) => if w.chain_id != c.chain_id {
                Some(
                    SubscriberError::Provider(
                        "hybrid checkpoint payload witness targets the wrong chain",
                    ),
                )
            } else if exists|i: int|
                0 <= i < entry.coverage.owners.len() && bad_coverage(
                    c,
                    #[trigger] entry.coverage.owners[i],
                ) {
                Some(
                    SubscriberError::Provider(
                        "hybrid checkpoint recent-input coverage has an invalid owner generation",
                    ),
                )
            } else {
                first(
                    lifecycle_error(entry.identity.kind, w.lifecycle, w.block is Some),
                    first(
                        if w.block is Some {
                            conflict(entry.coverage.block, w.block->Some_0)
                        } else {
                            None
                        },
                        first(
                            identity_error(entry.identity.input_ref, w.block),
                            coverage_error(c, entry.coverage.block),
                        ),
                    ),
                )
            },
        }
    }
}

/// The error of the first recent input, from `from` on, that earns one.
pub open spec fn entries_error(c: CheckpointView, from: int) -> Option<SubscriberError>
    decreases c.recent_inputs.len() - from,
{
    if from < 0 || from >= c.recent_inputs.len() {
        None
    } else {
        first(entry_error(c, c.recent_inputs[from]), entries_error(c, from + 1))
    }
}

fn check_lifecycle(kind: ReactiveInputKind, lifecycle: WitnessLifecycle, has_block: bool) -> (r:
    Result<(), SubscriberError>)
    ensures
        match r {
            Ok(_) => lifecycle_error(kind, lifecycle, has_block) is None,
            Err(e) => lifecycle_error(kind, lifecycle, has_block) == Some(e),
        },
{
    match kind {
        ReactiveInputKind::CanonicalLog | ReactiveInputKind::BlockHeader => {
            let canonical: bool = match lifecycle {
                WitnessLifecycle::Included => true,
                WitnessLifecycle::Safe => true,
                WitnessLifecycle::Finalized => true,
                _ => false,
            };
            if !canonical || !has_block {
                return Err(
                    SubscriberError::Provider(
                        "hybrid checkpoint canonical input witness has an invalid lifecycle",
                    ),
                );
            }
        },
        ReactiveInputKind::ReorgSignalLog => {
            if lifecycle != WitnessLifecycle::Reorg {
                return Err(
                    SubscriberError::Provider(
                        "hybrid checkpoint reorg input witness has an invalid lifecycle",
                    ),
                );
            }
        },
        ReactiveInputKind::PendingTxHash => {
            if lifecycle != WitnessLifecycle::Pending || has_block {
                return Err(
                    SubscriberError::Provider(
                        "hybrid checkpoint pending input witness has an invalid lifecycle",
                    ),
                );
            }
        },
        ReactiveInputKind::FullBlock | ReactiveInputKind::PendingTx => {
            return Err(
                SubscriberError::Provider(
                    "hybrid checkpoint contains a representation without a complete payload proof",
                ),
            );
        },
    }
    Ok(())
}

fn check_identity(input_ref: &InputRef, block: &Option<BlockRef>) -> (r: Result<
    (),
    SubscriberError,
>)
    ensures
        match r {
            Ok(_) => identity_error(*input_ref, *block) is None,
            Err(e) => identity_error(*input_ref, *block) == Some(e),
        },
{
    match input_ref {
        InputRef::Log { block_hash, .. } => {
            if let Some(known) = block {
                if known.hash != *block_hash {
                    return Err(
                        SubscriberError::Provider(
                            "hybrid checkpoint log identity conflicts with its witness block",
                        ),
                    );
                }
            }
        },
        InputRef::Block { hash, number, .. } => {
            let same: bool = match block {
                None => false,
                Some(known) => known.hash == *hash && known.number == *number,
            };
            if !same {
                return Err(
                    SubscriberError::Provider(
                        "hybrid checkpoint block identity conflicts with its witness",
                    ),
                );
            }
        },
        InputRef::PendingTx { .. } => {},
    }
    Ok(())
}

fn check_coverage(state: &HybridCheckpointV5, block: &Option<BlockRef>) -> (r: Result<
    (),
    SubscriberError,
>)
    ensures
        match r {
            Ok(_) => coverage_error(state@, *block) is None,
            Err(e) => coverage_error(state@, *block) == Some(e),
        },
{
    if let Some(covered) = block {
        let ahead: bool = match &state.coverage_head {
            None => true,
            Some(head) => covered.number > head.number,
        };
        if ahead {
            return Err(
                SubscriberError::Provider(
                    "hybrid checkpoint recent-input coverage is ahead of canonical coverage",
                ),
            );
        }
        if let Some(known) = find_block(state.canonical_history.as_slice(), covered.number) {
            compatible_block_ref(&known, covered)?;
        }
    }
    Ok(())
}

fn has_bad_coverage(state: &HybridCheckpointV5, owners: &OwnerMap<u64>) -> (r: bool)
    ensures
        r == exists|i: int| 0 <= i < owners@.len() && bad_coverage(state@, #[trigger] owners@[i]),
{
    let mut i: usize = 0;
    while i < owners.len()
        invariant
            i <= owners@.len(),
            forall|j: int| 0 <= j < i ==> !bad_coverage(state@, #[trigger] owners@[j]),
        decreases owners@.len() - i,
    {
        let generation: u64 = *owners.value_at(i);
        let beyond: bool = match state.owner_generations.get(owners.owner_at(i)) {
            None => true,
            Some(current) => generation > *current,
        };
        if generation == 0 || generation > state.lifecycle_generation || beyond {
            assert(bad_coverage(state@, owners@[i as int]));
            return true;
        }
        i += 1;
    }
    false
}

fn check_entry(state: &HybridCheckpointV5, entry: &StoredRecentInput) -> (r: Result<
    (),
    SubscriberError,
>)
    ensures
        match r {
            Ok(_) => entry_error(state@, entry@) is None,
            Err(e) => entry_error(state@, entry@) == Some(e),
        },
{
    match input_ref_chain_id(entry.identity.input_ref) {
        Some(chain_id) if chain_id == state.chain_id => {},
        _ => {
            return Err(
                SubscriberError::Provider(
                    "hybrid checkpoint contains a recent identity for the wrong or missing chain",
                ),
            );
        },
    }
    match &entry.coverage.witness {
        None => {
            return Err(
                SubscriberError::Provider(
                    "hybrid checkpoint recent-input coverage is missing its payload witness",
                ),
            );
        },
        Some(witness) => {
            if witness.chain_id != state.chain_id {
                return Err(
                    SubscriberError::Provider(
                        "hybrid checkpoint payload witness targets the wrong chain",
                    ),
                );
            }
            if has_bad_coverage(state, &entry.coverage.owners) {
                proof {
                    let owners = entry.coverage.owners@;
                    let i = choose|i: int|
                        0 <= i < owners.len() && bad_coverage(state@, #[trigger] owners[i]);
                    assert(bad_coverage(state@, entry@.coverage.owners[i]));
                }
                return Err(
                    SubscriberError::Provider(
                        "hybrid checkpoint recent-input coverage has an invalid owner generation",
                    ),
                );
            }
            check_lifecycle(entry.identity.kind, witness.lifecycle, witness.block.is_some())?;
            if let (Some(covered), Some(seen)) = (&entry.coverage.block, &witness.block) {
                compatible_block_ref(covered, seen)?;
            }
            check_identity(&entry.identity.input_ref, &witness.block)?;
            check_coverage(state, &entry.coverage.block)?;
        },
    }
    Ok(())
}

fn check_entries(state: &HybridCheckpointV5) -> (r: Result<(), SubscriberError>)
    ensures
        match r {
            Ok(_) => entries_error(state@, 0) is None,
            Err(e) => entries_error(state@, 0) == Some(e),
        },
{
    let mut i: usize = 0;
    while i < state.recent_inputs.len()
        invariant
            i <= state.recent_inputs@.len(),
            entries_error(state@, 0) == entries_error(state@, i as int),
        decreases state.recent_inputs@.len() - i,
    {
        assert(state@.recent_inputs[i as int] == state.recent_inputs@[i as int]@);
        check_entry(state, &state.recent_inputs[i])?;
        i += 1;
    }
    Ok(())
}

// ---------------------------------------------------------------------------
// Histories and positions
// ---------------------------------------------------------------------------

/// What is wrong between the block at `i` and the one before it.
pub open spec fn link_fault(history: Seq<BlockRef>, i: int) -> Option<HistoryFault> {
    if history[i].number <= history[i - 1].number {
        Some(HistoryFault::NotAscending)
    } else if history[i].number == history[i - 1].number + 1 && history[i].parent_hash is Some
        && history[i].parent_hash->Some_0 != history[i - 1].hash {
        Some(HistoryFault::ParentMismatch { number: history[i].number })
    } else {
        None
    }
}

/// What is first wrong between neighbours from `i` on.
pub open spec fn links_fault(history: Seq<BlockRef>, i: int) -> Option<HistoryFault>
    decreases history.len() - i,
{
    if i < 1 || i >= history.len() {
        None
    } else if link_fault(history, i) is Some {
        link_fault(history, i)
    } else {
        links_fault(history, i + 1)
    }
}

/// What is wrong with a history under its coverage head.
pub open spec fn history_fault(history: Seq<BlockRef>, head: Option<BlockRef>) -> Option<
    HistoryFault,
> {
    if history.len() == 0 {
        if head is Some {
            Some(HistoryFault::CoverageWithoutHistory)
        } else {
            None
        }
    } else if head is None {
        Some(HistoryFault::HistoryWithoutCoverage)
    } else if links_fault(history, 1) is Some {
        links_fault(history, 1)
    } else if merged_block(history.last(), head->Some_0) is Err {
        Some(HistoryFault::EndsElsewhere)
    } else {
        None
    }
}

/// The error that a history earns.
pub open spec fn history_error(
    label: &'static str,
    history: Seq<BlockRef>,
    head: Option<BlockRef>,
) -> Option<SubscriberError> {
    match history_fault(history, head) {
        None => None,
        Some(fault) => Some(SubscriberError::History { label, fault }),
    }
}

/// Refuses a history that does not ascend, breaks a parent link, or does not
/// end at the coverage head.
pub fn validate_checkpoint_history(
    label: &'static str,
    history: &[BlockRef],
    coverage_head: &Option<BlockRef>,
) -> (r: Result<(), SubscriberError>)
    ensures
        match r {
            Ok(_) => history_error(label, history@, *coverage_head) is None,
            Err(e) => history_error(label, history@, *coverage_head) == Some(e),
        },
{
    if history.len() == 0 {
        if coverage_head.is_some() {
            return Err(
                SubscriberError::History { label, fault: HistoryFault::CoverageWithoutHistory },
            );
        }
        return Ok(());
    }
    let head: BlockRef = match coverage_head {
        None => {
            return Err(
                SubscriberError::History { label, fault: HistoryFault::HistoryWithoutCoverage },
            );
        },
        Some(head) => *head,
    };
    let mut i: usize = 1;
    while i < history.len()
        invariant
            1 <= i <= history@.len(),
            coverage_head is Some,
            links_fault(history@, 1) == links_fault(history@, i as int),
        decreases history@.len() - i,
    {
        let previous: BlockRef = history[i - 1];
        let block: BlockRef = history[i];
        if block.number <= previous.number {
            return Err(SubscriberError::History { label, fault: HistoryFault::NotAscending });
        }
        if block.number == previous.number + 1 {
            if let Some(parent) = block.parent_hash {
                if parent != previous.hash {
                    return Err(
                        SubscriberError::History {
                            label,
                            fault: HistoryFault::ParentMismatch { number: block.number },
                        },
                    );
                }
            }
        }
        i += 1;
    }
    match compatible_block_ref(&history[history.len() - 1], &head) {
        Ok(_) => Ok(()),
        Err(_) => Err(SubscriberError::History { label, fault: HistoryFault::EndsElsewhere }),
    }
}

/// The error that the certified coverage earns under one head.
pub open spec fn proof_under(
    proof: CertifiedHistoricalCoverage,
    label: &'static str,
    head: Option<BlockRef>,
) -> Option<SubscriberError> {
    match head {
        None => Some(SubscriberError::History { label, fault: HistoryFault::ProofWithoutHead }),
        Some(h) => if proof.through.number > h.number {
            Some(SubscriberError::History { label, fault: HistoryFault::ProofAhead })
        } else if proof.through.number == h.number {
            conflict(Some(proof.through), h)
        } else {
            None
        },
    }
}

/// The error that the certified coverage of a state earns.
pub open spec fn certified_error(c: CheckpointView) -> Option<SubscriberError> {
    match c.certified_historical {
        None => None,
        Some(proof) => if proof.lifecycle_generation != c.lifecycle_generation {
            Some(
                SubscriberError::Provider(
                    "hybrid checkpoint historical coverage proof belongs to a different lifecycle generation",
                ),
            )
        } else {
            first(
                proof_under(proof, "coordinator", c.coverage_head),
                first(
                    proof_under(proof, "historical source", c.historical_position.coverage_head),
                    conflict(
                        block_at(c.historical_position.canonical_history, proof.through.number),
                        proof.through,
                    ),
                ),
            )
        },
    }
}

fn check_proof_under(
    certified: &CertifiedHistoricalCoverage,
    label: &'static str,
    head: &Option<BlockRef>,
) -> (r: Result<(), SubscriberError>)
    ensures
        match r {
            Ok(_) => proof_under(*certified, label, *head) is None,
            Err(e) => proof_under(*certified, label, *head) == Some(e),
        },
{
    match head {
        None => Err(SubscriberError::History { label, fault: HistoryFault::ProofWithoutHead }),
        Some(head) => {
            if certified.through.number > head.number {
                return Err(SubscriberError::History { label, fault: HistoryFault::ProofAhead });
            }
            if certified.through.number == head.number {
                compatible_block_ref(&certified.through, head)?;
            }
            Ok(())
        },
    }
}

fn check_certified(state: &HybridCheckpointV5) -> (r: Result<(), SubscriberError>)
    ensures
        match r {
            Ok(_) => certified_error(state@) is None,
            Err(e) => certified_error(state@) == Some(e),
        },
{
    if let Some(certified) = &state.certified_historical {
        if certified.lifecycle_generation != state.lifecycle_generation {
            return Err(
                SubscriberError::Provider(
                    "hybrid checkpoint historical coverage proof belongs to a different lifecycle generation",
                ),
            );
        }
        check_proof_under(certified, "coordinator", &state.coverage_head)?;
        check_proof_under(
            certified,
            "historical source",
            &state.historical_position.coverage_head,
        )?;
        if let Some(known) = find_block(
            state.historical_position.canonical_history.as_slice(),
            certified.through.number,
        ) {
            compatible_block_ref(&known, &certified.through)?;
        }
    }
    Ok(())
}

/// The error that a source position earns against the coordinator.
pub open spec fn source_error(
    label: &'static str,
    source: SourceView,
    c: CheckpointView,
) -> Option<SubscriberError> {
    if source.delivery_token is Some && source.delivery_digest is None {
        Some(SubscriberError::Source { label, problem: SourceFault::TokenWithoutDigest })
    } else if source.delivery_token is Some && source.coverage_head is None {
        Some(SubscriberError::Source { label, problem: SourceFault::TokenWithoutCoverage })
    } else {
        match source.coverage_head {
            None => None,
            Some(head) => match c.coverage_head {
                None => Some(
                    SubscriberError::Source {
                        label,
                        problem: SourceFault::CoverageWithoutCoordinator,
                    },
                ),
                Some(top) => if head.number > top.number {
                    Some(SubscriberError::Source { label, problem: SourceFault::AheadOfCoordinator })
                } else {
                    conflict(block_at(c.canonical_history, head.number), head)
                },
            },
        }
    }
}

/// Refuses a source position that the coordinator's own coverage does not
/// support.
pub fn validate_source_against_coordinator(
    label: &'static str,
    source: &SourcePosition,
    state: &HybridCheckpointV5,
) -> (r: Result<(), SubscriberError>)
    ensures
        match r {
            Ok(_) => source_error(label, source@, state@) is None,
            Err(e) => source_error(label, source@, state@) == Some(e),
        },
{
    if source.delivery_token.is_some() && source.delivery_digest.is_none() {
        return Err(SubscriberError::Source { label, problem: SourceFault::TokenWithoutDigest });
    }
    if source.delivery_token.is_some() && source.coverage_head.is_none() {
        return Err(SubscriberError::Source { label, problem: SourceFault::TokenWithoutCoverage });
    }
    if let Some(head) = &source.coverage_head {
        match &state.coverage_head {
            None => {
                return Err(
                    SubscriberError::Source {
                        label,
                        problem: SourceFault::CoverageWithoutCoordinator,
                    },
                );
            },
            Some(top) => {
                if head.number > top.number {
                    return Err(
                        SubscriberError::Source { label, problem: SourceFault::AheadOfCoordinator },
                    );
                }
            },
        }
        if let Some(known) = find_block(state.canonical_history.as_slice(), head.number) {
            compatible_block_ref(&known, head)?;
        }
    }
    Ok(())
}

/// The error that the last committed token of a state earns.
pub open spec fn token_error(c: CheckpointView) -> Option<SubscriberError> {
    match c.last_committed_token {
        None => None,
        Some(token) => {
            let source = c.position(token.source);
            if token.inner.len() == 0 {
                Some(
                    SubscriberError::Provider("hybrid checkpoint contains an empty committed token"),
                )
            } else if source.delivery_digest is None {
                Some(
                    SubscriberError::Provider(
                        "hybrid committed token is missing its source delivery digest",
                    ),
                )
            } else if token.kind == HybridTokenKind::Forwarded && source.delivery_token != Some(
                token.inner,
            ) {
                Some(
                    SubscriberError::Provider(
                        "hybrid checkpoint committed token does not match its source position",
                    ),
                )
            } else if token.kind == HybridTokenKind::Synthetic && source.delivery_token is Some {
                Some(
                    SubscriberError::Provider(
                        "hybrid synthetic commit retained a stale child delivery token",
                    ),
                )
            } else {
                None
            }
        },
    }
}

fn check_token(state: &HybridCheckpointV5) -> (r: Result<(), SubscriberError>)
    ensures
        match r {
            Ok(_) => token_error(state@) is None,
            Err(e) => token_error(state@) == Some(e),
        },
{
    if let Some(committed) = &state.last_committed_token {
        if committed.inner.len() == 0 {
            return Err(
                SubscriberError::Provider("hybrid checkpoint contains an empty committed token"),
            );
        }
        let source: &SourcePosition = match committed.source {
            HybridSource::Historical => &state.historical_position,
            HybridSource::Live => &state.live_position,
        };
        if source.delivery_digest.is_none() {
            return Err(
                SubscriberError::Provider(
                    "hybrid committed token is missing its source delivery digest",
                ),
            );
        }
        match committed.kind {
            HybridTokenKind::Forwarded => {
                let same: bool = match &source.delivery_token {
                    None => false,
                    Some(token) => same_bytes(token.as_slice(), committed.inner.as_slice()),
                };
                if !same {
                    return Err(
                        SubscriberError::Provider(
                            "hybrid checkpoint committed token does not match its source position",
                        ),
                    );
                }
            },
            HybridTokenKind::Synthetic => {
                if source.delivery_token.is_some() {
                    return Err(
                        SubscriberError::Provider(
                            "hybrid synthetic commit retained a stale child delivery token",
                        ),
                    );
                }
            },
        }
    }
    Ok(())
}

// ---------------------------------------------------------------------------
// The whole state
// ---------------------------------------------------------------------------

/// The error that the histories of a state earn.
pub open spec fn histories_error(c: CheckpointView) -> Option<SubscriberError> {
    first(
        history_error("coordinator", c.canonical_history, c.coverage_head),
        first(
            history_error(
                "historical source",
                c.historical_position.canonical_history,
                c.historical_position.coverage_head,
            ),
            history_error(
                "live source",
                c.live_position.canonical_history,
                c.live_position.coverage_head,
            ),
        ),
    )
}

/// The error that a refusal by the canonical-sequence rules is.
pub open spec fn sequence_error(sequence: SequenceVerdict) -> Option<SubscriberError> {
    match sequence {
        Ok(_) => None,
        Err(reason) => Some(SubscriberError::SequenceRefused { reason }),
    }
}

/// The error that a state earns, given what the canonical-sequence rules say of
/// its history and heads; none where it is valid.
#[verifier::opaque]
pub open spec fn state_error(c: CheckpointView, sequence: SequenceVerdict) -> Option<
    SubscriberError,
> {
    first(
        topology_error(c),
        first(
            entries_error(c, 0),
            first(
                histories_error(c),
                first(
                    sequence_error(sequence),
                    first(
                        certified_error(c),
                        first(
                            source_error("historical source", c.historical_position, c),
                            first(
                                source_error("live source", c.live_position, c),
                                token_error(c),
                            ),
                        ),
                    ),
                ),
            ),
        ),
    )
}

/// Refuses a state that breaks a rule, with the first rule broken in the order
/// of `state_error`.
pub fn validate_checkpoint_state(state: &HybridCheckpointV5, sequence: &SequenceVerdict) -> (r:
    Result<(), SubscriberError>)
    ensures
        match r {
            Ok(_) => state_error(state@, *sequence) is None,
            Err(e) => state_error(state@, *sequence) == Some(e),
        },
{
    proof {
        reveal(state_error);
    }
    check_topology(state)?;
    check_entries(state)?;
    validate_checkpoint_history(
        "coordinator",
        state.canonical_history.as_slice(),
        &state.coverage_head,
    )?;
    validate_checkpoint_history(
        "historical source",
        state.historical_position.canonical_history.as_slice(),
        &state.historical_position.coverage_head,
    )?;
    validate_checkpoint_history(
        "live source",
        state.live_position.canonical_history.as_slice(),
        &state.live_position.coverage_head,
    )?;
    if let Err(reason) = sequence {
        return Err(SubscriberError::SequenceRefused { reason: reason.clone() });
    }
    check_certified(state)?;
    validate_source_against_coordinator("historical source", &state.historical_position, state)?;
    validate_source_against_coordinator("live source", &state.live_position, state)?;
    check_token(state)
}

/// A valid history ascends strictly.
pub proof fn law_valid_history_ascends(history: Seq<BlockRef>, head: Option<BlockRef>)
    requires
        history_fault(history, head) is None,
    ensures
        forall|i: int, j: int|
            0 <= i < j < history.len() ==> (#[trigger] history[i]).number < (
            #[trigger] history[j]).number,
        history.len() > 0 ==> head is Some && history.last().number == head->Some_0.number
            && history.last().hash == head->Some_0.hash,
{
    assert forall|i: int, j: int| 0 <= i < j < history.len() implies (
    #[trigger] history[i]).number < (#[trigger] history[j]).number by {
        lemma_links_ascend(history, 1, i, j);
    }
}

proof fn lemma_links_ascend(history: Seq<BlockRef>, from: int, i: int, j: int)
    requires
        1 <= from,
        links_fault(history, from) is None,
        from - 1 <= i < j < history.len(),
    ensures
        history[i].number < history[j].number,
    decreases history.len() - from,
{
    if from < history.len() {
        if i == from - 1 {
            assert(history[from - 1].number < history[from].number);
            if j > from {
                lemma_links_ascend(history, from + 1, from, j);
            }
        } else {
            lemma_links_ascend(history, from + 1, i, j);
        }
    }
}

/// Dropping the oldest recent inputs never invalidates a valid state.
pub proof fn law_dropping_recent_keeps_valid(
    c: CheckpointView,
    sequence: SequenceVerdict,
    dropped: int,
)
    requires
        state_error(c, sequence) is None,
        0 <= dropped <= c.recent_inputs.len(),
    ensures
        state_error(c.drop_recent(dropped), sequence) is None,
{
    reveal(state_error);
    let d = c.drop_recent(dropped);
    assert(identities(d.recent_inputs) =~= identities(c.recent_inputs).skip(dropped));
    assert(identities(d.recent_inputs).no_duplicates()) by {
        let a = identities(c.recent_inputs);
        let b = identities(d.recent_inputs);
        assert forall|i: int, j: int| 0 <= i < b.len() && 0 <= j < b.len() && i != j implies b[i]
            != b[j] by {
            assert(b[i] == a[i + dropped] && b[j] == a[j + dropped]);
        }
    }
    lemma_entries_skip(c, dropped, 0);
    lemma_entries_from(c, 0, dropped);
}

proof fn lemma_entries_from(c: CheckpointView, from: int, to: int)
    requires
        0 <= from <= to <= c.recent_inputs.len(),
        entries_error(c, from) is None,
    ensures
        entries_error(c, to) is None,
    decreases to - from,
{
    if from < to {
        lemma_entries_from(c, from + 1, to);
    }
}

proof fn lemma_entries_skip(c: CheckpointView, dropped: int, from: int)
    requires
        0 <= dropped <= c.recent_inputs.len(),
        0 <= from <= c.recent_inputs.len() - dropped,
    ensures
        entries_error(c.drop_recent(dropped), from) == entries_error(c, from + dropped),
    decreases c.recent_inputs.len() - from,
{
    let d = c.drop_recent(dropped);
    if from < d.recent_inputs.len() {
        assert(d.recent_inputs[from] == c.recent_inputs[from + dropped]);
        assert(entry_error(d, d.recent_inputs[from]) == entry_error(
            c,
            c.recent_inputs[from + dropped],
        ));
        lemma_entries_skip(c, dropped, from + 1);
    }
}

} // verus!
