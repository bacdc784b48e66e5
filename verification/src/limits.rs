//! The limits that a state must respect to be written, so that its own reader
//! accepts it.
use crate::checkpoint::{
    opt_bytes, recent_view, CheckpointView, HybridCheckpointV5, RecentView, SourcePosition,
    SourceView, StoredRecentInput,
};
use crate::decode::{
    claim_heap, claim_items, claim_nodes, claim_owners, no_budget, owner_heap, owner_heap_bytes,
    Budget, DecodeBudget, MAX_CANONICAL_HISTORY, MAX_CHECKPOINT_PAYLOAD_BYTES, MAX_HANDLER_ID_BYTES,
    MAX_OWNER_ENTRIES, MAX_RECENT_INPUTS,
};
use crate::error::SubscriberError;
use crate::model::{shown_id, BlockRef, ReactiveInputIdentity};
use crate::owners::{OwnerEntry, OwnerMap};
use crate::validate::first;
use crate::wire::capped;
use vstd::prelude::*;

verus! {

// ---------------------------------------------------------------------------
// Counts, identifiers and lengths
// ---------------------------------------------------------------------------

/// The position of the first id, from `from` on, that is too long to be
/// written.
pub open spec fn first_long_key<V>(s: Seq<(Seq<u8>, V)>, from: int) -> Option<int>
    decreases s.len() - from,
{
    if from < 0 || from >= s.len() {
        None
    } else if s[from].0.len() > MAX_HANDLER_ID_BYTES {
        Some(from)
    } else {
        first_long_key(s, from + 1)
    }
}

/// The number of owner entries once those of a map are counted in, or why the
/// map cannot be written.
pub open spec fn owners_counted<V>(
    s: Seq<(Seq<u8>, V)>,
    context: &'static str,
    total: nat,
) -> Result<nat, SubscriberError> {
    if total + s.len() > usize::MAX {
        Err(SubscriberError::Provider("hybrid checkpoint owner count overflow"))
    } else if total + s.len() > MAX_OWNER_ENTRIES {
        Err(SubscriberError::OwnerEntriesExceeded { max: MAX_OWNER_ENTRIES })
    } else {
        match first_long_key(s, 0) {
            Some(i) => Err(
                SubscriberError::StoredHandlerIdTooLong { context, owner: shown_id(s[i].0) },
            ),
            None => Ok(total + s.len()),
        }
    }
}

/// Counts the entries of a map in, and refuses a map that cannot be written.
pub fn validate_owner_map<V>(owners: &OwnerMap<V>, context: &'static str, owner_entries: usize) -> (r:
    Result<usize, SubscriberError>)
    ensures
        match r {
            Ok(n) => owners_counted(owners@, context, owner_entries as nat) == Ok::<
                _,
                SubscriberError,
            >(n as nat),
            Err(e) => owners_counted(owners@, context, owner_entries as nat) == Err::<nat, _>(e),
        },
{
    let total: usize = match owner_entries.checked_add(owners.len()) {
        Some(total) => total,
        None => {
            return Err(SubscriberError::Provider("hybrid checkpoint owner count overflow"));
        },
    };
    if total > MAX_OWNER_ENTRIES {
        return Err(SubscriberError::OwnerEntriesExceeded { max: MAX_OWNER_ENTRIES });
    }
    let mut i: usize = 0;
    while i < owners.len()
        invariant
            i <= owners@.len(),
            total == owner_entries + owners@.len(),
            total <= MAX_OWNER_ENTRIES,
            first_long_key(owners@, 0) == first_long_key(owners@, i as int),
        decreases owners@.len() - i,
    {
        if owners.owner_at(i).byte_len() > MAX_HANDLER_ID_BYTES {
            return Err(
                SubscriberError::StoredHandlerIdTooLong {
                    context,
                    owner: owners.owner_at(i).shown(),
                },
            );
        }
        i += 1;
    }
    Ok(total)
}

/// The number of owner entries once those of the recent inputs from `from` on
/// are counted in, or why one of them cannot be written.
pub open spec fn recent_counted(s: Seq<RecentView>, from: int, total: nat) -> Result<
    nat,
    SubscriberError,
>
    decreases s.len() - from,
{
    if from < 0 || from >= s.len() {
        Ok(total)
    } else {
        match owners_counted(s[from].coverage.owners, "recent-input coverage", total) {
            Err(e) => Err(e),
            Ok(n) => if !s[from].identity.compatible() {
                Err(
                    SubscriberError::Provider(
                        "hybrid checkpoint contains an unsupported reactive-input identity",
                    ),
                )
            } else {
                recent_counted(s, from + 1, n)
            },
        }
    }
}

/// The number of owner entries of a state, or why it cannot be written.
pub open spec fn state_counted(c: CheckpointView) -> Result<nat, SubscriberError> {
    match owners_counted(c.owner_generations, "owner generations", 0) {
        Err(e) => Err(e),
        Ok(n) => match owners_counted(c.lifecycle_intent.owners, "lifecycle intent", n) {
            Err(e) => Err(e),
            Ok(n) => recent_counted(c.recent_inputs, 0, n),
        },
    }
}

/// The error that an opaque byte string earns for its length.
pub open spec fn bytes_error(value: Option<Seq<u8>>, context: &'static str) -> Option<
    SubscriberError,
> {
    if value is Some && value->Some_0.len() > MAX_CHECKPOINT_PAYLOAD_BYTES {
        Some(SubscriberError::TooManyBytes { context, max: MAX_CHECKPOINT_PAYLOAD_BYTES })
    } else {
        None
    }
}

/// Refuses an opaque byte string that is too long to be written.
pub fn validate_opaque_bytes(value: &Option<Vec<u8>>, context: &'static str) -> (r: Result<
    (),
    SubscriberError,
>)
    ensures
        match r {
            Ok(_) => bytes_error(opt_bytes(*value), context) is None,
            Err(e) => bytes_error(opt_bytes(*value), context) == Some(e),
        },
{
    if let Some(bytes) = value {
        if bytes.len() > MAX_CHECKPOINT_PAYLOAD_BYTES {
            return Err(
                SubscriberError::TooManyBytes { context, max: MAX_CHECKPOINT_PAYLOAD_BYTES },
            );
        }
    }
    Ok(())
}

/// The bytes of an optional token.
pub open spec fn token_bytes(c: CheckpointView) -> Option<Seq<u8>> {
    match c.last_committed_token {
        Some(t) => Some(t.inner),
        None => None,
    }
}

/// The error that the number of recent inputs and the histories of a state
/// earn.
pub open spec fn counts_error(c: CheckpointView) -> Option<SubscriberError> {
    if c.recent_inputs.len() > MAX_RECENT_INPUTS {
        Some(SubscriberError::RecentInputsExceeded { max: MAX_RECENT_INPUTS })
    } else if c.canonical_history.len() > MAX_CANONICAL_HISTORY {
        Some(SubscriberError::HistoryTooLong { label: "coordinator", max: MAX_CANONICAL_HISTORY })
    } else if c.historical_position.canonical_history.len() > MAX_CANONICAL_HISTORY {
        Some(
            SubscriberError::HistoryTooLong {
                label: "historical source",
                max: MAX_CANONICAL_HISTORY,
            },
        )
    } else if c.live_position.canonical_history.len() > MAX_CANONICAL_HISTORY {
        Some(SubscriberError::HistoryTooLong { label: "live source", max: MAX_CANONICAL_HISTORY })
    } else {
        None
    }
}

/// The error that the opaque byte strings of a state earn.
pub open spec fn opaque_error(c: CheckpointView) -> Option<SubscriberError> {
    first(
        bytes_error(c.historical_position.delivery_token, "historical delivery token"),
        first(
            bytes_error(c.historical_position.checkpoint, "historical child checkpoint"),
            first(
                bytes_error(c.live_position.delivery_token, "live delivery token"),
                first(
                    bytes_error(c.live_position.checkpoint, "live child checkpoint"),
                    bytes_error(token_bytes(c), "last committed token"),
                ),
            ),
        ),
    )
}

// ---------------------------------------------------------------------------
// The budget of the reader
// ---------------------------------------------------------------------------

/// Charging the ids of an owner map from `from` on.
pub open spec fn keys_charged<V>(s: Seq<(Seq<u8>, V)>, from: int, b: Budget) -> Result<
    Budget,
    SubscriberError,
>
    decreases s.len() - from,
{
    if from < 0 || from >= s.len() {
        Ok(b)
    } else {
        match claim_heap(b, s[from].0.len()) {
            Err(e) => Err(e),
            Ok(b) => keys_charged(s, from + 1, b),
        }
    }
}

/// Charging an owner map.
pub open spec fn map_charged<V>(s: Seq<(Seq<u8>, V)>, b: Budget) -> Result<Budget, SubscriberError> {
    match claim_nodes(b, capped(3 * s.len() + 1)) {
        Err(e) => Err(e),
        Ok(b) => match claim_owners(b, s.len()) {
            Err(e) => Err(e),
            Ok(b) => match claim_heap(
                b,
                owner_heap(vstd::layout::size_of::<OwnerEntry<V>>(), s.len()),
            ) {
                Err(e) => Err(e),
                Ok(b) => keys_charged(s, 0, b),
            },
        },
    }
}

fn charge_owner_map<V>(owners: &OwnerMap<V>, budget: &mut DecodeBudget) -> (r: Result<
    (),
    SubscriberError,
>)
    ensures
        match r {
            Ok(_) => map_charged(owners@, old(budget)@) == Ok::<_, SubscriberError>(final(budget)@),
            Err(e) => map_charged(owners@, old(budget)@) == Err::<Budget, _>(e),
        },
{
    let count: usize = owners.len();
    let nodes: usize = match count.checked_mul(3) {
        Some(n) => n.saturating_add(1),
        None => usize::MAX,
    };
    budget.claim_nodes(nodes)?;
    budget.claim_owners(count)?;
    budget.claim_heap_bytes(owner_heap_bytes::<V>(count))?;
    charge_keys(owners, budget)
}

fn charge_keys<V>(owners: &OwnerMap<V>, budget: &mut DecodeBudget) -> (r: Result<
    (),
    SubscriberError,
>)
    ensures
        match r {
            Ok(_) => keys_charged(owners@, 0, old(budget)@) == Ok::<_, SubscriberError>(
                final(budget)@,
            ),
            Err(e) => keys_charged(owners@, 0, old(budget)@) == Err::<Budget, _>(e),
        },
{
    let mut i: usize = 0;
    while i < owners.len()
        invariant
            i <= owners@.len(),
            keys_charged(owners@, 0, old(budget)@) == keys_charged(owners@, i as int, budget@),
        decreases owners@.len() - i,
    {
        budget.claim_heap_bytes(owners.owner_at(i).byte_len())?;
        i += 1;
    }
    Ok(())
}

/// Charging an optional block.
pub open spec fn block_charged(block: Option<BlockRef>, b: Budget) -> Result<
    Budget,
    SubscriberError,
> {
    if block is Some {
        claim_nodes(b, 3)
    } else {
        Ok(b)
    }
}

fn charge_block(block: &Option<BlockRef>, budget: &mut DecodeBudget) -> (r: Result<
    (),
    SubscriberError,
>)
    ensures
        match r {
            Ok(_) => block_charged(*block, old(budget)@) == Ok::<_, SubscriberError>(
                final(budget)@,
            ),
            Err(e) => block_charged(*block, old(budget)@) == Err::<Budget, _>(e),
        },
{
    if block.is_some() {
        budget.claim_nodes(3)?;
    }
    Ok(())
}

/// Charging one recent input.
pub open spec fn entry_charged(entry: RecentView, b: Budget) -> Result<Budget, SubscriberError> {
    match claim_nodes(b, 7) { Err(e) => Err(e), Ok(b) =>
    match map_charged(entry.coverage.owners, b) { Err(e) => Err(e), Ok(b) =>
    match block_charged(entry.coverage.block, b) { Err(e) => Err(e), Ok(b) =>
    match entry.coverage.witness {
        None => Ok(b),
        Some(w) => match claim_nodes(b, 5) {
            Err(e) => Err(e),
            Ok(b) => block_charged(w.block, b),
        },
    } } } }
}

fn charge_entry(entry: &StoredRecentInput, budget: &mut DecodeBudget) -> (r: Result<
    (),
    SubscriberError,
>)
    ensures
        match r {
            Ok(_) => entry_charged(entry@, old(budget)@) == Ok::<_, SubscriberError>(
                final(budget)@,
            ),
            Err(e) => entry_charged(entry@, old(budget)@) == Err::<Budget, _>(e),
        },
{
    budget.claim_nodes(7)?;
    charge_owner_map(&entry.coverage.owners, budget)?;
    charge_block(&entry.coverage.block, budget)?;
    if let Some(witness) = &entry.coverage.witness {
        budget.claim_nodes(5)?;
        charge_block(&witness.block, budget)?;
    }
    Ok(())
}

/// Charging the recent inputs from `from` on.
pub open spec fn entries_charged(s: Seq<RecentView>, from: int, b: Budget) -> Result<
    Budget,
    SubscriberError,
>
    decreases s.len() - from,
{
    if from < 0 || from >= s.len() {
        Ok(b)
    } else {
        match entry_charged(s[from], b) {
            Err(e) => Err(e),
            Ok(b) => entries_charged(s, from + 1, b),
        }
    }
}

fn charge_entries(entries: &[StoredRecentInput], dropped: usize, budget: &mut DecodeBudget) -> (r:
    Result<(), SubscriberError>)
    requires
        dropped <= entries@.len(),
    ensures
        match r {
            Ok(_) => entries_charged(
                recent_view(entries@).skip(dropped as int),
                0,
                old(budget)@,
            ) == Ok::<_, SubscriberError>(final(budget)@),
            Err(e) => entries_charged(
                recent_view(entries@).skip(dropped as int),
                0,
                old(budget)@,
            ) == Err::<Budget, _>(e),
        },
{
    let ghost all = recent_view(entries@).skip(dropped as int);
    let mut i: usize = dropped;
    while i < entries.len()
        invariant
            dropped <= i <= entries@.len(),
            all == recent_view(entries@).skip(dropped as int),
            entries_charged(all, 0, old(budget)@) == entries_charged(all, i - dropped, budget@),
        decreases entries@.len() - i,
    {
        assert(all[i - dropped] == entries@[i as int]@);
        charge_entry(&entries[i], budget)?;
        i += 1;
    }
    Ok(())
}

/// Charging blocks one by one from `from` on.
pub open spec fn each_block_charged(count: nat, b: Budget) -> Result<Budget, SubscriberError>
    decreases count,
{
    if count == 0 {
        Ok(b)
    } else {
        match claim_nodes(b, 3) {
            Err(e) => Err(e),
            Ok(b) => each_block_charged((count - 1) as nat, b),
        }
    }
}

/// Charging a history.
pub open spec fn blocks_charged(count: nat, b: Budget) -> Result<Budget, SubscriberError> {
    match claim_nodes(b, count) {
        Err(e) => Err(e),
        Ok(b) => match claim_items(b, vstd::layout::size_of::<BlockRef>(), count) {
            Err(e) => Err(e),
            Ok(b) => each_block_charged(count, b),
        },
    }
}

fn charge_block_vec(blocks: &[BlockRef], budget: &mut DecodeBudget) -> (r: Result<
    (),
    SubscriberError,
>)
    ensures
        match r {
            Ok(_) => blocks_charged(blocks@.len(), old(budget)@) == Ok::<_, SubscriberError>(
                final(budget)@,
            ),
            Err(e) => blocks_charged(blocks@.len(), old(budget)@) == Err::<Budget, _>(e),
        },
{
    budget.claim_nodes(blocks.len())?;
    budget.claim_heap::<BlockRef>(blocks.len())?;
    charge_each_block(blocks.len(), budget)
}

fn charge_each_block(count: usize, budget: &mut DecodeBudget) -> (r: Result<(), SubscriberError>)
    ensures
        match r {
            Ok(_) => each_block_charged(count as nat, old(budget)@) == Ok::<_, SubscriberError>(
                final(budget)@,
            ),
            Err(e) => each_block_charged(count as nat, old(budget)@) == Err::<Budget, _>(e),
        },
{
    let mut left: usize = count;
    while left > 0
        invariant
            left <= count,
            each_block_charged(count as nat, old(budget)@) == each_block_charged(
                left as nat,
                budget@,
            ),
        decreases left,
    {
        budget.claim_nodes(3)?;
        left -= 1;
    }
    Ok(())
}

/// Charging an optional opaque byte string.
pub open spec fn bytes_charged(value: Option<Seq<u8>>, b: Budget) -> Result<
    Budget,
    SubscriberError,
> {
    match claim_nodes(b, 1) {
        Err(e) => Err(e),
        Ok(b) => match value {
            None => Ok(b),
            Some(bytes) => match claim_nodes(b, 1) {
                Err(e) => Err(e),
                Ok(b) => claim_heap(b, bytes.len()),
            },
        },
    }
}

fn charge_optional_bytes(value: &Option<Vec<u8>>, budget: &mut DecodeBudget) -> (r: Result<
    (),
    SubscriberError,
>)
    ensures
        match r {
            Ok(_) => bytes_charged(opt_bytes(*value), old(budget)@) == Ok::<_, SubscriberError>(
                final(budget)@,
            ),
            Err(e) => bytes_charged(opt_bytes(*value), old(budget)@) == Err::<Budget, _>(e),
        },
{
    budget.claim_nodes(1)?;
    if let Some(bytes) = value {
        budget.claim_nodes(1)?;
        budget.claim_heap_bytes(bytes.len())?;
    }
    Ok(())
}

/// Charging a source position.
pub open spec fn source_charged(p: SourceView, b: Budget) -> Result<Budget, SubscriberError> {
    match claim_nodes(b, 1) { Err(e) => Err(e), Ok(b) =>
    match bytes_charged(p.delivery_token, b) { Err(e) => Err(e), Ok(b) =>
    match bytes_charged(p.checkpoint, b) { Err(e) => Err(e), Ok(b) =>
    match claim_nodes(b, 1) { Err(e) => Err(e), Ok(b) =>
    match block_charged(p.coverage_head, b) { Err(e) => Err(e), Ok(b) =>
    match blocks_charged(p.canonical_history.len(), b) { Err(e) => Err(e), Ok(b) =>
    claim_nodes(b, 1) } } } } } }
}

fn charge_source_position(source: &SourcePosition, budget: &mut DecodeBudget) -> (r: Result<
    (),
    SubscriberError,
>)
    ensures
        match r {
            Ok(_) => source_charged(source@, old(budget)@) == Ok::<_, SubscriberError>(
                final(budget)@,
            ),
            Err(e) => source_charged(source@, old(budget)@) == Err::<Budget, _>(e),
        },
{
    budget.claim_nodes(1)?;
    charge_optional_bytes(&source.delivery_token, budget)?;
    charge_optional_bytes(&source.checkpoint, budget)?;
    budget.claim_nodes(1)?;
    charge_block(&source.coverage_head, budget)?;
    charge_block_vec(source.canonical_history.as_slice(), budget)?;
    budget.claim_nodes(1)
}

/// Charging the owner maps and the recent inputs of a state.
pub open spec fn front_charged(c: CheckpointView) -> Result<Budget, SubscriberError> {
    match claim_nodes(no_budget(), 1) { Err(e) => Err(e), Ok(b) =>
    match map_charged(c.owner_generations, b) { Err(e) => Err(e), Ok(b) =>
    match claim_nodes(b, 1) { Err(e) => Err(e), Ok(b) =>
    match map_charged(c.lifecycle_intent.owners, b) { Err(e) => Err(e), Ok(b) =>
    match claim_nodes(b, c.recent_inputs.len()) { Err(e) => Err(e), Ok(b) =>
    match claim_items(b, vstd::layout::size_of::<StoredRecentInput>(), c.recent_inputs.len()) { Err(e) => Err(e), Ok(b) =>
    entries_charged(c.recent_inputs, 0, b) } } } } } }
}

/// Charging an optional head.
pub open spec fn head_charged(block: Option<BlockRef>, b: Budget) -> Result<
    Budget,
    SubscriberError,
> {
    match claim_nodes(b, 1) {
        Err(e) => Err(e),
        Ok(b) => block_charged(block, b),
    }
}

/// Charging the history, the heads and the certified coverage of a state.
#[verifier::opaque]
pub open spec fn heads_charged(c: CheckpointView, b: Budget) -> Result<Budget, SubscriberError> {
    match blocks_charged(c.canonical_history.len(), b) { Err(e) => Err(e), Ok(b) =>
    match head_charged(c.coverage_head, b) { Err(e) => Err(e), Ok(b) =>
    match head_charged(c.safe_head, b) { Err(e) => Err(e), Ok(b) =>
    match head_charged(c.finalized_head, b) { Err(e) => Err(e), Ok(b) =>
    match claim_nodes(b, 1) { Err(e) => Err(e), Ok(b) =>
    if c.certified_historical is Some {
        match claim_nodes(b, 1) {
            Err(e) => Err(e),
            Ok(b) => claim_nodes(b, 3),
        }
    } else {
        Ok(b)
    } } } } } }
}

/// Charging the positions and the token of a state.
#[verifier::opaque]
pub open spec fn ends_charged(c: CheckpointView, b: Budget) -> Result<Budget, SubscriberError> {
    match source_charged(c.historical_position, b) { Err(e) => Err(e), Ok(b) =>
    match source_charged(c.live_position, b) { Err(e) => Err(e), Ok(b) =>
    match claim_nodes(b, 1) { Err(e) => Err(e), Ok(b) =>
    match c.last_committed_token {
        None => Ok(b),
        Some(t) => match claim_nodes(b, 2) {
            Err(e) => Err(e),
            Ok(b) => claim_heap(b, t.inner.len()),
        },
    } } } }
}

/// Charging the histories, heads, positions and token of a state.
pub open spec fn back_charged(c: CheckpointView, b: Budget) -> Result<Budget, SubscriberError> {
    match heads_charged(c, b) {
        Err(e) => Err(e),
        Ok(b) => ends_charged(c, b),
    }
}

/// Charging all that reading the state back would use up.
pub open spec fn state_charged(c: CheckpointView) -> Result<Budget, SubscriberError> {
    match front_charged(c) {
        Err(e) => Err(e),
        Ok(b) => back_charged(c, b),
    }
}

fn charge_front(state: &HybridCheckpointV5, dropped: usize, budget: &mut DecodeBudget) -> (r: Result<
    (),
    SubscriberError,
>)
    requires
        dropped <= state.recent_inputs@.len(),
        old(budget)@ == no_budget(),
    ensures
        match r {
            Ok(_) => front_charged(state@.drop_recent(dropped as int)) == Ok::<_, SubscriberError>(
                final(budget)@,
            ),
            Err(e) => front_charged(state@.drop_recent(dropped as int)) == Err::<Budget, _>(e),
        },
{
    let count: usize = state.recent_inputs.len() - dropped;
    budget.claim_nodes(1)?;
    charge_owner_map(&state.owner_generations, budget)?;
    budget.claim_nodes(1)?;
    charge_owner_map(&state.lifecycle_intent.owners, budget)?;
    budget.claim_nodes(count)?;
    budget.claim_heap::<StoredRecentInput>(count)?;
    charge_entries(state.recent_inputs.as_slice(), dropped, budget)
}

fn charge_back(state: &HybridCheckpointV5, budget: &mut DecodeBudget) -> (r: Result<
    (),
    SubscriberError,
>)
    ensures
        match r {
            Ok(_) => back_charged(state@, old(budget)@) == Ok::<_, SubscriberError>(final(budget)@),
            Err(e) => back_charged(state@, old(budget)@) == Err::<Budget, _>(e),
        },
{
    proof {
        reveal(heads_charged);
        reveal(ends_charged);
    }
    charge_block_vec(state.canonical_history.as_slice(), budget)?;
    budget.claim_nodes(1)?;
    charge_block(&state.coverage_head, budget)?;
    budget.claim_nodes(1)?;
    charge_block(&state.safe_head, budget)?;
    budget.claim_nodes(1)?;
    charge_block(&state.finalized_head, budget)?;
    budget.claim_nodes(1)?;
    if state.certified_historical.is_some() {
        budget.claim_nodes(1)?;
        budget.claim_nodes(3)?;
    }
    charge_source_position(&state.historical_position, budget)?;
    charge_source_position(&state.live_position, budget)?;
    budget.claim_nodes(1)?;
    if let Some(token) = &state.last_committed_token {
        budget.claim_nodes(2)?;
        budget.claim_heap_bytes(token.inner.len())?;
    }
    Ok(())
}

/// The charging error of a state; none where its reader would stay within its
/// budget.
pub open spec fn budget_error(c: CheckpointView) -> Option<SubscriberError> {
    match state_charged(c) {
        Err(e) => Some(e),
        Ok(_) => None,
    }
}

/// Refuses a state that its own reader would refuse for its budget.
pub fn validate_decode_budget_for_state(state: &HybridCheckpointV5, dropped: usize) -> (r: Result<
    (),
    SubscriberError,
>)
    requires
        dropped <= state.recent_inputs@.len(),
    ensures
        match r {
            Ok(_) => budget_error(state@.drop_recent(dropped as int)) is None,
            Err(e) => budget_error(state@.drop_recent(dropped as int)) == Some(e),
        },
{
    let mut budget = DecodeBudget::new();
    charge_front(state, dropped, &mut budget)?;
    proof {
        reveal(heads_charged);
        reveal(ends_charged);
    }
    assert(back_charged(state@.drop_recent(dropped as int), budget@) == back_charged(
        state@,
        budget@,
    ));
    charge_back(state, &mut budget)
}

/// The error that a state earns for a count, an identifier, a length or the
/// budget of its reader; none where it can be written.
pub open spec fn limits_error(c: CheckpointView) -> Option<SubscriberError> {
    first(
        counts_error(c),
        match state_counted(c) {
            Err(e) => Some(e),
            Ok(_) => first(opaque_error(c), budget_error(c)),
        },
    )
}

fn count_recent(state: &HybridCheckpointV5, dropped: usize, total: usize) -> (r: Result<
    usize,
    SubscriberError,
>)
    requires
        dropped <= state.recent_inputs@.len(),
    ensures
        match r {
            Ok(n) => recent_counted(
                state@.drop_recent(dropped as int).recent_inputs,
                0,
                total as nat,
            ) == Ok::<_, SubscriberError>(n as nat),
            Err(e) => recent_counted(
                state@.drop_recent(dropped as int).recent_inputs,
                0,
                total as nat,
            ) == Err::<nat, _>(e),
        },
{
    let ghost all = state@.drop_recent(dropped as int).recent_inputs;
    let mut i: usize = dropped;
    let mut owner_entries: usize = total;
    while i < state.recent_inputs.len()
        invariant
            dropped <= i <= state.recent_inputs@.len(),
            all == state@.drop_recent(dropped as int).recent_inputs,
            recent_counted(all, 0, total as nat) == recent_counted(
                all,
                i - dropped,
                owner_entries as nat,
            ),
        decreases state.recent_inputs@.len() - i,
    {
        let entry: &StoredRecentInput = &state.recent_inputs[i];
        assert(all[i - dropped] == entry@);
        owner_entries =
        validate_owner_map(&entry.coverage.owners, "recent-input coverage", owner_entries)?;
        if ReactiveInputIdentity::try_from_parts(
            entry.identity.input_ref,
            entry.identity.kind,
        ).is_none() {
            return Err(
                SubscriberError::Provider(
                    "hybrid checkpoint contains an unsupported reactive-input identity",
                ),
            );
        }
        i += 1;
    }
    Ok(owner_entries)
}

fn check_opaque(state: &HybridCheckpointV5) -> (r: Result<(), SubscriberError>)
    ensures
        match r {
            Ok(_) => opaque_error(state@) is None,
            Err(e) => opaque_error(state@) == Some(e),
        },
{
    validate_opaque_bytes(
        &state.historical_position.delivery_token,
        "historical delivery token",
    )?;
    validate_opaque_bytes(&state.historical_position.checkpoint, "historical child checkpoint")?;
    validate_opaque_bytes(&state.live_position.delivery_token, "live delivery token")?;
    validate_opaque_bytes(&state.live_position.checkpoint, "live child checkpoint")?;
    if let Some(token) = &state.last_committed_token {
        if token.inner.len() > MAX_CHECKPOINT_PAYLOAD_BYTES {
            return Err(
                SubscriberError::TooManyBytes {
                    context: "last committed token",
                    max: MAX_CHECKPOINT_PAYLOAD_BYTES,
                },
            );
        }
    }
    Ok(())
}

/// Refuses a state that, without its oldest `dropped` recent inputs, could not
/// be written or could not be read back.
pub fn validate_codec_limits(state: &HybridCheckpointV5, dropped: usize) -> (r: Result<
    (),
    SubscriberError,
>)
    requires
        dropped <= state.recent_inputs@.len(),
    ensures
        match r {
            Ok(_) => limits_error(state@.drop_recent(dropped as int)) is None,
            Err(e) => limits_error(state@.drop_recent(dropped as int)) == Some(e),
        },
{
    if state.recent_inputs.len() - dropped > MAX_RECENT_INPUTS {
        return Err(SubscriberError::RecentInputsExceeded { max: MAX_RECENT_INPUTS });
    }
    if state.canonical_history.len() > MAX_CANONICAL_HISTORY {
        return Err(
            SubscriberError::HistoryTooLong { label: "coordinator", max: MAX_CANONICAL_HISTORY },
        );
    }
    if state.historical_position.canonical_history.len() > MAX_CANONICAL_HISTORY {
        return Err(
            SubscriberError::HistoryTooLong {
                label: "historical source",
                max: MAX_CANONICAL_HISTORY,
            },
        );
    }
    if state.live_position.canonical_history.len() > MAX_CANONICAL_HISTORY {
        return Err(
            SubscriberError::HistoryTooLong { label: "live source", max: MAX_CANONICAL_HISTORY },
        );
    }
    let total: usize = validate_owner_map(&state.owner_generations, "owner generations", 0)?;
    let total: usize = validate_owner_map(
        &state.lifecycle_intent.owners,
        "lifecycle intent",
        total,
    )?;
    count_recent(state, dropped, total)?;
    assert(opaque_error(state@.drop_recent(dropped as int)) == opaque_error(state@));
    check_opaque(state)?;
    validate_decode_budget_for_state(state, dropped)
}

} // verus!
