//! The writer's limits and the reader's budget agree: what the writer charges
//! for a state is what reading it back uses up.
use crate::checkpoint::{CheckpointView, RecentView, SourceView, StoredRecentInput};
use crate::decode::{
    claim_heap, claim_items, claim_nodes, claim_owners, no_budget, owner_heap, Budget,
    MAX_HANDLER_ID_BYTES, MAX_OWNER_ENTRIES,
};
use crate::error::SubscriberError;
use crate::limits::{
    back_charged, blocks_charged, counts_error, each_block_charged, ends_charged, entries_charged,
    entry_charged, first_long_key, front_charged, heads_charged, keys_charged, limits_error,
    map_charged, opaque_error, owners_counted, recent_counted, source_charged, state_charged,
    state_counted,
};
use crate::model::{handler_bytes, BlockRef};
use crate::owners::{sorted_keys, OwnerEntry};
use crate::wire_laws::{
    cost_block_items, cost_blocks, cost_body, cost_checkpoint, cost_digests, cost_digests_items,
    cost_generations, cost_generations_items, cost_intent, cost_opt_block, cost_opt_bytes,
    cost_opt_certified, cost_opt_token, cost_recent, cost_recent_items, cost_recents, cost_source,
    cost_tail, nodes, ok_body, ok_checkpoint, ok_tail, sum,
};
use crate::words::B256;
use vstd::prelude::*;

verus! {

/// Whether `r` is what charging `cost` to `b` must give: the sum where it stays
/// within the limits, and an error where it does not.
pub open spec fn charges(r: Result<Budget, SubscriberError>, b: Budget, cost: Budget) -> bool {
    if sum(b, cost).within() {
        r == Ok::<_, SubscriberError>(sum(b, cost))
    } else {
        r is Err
    }
}

/// The bytes of the ids of a map from `from` on.
pub open spec fn key_bytes<V>(s: Seq<(Seq<u8>, V)>, from: int) -> nat
    decreases s.len() - from,
{
    if from < 0 || from >= s.len() {
        0
    } else {
        s[from].0.len() + key_bytes(s, from + 1)
    }
}

proof fn lemma_keys_charged<V>(s: Seq<(Seq<u8>, V)>, from: int, b: Budget)
    requires
        b.within(),
        0 <= from <= s.len(),
    ensures
        charges(
            keys_charged(s, from, b),
            b,
            Budget { nodes: 0, heap: key_bytes(s, from), owners: 0 },
        ),
    decreases s.len() - from,
{
    if from < s.len() {
        if let Ok(c) = claim_heap(b, s[from].0.len()) {
            lemma_keys_charged(s, from + 1, c);
        }
    }
}

proof fn lemma_key_bytes_shift<V>(s: Seq<(Seq<u8>, V)>, from: int)
    requires
        s.len() > 0,
        0 <= from <= s.len() - 1,
    ensures
        key_bytes(s.drop_first(), from) == key_bytes(s, from + 1),
    decreases s.len() - from,
{
    if from < s.len() - 1 {
        lemma_key_bytes_shift(s, from + 1);
    }
}

/// What an owner map costs.
pub open spec fn cost_map<V>(s: Seq<(Seq<u8>, V)>) -> Budget {
    Budget {
        nodes: 3 * s.len() + 1,
        heap: owner_heap(vstd::layout::size_of::<OwnerEntry<V>>(), s.len()) + key_bytes(s, 0),
        owners: s.len(),
    }
}

proof fn lemma_map_charged<V>(s: Seq<(Seq<u8>, V)>, b: Budget)
    requires
        b.within(),
    ensures
        charges(map_charged(s, b), b, cost_map(s)),
{
    if let Ok(b1) = claim_nodes(b, crate::wire::capped(3 * s.len() + 1)) {
        if let Ok(b2) = claim_owners(b1, s.len()) {
            if let Ok(b3) = claim_heap(
                b2,
                owner_heap(vstd::layout::size_of::<OwnerEntry<V>>(), s.len()),
            ) {
                lemma_keys_charged(s, 0, b3);
            }
        }
    }
}

proof fn lemma_cost_generations_items(s: Seq<(Seq<u8>, u64)>)
    ensures
        cost_generations_items(s) == (Budget { nodes: 2 * s.len(), heap: key_bytes(s, 0), owners: 0 }),
    decreases s.len(),
{
    if s.len() > 0 {
        lemma_cost_generations_items(s.drop_first());
        lemma_key_bytes_shift(s, 0);
    }
}

proof fn lemma_cost_digests_items(s: Seq<(Seq<u8>, B256)>)
    ensures
        cost_digests_items(s) == (Budget { nodes: 2 * s.len(), heap: key_bytes(s, 0), owners: 0 }),
    decreases s.len(),
{
    if s.len() > 0 {
        lemma_cost_digests_items(s.drop_first());
        lemma_key_bytes_shift(s, 0);
    }
}

proof fn lemma_entry_charged(entry: RecentView, b: Budget)
    requires
        b.within(),
    ensures
        charges(entry_charged(entry, b), b, cost_recent(entry)),
{
    lemma_cost_generations_items(entry.coverage.owners);
    assert(cost_generations(entry.coverage.owners) == cost_map(entry.coverage.owners));
    if let Ok(b1) = claim_nodes(b, 7) {
        lemma_map_charged(entry.coverage.owners, b1);
    }
}

proof fn lemma_entries_charged(s: Seq<RecentView>, from: int, b: Budget)
    requires
        b.within(),
        0 <= from <= s.len(),
    ensures
        charges(entries_charged(s, from, b), b, cost_recent_items(s.skip(from))),
    decreases s.len() - from,
{
    let rest = s.skip(from);
    if from < s.len() {
        assert(rest[0] == s[from]);
        assert(rest.drop_first() =~= s.skip(from + 1));
        lemma_entry_charged(s[from], b);
        if let Ok(c) = entry_charged(s[from], b) {
            lemma_entries_charged(s, from + 1, c);
        }
    }
}

proof fn lemma_each_block_charged(count: nat, b: Budget)
    requires
        b.within(),
    ensures
        charges(each_block_charged(count, b), b, nodes(3 * count)),
    decreases count,
{
    if count > 0 {
        if let Ok(c) = claim_nodes(b, 3) {
            lemma_each_block_charged((count - 1) as nat, c);
        }
    }
}

pub proof fn lemma_cost_block_items(s: Seq<BlockRef>)
    ensures
        cost_block_items(s) == nodes(3 * s.len()),
    decreases s.len(),
{
    if s.len() > 0 {
        lemma_cost_block_items(s.drop_first());
    }
}

proof fn lemma_blocks_charged(s: Seq<BlockRef>, b: Budget)
    requires
        b.within(),
    ensures
        charges(blocks_charged(s.len(), b), b, cost_blocks(s)),
{
    lemma_cost_block_items(s);
    if let Ok(b1) = claim_nodes(b, s.len()) {
        if let Ok(b2) = claim_items(b1, vstd::layout::size_of::<BlockRef>(), s.len()) {
            lemma_each_block_charged(s.len(), b2);
        }
    }
}

proof fn lemma_source_charged(p: SourceView, b: Budget)
    requires
        b.within(),
    ensures
        charges(source_charged(p, b), b, cost_source(p)),
{
    let b1 = sum(b, nodes(1));
    let b2 = sum(b1, cost_opt_bytes(p.delivery_token));
    let b3 = sum(b2, cost_opt_bytes(p.checkpoint));
    let b4 = sum(b3, cost_opt_block(p.coverage_head));
    if b4.within() {
        lemma_blocks_charged(p.canonical_history, b4);
    }
}

proof fn lemma_front_charged(c: CheckpointView)
    ensures
        charges(
            front_charged(c),
            no_budget(),
            sum(
                nodes(1),
                sum(
                    sum(cost_generations(c.owner_generations), cost_intent(c.lifecycle_intent)),
                    cost_recents(c.recent_inputs),
                ),
            ),
        ),
{
    lemma_cost_generations_items(c.owner_generations);
    lemma_cost_digests_items(c.lifecycle_intent.owners);
    assert(cost_generations(c.owner_generations) == cost_map(c.owner_generations));
    assert(cost_digests(c.lifecycle_intent.owners) == cost_map(c.lifecycle_intent.owners));
    let b1 = sum(no_budget(), nodes(1));
    lemma_map_charged(c.owner_generations, b1);
    let b2 = sum(b1, cost_map(c.owner_generations));
    let b3 = sum(b2, nodes(1));
    if b3.within() {
        lemma_map_charged(c.lifecycle_intent.owners, b3);
    }
    let b4 = sum(b3, cost_map(c.lifecycle_intent.owners));
    let n = c.recent_inputs.len();
    let size = vstd::layout::size_of::<StoredRecentInput>();
    let b5 = b4.plus(n, size * n, 0);
    assert(c.recent_inputs.skip(0) =~= c.recent_inputs);
    if b5.within() {
        lemma_entries_charged(c.recent_inputs, 0, b5);
    }
}

/// What the heads of a state cost.
#[verifier::opaque]
spec fn cost_heads(c: CheckpointView) -> Budget {
    sum(
        sum(sum(cost_opt_block(c.coverage_head), cost_opt_block(c.safe_head)), cost_opt_block(
            c.finalized_head,
        )),
        cost_opt_certified(c.certified_historical),
    )
}

/// What the positions and the token of a state cost.
#[verifier::opaque]
spec fn cost_ends(c: CheckpointView) -> Budget {
    sum(
        sum(cost_source(c.historical_position), cost_source(c.live_position)),
        cost_opt_token(c.last_committed_token),
    )
}

proof fn lemma_heads_charged(c: CheckpointView, b: Budget)
    requires
        b.within(),
    ensures
        charges(heads_charged(c, b), b, sum(cost_blocks(c.canonical_history), cost_heads(c))),
{
    reveal(heads_charged);
    reveal(cost_heads);
    lemma_blocks_charged(c.canonical_history, b);
}

proof fn lemma_ends_charged(c: CheckpointView, b: Budget)
    requires
        b.within(),
    ensures
        charges(ends_charged(c, b), b, cost_ends(c)),
{
    reveal(ends_charged);
    reveal(cost_ends);
    lemma_source_charged(c.historical_position, b);
    let b6 = sum(b, cost_source(c.historical_position));
    if b6.within() {
        lemma_source_charged(c.live_position, b6);
    }
}

proof fn lemma_back_charged(c: CheckpointView, b: Budget)
    requires
        b.within(),
    ensures
        charges(back_charged(c, b), b, sum(cost_blocks(c.canonical_history), cost_tail(c))),
{
    assert(cost_tail(c) == sum(cost_heads(c), cost_ends(c))) by {
        reveal(cost_tail);
        reveal(cost_heads);
        reveal(cost_ends);
    }
    lemma_heads_charged(c, b);
    let b1 = sum(b, sum(cost_blocks(c.canonical_history), cost_heads(c)));
    if b1.within() {
        lemma_ends_charged(c, b1);
    }
}

/// The writer charges a state exactly what reading it back uses up.
pub proof fn law_charge_is_cost(c: CheckpointView)
    ensures
        charges(state_charged(c), no_budget(), cost_checkpoint(c)),
{
    reveal(cost_body);
    lemma_front_charged(c);
    if let Ok(b) = front_charged(c) {
        lemma_back_charged(c, b);
    }
}

// ---------------------------------------------------------------------------
// Limits
// ---------------------------------------------------------------------------

/// What every owner map is: strictly ascending, with ids that are UTF-8 and not
/// empty.
pub open spec fn map_typed<V>(s: Seq<(Seq<u8>, V)>) -> bool {
    sorted_keys(s) && forall|i: int| 0 <= i < s.len() ==> handler_bytes((#[trigger] s[i]).0)
}

/// What every state is, by the types of its fields.
pub open spec fn state_typed(c: CheckpointView) -> bool {
    map_typed(c.owner_generations) && map_typed(c.lifecycle_intent.owners) && forall|i: int|
        0 <= i < c.recent_inputs.len() ==> map_typed((#[trigger] c.recent_inputs[i]).coverage.owners)
}

proof fn lemma_first_long_key<V>(s: Seq<(Seq<u8>, V)>, from: int)
    requires
        0 <= from <= s.len(),
    ensures
        first_long_key(s, from) is None <==> forall|i: int|
            from <= i < s.len() ==> (#[trigger] s[i]).0.len() <= MAX_HANDLER_ID_BYTES,
    decreases s.len() - from,
{
    if from < s.len() && s[from].0.len() <= MAX_HANDLER_ID_BYTES {
        lemma_first_long_key(s, from + 1);
    }
}

/// The owner entries of the recent inputs from `from` on.
pub open spec fn owner_total(s: Seq<RecentView>, from: int) -> nat
    decreases s.len() - from,
{
    if from < 0 || from >= s.len() {
        0
    } else {
        s[from].coverage.owners.len() + owner_total(s, from + 1)
    }
}

/// Whether one recent input respects the limits on ids and identities.
pub open spec fn entry_fits(r: RecentView) -> bool {
    first_long_key(r.coverage.owners, 0) is None && r.identity.compatible()
}

pub proof fn lemma_recent_counted(s: Seq<RecentView>, from: int, total: nat)
    requires
        0 <= from <= s.len(),
        total <= MAX_OWNER_ENTRIES,
    ensures
        recent_counted(s, from, total) is Ok <==> total + owner_total(s, from) <= MAX_OWNER_ENTRIES
            && forall|i: int| from <= i < s.len() ==> entry_fits(#[trigger] s[i]),
        recent_counted(s, from, total) is Ok ==> recent_counted(s, from, total)->Ok_0 == total
            + owner_total(s, from),
    decreases s.len() - from,
{
    if from < s.len() {
        match owners_counted(s[from].coverage.owners, "recent-input coverage", total) {
            Err(_) => {
                assert(total + owner_total(s, from) > MAX_OWNER_ENTRIES || !entry_fits(s[from]));
            },
            Ok(n) => {
                lemma_recent_counted(s, from + 1, n);
                if recent_counted(s, from, total) is Ok {
                    assert forall|i: int| from <= i < s.len() implies entry_fits(
                        #[trigger] s[i],
                    ) by {
                        if i > from {
                            assert(entry_fits(s[i]));
                        }
                    }
                }
            },
        }
    }
}

proof fn lemma_owner_total_cost(s: Seq<RecentView>)
    ensures
        cost_recent_items(s).owners == owner_total(s, 0),
    decreases s.len(),
{
    if s.len() > 0 {
        lemma_owner_total_cost(s.drop_first());
        lemma_owner_total_shift(s, 0);
        lemma_cost_generations_items(s[0].coverage.owners);
        assert(cost_recent(s[0]).owners == s[0].coverage.owners.len());
    }
}

proof fn lemma_owner_total_shift(s: Seq<RecentView>, from: int)
    requires
        s.len() > 0,
        0 <= from <= s.len() - 1,
    ensures
        owner_total(s.drop_first(), from) == owner_total(s, from + 1),
    decreases s.len() - from,
{
    if from < s.len() - 1 {
        lemma_owner_total_shift(s, from + 1);
    }
}

/// A state respects the writer's limits exactly where its owner entries are few
/// enough, its ids short enough, its identities well paired, its histories,
/// recent inputs and byte strings short enough, and its reader stays within
/// budget.
pub proof fn law_limits_are_wire_limits(c: CheckpointView)
    requires
        state_typed(c),
    ensures
        limits_error(c) is None <==> ok_checkpoint(c) && cost_checkpoint(c).within(),
{
    reveal(ok_body);
    reveal(ok_tail);
    reveal(cost_body);
    reveal(cost_tail);
    law_charge_is_cost(c);
    lemma_first_long_key(c.owner_generations, 0);
    lemma_first_long_key(c.lifecycle_intent.owners, 0);
    lemma_cost_generations_items(c.owner_generations);
    lemma_cost_digests_items(c.lifecycle_intent.owners);
    lemma_owner_total_cost(c.recent_inputs);
    lemma_cost_block_items(c.canonical_history);
    lemma_cost_block_items(c.historical_position.canonical_history);
    lemma_cost_block_items(c.live_position.canonical_history);
    let g = c.owner_generations.len();
    let l = c.lifecycle_intent.owners.len();
    let t = owner_total(c.recent_inputs, 0);
    assert(cost_checkpoint(c).owners == g + l + t);
    if g + l <= MAX_OWNER_ENTRIES {
        lemma_recent_counted(c.recent_inputs, 0, g + l);
    }
    assert forall|i: int| 0 <= i < c.recent_inputs.len() implies (entry_fits(
        #[trigger] c.recent_inputs[i],
    ) <==> crate::wire_laws::ok_recent(c.recent_inputs[i]) || c.recent_inputs[i].coverage.owners.len()
        > MAX_OWNER_ENTRIES && entry_fits(c.recent_inputs[i])) by {
        lemma_first_long_key(c.recent_inputs[i].coverage.owners, 0);
        assert(map_typed(c.recent_inputs[i].coverage.owners));
    }
    assert forall|i: int| 0 <= i < c.recent_inputs.len() implies (
    #[trigger] c.recent_inputs[i]).coverage.owners.len() <= t by {
        lemma_owner_total_member(c.recent_inputs, 0, i);
    }
    if limits_error(c) is None {
        assert(ok_body(c));
        assert(ok_tail(c));
    }
    if ok_checkpoint(c) && cost_checkpoint(c).within() {
        assert forall|i: int| 0 <= i < c.recent_inputs.len() implies entry_fits(
            #[trigger] c.recent_inputs[i],
        ) by {
            assert(crate::wire_laws::ok_recent(c.recent_inputs[i]));
        }
        assert(state_counted(c) is Ok);
        assert(opaque_error(c) is None);
        assert(counts_error(c) is None);
    }
}

/// What respects the wire limits is well typed.
pub proof fn lemma_ok_is_typed(c: CheckpointView)
    requires
        ok_checkpoint(c),
    ensures
        state_typed(c),
{
    reveal(ok_body);
    assert forall|i: int| 0 <= i < c.recent_inputs.len() implies map_typed(
        (#[trigger] c.recent_inputs[i]).coverage.owners,
    ) by {
        assert(crate::wire_laws::ok_recent(c.recent_inputs[i]));
    }
}

proof fn lemma_owner_total_member(s: Seq<RecentView>, from: int, i: int)
    requires
        0 <= from <= i < s.len(),
    ensures
        s[i].coverage.owners.len() <= owner_total(s, from),
    decreases s.len() - from,
{
    if from < i {
        lemma_owner_total_member(s, from + 1, i);
    }
}

} // verus!
