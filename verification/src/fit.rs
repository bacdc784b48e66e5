//! Making a state fit its durable limits by forgetting the oldest inputs.
use crate::checkpoint::{
    recent_view, CheckpointView, HybridCheckpointV5, RecentView, StoredRecentInput,
};
use crate::codec::{
    checkpoint_payload_len_after_dropping_recent,
    validate_hybrid_checkpoint_v5_limits_after_dropping_recent, validate_hybrid_checkpoint_v5_state,
};
use crate::config::recent_owner_entry_count;
use crate::decode::{no_budget, MAX_CHECKPOINT_PAYLOAD_BYTES};
use crate::error::SubscriberError;
use crate::history::truncate_front_to;
use crate::limits::{counts_error, limits_error, opaque_error, owners_counted};
use crate::limits_laws::{entry_fits, law_charge_is_cost, lemma_recent_counted, owner_total};
use crate::rlp::{be_bytes, lemma_be_bytes, rlp_header, rlp_string, rlp_uint};
use crate::validate::{first, law_dropping_recent_keeps_valid, state_error, SequenceVerdict};
use crate::wire::{capped, enc_back, enc_checkpoint, enc_middle, enc_tail, flat_recent};
use crate::wire_laws::{
    cost_body, cost_checkpoint, cost_recent_items, cost_recents, cost_tail, nodes, sum,
};
use vstd::prelude::*;

verus! {

/// Whether a state without its oldest `dropped` recent inputs can be written.
pub open spec fn fits(c: CheckpointView, dropped: int) -> bool {
    limits_error(c.drop_recent(dropped)) is None && enc_checkpoint(c.drop_recent(dropped)).len()
        <= MAX_CHECKPOINT_PAYLOAD_BYTES
}

/// The smallest drop from `from` on that leaves at most `max` owner
/// associations.
pub open spec fn owner_drop(s: Seq<RecentView>, from: int, max: nat) -> int
    decreases s.len() - from,
{
    if from < 0 || from >= s.len() || owner_total(s, from) <= max {
        from
    } else {
        owner_drop(s, from + 1, max)
    }
}

/// The smallest drop from `from` up to `most` with which the state can be
/// written.
pub open spec fn fitting_drop(c: CheckpointView, from: int, most: int) -> int
    decreases most - from,
{
    if from >= most || fits(c, from) {
        from
    } else {
        fitting_drop(c, from + 1, most)
    }
}

/// What fitting a state gives: the state without the fewest of its oldest
/// recent inputs with which it respects every limit, the newest `protected`
/// ones being kept in any case; or why there is no such state.
pub open spec fn fitted(
    c: CheckpointView,
    protected: nat,
    recent_capacity: nat,
    max_owners: nat,
    sequence: SequenceVerdict,
) -> Result<CheckpointView, SubscriberError> {
    let count = c.recent_inputs.len();
    if protected > count {
        Err(
            SubscriberError::Provider(
                "hybrid current delivery has an invalid protected witness suffix",
            ),
        )
    } else if owner_total(c.recent_inputs, 0) > usize::MAX {
        Err(SubscriberError::Provider("hybrid recent owner-entry accounting overflowed"))
    } else {
        let most = count - protected;
        let over = if count > recent_capacity {
            count - recent_capacity
        } else {
            0
        };
        let required = owner_drop(c.recent_inputs, over, max_owners);
        if required > most {
            Err(
                SubscriberError::ProtectedSuffixExceedsBudgets {
                    protected: protected as usize,
                    owners: owner_total(c.recent_inputs, required) as usize,
                },
            )
        } else if !fits(c, most) {
            Err(
                match limits_error(c.drop_recent(most)) {
                    Some(e) => e,
                    None => SubscriberError::ProtectedSuffixTooLarge {
                        limit: MAX_CHECKPOINT_PAYLOAD_BYTES,
                        needs: capped(enc_checkpoint(c.drop_recent(most)).len()) as usize,
                    },
                },
            )
        } else {
            let n = c.drop_recent(fitting_drop(c, required, most));
            match first(state_error(n, sequence), limits_error(n)) {
                Some(e) => Err(e),
                None => Ok(n),
            }
        }
    }
}

/// What is left of a state that cannot be made to fit: all of it, but for the
/// inputs that were forgotten before the rest was found to be invalid.
pub open spec fn left_unfit(
    c: CheckpointView,
    protected: nat,
    recent_capacity: nat,
    max_owners: nat,
) -> CheckpointView {
    let count = c.recent_inputs.len();
    let most = count - protected;
    let over = if count > recent_capacity {
        count - recent_capacity
    } else {
        0
    };
    let required = owner_drop(c.recent_inputs, over, max_owners);
    if protected > count || owner_total(c.recent_inputs, 0) > usize::MAX || required > most || !fits(
        c,
        most,
    ) {
        c
    } else {
        c.drop_recent(fitting_drop(c, required, most))
    }
}

// ---------------------------------------------------------------------------
// Dropping more never makes a state harder to write
// ---------------------------------------------------------------------------

proof fn lemma_owner_total_falls(s: Seq<RecentView>, a: int, b: int)
    requires
        0 <= a <= b <= s.len(),
    ensures
        owner_total(s, b) <= owner_total(s, a),
    decreases b - a,
{
    if a < b {
        lemma_owner_total_falls(s, a + 1, b);
    }
}

pub proof fn lemma_owner_total_skip(s: Seq<RecentView>, d: int, from: int)
    requires
        0 <= d <= s.len(),
        0 <= from <= s.len() - d,
    ensures
        owner_total(s.skip(d), from) == owner_total(s, from + d),
    decreases s.len() - from,
{
    if from < s.len() - d {
        lemma_owner_total_skip(s, d, from + 1);
    }
}

proof fn lemma_recent_cost_falls(s: Seq<RecentView>)
    requires
        s.len() > 0,
    ensures
        cost_recent_items(s.drop_first()).nodes <= cost_recent_items(s).nodes,
        cost_recent_items(s.drop_first()).heap <= cost_recent_items(s).heap,
        cost_recent_items(s.drop_first()).owners <= cost_recent_items(s).owners,
{
}

/// Dropping one more recent input keeps within the reader's budget.
proof fn lemma_cost_falls(c: CheckpointView, d: int)
    requires
        0 <= d < c.recent_inputs.len(),
        cost_checkpoint(c.drop_recent(d)).within(),
    ensures
        cost_checkpoint(c.drop_recent(d + 1)).within(),
{
    let a = c.drop_recent(d);
    let b = c.drop_recent(d + 1);
    assert(a.recent_inputs.drop_first() =~= b.recent_inputs);
    lemma_recent_cost_falls(a.recent_inputs);
    let size = vstd::layout::size_of::<StoredRecentInput>();
    let n = a.recent_inputs.len();
    assert(size * (n - 1) <= size * n) by (nonlinear_arith)
        requires
            n >= 1,
    ;
    assert(cost_recents(b.recent_inputs).nodes <= cost_recents(a.recent_inputs).nodes);
    assert(cost_recents(b.recent_inputs).heap <= cost_recents(a.recent_inputs).heap);
    assert(cost_recents(b.recent_inputs).owners <= cost_recents(a.recent_inputs).owners);
    reveal(cost_body);
    reveal(cost_tail);
    assert(cost_tail(a) == cost_tail(b));
}

/// Dropping one more recent input keeps within every limit.
proof fn lemma_limits_fall(c: CheckpointView, d: int)
    requires
        0 <= d < c.recent_inputs.len(),
        limits_error(c.drop_recent(d)) is None,
    ensures
        limits_error(c.drop_recent(d + 1)) is None,
{
    let a = c.drop_recent(d);
    let b = c.drop_recent(d + 1);
    assert(a.recent_inputs.drop_first() =~= b.recent_inputs);
    law_charge_is_cost(a);
    law_charge_is_cost(b);
    lemma_cost_falls(c, d);
    assert(sum(no_budget(), cost_checkpoint(a)) == cost_checkpoint(a));
    assert(sum(no_budget(), cost_checkpoint(b)) == cost_checkpoint(b));
    let g = owners_counted(c.owner_generations, "owner generations", 0)->Ok_0;
    let l = owners_counted(c.lifecycle_intent.owners, "lifecycle intent", g)->Ok_0;
    lemma_recent_counted(a.recent_inputs, 0, l);
    lemma_recent_counted(b.recent_inputs, 0, l);
    lemma_owner_total_skip(c.recent_inputs, d, 0);
    lemma_owner_total_skip(c.recent_inputs, d + 1, 0);
    assert forall|i: int| 0 <= i < b.recent_inputs.len() implies entry_fits(
        #[trigger] b.recent_inputs[i],
    ) by {
        assert(b.recent_inputs[i] == a.recent_inputs[i + 1]);
        assert(entry_fits(a.recent_inputs[i + 1]));
    }
    assert(counts_error(b) is None);
    assert(opaque_error(b) == opaque_error(a));
}

pub proof fn lemma_header_grows(list: bool, a: nat, b: nat)
    requires
        a <= b,
    ensures
        rlp_header(list, a).len() <= rlp_header(list, b).len(),
{
    reveal(rlp_header);
    lemma_be_bytes(a);
    lemma_be_bytes(b);
    lemma_digits_grow(a, b);
}

pub proof fn lemma_digits_grow(a: nat, b: nat)
    requires
        a <= b,
    ensures
        be_bytes(a).len() <= be_bytes(b).len(),
    decreases b,
{
    if a > 0 {
        assert(a / 256 <= b / 256) by (nonlinear_arith)
            requires
                a <= b,
        ;
        lemma_digits_grow(a / 256, b / 256);
    }
}

/// Dropping one more recent input never makes the payload longer.
proof fn lemma_length_falls(c: CheckpointView, d: int)
    requires
        0 <= d < c.recent_inputs.len(),
    ensures
        enc_checkpoint(c.drop_recent(d + 1)).len() <= enc_checkpoint(c.drop_recent(d)).len(),
{
    let a = c.drop_recent(d);
    let b = c.drop_recent(d + 1);
    assert(a.recent_inputs.drop_first() =~= b.recent_inputs);
    let fa = flat_recent(a.recent_inputs);
    let fb = flat_recent(b.recent_inputs);
    assert(fb.len() <= fa.len());
    lemma_header_grows(true, fb.len(), fa.len());
    assert(enc_tail(a) == enc_tail(b)) by {
        reveal(enc_tail);
    }
    assert(enc_back(b).len() <= enc_back(a).len());
    assert(enc_middle(b).len() <= enc_middle(a).len()) by {
        reveal(enc_middle);
    }
    let pa = rlp_uint(a.chain_id as nat) + (rlp_string(a.epoch.bytes()) + (rlp_uint(
        a.next_synthetic_token as nat,
    ) + (rlp_uint(a.lifecycle_generation as nat) + enc_middle(a))));
    let pb = rlp_uint(b.chain_id as nat) + (rlp_string(b.epoch.bytes()) + (rlp_uint(
        b.next_synthetic_token as nat,
    ) + (rlp_uint(b.lifecycle_generation as nat) + enc_middle(b))));
    lemma_header_grows(true, pb.len(), pa.len());
}

/// Once a drop fits, every larger one fits too.
pub proof fn law_larger_drops_fit(c: CheckpointView, a: int, b: int)
    requires
        0 <= a <= b <= c.recent_inputs.len(),
        fits(c, a),
    ensures
        fits(c, b),
    decreases b - a,
{
    if a < b {
        lemma_limits_fall(c, a);
        lemma_length_falls(c, a);
        law_larger_drops_fit(c, a + 1, b);
    }
}

/// A drop below which nothing fits is the smallest that does.
proof fn lemma_fitting_drop(c: CheckpointView, from: int, most: int, at: int)
    requires
        from <= at <= most,
        fits(c, at),
        forall|d: int| from <= d < at ==> !#[trigger] fits(c, d),
    ensures
        fitting_drop(c, from, most) == at,
    decreases at - from,
{
    if from < at {
        assert(!fits(c, from));
        lemma_fitting_drop(c, from + 1, most, at);
    }
}

proof fn lemma_fitting_fits(c: CheckpointView, from: int, most: int)
    requires
        from <= most,
        fits(c, most),
    ensures
        fits(c, fitting_drop(c, from, most)),
    decreases most - from,
{
    if from < most && !fits(c, from) {
        lemma_fitting_fits(c, from + 1, most);
    }
}

/// Whether a state without its oldest `dropped` recent inputs can be written.
fn check_fit(state: &HybridCheckpointV5, dropped: usize) -> (r: bool)
    requires
        dropped <= state.recent_inputs@.len(),
    ensures
        r == fits(state@, dropped as int),
{
    if validate_hybrid_checkpoint_v5_limits_after_dropping_recent(state, dropped).is_err() {
        return false;
    }
    match checkpoint_payload_len_after_dropping_recent(state, dropped) {
        Ok(length) => length <= MAX_CHECKPOINT_PAYLOAD_BYTES,
        Err(_) => false,
    }
}

/// The smallest drop, from `required` up to `most`, with which a state can be
/// written.
fn find_fit(state: &HybridCheckpointV5, required: usize, most: usize) -> (r: usize)
    requires
        required <= most <= state.recent_inputs@.len(),
        fits(state@, most as int),
    ensures
        r == fitting_drop(state@, required as int, most as int),
        required <= r <= most,
{
    let mut low: usize = required;
    let mut high: usize = most;
    while low < high
        invariant
            required <= low <= high <= most,
            most <= state.recent_inputs@.len(),
            fits(state@, high as int),
            forall|d: int| required <= d < low ==> !#[trigger] fits(state@, d),
        decreases high - low,
    {
        let middle: usize = low + (high - low) / 2;
        if check_fit(state, middle) {
            high = middle;
        } else {
            proof {
                assert forall|d: int| required <= d < middle + 1 implies !#[trigger] fits(
                    state@,
                    d,
                ) by {
                    if fits(state@, d) {
                        law_larger_drops_fit(state@, d, middle as int);
                    }
                }
            }
            low = middle + 1;
        }
    }
    proof {
        lemma_fitting_drop(state@, required as int, most as int, low as int);
    }
    low
}

/// The smallest drop, from `over` on, that leaves at most `max` owner
/// associations.
fn find_owner_drop(entries: &[StoredRecentInput], over: usize, max: usize) -> (r: Result<
    (usize, usize),
    SubscriberError,
>)
    requires
        over <= entries@.len(),
    ensures
        match r {
            Ok((drop, left)) => owner_total(recent_view(entries@), 0) <= usize::MAX && drop
                == owner_drop(recent_view(entries@), over as int, max as nat) && left
                == owner_total(recent_view(entries@), drop as int) && drop <= entries@.len(),
            Err(e) => owner_total(recent_view(entries@), 0) > usize::MAX && e
                == SubscriberError::Provider("hybrid recent owner-entry accounting overflowed"),
        },
{
    let ghost all = recent_view(entries@);
    let mut left: usize = recent_owner_entry_count(entries)?;
    let mut i: usize = 0;
    while i < over
        invariant
            i <= over <= entries@.len(),
            all == recent_view(entries@),
            left == owner_total(all, i as int),
        decreases over - i,
    {
        assert(all[i as int] == entries@[i as int]@);
        left = left - entries[i].coverage.owners.len();
        i += 1;
    }
    while i < entries.len() && left > max
        invariant
            over <= i <= entries@.len(),
            all == recent_view(entries@),
            left == owner_total(all, i as int),
            owner_drop(all, over as int, max as nat) == owner_drop(all, i as int, max as nat),
        decreases entries@.len() - i,
    {
        assert(all[i as int] == entries@[i as int]@);
        left = left - entries[i].coverage.owners.len();
        i += 1;
    }
    Ok((i, left))
}

/// Forgets the fewest of the oldest recent inputs with which the state respects
/// the journal budgets and can be written, and never one of the newest
/// `protected_recent_inputs`. Where that is not possible the error says why; a
/// state that was valid is then as it was.
pub fn fit_checkpoint_to_durable_limits(
    state: &mut HybridCheckpointV5,
    protected_recent_inputs: usize,
    recent_input_capacity: usize,
    max_recent_owner_entries: usize,
    sequence: &SequenceVerdict,
) -> (r: Result<(), SubscriberError>)
    ensures
        match r {
            Ok(_) => fitted(
                old(state)@,
                protected_recent_inputs as nat,
                recent_input_capacity as nat,
                max_recent_owner_entries as nat,
                *sequence,
            ) == Ok::<_, SubscriberError>(final(state)@),
            Err(e) => fitted(
                old(state)@,
                protected_recent_inputs as nat,
                recent_input_capacity as nat,
                max_recent_owner_entries as nat,
                *sequence,
            ) == Err::<CheckpointView, _>(e) && final(state)@ == left_unfit(
                old(state)@,
                protected_recent_inputs as nat,
                recent_input_capacity as nat,
                max_recent_owner_entries as nat,
            ),
        },
        r is Err && state_error(old(state)@, *sequence) is None ==> final(state)@ == old(state)@,
{
    let ghost whole = state@;
    let count: usize = state.recent_inputs.len();
    if protected_recent_inputs > count {
        return Err(
            SubscriberError::Provider(
                "hybrid current delivery has an invalid protected witness suffix",
            ),
        );
    }
    let most: usize = count - protected_recent_inputs;
    let over: usize = count.saturating_sub(recent_input_capacity);
    let (required, owners) = find_owner_drop(
        state.recent_inputs.as_slice(),
        over,
        max_recent_owner_entries,
    )?;
    if required > most {
        return Err(
            SubscriberError::ProtectedSuffixExceedsBudgets {
                protected: protected_recent_inputs,
                owners,
            },
        );
    }
    if !check_fit(state, most) {
        validate_hybrid_checkpoint_v5_limits_after_dropping_recent(state, most)?;
        let needs: usize = checkpoint_payload_len_after_dropping_recent(state, most)?;
        return Err(
            SubscriberError::ProtectedSuffixTooLarge {
                limit: MAX_CHECKPOINT_PAYLOAD_BYTES,
                needs,
            },
        );
    }
    let drop: usize = find_fit(state, required, most);
    let ghost before = state@;
    truncate_front_to(&mut state.recent_inputs, count - drop);
    proof {
        assert(recent_view(state.recent_inputs@) =~= before.recent_inputs.skip(drop as int));
        assert(state@ == before.drop_recent(drop as int));
    }
    proof {
        lemma_fitting_fits(before, required as int, most as int);
        if state_error(whole, *sequence) is None {
            law_dropping_recent_keeps_valid(whole, *sequence, drop as int);
        }
    }
    validate_hybrid_checkpoint_v5_state(state, sequence)
}

/// Fitting forgets an oldest part of the journal and nothing else: the newest
/// `protected` inputs stay, in their order, and every other field is untouched.
pub proof fn law_fit_keeps_protected_suffix(
    c: CheckpointView,
    protected: nat,
    recent_capacity: nat,
    max_owners: nat,
    sequence: SequenceVerdict,
)
    ensures
        match fitted(c, protected, recent_capacity, max_owners, sequence) {
            Ok(n) => exists|d: int|
                0 <= d <= c.recent_inputs.len() - protected && n == #[trigger] c.drop_recent(d)
                    && n.recent_inputs.len() <= recent_capacity && owner_total(n.recent_inputs, 0)
                    <= max_owners,
            Err(_) => true,
        },
{
    if let Ok(n) = fitted(c, protected, recent_capacity, max_owners, sequence) {
        let count = c.recent_inputs.len();
        let most = count - protected;
        let over = if count > recent_capacity {
            count - recent_capacity
        } else {
            0
        };
        let required = owner_drop(c.recent_inputs, over, max_owners);
        lemma_owner_drop(c.recent_inputs, over, max_owners);
        lemma_fitting_range(c, required, most);
        let d = fitting_drop(c, required, most);
        lemma_owner_total_skip(c.recent_inputs, d, 0);
        lemma_owner_total_falls(c.recent_inputs, required, d);
        assert(n == c.drop_recent(d));
    }
}

proof fn lemma_owner_drop(s: Seq<RecentView>, from: int, max: nat)
    requires
        0 <= from <= s.len(),
    ensures
        from <= owner_drop(s, from, max) <= s.len(),
        owner_total(s, owner_drop(s, from, max)) <= max,
    decreases s.len() - from,
{
    if from < s.len() && owner_total(s, from) > max {
        lemma_owner_drop(s, from + 1, max);
    }
}

proof fn lemma_fitting_range(c: CheckpointView, from: int, most: int)
    requires
        from <= most,
    ensures
        from <= fitting_drop(c, from, most) <= most,
    decreases most - from,
{
    if from < most && !fits(c, from) {
        lemma_fitting_range(c, from + 1, most);
    }
}

/// Fitting forgets no more than it must: with one input less forgotten, a
/// budget or the payload limit would be exceeded.
pub proof fn law_fit_forgets_no_more_than_needed(
    c: CheckpointView,
    protected: nat,
    recent_capacity: nat,
    max_owners: nat,
    sequence: SequenceVerdict,
    d: int,
)
    requires
        fitted(c, protected, recent_capacity, max_owners, sequence) is Ok,
        0 <= d < c.recent_inputs.len(),
        c.recent_inputs.len() - d > fitted(
            c,
            protected,
            recent_capacity,
            max_owners,
            sequence,
        )->Ok_0.recent_inputs.len(),
    ensures
        c.recent_inputs.len() - d > recent_capacity || owner_total(c.recent_inputs, d) > max_owners
            || !fits(c, d),
{
    let count = c.recent_inputs.len();
    let most = count - protected;
    let over = if count > recent_capacity {
        count - recent_capacity
    } else {
        0
    };
    let required = owner_drop(c.recent_inputs, over, max_owners);
    lemma_owner_drop(c.recent_inputs, over, max_owners);
    lemma_fitting_range(c, required, most);
    if d >= over && owner_total(c.recent_inputs, d) <= max_owners {
        lemma_owner_drop_least(c.recent_inputs, over, max_owners, d);
        if fits(c, d) {
            lemma_fitting_least(c, required, most, d);
        }
    }
}

proof fn lemma_owner_drop_least(s: Seq<RecentView>, from: int, max: nat, d: int)
    requires
        0 <= from <= d <= s.len(),
        owner_total(s, d) <= max,
    ensures
        owner_drop(s, from, max) <= d,
    decreases d - from,
{
    if from < d && owner_total(s, from) > max {
        lemma_owner_drop_least(s, from + 1, max, d);
    }
}

proof fn lemma_fitting_least(c: CheckpointView, from: int, most: int, d: int)
    requires
        from <= d <= most,
        fits(c, d),
    ensures
        fitting_drop(c, from, most) <= d,
    decreases d - from,
{
    if from < d && !fits(c, from) {
        lemma_fitting_least(c, from + 1, most, d);
    }
}

} // verus!
