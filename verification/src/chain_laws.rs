//! How deliveries move what is retained of the chain.
use crate::audience::{coverage_with, no_coverage};
use crate::checkpoint::{RecentView, SourceView};
use crate::commit::{entry_index, lemma_entry_index, survivors, touched, AudienceCommitView};
use crate::error::SubscriberError;
use crate::history::{
    ascending, lemma_by_height_ascending, lemma_newest_ascending, lemma_up_to, moved, newest,
    rewound, source_rewound, trail_ok, up_to, CanonicalMutation, Trail,
};
use crate::ingress::BufferedView;
use crate::model::{merged_block, BlockRef};
use crate::plan::{
    completed_history, last_block, planned, projected, CanonicalPlanError, OutcomeView,
    SequenceMutation,
};
use crate::recovery_laws::{agree, law_accounts_join_where_they_agree};
use crate::selection::{items_at, lemma_positions, positions};
use crate::validate::{block_at, index_of, lemma_index_of};
use vstd::prelude::*;

verus! {

// ---------------------------------------------------------------------------
// One step along the chain
// ---------------------------------------------------------------------------

/// Whether a block of a trail stands for `block`: it agrees with it, and knows
/// what it knows.
pub open spec fn stands_for(known: BlockRef, block: BlockRef) -> bool {
    agree(known, block) && (block.parent_hash is Some ==> known.parent_hash == block.parent_hash)
        && (block.timestamp is Some ==> known.timestamp == block.timestamp)
}

/// Whether a history holds a block that stands for `block`.
pub open spec fn holds(history: Seq<BlockRef>, block: BlockRef) -> bool {
    exists|i: int| 0 <= i < history.len() && stands_for(#[trigger] history[i], block)
}

pub proof fn lemma_block_in(history: Seq<BlockRef>, number: u64)
    requires
        ascending(history),
    ensures
        ({
            let i = index_of(history, number, 0);
            &&& 0 <= i <= history.len()
            &&& i < history.len() ==> history[i].number == number && block_at(history, number)
                == Some(history[i])
            &&& i == history.len() ==> block_at(history, number) is None && forall|j: int|
                0 <= j < history.len() ==> (#[trigger] history[j]).number != number
        }),
        forall|j: int|
            0 <= j < history.len() && (#[trigger] history[j]).number == number ==> block_at(
                history,
                number,
            ) == Some(history[j]),
{
    lemma_index_of(history, number, 0);
    let i = index_of(history, number, 0);
    assert forall|j: int| 0 <= j < history.len() && (#[trigger] history[j]).number
        == number implies block_at(history, number) == Some(history[j]) by {
        if i < j {
            assert(history[i].number < history[j].number);
        }
    }
}

/// A block above the head becomes the head, and is retained behind all that was,
/// of which only the oldest may go to make room. It is refused exactly where it
/// follows the head directly and names another parent.
pub proof fn law_block_above_the_head_becomes_it(t: Trail, block: BlockRef, capacity: nat)
    requires
        trail_ok(t, capacity),
        capacity > 0,
        t.head is None || block.number > t.head->Some_0.number,
    ensures
        moved(t, CanonicalMutation::Advance(block), capacity) is Err <==> t.head is Some
            && block.number == t.head->Some_0.number + 1 && block.parent_hash is Some
            && block.parent_hash->Some_0 != t.head->Some_0.hash,
        match moved(t, CanonicalMutation::Advance(block), capacity) {
            Ok(n) => {
                &&& n.head == Some(block)
                &&& n.history.len() > 0
                &&& n.history.last() == block
                &&& t.history.len() < capacity ==> n.history == t.history.push(block)
                &&& t.history.len() == capacity ==> n.history == t.history.drop_first().push(block)
            },
            Err(_) => true,
        },
{
    lemma_block_in(t.history, block.number);
    let i = index_of(t.history, block.number, 0);
    if i < t.history.len() {
        assert(t.history[i].number <= t.history[t.history.len() - 1].number);
        assert(false);
    }
    let h = t.history.push(block);
    assert(ascending(h)) by {
        assert forall|a: int, b: int| 0 <= a < b < h.len() implies (#[trigger] h[a]).number < (
        #[trigger] h[b]).number by {
            if b == t.history.len() {
                assert(t.history[a].number <= t.history[t.history.len() - 1].number);
            }
        }
    }
    lemma_by_height_ascending(h);
    if t.history.len() < capacity {
        assert(newest(h, capacity) =~= h);
    } else {
        assert(newest(h, capacity) =~= t.history.drop_first().push(block));
    }
}

/// A block at or below the head moves nothing: it must agree with what is
/// retained at its height, and at most completes what is known of it.
pub proof fn law_block_below_the_head_moves_nothing(t: Trail, block: BlockRef, capacity: nat)
    requires
        trail_ok(t, capacity),
        capacity > 0,
        t.head is Some,
        block.number <= t.head->Some_0.number,
    ensures
        match moved(t, CanonicalMutation::Advance(block), capacity) {
            Ok(n) => {
                &&& n.head is Some
                &&& n.head->Some_0.number == t.head->Some_0.number
                &&& n.head->Some_0.hash == t.head->Some_0.hash
                &&& n.history.len() == t.history.len()
                &&& forall|i: int|
                    0 <= i < t.history.len() ==> stands_for(
                        #[trigger] n.history[i],
                        t.history[i],
                    ) && (t.history[i].number != block.number ==> n.history[i] == t.history[i])
                &&& holds(n.history, block)
            },
            Err(_) => forall|i: int|
                0 <= i < t.history.len() ==> !agree(#[trigger] t.history[i], block) || !agree(
                    t.history[i],
                    t.head->Some_0,
                ) || block.number == t.head->Some_0.number,
        },
        moved(t, CanonicalMutation::Advance(block), capacity) is Err && block.number
            == t.head->Some_0.number ==> !agree(t.head->Some_0, block) || !agree(
            t.history.last(),
            merged_block(t.head->Some_0, block)->Ok_0,
        ),
{
    lemma_block_in(t.history, block.number);
    let i = index_of(t.history, block.number, 0);
    let top = t.history.len() - 1;
    let head = t.head->Some_0;
    law_accounts_join_where_they_agree(head, block);
    if block.number == head.number {
        assert(t.history[top].number == block.number);
        assert(i == top) by {
            if i < top {
                assert(t.history[i].number < t.history[top].number);
            }
        }
        if agree(head, block) {
            let m = merged_block(head, block)->Ok_0;
            law_accounts_join_where_they_agree(t.history[top], m);
            if let Ok(n) = moved(t, CanonicalMutation::Advance(block), capacity) {
                assert(stands_for(n.history[top], block));
                assert forall|j: int| 0 <= j < t.history.len() implies stands_for(
                    #[trigger] n.history[j],
                    t.history[j],
                ) && (t.history[j].number != block.number ==> n.history[j] == t.history[j]) by {
                    if j < top {
                        assert(t.history[j].number < t.history[top].number);
                    }
                }
            }
        }
    } else if i < t.history.len() {
        law_accounts_join_where_they_agree(t.history[i], block);
        if let Ok(n) = moved(t, CanonicalMutation::Advance(block), capacity) {
            assert(stands_for(n.history[i], block));
        } else {
            assert forall|j: int| 0 <= j < t.history.len() implies !agree(
                #[trigger] t.history[j],
                block,
            ) by {
                if t.history[j].number == block.number {
                    assert(block_at(t.history, block.number) == Some(t.history[j]));
                }
            }
        }
    }
}

proof fn lemma_up_to_complete(s: Seq<BlockRef>, number: u64, x: BlockRef)
    ensures
        up_to(s, number).contains(x) <==> s.contains(x) && x.number <= number,
    decreases s.len(),
{
    if s.len() > 0 {
        let front = s.drop_last();
        lemma_up_to_complete(front, number, x);
        let kept = up_to(front, number);
        let out = up_to(s, number);
        if front.contains(x) {
            let i = choose|i: int| 0 <= i < front.len() && front[i] == x;
            assert(s[i] == x);
        }
        if s.contains(x) && x != s.last() {
            let i = choose|i: int| 0 <= i < s.len() && s[i] == x;
            assert(front[i] == x);
        }
        if s.last() == x {
            assert(s[s.len() - 1] == x);
        }
        if kept.contains(x) {
            let i = choose|i: int| 0 <= i < kept.len() && kept[i] == x;
            assert(out[i] == x);
        }
        if s.last().number <= number {
            assert(out[kept.len() as int] == s.last());
            if out.contains(x) && x != s.last() {
                let i = choose|i: int| 0 <= i < out.len() && out[i] == x;
                assert(kept[i] == x);
            }
        }
    }
}

/// A rewind that is accepted makes its ancestor the head and the last retained
/// block. Nothing above it is retained any more; what is below stays, but for
/// the oldest where there is no room. It is refused where the ancestor
/// contradicts the retained block at its height, is above the head, or lies
/// before everything retained.
pub proof fn law_rewind_drops_what_is_above(t: Trail, ancestor: BlockRef, capacity: nat)
    requires
        trail_ok(t, capacity),
        capacity > 0,
    ensures
        match moved(t, CanonicalMutation::Rewind(ancestor), capacity) {
            Ok(n) => {
                &&& n.head is Some
                &&& agree(n.head->Some_0, ancestor)
                &&& n.history.len() > 0
                &&& stands_for(n.history.last(), ancestor)
                &&& forall|i: int|
                    0 <= i < n.history.len() - 1 ==> (#[trigger] n.history[i]).number
                        < ancestor.number && t.history.contains(n.history[i])
                &&& forall|i: int|
                    0 <= i < t.history.len() && (#[trigger] t.history[i]).number < ancestor.number
                        ==> n.history.contains(t.history[i]) || n.history.len() == capacity
                        && t.history[i].number < n.history[0].number
                &&& t.head is Some ==> ancestor.number <= t.head->Some_0.number
            },
            Err(_) => t.head is Some && {
                ||| ancestor.number > t.head->Some_0.number
                ||| ancestor.number < t.history[0].number
                ||| exists|i: int|
                    0 <= i < t.history.len() && (#[trigger] t.history[i]).number == ancestor.number
                        && !agree(t.history[i], ancestor)
                ||| ancestor.number == t.head->Some_0.number && !agree(t.head->Some_0, ancestor)
            },
        },
{
    lemma_block_in(t.history, ancestor.number);
    lemma_up_to(t.history, ancestor.number);
    let h = t.history;
    let kept = up_to(h, ancestor.number);
    let at = index_of(h, ancestor.number, 0);
    if at < h.len() {
        law_accounts_join_where_they_agree(h[at], ancestor);
        lemma_up_to_complete(h, ancestor.number, h[at]);
    }
    if t.head is Some {
        law_accounts_join_where_they_agree(t.head->Some_0, ancestor);
    }
    let known = kept.len() > 0 && kept.last().number == ancestor.number;
    if known {
        assert(h.contains(kept.last()));
        let k = choose|k: int| 0 <= k < h.len() && h[k] == kept.last();
        assert(block_at(h, ancestor.number) == Some(h[k]));
        law_accounts_join_where_they_agree(kept.last(), ancestor);
    } else if at < h.len() {
        assert(kept.contains(h[at]));
        let k = choose|k: int| 0 <= k < kept.len() && kept[k] == h[at];
        if k < kept.len() - 1 {
            assert(kept[k].number < kept[kept.len() - 1].number);
        }
        assert(false);
    }
    if let Ok(n) = moved(t, CanonicalMutation::Rewind(ancestor), capacity) {
        let full = rewound(t, ancestor)->Ok_0.history;
        let body = if known {
            kept.drop_last()
        } else {
            kept
        };
        assert(full.drop_last() =~= body);
        assert(full =~= body.push(full.last()));
        assert(stands_for(full.last(), ancestor));
        let d = if full.len() > capacity {
            full.len() - capacity
        } else {
            0
        };
        assert(n.history =~= full.skip(d));
        assert forall|i: int| 0 <= i < body.len() implies (#[trigger] body[i]).number
            < ancestor.number && h.contains(body[i]) by {
            assert(body[i] == kept[i]);
            if known {
                assert(kept[i].number < kept[kept.len() - 1].number);
            } else if kept[i].number == ancestor.number {
                let k = choose|k: int| 0 <= k < h.len() && h[k] == kept[i];
                assert(h[k].number == ancestor.number);
                assert(block_at(h, ancestor.number) == Some(h[k]));
                assert(at < h.len());
            }
        }
        assert forall|i: int| 0 <= i < n.history.len() - 1 implies (#[trigger] n.history[i]).number
            < ancestor.number && h.contains(n.history[i]) by {
            assert(n.history[i] == body[i + d]);
        }
        assert forall|i: int| 0 <= i < h.len() && (#[trigger] h[i]).number
            < ancestor.number implies n.history.contains(h[i]) || n.history.len() == capacity
            && h[i].number < n.history[0].number by {
            lemma_up_to_complete(h, ancestor.number, h[i]);
            assert(h.contains(h[i]));
            let k = choose|k: int| 0 <= k < kept.len() && kept[k] == h[i];
            assert(k < body.len());
            assert(full[k] == h[i]);
            if k >= d {
                assert(n.history[k - d] == h[i]);
            } else {
                assert(n.history[0] == full[d]);
                if d < body.len() {
                    assert(full[d] == kept[d]);
                    assert(kept[k].number < kept[d].number);
                } else {
                    assert(full[d] == full.last());
                }
            }
        }
    }
}

/// A reset retains nothing.
pub proof fn law_reset_retains_nothing(t: Trail, capacity: nat)
    ensures
        moved(t, CanonicalMutation::Reset, capacity) == Ok::<_, SubscriberError>(
            Trail { history: Seq::empty(), head: None },
        ),
{
}

/// The position of the source that did not report a reorganization: where it is
/// not ahead of the ancestor, it stays; where it is, it loses its token, its
/// cursor and its digest, and its head goes back to the ancestor.
pub proof fn law_other_source_goes_back_too(s: SourceView, ancestor: BlockRef, capacity: nat)
    requires
        capacity > 0,
        trail_ok(Trail { history: s.canonical_history, head: s.coverage_head }, capacity),
    ensures
        s.coverage_head is None || s.coverage_head->Some_0.number < ancestor.number
            ==> source_rewound(s, ancestor, capacity) == Ok::<_, SubscriberError>(s),
        match source_rewound(s, ancestor, capacity) {
            Ok(r) => s.coverage_head is Some && s.coverage_head->Some_0.number > ancestor.number
                ==> {
                &&& r.delivery_token is None
                &&& r.checkpoint is None
                &&& r.delivery_digest is None
                &&& r.coverage_head is Some
                &&& r.coverage_head->Some_0.number == ancestor.number
                &&& r.coverage_head->Some_0.hash == ancestor.hash
            },
            Err(_) => true,
        },
        match source_rewound(s, ancestor, capacity) {
            Ok(r) => s.coverage_head is Some && s.coverage_head->Some_0.number == ancestor.number
                ==> r.delivery_token == s.delivery_token && r.checkpoint == s.checkpoint
                && r.delivery_digest == s.delivery_digest && r.coverage_head is Some
                && r.coverage_head->Some_0.number == ancestor.number,
            Err(_) => true,
        },
{
    if s.coverage_head is Some {
        law_accounts_join_where_they_agree(s.coverage_head->Some_0, ancestor);
    }
}

// ---------------------------------------------------------------------------
// Plans
// ---------------------------------------------------------------------------

/// A batch that the rules accept takes over their controls, heads and steps, and
/// keeps everything that it came with. Where the rules need history, or refuse
/// it, it is not planned, and for their reason.
pub proof fn law_plan_takes_over_the_verdict(b: BufferedView, outcome: OutcomeView, capacity: nat)
    ensures
        match (outcome, planned(b, outcome, capacity)) {
            (OutcomeView::Accepted(plan), Ok(r)) => {
                &&& r.controls == plan.controls
                &&& r.next_safe_head == plan.safe_head
                &&& r.next_finalized_head == plan.finalized_head
                &&& r.next_coverage_head == plan.coverage_head
                &&& completed_history(plan.history, plan.coverage_head, capacity) == Ok::<
                    _,
                    SubscriberError,
                >(r.next_canonical_history)
                &&& r.canonical == projected(plan.mutations)
                &&& r.source_progress == last_block(r.canonical)
                &&& r.records == b.records
                &&& r.token == b.token
                &&& r.checkpoint == b.checkpoint
                &&& r.payload_commitment == b.payload_commitment
                &&& r.max_canonical_block == b.max_canonical_block
                &&& r.accounted_bytes == b.accounted_bytes
                &&& r.delivery_digest == b.delivery_digest
            },
            (OutcomeView::Accepted(plan), Err(e)) => completed_history(
                plan.history,
                plan.coverage_head,
                capacity,
            ) is Err && e is Invalid,
            (OutcomeView::NeedsHistory(reason), r) => r == Err::<BufferedView, _>(
                CanonicalPlanError::NeedsHistoricalRecovery(
                    SubscriberError::NeedsHistory { reason },
                ),
            ),
            (OutcomeView::Refused(reason), r) => r == Err::<BufferedView, _>(
                CanonicalPlanError::Invalid(SubscriberError::SequenceFailed { reason }),
            ),
        },
{
}

/// Whether a step of the rules moves retained blocks.
pub open spec fn moves_blocks(m: SequenceMutation) -> bool {
    match m {
        SequenceMutation::Rewind { .. } => true,
        SequenceMutation::Canonical(_) => true,
        SequenceMutation::Safe(_) => false,
        SequenceMutation::Finalized(_) => false,
    }
}

/// Whether `c` is what a step of the rules does to retained blocks.
pub open spec fn same_step(m: SequenceMutation, c: CanonicalMutation) -> bool {
    match (m, c) {
        (
            SequenceMutation::Rewind { common_ancestor: Some(a) },
            CanonicalMutation::Rewind(b),
        ) => a == b,
        (SequenceMutation::Rewind { common_ancestor: None }, CanonicalMutation::Reset) => true,
        (SequenceMutation::Canonical(a), CanonicalMutation::Advance(b)) => a == b,
        _ => false,
    }
}

spec fn moving(s: Seq<SequenceMutation>) -> spec_fn(int) -> bool {
    |i: int| moves_blocks(s[i])
}

proof fn lemma_projected(s: Seq<SequenceMutation>, n: nat)
    requires
        n <= s.len(),
    ensures
        projected(s.take(n as int)).len() == positions(n, moving(s)).len(),
        forall|i: int|
            0 <= i < projected(s.take(n as int)).len() ==> same_step(
                s[positions(n, moving(s))[i]],
                #[trigger] projected(s.take(n as int))[i],
            ),
    decreases n,
{
    if n > 0 {
        let m = (n - 1) as nat;
        lemma_projected(s, m);
        let now = s.take(n as int);
        assert(now.drop_last() =~= s.take(m as int));
        assert(now.last() == s[m as int]);
        assert(moving(s)(m as int) == moves_blocks(s[m as int]));
    }
}

/// The steps that move retained blocks are those of the rules, in order, without
/// the ones that only say what is safe or final.
pub proof fn law_steps_are_those_of_the_rules(s: Seq<SequenceMutation>)
    ensures
        exists|at: Seq<int>|
            {
                &&& #[trigger] crate::selection::ascending(at, s.len())
                &&& forall|i: int| #[trigger]
                    at.contains(i) <==> 0 <= i < s.len() && moves_blocks(s[i])
                &&& projected(s).len() == at.len()
                &&& forall|i: int|
                    0 <= i < at.len() ==> same_step(s[at[i]], #[trigger] projected(s)[i])
            },
{
    let keep = moving(s);
    lemma_projected(s, s.len());
    assert(s.take(s.len() as int) =~= s);
    lemma_positions(s.len(), keep);
    let at = positions(s.len(), keep);
    assert(crate::selection::ascending(at, s.len()));
    assert forall|i: int| #[trigger] at.contains(i) <==> 0 <= i < s.len() && moves_blocks(s[i]) by {
        assert(keep(i) == moves_blocks(s[i]));
    }
}

/// The progress of a source is the block of the last step that names one.
pub proof fn law_progress_is_the_last_block_named(s: Seq<CanonicalMutation>, i: int)
    requires
        0 <= i <= s.len(),
        forall|j: int| i <= j < s.len() ==> (#[trigger] s[j]) is Reset,
        i > 0 ==> !(s[i - 1] is Reset),
    ensures
        i == 0 ==> last_block(s) is None,
        i > 0 ==> last_block(s) == (match s[i - 1] {
            CanonicalMutation::Rewind(block) => Some(block),
            CanonicalMutation::Advance(block) => Some(block),
            CanonicalMutation::Reset => None,
        }),
    decreases s.len(),
{
    if s.len() > i {
        assert(s[s.len() - 1] is Reset);
        let front = s.drop_last();
        assert forall|j: int| i <= j < front.len() implies (#[trigger] front[j]) is Reset by {
            assert(front[j] == s[j]);
        }
        law_progress_is_the_last_block_named(front, i);
    }
}

/// A planned history ends at its head. Where the head is not below what the
/// rules retain, the last block stands for it, and the rest is what the rules
/// retain, but for the oldest where there is no room.
pub proof fn law_planned_history_ends_at_the_head(
    history: Seq<BlockRef>,
    head: BlockRef,
    capacity: nat,
)
    requires
        ascending(history),
        capacity > 0,
        history.len() > 0 ==> history.last().number <= head.number,
    ensures
        match completed_history(history, Some(head), capacity) {
            Ok(r) => {
                &&& ascending(r)
                &&& 0 < r.len() <= capacity
                &&& stands_for(r.last(), head)
                &&& forall|i: int|
                    0 <= i < r.len() - 1 ==> history.contains(#[trigger] r[i])
                &&& history.len() < capacity ==> forall|i: int|
                    0 <= i < history.len() && (#[trigger] history[i]).number < head.number
                        ==> r.contains(history[i])
            },
            Err(_) => history.len() > 0 && history.last().number == head.number && !agree(
                history.last(),
                head,
            ),
        },
        capacity > 0 && history.len() <= capacity ==> completed_history(history, None, capacity)
            == Ok::<_, SubscriberError>(history),
{
    lemma_block_in(history, head.number);
    let at = index_of(history, head.number, 0);
    if at < history.len() {
        let top = history.len() - 1;
        if at < top {
            assert(history[at].number < history[top].number);
        }
        law_accounts_join_where_they_agree(history[at], head);
        if let Ok(r) = completed_history(history, Some(head), capacity) {
            let full = history.update(at, merged_block(history[at], head)->Ok_0);
            assert(ascending(full)) by {
                assert forall|i: int, j: int| 0 <= i < j < full.len() implies (
                #[trigger] full[i]).number < (#[trigger] full[j]).number by {
                    assert(history[i].number < history[j].number);
                }
            }
            lemma_newest_ascending(full, capacity);
            lemma_tail_of(history, full, r, capacity, head);
        }
    } else {
        let full = history.push(head);
        assert(ascending(full)) by {
            assert forall|i: int, j: int| 0 <= i < j < full.len() implies (
            #[trigger] full[i]).number < (#[trigger] full[j]).number by {
                if j == history.len() {
                    assert(history[i].number <= history[history.len() - 1].number);
                    assert(history[i].number != head.number);
                }
            }
        }
        lemma_by_height_ascending(full);
        lemma_newest_ascending(full, capacity);
        lemma_tail_of(history, full, newest(full, capacity), capacity, head);
    }
}

proof fn lemma_tail_of(
    history: Seq<BlockRef>,
    full: Seq<BlockRef>,
    r: Seq<BlockRef>,
    capacity: nat,
    head: BlockRef,
)
    requires
        capacity > 0,
        full.len() > 0,
        ascending(history),
        history.len() <= full.len() <= history.len() + 1,
        r == newest(full, capacity),
        forall|i: int| 0 <= i < full.len() - 1 ==> #[trigger] full[i] == history[i],
        history.len() == full.len() ==> history.last().number == head.number,
    ensures
        forall|i: int| 0 <= i < r.len() - 1 ==> history.contains(#[trigger] r[i]),
        history.len() < capacity ==> forall|i: int|
            0 <= i < history.len() && (#[trigger] history[i]).number < head.number ==> r.contains(
                history[i],
            ),
{
    let d = if full.len() > capacity {
        full.len() - capacity
    } else {
        0
    };
    assert(r =~= full.skip(d));
    assert forall|i: int| 0 <= i < r.len() - 1 implies history.contains(#[trigger] r[i]) by {
        assert(r[i] == full[i + d]);
        assert(full[i + d] == history[i + d]);
    }
    if history.len() < capacity {
        assert forall|i: int| 0 <= i < history.len() && (#[trigger] history[i]).number
            < head.number implies r.contains(history[i]) by {
            assert(i < full.len() - 1);
            assert(full[i] == history[i]);
            assert(r[i] == full[i]);
        }
    }
}

// ---------------------------------------------------------------------------
// The journal
// ---------------------------------------------------------------------------

/// Whether an input is taken back by mutations: its block is above an ancestor
/// that they go back to, or they drop everything and it has a block.
pub open spec fn taken_back(block: Option<BlockRef>, mutations: Seq<CanonicalMutation>) -> bool {
    block is Some && exists|i: int|
        0 <= i < mutations.len() && match #[trigger] mutations[i] {
            CanonicalMutation::Rewind(ancestor) => block->Some_0.number > ancestor.number,
            CanonicalMutation::Reset => true,
            CanonicalMutation::Advance(_) => false,
        }
}

spec fn surviving(entries: Seq<RecentView>, mutations: Seq<CanonicalMutation>) -> spec_fn(int) -> bool {
    |i: int| !taken_back(entries[i].coverage.block, mutations)
}

proof fn lemma_outlives(block: Option<BlockRef>, mutations: Seq<CanonicalMutation>)
    ensures
        crate::commit::outlives_all(block, mutations) <==> !taken_back(block, mutations),
{
    if taken_back(block, mutations) {
        let i = choose|i: int|
            0 <= i < mutations.len() && match #[trigger] mutations[i] {
                CanonicalMutation::Rewind(ancestor) => block->Some_0.number > ancestor.number,
                CanonicalMutation::Reset => true,
                CanonicalMutation::Advance(_) => false,
            };
        assert(!crate::commit::outlives(block, mutations[i]));
    } else {
        assert forall|i: int| 0 <= i < mutations.len() implies crate::commit::outlives(
            block,
            #[trigger] mutations[i],
        ) by {}
    }
}

proof fn lemma_survivors_at(
    entries: Seq<RecentView>,
    mutations: Seq<CanonicalMutation>,
    n: nat,
)
    requires
        n <= entries.len(),
    ensures
        survivors(entries.take(n as int), mutations) == items_at(
            entries,
            positions(n, surviving(entries, mutations)),
        ),
    decreases n,
{
    let keep = surviving(entries, mutations);
    if n > 0 {
        let m = (n - 1) as nat;
        lemma_survivors_at(entries, mutations, m);
        let now = entries.take(n as int);
        assert(now.drop_last() =~= entries.take(m as int));
        assert(now.last() == entries[m as int]);
        lemma_outlives(entries[m as int].coverage.block, mutations);
        assert(keep(m as int) == !taken_back(entries[m as int].coverage.block, mutations));
        assert(items_at(entries, positions(m, keep).push(m as int)) =~= items_at(
            entries,
            positions(m, keep),
        ).push(entries[m as int]));
    } else {
        assert(entries.take(0) =~= Seq::<RecentView>::empty());
        assert(items_at(entries, positions(0, keep)) =~= Seq::<RecentView>::empty());
    }
}

/// The journal forgets exactly the inputs that mutations take back, and keeps
/// the others in order.
pub proof fn law_journal_forgets_what_is_taken_back(
    entries: Seq<RecentView>,
    mutations: Seq<CanonicalMutation>,
)
    ensures
        exists|at: Seq<int>|
            {
                &&& #[trigger] crate::selection::ascending(at, entries.len())
                &&& forall|i: int| #[trigger]
                    at.contains(i) <==> 0 <= i < entries.len() && !taken_back(
                        entries[i].coverage.block,
                        mutations,
                    )
                &&& survivors(entries, mutations) == items_at(entries, at)
            },
{
    let keep = surviving(entries, mutations);
    lemma_survivors_at(entries, mutations, entries.len());
    assert(entries.take(entries.len() as int) =~= entries);
    lemma_positions(entries.len(), keep);
    let at = positions(entries.len(), keep);
    assert(crate::selection::ascending(at, entries.len()));
    assert forall|i: int| #[trigger] at.contains(i) <==> 0 <= i < entries.len() && !taken_back(
        entries[i].coverage.block,
        mutations,
    ) by {
        assert(keep(i) == !taken_back(entries[i].coverage.block, mutations));
    }
}

/// Committing a record puts its entry last, with who has had it now, and leaves
/// every other entry as it is and where it is. The entry keeps what was known of
/// its block and witness, joined with what the record says.
pub proof fn law_committed_record_stands_last(
    entries: Seq<RecentView>,
    a: AudienceCommitView,
    generations: Seq<(Seq<u8>, u64)>,
    at: int,
)
    requires
        0 <= at <= entries.len(),
        forall|i: int| 0 <= i < at ==> (#[trigger] entries[i]).identity != a.identity,
        at < entries.len() ==> entries[at].identity == a.identity,
    ensures
        match touched(entries, a, generations) {
            Ok(n) => {
                let rest = if at < entries.len() {
                    entries.take(at) + entries.skip(at + 1)
                } else {
                    entries
                };
                let was = if at < entries.len() {
                    entries[at].coverage
                } else {
                    no_coverage()
                };
                let now = n.last().coverage;
                &&& n.len() == rest.len() + 1
                &&& n.drop_last() == rest
                &&& n.last().identity == a.identity
                &&& now.base == coverage_with(was, a.audience, generations).base
                &&& now.owners == coverage_with(was, a.audience, generations).owners
                &&& now.witness is Some
                &&& was.witness is None ==> now.witness == Some(a.witness)
                &&& was.witness is Some ==> crate::audience::merged_witness(
                    was.witness->Some_0,
                    a.witness,
                ) == Ok::<_, SubscriberError>(now.witness->Some_0)
                &&& was.block is None ==> now.block == a.block
                &&& a.block is None ==> now.block == was.block
                &&& was.block is Some && a.block is Some ==> merged_block(
                    was.block->Some_0,
                    a.block->Some_0,
                ) == Ok::<_, SubscriberError>(now.block->Some_0)
            },
            Err(_) => at < entries.len(),
        },
{
    lemma_entry_index(entries, a.identity, 0);
    let i = entry_index(entries, a.identity, 0);
    if i < at {
        assert(entries[i].identity != a.identity);
    }
    if at < i && at < entries.len() {
        assert(entries[at].identity != a.identity);
    }
    assert(i == at);
    if let Ok(n) = touched(entries, a, generations) {
        if at < entries.len() {
            assert(entries.remove(at) =~= entries.take(at) + entries.skip(at + 1));
            assert(n.drop_last() =~= entries.take(at) + entries.skip(at + 1));
        } else {
            assert(n.drop_last() =~= entries);
        }
    }
}

} // verus!
