//! How a delivery moves the position of its source and of the other one, and
//! what the journal keeps.
use crate::chain_laws::{lemma_block_in, stands_for};
use crate::checkpoint::{CheckpointView, RecentView, SourceView};
use crate::commit::{
    ancestors_of, collapsed, lemma_collapsed_is_unique, other_committed, source_committed,
    stored_coverage, CommitView,
};
use crate::coverage_laws::never_heard;
use crate::error::SubscriberError;
use crate::filter::{sorted_with, MergedView, Sorted};
use crate::flow_laws::goes_back;
use crate::history::{
    advanced, ascending, by_height, insert_block, lemma_by_height_ascending, moved, moved_all,
    newest, seeded, trail_ok, CanonicalMutation, Trail,
};
use crate::identities::{id_index, identities, lemma_id_index_range};
use crate::model::BlockRef;
use crate::records::is_deduplicable;
use crate::recovery_laws::{agree, law_accounts_join_where_they_agree};
use crate::validate::{block_at, index_of, lemma_index_of};
use vstd::prelude::*;

verus! {

// ---------------------------------------------------------------------------
// The source that delivers
// ---------------------------------------------------------------------------

/// A block at the height of the head joins what is known of it: the head then
/// knows what either account does.
pub proof fn law_head_joins_both_accounts(t: Trail, block: BlockRef)
    requires
        t.head is Some,
        block.number == t.head->Some_0.number,
        advanced(t, block) is Ok,
    ensures
        ({
            let n = advanced(t, block)->Ok_0;
            &&& n.head is Some
            &&& stands_for(n.head->Some_0, block)
            &&& stands_for(n.head->Some_0, t.head->Some_0)
        }),
{
    law_accounts_join_where_they_agree(t.head->Some_0, block);
}

proof fn lemma_one_step(t: Trail, block: BlockRef, capacity: nat)
    requires
        t.head is None || block.number >= t.head->Some_0.number,
    ensures
        match moved_all(t, seq![CanonicalMutation::Advance(block)], 0, capacity) {
            Ok(n) => n.head is Some && stands_for(n.head->Some_0, block),
            Err(_) => true,
        },
{
    reveal_with_fuel(moved_all, 2);
    if t.head is Some {
        law_accounts_join_where_they_agree(t.head->Some_0, block);
    }
}

/// A source that delivered stands at least where it says that it got, and at
/// least where it was observed to be; there it knows what it said.
pub proof fn law_source_reaches_what_it_delivered(
    s: SourceView,
    commit: CommitView,
    capacity: nat,
)
    requires
        source_committed(s, commit, capacity) is Ok,
    ensures
        ({
            let head = source_committed(s, commit, capacity)->Ok_0.coverage_head;
            let (said, seen) = (commit.source_progress, commit.source_observed_through);
            &&& said is Some ==> head is Some && head->Some_0.number >= said->Some_0.number
            &&& seen is Some ==> head is Some && head->Some_0.number >= seen->Some_0.number
            &&& seen is Some && head->Some_0.number == seen->Some_0.number ==> stands_for(
                head->Some_0,
                seen->Some_0,
            )
        }),
{
    let named = SourceView {
        delivery_token: commit.source_token,
        checkpoint: commit.source_checkpoint,
        delivery_digest: Some(commit.source_delivery_digest),
        ..s
    };
    let a = crate::commit::source_moved(named, commit.canonical, capacity)->Ok_0;
    let b = crate::commit::source_advanced(a, commit.source_progress, false, capacity)->Ok_0;
    let (t, u) = (
        Trail { history: a.canonical_history, head: a.coverage_head },
        Trail { history: b.canonical_history, head: b.coverage_head },
    );
    if commit.source_progress is Some && (t.head is None || t.head->Some_0.number
        < commit.source_progress->Some_0.number) {
        lemma_one_step(t, commit.source_progress->Some_0, capacity);
    }
    if commit.source_observed_through is Some && (u.head is None || u.head->Some_0.number
        <= commit.source_observed_through->Some_0.number) {
        lemma_one_step(u, commit.source_observed_through->Some_0, capacity);
    }
}

// ---------------------------------------------------------------------------
// The other source
// ---------------------------------------------------------------------------

proof fn lemma_no_ancestors(s: Seq<CanonicalMutation>)
    requires
        forall|i: int| 0 <= i < s.len() ==> (#[trigger] s[i]) is Advance,
    ensures
        ancestors_of(s).len() == 0,
    decreases s.len(),
{
    if s.len() > 0 {
        assert(s.last() == s[s.len() - 1]);
        assert forall|i: int| 0 <= i < s.drop_last().len() implies (
        #[trigger] s.drop_last()[i]) is Advance by {
            assert(s.drop_last()[i] == s[i]);
        }
        lemma_no_ancestors(s.drop_last());
    }
}

/// A delivery that takes nothing back leaves the other source where it stands;
/// one that drops everything leaves nothing known of it.
pub proof fn law_other_source_moves_only_back(s: SourceView, commit: CommitView, capacity: nat)
    ensures
        !goes_back(commit) ==> other_committed(s, commit, capacity) == Ok::<_, SubscriberError>(s),
        (exists|i: int| 0 <= i < commit.canonical.len() && (#[trigger] commit.canonical[i]) is Reset)
            && other_committed(s, commit, capacity) is Ok ==> never_heard(
            other_committed(s, commit, capacity)->Ok_0,
        ),
{
    let m = commit.canonical;
    if !goes_back(commit) {
        assert forall|i: int| 0 <= i < m.len() implies (#[trigger] m[i]) is Advance by {}
        lemma_no_ancestors(m);
        if m.contains(CanonicalMutation::Reset) {
            let i = choose|i: int| 0 <= i < m.len() && m[i] == CanonicalMutation::Reset;
            assert(m[i] is Advance);
        }
    }
    if exists|i: int| 0 <= i < m.len() && (#[trigger] m[i]) is Reset {
        let i = choose|i: int| 0 <= i < m.len() && (#[trigger] m[i]) is Reset;
        assert(m[i] == CanonicalMutation::Reset);
    }
}

proof fn lemma_inserted(s: Seq<BlockRef>, b: BlockRef, x: BlockRef)
    ensures
        insert_block(s, b).len() == s.len() + 1,
        insert_block(s, b).contains(x) <==> s.contains(x) || x == b,
    decreases s.len(),
{
    let r = insert_block(s, b);
    if s.len() == 0 || s.last().number <= b.number {
        assert(r =~= s.push(b));
        lemma_pushed(s, b, x);
    } else {
        let front = s.drop_last();
        lemma_inserted(front, b, x);
        lemma_pushed(insert_block(front, b), s.last(), x);
        assert(s =~= front.push(s.last()));
        lemma_pushed(front, s.last(), x);
    }
}

proof fn lemma_pushed<T>(s: Seq<T>, b: T, x: T)
    ensures
        s.push(b).contains(x) <==> s.contains(x) || x == b,
{
    let r = s.push(b);
    assert(r[s.len() as int] == b);
    if s.contains(x) {
        let i = choose|i: int| 0 <= i < s.len() && s[i] == x;
        assert(r[i] == x);
    }
    if r.contains(x) && x != b {
        let i = choose|i: int| 0 <= i < r.len() && r[i] == x;
        assert(s[i] == x);
    }
}

/// A source that is ahead of a block that it does not retain learns of it, and
/// loses nothing while there is room. A block is refused exactly where the
/// source retains another one at its height.
pub proof fn law_source_learns_of_an_ancestor(s: SourceView, ancestor: BlockRef, capacity: nat)
    requires
        ascending(s.canonical_history),
        capacity > 0,
    ensures
        ({
            let h = s.canonical_history;
            let r = seeded(s, ancestor, capacity);
            let ahead = s.coverage_head is Some && ancestor.number < s.coverage_head->Some_0.number;
            let retained = exists|i: int|
                0 <= i < h.len() && (#[trigger] h[i]).number == ancestor.number;
            &&& r is Err <==> exists|i: int|
                0 <= i < h.len() && (#[trigger] h[i]).number == ancestor.number && !agree(
                    h[i],
                    ancestor,
                )
            &&& r is Ok ==> SourceView { canonical_history: h, ..r->Ok_0 } == s
            &&& r is Ok && (!ahead || retained) ==> r->Ok_0.canonical_history == h
            &&& r is Ok && ahead && !retained && h.len() < capacity ==> {
                &&& r->Ok_0.canonical_history.len() == h.len() + 1
                &&& r->Ok_0.canonical_history.contains(ancestor)
                &&& forall|i: int|
                    0 <= i < h.len() ==> r->Ok_0.canonical_history.contains(#[trigger] h[i])
            }
        }),
{
    let h = s.canonical_history;
    lemma_block_in(h, ancestor.number);
    let at = index_of(h, ancestor.number, 0);
    let ahead = s.coverage_head is Some && ancestor.number < s.coverage_head->Some_0.number;
    if at < h.len() {
        law_accounts_join_where_they_agree(h[at], ancestor);
        assert(h[at].number == ancestor.number);
        if exists|i: int|
            0 <= i < h.len() && (#[trigger] h[i]).number == ancestor.number && !agree(
                h[i],
                ancestor,
            ) {
            let i = choose|i: int|
                0 <= i < h.len() && (#[trigger] h[i]).number == ancestor.number && !agree(
                    h[i],
                    ancestor,
                );
            assert(block_at(h, ancestor.number) == Some(h[i]));
        }
    } else if ahead {
        let grown = by_height(h.push(ancestor));
        assert(h.push(ancestor).drop_last() =~= h);
        lemma_by_height_ascending(h);
        assert(grown == insert_block(h, ancestor));
        lemma_inserted(h, ancestor, ancestor);
        let next = newest(grown, capacity);
        lemma_index_of(next, ancestor.number, 0);
        let k = index_of(next, ancestor.number, 0);
        if k < next.len() {
            let d = grown.len() - next.len();
            assert(next[k] == grown[k + d]);
            assert(grown.contains(next[k]));
            lemma_inserted(h, ancestor, next[k]);
            if next[k] != ancestor {
                let i = choose|i: int| 0 <= i < h.len() && h[i] == next[k];
                assert(h[i].number == ancestor.number);
            }
            law_accounts_join_where_they_agree(ancestor, ancestor);
        }
        assert forall|i: int| 0 <= i < h.len() implies grown.contains(#[trigger] h[i]) by {
            lemma_inserted(h, ancestor, h[i]);
            assert(h.contains(h[i]));
        }
    }
}

/// A rewind is refused wherever its ancestor lies before everything that is
/// retained, is above the head, or is another block than the retained one at its
/// height.
pub proof fn law_rewind_stays_within_what_is_retained(
    t: Trail,
    ancestor: BlockRef,
    capacity: nat,
)
    requires
        trail_ok(t, capacity),
        capacity > 0,
        t.head is Some,
        ancestor.number > t.head->Some_0.number || ancestor.number < t.history[0].number || (
        ancestor.number == t.head->Some_0.number && !agree(t.head->Some_0, ancestor)) || exists|
            i: int,
        |
            0 <= i < t.history.len() && (#[trigger] t.history[i]).number == ancestor.number && !agree(
                t.history[i],
                ancestor,
            ),
    ensures
        moved(t, CanonicalMutation::Rewind(ancestor), capacity) is Err,
{
    let h = t.history;
    lemma_block_in(h, ancestor.number);
    let at = index_of(h, ancestor.number, 0);
    law_accounts_join_where_they_agree(t.head->Some_0, ancestor);
    if at < h.len() {
        law_accounts_join_where_they_agree(h[at], ancestor);
        if at > 0 {
            assert(h[0].number < h[at].number);
        }
    }
}

// ---------------------------------------------------------------------------
// The journal
// ---------------------------------------------------------------------------

/// Whether an input is the last of its identity in a journal.
pub open spec fn said_last_at(s: Seq<RecentView>, i: int) -> bool {
    0 <= i < s.len() && forall|j: int|
        i < j < s.len() ==> (#[trigger] s[j]).identity != s[i].identity
}

/// Where an identity occurs more than once in a journal, what was said last of
/// it stands, and nothing else does.
pub proof fn law_what_was_said_last_stands(s: Seq<RecentView>, x: RecentView)
    ensures
        collapsed(s).contains(x) <==> exists|i: int| #[trigger] said_last_at(s, i) && s[i] == x,
    decreases s.len(),
{
    if s.len() > 0 {
        let before = s.drop_last();
        let front = collapsed(before);
        let last = s.last();
        let r = collapsed(s);
        law_what_was_said_last_stands(before, x);
        lemma_collapsed_is_unique(before);
        let ids = identities(front);
        lemma_id_index_range(ids, last.identity, 0);
        let at = id_index(ids, last.identity, 0);
        assert(r.contains(x) <==> x == last || front.contains(x) && x.identity != last.identity)
            by {
            if at < front.len() {
                assert(r == front.update(at, last));
                assert(r[at] == last);
                if r.contains(x) {
                    let k = choose|k: int| 0 <= k < r.len() && r[k] == x;
                    if k != at {
                        assert(front[k] == x);
                        assert(ids[k] != ids[at]);
                    }
                }
                if front.contains(x) && x.identity != last.identity {
                    let k = choose|k: int| 0 <= k < front.len() && front[k] == x;
                    assert(ids[at] == front[at].identity);
                    assert(r[k] == x);
                }
            } else {
                assert(r == front.push(last));
                lemma_pushed(front, last, x);
                if front.contains(x) {
                    let k = choose|k: int| 0 <= k < front.len() && front[k] == x;
                    assert(ids[k] == x.identity);
                }
            }
        }
        assert(said_last_at(s, s.len() - 1));
        if exists|i: int| #[trigger] said_last_at(before, i) && before[i] == x {
            let i = choose|i: int| #[trigger] said_last_at(before, i) && before[i] == x;
            if x.identity != last.identity {
                assert forall|j: int| i < j < s.len() implies (#[trigger] s[j]).identity
                    != s[i].identity by {
                    if j < before.len() {
                        assert(before[j] == s[j]);
                    }
                }
                assert(said_last_at(s, i));
            }
        }
        if exists|i: int| #[trigger] said_last_at(s, i) && s[i] == x {
            let i = choose|i: int| #[trigger] said_last_at(s, i) && s[i] == x;
            if i < before.len() {
                assert(s[s.len() - 1].identity != s[i].identity);
                assert forall|j: int| i < j < before.len() implies (#[trigger] before[j]).identity
                    != before[i].identity by {
                    assert(before[j] == s[j]);
                }
                assert(said_last_at(before, i) && before[i] == x);
            }
        }
    }
}

/// A record that was delivered before is committed with what the journal and the
/// record together witness of it; a new one with what it witnesses itself.
pub proof fn law_commit_joins_what_was_witnessed(c: CheckpointView, s: Sorted, m: MergedView)
    requires
        is_deduplicable(m.routed.record),
        sorted_with(c, s, m) is Ok,
        forall|i: int| 0 <= i < s.staged_ids.len() ==> (#[trigger] s.staged_ids[i]) != m.identity,
    ensures
        ({
            let n = sorted_with(c, s, m)->Ok_0;
            let w = n.commits.last().witness;
            &&& n.commits.len() == s.commits.len() + 1
            &&& n.commits.last().identity == m.identity
            &&& match stored_coverage(c.recent_inputs, m.identity) {
                None => w == m.witness,
                Some(stored) => stored.witness is Some && crate::audience::merged_witness(
                    stored.witness->Some_0,
                    m.witness,
                ) == Ok::<_, SubscriberError>(w),
            }
        }),
{
    lemma_id_index_range(s.staged_ids, m.identity, 0);
    let left = crate::audience::residual(
        crate::filter::known_coverage(c, m)->Ok_0,
        m.routed.audience,
        c.owner_generations,
    );
    assert(left is Some || left is None);
}

} // verus!
