//! What a coordinator resumes from, and what it keeps of it.
use crate::chain_laws::lemma_block_in;
use crate::checkpoint::{CheckpointView, HybridTokenKind, RecentView};
use crate::config::{config_limits_error, HybridConfig};
use crate::cursor_laws::position_of;
use crate::error::SubscriberError;
use crate::history::{ascending, newest};
use crate::intent::{is_empty_barrier, InterestView, OwnerInterestsView};
use crate::model::BlockRef;
use crate::owners::{keys_of, lookup};
use crate::recovery_laws::{agree, law_accounts_join_where_they_agree};
use crate::restore::{
    candidate_of, completed_by, preparation_begun, preparation_finished, prepare_step_of,
    recent_conflict, restore_begun, restore_step_of, restore_token_error, restored,
    restored_chain_error, restored_history, resumed_history, rotated, RestoreStepView,
    RestoreVerdicts,
};
use crate::state::{CoordView, HybridPhase, PositionView, RestoreView};
use crate::token::{law_token_is_canonical, law_token_round_trip, wrapped};
use crate::topology::{lemma_not_said, lemma_said, lemma_with_owners_lookup, topology_of};
use crate::validate::{block_at, law_valid_history_ascends};
use crate::validity_laws::{history_fits, law_accepted_history_fits_its_head};
use crate::words::{lemma_word_at_split, lemma_word_bytes_join, word_bytes, Epoch};
use vstd::prelude::*;

verus! {

// ---------------------------------------------------------------------------
// Tokens
// ---------------------------------------------------------------------------

/// A token belongs to a checkpoint exactly where it is the one that the
/// checkpoint's last delivery was handed out with; a token that was made up
/// must be the last one counted, and one that a source gave must be the one that
/// its position holds.
pub proof fn law_restored_token_is_that_of_the_last_delivery(
    c: CheckpointView,
    token: Option<Seq<u8>>,
)
    ensures
        restore_token_error(c, token) is None <==> {
            let last = c.last_committed_token->Some_0;
            &&& c.last_committed_token is Some
            &&& token == Some(wrapped(c.epoch, last.source, last.kind, last.inner))
            &&& last.kind == HybridTokenKind::Forwarded ==> position_of(
                c,
                last.source,
            ).delivery_token == Some(last.inner)
            &&& last.kind == HybridTokenKind::Synthetic ==> c.next_synthetic_token > 0
                && last.inner == word_bytes((c.next_synthetic_token - 1) as u64)
        },
{
    if token is Some {
        law_token_is_canonical(token->Some_0);
    }
    if c.last_committed_token is Some {
        let last = c.last_committed_token->Some_0;
        law_token_round_trip(c.epoch, last.source, last.kind, last.inner);
        if last.inner.len() == 8 {
            lemma_word_at_split(last.inner, 0);
            assert(last.inner.subrange(0, 8) =~= last.inner);
        }
        if c.next_synthetic_token > 0 {
            lemma_word_bytes_join((c.next_synthetic_token - 1) as u64);
        }
    }
}

// ---------------------------------------------------------------------------
// Histories
// ---------------------------------------------------------------------------

/// The history of a position ends at its head: the head is added where the
/// history ends below it.
pub proof fn law_resumed_history_reaches_its_head(p: PositionView)
    ensures
        ({
            let h = resumed_history(p);
            let n = p.canonical_history.len() as int;
            &&& h.len() > 0
            &&& h.last().number >= p.coverage_head.number
            &&& forall|i: int| 0 <= i < n ==> #[trigger] h[i] == p.canonical_history[i]
            &&& h.len() == n || h.len() == n + 1 && h.last() == p.coverage_head
            &&& h.len() == n + 1 && n > 0 ==> p.canonical_history.last().number
                < p.coverage_head.number
        }),
{
}

/// Whether a block is one account of a block, filled up by another account of
/// it where there is one.
pub open spec fn filled_up(account: BlockRef, other: Seq<BlockRef>, done: BlockRef) -> bool {
    &&& done.number == account.number
    &&& done.hash == account.hash
    &&& account.parent_hash is Some ==> done.parent_hash == account.parent_hash
    &&& account.timestamp is Some ==> done.timestamp == account.timestamp
    &&& forall|j: int|
        0 <= j < other.len() && (#[trigger] other[j]).number == account.number ==> {
            &&& agree(other[j], account)
            &&& account.parent_hash is None ==> done.parent_hash == other[j].parent_hash
            &&& account.timestamp is None ==> done.timestamp == other[j].timestamp
        }
    &&& (forall|j: int|
        0 <= j < other.len() ==> (#[trigger] other[j]).number != account.number) ==> done == account
}

/// Whether a history has another block at the height of a block.
pub open spec fn contradicted(account: BlockRef, other: Seq<BlockRef>) -> bool {
    exists|j: int|
        0 <= j < other.len() && (#[trigger] other[j]).number == account.number && !agree(
            other[j],
            account,
        )
}

proof fn lemma_filled_up(account: BlockRef, other: Seq<BlockRef>)
    requires
        ascending(other),
    ensures
        match block_at(other, account.number) {
            None => filled_up(account, other, account),
            Some(known) => {
                let m = crate::model::merged_block(known, account);
                &&& m is Ok ==> filled_up(account, other, m->Ok_0)
                &&& m is Err ==> contradicted(account, other)
            },
        },
{
    lemma_block_in(other, account.number);
    let i = crate::validate::index_of(other, account.number, 0);
    if i < other.len() {
        law_accounts_join_where_they_agree(other[i], account);
        assert forall|j: int|
            0 <= j < other.len() && (#[trigger] other[j]).number == account.number implies j
            == i by {
            if j < i {
                assert(other[j].number < other[i].number);
            } else if i < j {
                assert(other[i].number < other[j].number);
            }
        }
    }
}

proof fn lemma_completed(
    history: Seq<BlockRef>,
    other: Seq<BlockRef>,
    from: int,
    done: Seq<BlockRef>,
)
    requires
        ascending(other),
        0 <= from <= history.len(),
        done.len() == from,
        forall|i: int| 0 <= i < from ==> filled_up(#[trigger] history[i], other, done[i]),
    ensures
        match completed_by(history, other, from, done) {
            Ok(r) => r.len() == history.len() && forall|i: int|
                0 <= i < history.len() ==> filled_up(#[trigger] history[i], other, r[i]),
            Err(_) => exists|i: int|
                0 <= i < history.len() && contradicted(#[trigger] history[i], other),
        },
    decreases history.len() - from,
{
    if from < history.len() {
        lemma_filled_up(history[from], other);
        match block_at(other, history[from].number) {
            None => lemma_completed(history, other, from + 1, done.push(history[from])),
            Some(known) => if let Ok(m) = crate::model::merged_block(known, history[from]) {
                lemma_completed(history, other, from + 1, done.push(m));
            },
        }
    }
}

/// A history can be completed by another exactly where the two agree on every
/// height that both speak of; every block then knows what either account of it
/// knows, and none is added or dropped.
pub proof fn law_histories_complete_each_other(history: Seq<BlockRef>, other: Seq<BlockRef>)
    requires
        ascending(other),
    ensures
        completed_by(history, other, 0, Seq::empty()) is Ok <==> forall|i: int, j: int|
            0 <= i < history.len() && 0 <= j < other.len() && (#[trigger] history[i]).number == (
            #[trigger] other[j]).number ==> agree(other[j], history[i]),
        match completed_by(history, other, 0, Seq::empty()) {
            Ok(r) => r.len() == history.len() && forall|i: int|
                0 <= i < history.len() ==> filled_up(#[trigger] history[i], other, r[i]),
            Err(_) => true,
        },
{
    lemma_completed(history, other, 0, Seq::empty());
}

/// Whether nothing that was delivered is at a height where a history has another
/// block.
pub open spec fn nothing_delivered_besides(recent: Seq<RecentView>, history: Seq<BlockRef>) -> bool {
    forall|i: int, j: int|
        0 <= i < recent.len() && 0 <= j < history.len() && (
        #[trigger] recent[i]).coverage.block is Some && recent[i].coverage.block->Some_0.number == (
        #[trigger] history[j]).number ==> agree(history[j], recent[i].coverage.block->Some_0)
}

proof fn lemma_recent_conflict(recent: Seq<RecentView>, history: Seq<BlockRef>, from: int)
    requires
        ascending(history),
        0 <= from <= recent.len(),
    ensures
        recent_conflict(recent, history, from) is None <==> forall|i: int, j: int|
            from <= i < recent.len() && 0 <= j < history.len() && (
            #[trigger] recent[i]).coverage.block is Some && recent[i].coverage.block->Some_0.number
                == (#[trigger] history[j]).number ==> agree(
                history[j],
                recent[i].coverage.block->Some_0,
            ),
    decreases recent.len() - from,
{
    if from < recent.len() {
        lemma_recent_conflict(recent, history, from + 1);
        if recent[from].coverage.block is Some {
            let b = recent[from].coverage.block->Some_0;
            lemma_block_in(history, b.number);
            let k = crate::validate::index_of(history, b.number, 0);
            if k < history.len() {
                law_accounts_join_where_they_agree(history[k], b);
                assert forall|j: int|
                    0 <= j < history.len() && (#[trigger] history[j]).number == b.number implies j
                    == k by {
                    if j < k {
                        assert(history[j].number < history[k].number);
                    } else if k < j {
                        assert(history[k].number < history[j].number);
                    }
                }
            }
        }
    }
}

proof fn lemma_filled_ascends(history: Seq<BlockRef>, other: Seq<BlockRef>, done: Seq<BlockRef>)
    requires
        ascending(history),
        done.len() == history.len(),
        forall|i: int| 0 <= i < history.len() ==> filled_up(#[trigger] history[i], other, done[i]),
    ensures
        ascending(done),
{
    assert forall|i: int, j: int| 0 <= i < j < done.len() implies (#[trigger] done[i]).number < (
    #[trigger] done[j]).number by {
        assert(history[i].number < history[j].number);
        assert(done[i].number == history[i].number);
        assert(done[j].number == history[j].number);
    }
}

/// A position and a checkpoint belong together exactly where both are of this
/// chain, the checkpoint keeps to the configuration, the token is that of its
/// last delivery, both heads agree, the history of the position fits its head,
/// and neither the history nor a delivered input of the checkpoint contradicts
/// it.
pub proof fn law_position_and_checkpoint_belong_together(
    chain_id: u64,
    config: HybridConfig,
    p: PositionView,
    c: CheckpointView,
    live_is_durable: bool,
)
    requires
        ascending(c.canonical_history),
    ensures
        ({
            let r = restored_history(chain_id, config, p, c, live_is_durable);
            let h = resumed_history(p);
            &&& r is Ok <==> {
                &&& p.chain_id == chain_id
                &&& c.chain_id == chain_id
                &&& config_limits_error(config, c, live_is_durable) is None
                &&& restore_token_error(c, p.delivery_token) is None
                &&& c.coverage_head is Some ==> agree(c.coverage_head->Some_0, p.coverage_head)
                &&& history_fits(h, Some(p.coverage_head))
                &&& forall|i: int, j: int|
                    0 <= i < h.len() && 0 <= j < c.canonical_history.len() && (
                    #[trigger] h[i]).number == (#[trigger] c.canonical_history[j]).number ==> agree(
                        c.canonical_history[j],
                        h[i],
                    )
                &&& nothing_delivered_besides(
                    c.recent_inputs,
                    completed_by(h, c.canonical_history, 0, Seq::empty())->Ok_0,
                )
            }
            &&& r is Ok ==> r->Ok_0.len() == h.len() && forall|i: int|
                0 <= i < h.len() ==> filled_up(#[trigger] h[i], c.canonical_history, r->Ok_0[i])
        }),
{
    let h = resumed_history(p);
    law_accepted_history_fits_its_head("runtime resume", h, Some(p.coverage_head));
    law_histories_complete_each_other(h, c.canonical_history);
    if c.coverage_head is Some {
        law_accounts_join_where_they_agree(c.coverage_head->Some_0, p.coverage_head);
    }
    if crate::validate::history_error("runtime resume", h, Some(p.coverage_head)) is None {
        law_valid_history_ascends(h, Some(p.coverage_head));
        if let Ok(done) = completed_by(h, c.canonical_history, 0, Seq::empty()) {
            lemma_filled_ascends(h, c.canonical_history, done);
            lemma_recent_conflict(c.recent_inputs, done, 0);
        }
    }
}

// ---------------------------------------------------------------------------
// What will be installed
// ---------------------------------------------------------------------------

/// What is installed is the checkpoint with the newest of the history that the
/// position and it agree on, at the position's head. Where the live source
/// cannot replay, it loses its token and its cursor, and the last token is
/// forgotten unless it is that of an empty topology; only then do the tokens
/// stay under the same epoch. Nothing else changes.
pub proof fn law_installed_state_is_the_checkpoint(
    chain_id: u64,
    config: HybridConfig,
    p: PositionView,
    c: CheckpointView,
    live_is_durable: bool,
)
    requires
        candidate_of(chain_id, config, p, c, live_is_durable) is Ok,
    ensures
        ({
            let (n, rotate) = candidate_of(chain_id, config, p, c, live_is_durable)->Ok_0;
            let h = restored_history(chain_id, config, p, c, live_is_durable)->Ok_0;
            let kept = live_is_durable || is_empty_barrier(c);
            let capacity = config.canonical_history_capacity;
            &&& n.coverage_head is Some
            &&& n.coverage_head->Some_0.number == p.coverage_head.number
            &&& n.coverage_head->Some_0.hash == p.coverage_head.hash
            &&& n.canonical_history.len() <= capacity
            &&& h.len() <= capacity ==> n.canonical_history == h
            &&& h.len() > capacity ==> n.canonical_history.len() == capacity && forall|i: int|
                0 <= i < capacity ==> #[trigger] n.canonical_history[i] == h[h.len() - capacity + i]
            &&& n.epoch == c.epoch
            &&& n.next_synthetic_token == c.next_synthetic_token
            &&& n.chain_id == c.chain_id
            &&& n.lifecycle_generation == c.lifecycle_generation
            &&& n.lifecycle_intent == c.lifecycle_intent
            &&& n.owner_generations == c.owner_generations
            &&& n.safe_head == c.safe_head
            &&& n.finalized_head == c.finalized_head
            &&& n.recent_inputs == c.recent_inputs
            &&& n.certified_historical == c.certified_historical
            &&& n.historical_position == c.historical_position
            &&& n.live_position.coverage_head == c.live_position.coverage_head
            &&& n.live_position.canonical_history == c.live_position.canonical_history
            &&& live_is_durable ==> n.live_position == c.live_position
            &&& !live_is_durable ==> n.live_position.delivery_token is None
                && n.live_position.checkpoint is None
            &&& kept ==> n.last_committed_token == c.last_committed_token
                && n.live_position.delivery_digest == c.live_position.delivery_digest
            &&& !kept ==> n.last_committed_token is None && n.live_position.delivery_digest is None
            &&& rotate <==> !kept
        }),
{
    if c.coverage_head is Some {
        law_accounts_join_where_they_agree(c.coverage_head->Some_0, p.coverage_head);
    }
}

/// Where tokens need another epoch, the state is under it; otherwise it stays
/// under its own; and nothing else changes.
pub proof fn law_new_epoch_only_where_it_is_needed(c: CheckpointView, rotate: bool, epoch: Epoch)
    ensures
        rotate ==> rotated(c, rotate, epoch).epoch == epoch,
        !rotate ==> rotated(c, rotate, epoch).epoch == c.epoch,
        c == (CheckpointView { epoch: c.epoch, ..rotated(c, rotate, epoch) }),
{
}

// ---------------------------------------------------------------------------
// Restoring
// ---------------------------------------------------------------------------

/// A restore that is admitted is only noted, and asking for it again changes
/// nothing; while it is under way no other is admitted.
pub proof fn law_restore_is_noted_once(
    v: CoordView,
    p: PositionView,
    other: PositionView,
    live_is_durable: bool,
    verdicts: RestoreVerdicts,
    epoch: Epoch,
)
    requires
        restore_begun(v, p, live_is_durable, verdicts, epoch) is Ok,
    ensures
        ({
            let n = restore_begun(v, p, live_is_durable, verdicts, epoch)->Ok_0;
            &&& n.pending_restore is Some
            &&& n.pending_restore->Some_0.position == p
            &&& CoordView { pending_restore: v.pending_restore, ..n } == v
            &&& restore_begun(n, p, live_is_durable, verdicts, epoch) == Ok::<_, SubscriberError>(n)
            &&& other != p ==> restore_begun(n, other, live_is_durable, verdicts, epoch) is Err
            &&& v.poisoned is None
            &&& v.pending_preparation is None
            &&& v.pending_restore is None ==> v.in_flight is None && v.pending_cutover is None
                && v.live_buffer.len() == 0 && p.chain_id == v.durable.chain_id
                && p.subscriber_checkpoint is Some && (v.prepared_position is None
                || v.prepared_position == Some(p))
        }),
{
}

/// The historical source is restored before the live one, each with its own
/// position, and the restore ends once neither is left.
pub proof fn law_sources_are_restored_in_turn(r: RestoreView)
    ensures
        match restore_step_of(r) {
            RestoreStepView::Historical(p) => !r.historical_restored && r.historical_resume == Some(
                p,
            ),
            RestoreStepView::Live(p) => !r.live_restored && r.live_resume == Some(p) && (
            r.historical_restored || r.historical_resume is None),
            RestoreStepView::Finish => (r.historical_restored || r.historical_resume is None) && (
            r.live_restored || r.live_resume is None),
        },
{
}

/// A restore ends only with the historical source on the chain of the
/// coordinator, and with the live one too where it was restored or something is
/// subscribed.
pub proof fn law_restore_ends_on_the_right_chain(
    v: CoordView,
    historical_chain: Option<u64>,
    live_chain: Option<u64>,
)
    requires
        v.pending_restore is Some,
    ensures
        restored_chain_error(v, historical_chain, live_chain) is None <==> historical_chain == Some(
            v.durable.chain_id,
        ) && (v.pending_restore->Some_0.live_resume is Some
            || v.pending_restore->Some_0.state.lifecycle_intent.active() ==> live_chain == Some(
            v.durable.chain_id,
        )),
{
}

/// Once restored, a coordinator is in the state that was admitted: it recovers
/// from the head of the position where something is subscribed and is live
/// where nothing is. A source whose token was kept is acknowledged first, and
/// the historical source counts as acknowledged as far as it was certified in
/// this lifecycle. The interests stay.
pub proof fn law_restored_coordinator_recovers_from_the_position(v: CoordView, live_is_durable: bool)
    requires
        v.pending_restore is Some,
    ensures
        ({
            let r = v.pending_restore->Some_0;
            let n = restored(v, live_is_durable);
            let active = r.state.lifecycle_intent.active();
            let proved = r.state.certified_historical is Some
                && r.state.certified_historical->Some_0.lifecycle_generation
                == r.state.lifecycle_generation;
            &&& n.durable == r.state
            &&& n.pending_restore is None
            &&& n.prepared_position is None
            &&& active ==> n.phase == HybridPhase::Recovering && n.recovery_anchor == Some(
                r.position.coverage_head,
            )
            &&& !active ==> n.phase == HybridPhase::Live && n.recovery_anchor is None
            &&& n.replay_historical <==> r.state.historical_position.delivery_token is Some
            &&& n.replay_live <==> r.state.live_position.delivery_token is Some && live_is_durable
            &&& proved ==> n.acknowledged_historical_through == Some(
                r.state.certified_historical->Some_0.through.number,
            )
            &&& !proved ==> n.acknowledged_historical_through is None
            &&& n.fence is None
            &&& n.drain_through is None
            &&& n.pending_cutover is None
            &&& n.buffered_live_records == 0
            &&& n.buffered_live_bytes == 0
            &&& n.live_buffer == v.live_buffer
            &&& n.in_flight == v.in_flight
            &&& n.rollback == v.rollback
            &&& n.base_interests == v.base_interests
            &&& n.owners == v.owners
            &&& n.config == v.config
            &&& n.poisoned == v.poisoned
            &&& n.pending_preparation == v.pending_preparation
        }),
{
}

// ---------------------------------------------------------------------------
// Preparing
// ---------------------------------------------------------------------------

/// A preparation is only noted, for a coordinator that is idle and new, and
/// asking for it again asks for the same.
pub proof fn law_preparation_is_noted_once(
    v: CoordView,
    p: PositionView,
    base: Seq<InterestView>,
    owners: Seq<OwnerInterestsView>,
    live_is_durable: bool,
    verdicts: RestoreVerdicts,
)
    requires
        preparation_begun(v, p, base, owners, live_is_durable, verdicts) is Ok,
    ensures
        ({
            let (n, step) = preparation_begun(
                v,
                p,
                base,
                owners,
                live_is_durable,
                verdicts,
            )->Ok_0;
            &&& v.poisoned is None
            &&& v.pending_restore is None
            &&& v.in_flight is None
            &&& v.pending_cutover is None
            &&& v.live_buffer.len() == 0
            &&& step is Done <==> v.prepared_position is Some
            &&& step is Done ==> n == v && v.prepared_position == Some(p)
            &&& !(step is Done) ==> n.pending_preparation is Some
                && n.pending_preparation->Some_0.position == p
                && CoordView { pending_preparation: v.pending_preparation, ..n } == v
            &&& !(step is Done) && v.pending_preparation is None ==> {
                let noted = n.pending_preparation->Some_0;
                &&& v.durable.lifecycle_generation == 1
                &&& v.base_interests.len() == 0
                &&& v.owners.len() == 0
                &&& noted.base_interests == base
                &&& noted.owners == owners
                &&& !noted.live_topology_installed
            }
            &&& preparation_begun(n, p, base, owners, live_is_durable, verdicts) == Ok::<
                _,
                SubscriberError,
            >((n, step))
        }),
{
}

/// A live source that can replay, or that has its topology already, is asked for
/// nothing; any other installs the base interests, or the owners where there are
/// some.
pub proof fn law_live_source_installs_its_topology_once(
    n: crate::state::PreparationView,
    base: Seq<InterestView>,
    owners: Seq<OwnerInterestsView>,
    live_is_durable: bool,
)
    ensures
        ({
            let step = prepare_step_of(n, base, owners, live_is_durable);
            let ready = live_is_durable || n.live_topology_installed;
            &&& step is Finish <==> ready
            &&& step is InstallBase <==> !ready && owners.len() == 0
            &&& step is InstallOwners <==> !ready && owners.len() > 0
            &&& step is InstallBase ==> step->InstallBase_0 == base
            &&& step is InstallOwners ==> step->InstallOwners_0 == n.owners
        }),
{
}

/// A finished preparation registers the owners that were noted, each with its
/// interests, and the base interests, under the intent that was noted; only the
/// position that it was made for can be restored next.
pub proof fn law_prepared_coordinator_has_the_topology(v: CoordView, base: Seq<InterestView>)
    requires
        v.pending_preparation is Some,
        keys_of(v.pending_preparation->Some_0.owners).no_duplicates(),
    ensures
        ({
            let noted = v.pending_preparation->Some_0;
            let n = preparation_finished(v, base);
            &&& n.prepared_position == Some(noted.position)
            &&& n.pending_preparation is None
            &&& n.durable.lifecycle_intent == noted.intent
            &&& CheckpointView { lifecycle_intent: v.durable.lifecycle_intent, ..n.durable }
                == v.durable
            &&& n.base_interests == base
            &&& forall|i: int|
                0 <= i < noted.owners.len() ==> lookup(n.owners, (#[trigger] noted.owners[i]).0)
                    == Some(noted.owners[i].1)
            &&& forall|k: Seq<u8>|
                !keys_of(noted.owners).contains(k) ==> #[trigger] lookup(n.owners, k) is None
            &&& n.phase == v.phase
            &&& n.in_flight == v.in_flight
            &&& n.live_buffer == v.live_buffer
            &&& n.pending_restore == v.pending_restore
        }),
{
    let noted = v.pending_preparation->Some_0;
    let empty = Seq::<OwnerInterestsView>::empty();
    assert forall|i: int| 0 <= i < noted.owners.len() implies lookup(
        topology_of(noted.owners),
        (#[trigger] noted.owners[i]).0,
    ) == Some(noted.owners[i].1) by {
        lemma_said(noted.owners, i);
        lemma_with_owners_lookup(empty, noted.owners, noted.owners[i].0);
    }
    assert forall|k: Seq<u8>| !keys_of(noted.owners).contains(k) implies #[trigger] lookup(
        topology_of(noted.owners),
        k,
    ) is None by {
        lemma_not_said(noted.owners, k);
        lemma_with_owners_lookup(empty, noted.owners, k);
    }
}

} // verus!
