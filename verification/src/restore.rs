//! Restoring a coordinator from a resume position.
use crate::capacity::{
    maximum_canonical_log_commit, maximum_commit, preflight_maximum_canonical_log_delivery,
    probe_limits, probe_start, room_error, CapacityProbeLimits, ProbeVerdicts,
};
use crate::checkpoint::{
    copy_blocks, copy_opt_bytes, opt_bytes, recent_view, CheckpointView, HybridCheckpointV5,
    HybridSource, HybridTokenKind, IntentView, LifecycleIntent, RecentView, SourcePosition,
    SourceView, StoredRecentInput, TokenView,
};
use crate::codec::{decode_hybrid_checkpoint, decoded};
use crate::config::{
    config_limits_error, validate_checkpoint_config_limits,
    validate_checkpoint_config_limits_for_restore, HybridConfig,
};
use crate::error::SubscriberError;
use crate::flow::{sequence_of, sequence_state, SequenceState, SequenceView};
use crate::history::{newest, truncate_front_to};
use crate::intent::{
    copy_interests, copy_owners, intent_of, interests_view, is_committed_empty_lifecycle_barrier,
    is_empty_barrier, lifecycle_intent, owners_view, InterestView, OwnerInterests,
    OwnerInterestsView, PortableInterest,
};
use crate::model::{compatible_block_ref, merged_block, same_bytes, BlockRef};
use crate::probe::{saturated_capacity_probe_state, saturated_state};
use crate::state::{
    any_interests, chain_error, healthy_error, opt_position, CoordView, Coordinator, HybridPhase,
    PendingRestore, PendingRestorePreparation, PositionView, PreparationView, RestoreView,
    SubscriberResumePosition,
};
use crate::token::{unwrap_token, unwrapped, UnwrappedToken};
use crate::topology::{set_owners, topology_active, topology_of};
use crate::validate::{
    block_at, find_block, history_error, state_error, validate_checkpoint_history,
    validate_checkpoint_state, SequenceVerdict,
};
use crate::words::{read_word, word_at, Epoch};
use vstd::prelude::*;

verus! {

// ---------------------------------------------------------------------------
// Intents
// ---------------------------------------------------------------------------

impl LifecycleIntent {
    /// Whether both intents are the same.
    pub fn same(&self, other: &LifecycleIntent) -> (r: bool)
        ensures
            r == (self@ == other@),
    {
        if self.base != other.base || self.owners.len() != other.owners.len() {
            return false;
        }
        let total: usize = self.owners.len();
        let mut i: usize = 0;
        while i < total
            invariant
                i <= total,
                total == self.owners@.len(),
                total == other.owners@.len(),
                forall|j: int| 0 <= j < i ==> self.owners@[j] == other.owners@[j],
            decreases total - i,
        {
            if !self.owners.owner_at(i).same(other.owners.owner_at(i)) || *self.owners.value_at(i)
                != *other.owners.value_at(i) {
                assert(self.owners@[i as int] != other.owners@[i as int]);
                return false;
            }
            i += 1;
        }
        assert(self.owners@ =~= other.owners@);
        true
    }
}

// ---------------------------------------------------------------------------
// Room for what may follow
// ---------------------------------------------------------------------------

/// The histories and heads of the simulated state of a candidate before and
/// after the simulated delivery.
pub open spec fn probe_sequence_pair(candidate: CheckpointView, config: HybridConfig) -> Result<
    (SequenceView, SequenceView),
    SubscriberError,
> {
    match saturated_state(candidate, config) {
        Err(e) => Err(e),
        Ok(c) => match maximum_commit(c, HybridSource::Live, 1, probe_limits(config)) {
            Err(e) => Err(e),
            Ok(commit) => Ok(
                (
                    sequence_of(c),
                    SequenceView {
                        history: commit.next_canonical_history,
                        coverage_head: commit.next_coverage_head,
                        safe_head: commit.next_safe_head,
                        finalized_head: commit.next_finalized_head,
                    },
                ),
            ),
        },
    }
}

/// What the canonical-sequence rules are to judge before it is known whether a
/// candidate leaves room: the simulated state before and after the simulated
/// delivery.
pub fn probe_sequences(config: &HybridConfig, candidate: &HybridCheckpointV5) -> (r: Result<
    (SequenceState, SequenceState),
    SubscriberError,
>)
    ensures
        match r {
            Ok((before, after)) => probe_sequence_pair(candidate@, *config) == Ok::<
                _,
                SubscriberError,
            >((before@, after@)),
            Err(e) => probe_sequence_pair(candidate@, *config) == Err::<
                (SequenceView, SequenceView),
                _,
            >(e),
        },
{
    let simulated: HybridCheckpointV5 = saturated_capacity_probe_state(candidate, config)?;
    let limits = CapacityProbeLimits {
        history_capacity: config.canonical_history_capacity,
        max_delivery_token_bytes: config.max_source_delivery_token_bytes,
        max_checkpoint_bytes: config.max_source_checkpoint_bytes,
    };
    let commit = maximum_canonical_log_commit(&simulated, HybridSource::Live, 1, limits)?;
    let before: SequenceState = sequence_state(&simulated);
    let after = SequenceState {
        history: copy_blocks(commit.next_canonical_history.as_slice()),
        coverage_head: commit.next_coverage_head,
        safe_head: commit.next_safe_head,
        finalized_head: commit.next_finalized_head,
    };
    Ok((before, after))
}

/// One pair of verdicts serves every simulated delivery: whichever source and
/// kind of token it has, it starts from and leads to the same history and heads.
pub proof fn law_one_probe_pair_serves_all(
    candidate: CheckpointView,
    config: HybridConfig,
    source: HybridSource,
    kind: HybridTokenKind,
)
    ensures
        match probe_start(candidate, config, kind) {
            Err(e) => probe_sequence_pair(candidate, config) == Err::<
                (SequenceView, SequenceView),
                _,
            >(e),
            Ok(c) => match maximum_commit(c, source, 1, probe_limits(config)) {
                Err(e) => probe_sequence_pair(candidate, config) == Err::<
                    (SequenceView, SequenceView),
                    _,
                >(e),
                Ok(commit) => {
                    let pair = probe_sequence_pair(candidate, config);
                    &&& pair is Ok
                    &&& pair->Ok_0.0 == sequence_of(c)
                    &&& pair->Ok_0.1 == (SequenceView {
                        history: commit.next_canonical_history,
                        coverage_head: commit.next_coverage_head,
                        safe_head: commit.next_safe_head,
                        finalized_head: commit.next_finalized_head,
                    })
                },
            },
        },
{
    if let Ok(c) = saturated_state(candidate, config) {
        let m = CheckpointView { next_synthetic_token: (u64::MAX - 1) as u64, ..c };
        assert(crate::probe::probe_blocks(m, 1) == crate::probe::probe_blocks(c, 1));
    }
}

// ---------------------------------------------------------------------------
// Whether a position and a checkpoint belong together
// ---------------------------------------------------------------------------

/// The error that a token earns beside a checkpoint: it must be the one that
/// the checkpoint committed last.
pub open spec fn restore_token_error(c: CheckpointView, token: Option<Seq<u8>>) -> Option<
    SubscriberError,
> {
    match token {
        None => Some(
            SubscriberError::Provider(
                "hybrid restore checkpoint is missing its matching delivery token",
            ),
        ),
        Some(bytes) => match unwrapped(bytes) {
            Err(e) => Some(e),
            Ok(p) => if p.epoch != c.epoch {
                Some(
                    SubscriberError::Provider("hybrid checkpoint and delivery-token epochs differ"),
                )
            } else if c.last_committed_token is None {
                Some(
                    SubscriberError::Provider(
                        "hybrid checkpoint is missing its last committed outer token",
                    ),
                )
            } else if c.last_committed_token != Some(
                TokenView { source: p.source, kind: p.kind, inner: p.inner },
            ) {
                Some(
                    SubscriberError::Provider(
                        "hybrid checkpoint does not match its last committed outer delivery token",
                    ),
                )
            } else if p.kind == HybridTokenKind::Synthetic {
                if p.inner.len() != 8 {
                    Some(
                        SubscriberError::Provider(
                            "hybrid synthetic token has an invalid sequence width",
                        ),
                    )
                } else if word_at(p.inner, 0) == u64::MAX {
                    Some(
                        SubscriberError::Provider(
                            "restored hybrid synthetic token exhausted its sequence space",
                        ),
                    )
                } else if c.next_synthetic_token != word_at(p.inner, 0) + 1 {
                    Some(
                        SubscriberError::Provider(
                            "hybrid checkpoint does not match its last synthetic delivery token",
                        ),
                    )
                } else {
                    None
                }
            } else if c.position(p.source).delivery_token != Some(p.inner) {
                Some(
                    SubscriberError::Provider(
                        "hybrid checkpoint does not match its last forwarded delivery token",
                    ),
                )
            } else {
                None
            },
        },
    }
}

fn check_restore_token(state: &HybridCheckpointV5, token: &Option<Vec<u8>>) -> (r: Result<
    (),
    SubscriberError,
>)
    ensures
        match r {
            Ok(_) => restore_token_error(state@, opt_bytes(*token)) is None,
            Err(e) => restore_token_error(state@, opt_bytes(*token)) == Some(e),
        },
{
    let bytes: &Vec<u8> = match token {
        Some(bytes) => bytes,
        None => {
            return Err(
                SubscriberError::Provider(
                    "hybrid restore checkpoint is missing its matching delivery token",
                ),
            );
        },
    };
    let parts: UnwrappedToken = unwrap_token(bytes.as_slice())?;
    if parts.epoch != state.epoch {
        return Err(
            SubscriberError::Provider("hybrid checkpoint and delivery-token epochs differ"),
        );
    }
    let matches: bool = match &state.last_committed_token {
        None => {
            return Err(
                SubscriberError::Provider(
                    "hybrid checkpoint is missing its last committed outer token",
                ),
            );
        },
        Some(last) => last.source == parts.source && last.kind == parts.kind && same_bytes(
            last.inner.as_slice(),
            parts.inner.as_slice(),
        ),
    };
    if !matches {
        return Err(
            SubscriberError::Provider(
                "hybrid checkpoint does not match its last committed outer delivery token",
            ),
        );
    }
    match parts.kind {
        HybridTokenKind::Synthetic => {
            if parts.inner.len() != 8 {
                return Err(
                    SubscriberError::Provider(
                        "hybrid synthetic token has an invalid sequence width",
                    ),
                );
            }
            let sequence: u64 = read_word(parts.inner.as_slice(), 0);
            if sequence == u64::MAX {
                return Err(
                    SubscriberError::Provider(
                        "restored hybrid synthetic token exhausted its sequence space",
                    ),
                );
            }
            if state.next_synthetic_token != sequence + 1 {
                return Err(
                    SubscriberError::Provider(
                        "hybrid checkpoint does not match its last synthetic delivery token",
                    ),
                );
            }
        },
        HybridTokenKind::Forwarded => {
            let position: &SourcePosition = match parts.source {
                HybridSource::Historical => &state.historical_position,
                HybridSource::Live => &state.live_position,
            };
            let same: bool = match &position.delivery_token {
                Some(held) => same_bytes(held.as_slice(), parts.inner.as_slice()),
                None => false,
            };
            if !same {
                return Err(
                    SubscriberError::Provider(
                        "hybrid checkpoint does not match its last forwarded delivery token",
                    ),
                );
            }
        },
    }
    Ok(())
}

/// The history of a resume position, up to its coverage head.
pub open spec fn resumed_history(p: PositionView) -> Seq<BlockRef> {
    if p.canonical_history.len() == 0 || p.canonical_history.last().number < p.coverage_head.number {
        p.canonical_history.push(p.coverage_head)
    } else {
        p.canonical_history
    }
}

/// The blocks of a history from `from` on, completed by those of another, behind
/// `done`.
pub open spec fn completed_by(
    history: Seq<BlockRef>,
    other: Seq<BlockRef>,
    from: int,
    done: Seq<BlockRef>,
) -> Result<Seq<BlockRef>, SubscriberError>
    decreases history.len() - from,
{
    if from < 0 || from >= history.len() {
        Ok(done)
    } else {
        match block_at(other, history[from].number) {
            None => completed_by(history, other, from + 1, done.push(history[from])),
            Some(known) => match merged_block(known, history[from]) {
                Err(_) => Err(
                    SubscriberError::RuntimeHistoryConflict { number: history[from].number },
                ),
                Ok(m) => completed_by(history, other, from + 1, done.push(m)),
            },
        }
    }
}

fn complete_by(history: &Vec<BlockRef>, other: &Vec<BlockRef>) -> (r: Result<
    Vec<BlockRef>,
    SubscriberError,
>)
    ensures
        match r {
            Ok(done) => completed_by(history@, other@, 0, Seq::empty()) == Ok::<_, SubscriberError>(
                done@,
            ),
            Err(e) => completed_by(history@, other@, 0, Seq::empty()) == Err::<Seq<BlockRef>, _>(e),
        },
{
    let mut done: Vec<BlockRef> = Vec::new();
    let mut i: usize = 0;
    while i < history.len()
        invariant
            i <= history@.len(),
            completed_by(history@, other@, 0, Seq::empty()) == completed_by(
                history@,
                other@,
                i as int,
                done@,
            ),
        decreases history@.len() - i,
    {
        match find_block(other.as_slice(), history[i].number) {
            None => {
                done.push(history[i]);
            },
            Some(known) => match compatible_block_ref(&known, &history[i]) {
                Err(_) => {
                    return Err(
                        SubscriberError::RuntimeHistoryConflict { number: history[i].number },
                    );
                },
                Ok(m) => {
                    done.push(m);
                },
            },
        }
        i += 1;
    }
    Ok(done)
}

/// The error that recent inputs earn, from `from` on, whose block is not the one
/// that a history has at its height.
pub open spec fn recent_conflict(recent: Seq<RecentView>, history: Seq<BlockRef>, from: int) -> Option<
    SubscriberError,
>
    decreases recent.len() - from,
{
    if from < 0 || from >= recent.len() {
        None
    } else {
        let block = recent[from].coverage.block;
        if block is Some && block_at(history, block->Some_0.number) is Some && merged_block(
            block_at(history, block->Some_0.number)->Some_0,
            block->Some_0,
        ) is Err {
            Some(SubscriberError::RuntimeCoverageConflict { number: block->Some_0.number })
        } else {
            recent_conflict(recent, history, from + 1)
        }
    }
}

fn check_recent(recent: &Vec<StoredRecentInput>, history: &Vec<BlockRef>) -> (r: Result<
    (),
    SubscriberError,
>)
    ensures
        match r {
            Ok(_) => recent_conflict(recent_view(recent@), history@, 0) is None,
            Err(e) => recent_conflict(recent_view(recent@), history@, 0) == Some(e),
        },
{
    let ghost all = recent_view(recent@);
    let mut i: usize = 0;
    while i < recent.len()
        invariant
            i <= recent@.len(),
            all == recent_view(recent@),
            recent_conflict(all, history@, 0) == recent_conflict(all, history@, i as int),
        decreases recent@.len() - i,
    {
        assert(all[i as int] == recent@[i as int]@);
        if let Some(block) = recent[i].coverage.block {
            if let Some(known) = find_block(history.as_slice(), block.number) {
                if compatible_block_ref(&known, &block).is_err() {
                    return Err(SubscriberError::RuntimeCoverageConflict { number: block.number });
                }
            }
        }
        i += 1;
    }
    Ok(())
}

/// The history that a position and a checkpoint agree on, or why they do not
/// belong together or to this coordinator.
pub open spec fn restored_history(
    chain_id: u64,
    config: HybridConfig,
    p: PositionView,
    c: CheckpointView,
    live_is_durable: bool,
) -> Result<Seq<BlockRef>, SubscriberError> {
    let history = resumed_history(p);
    if p.chain_id != chain_id || c.chain_id != chain_id {
        Err(SubscriberError::RestoreWrongChain { expected: chain_id })
    } else if config_limits_error(config, c, live_is_durable) is Some {
        Err(config_limits_error(config, c, live_is_durable)->Some_0)
    } else if restore_token_error(c, p.delivery_token) is Some {
        Err(restore_token_error(c, p.delivery_token)->Some_0)
    } else if c.coverage_head is Some && merged_block(
        c.coverage_head->Some_0,
        p.coverage_head,
    ) is Err {
        Err(
            SubscriberError::RestoreCoverage {
                checkpoint: c.coverage_head->Some_0.number,
                runtime: p.coverage_head.number,
            },
        )
    } else if history_error("runtime resume", history, Some(p.coverage_head)) is Some {
        Err(history_error("runtime resume", history, Some(p.coverage_head))->Some_0)
    } else {
        match completed_by(history, c.canonical_history, 0, Seq::empty()) {
            Err(e) => Err(e),
            Ok(done) => match recent_conflict(c.recent_inputs, done, 0) {
                Some(e) => Err(e),
                None => Ok(done),
            },
        }
    }
}

/// The history that a position and a checkpoint agree on. Refuses a pair that
/// does not belong together or to this coordinator.
pub fn validate_restore_position_preflight(
    chain_id: u64,
    config: &HybridConfig,
    position: &SubscriberResumePosition,
    state: &HybridCheckpointV5,
    live_is_durable: bool,
) -> (r: Result<Vec<BlockRef>, SubscriberError>)
    ensures
        match r {
            Ok(history) => restored_history(
                chain_id,
                *config,
                position@,
                state@,
                live_is_durable,
            ) == Ok::<_, SubscriberError>(history@),
            Err(e) => restored_history(chain_id, *config, position@, state@, live_is_durable)
                == Err::<Seq<BlockRef>, _>(e),
        },
{
    if position.chain_id != chain_id || state.chain_id != chain_id {
        return Err(SubscriberError::RestoreWrongChain { expected: chain_id });
    }
    validate_checkpoint_config_limits_for_restore(config, state, live_is_durable)?;
    check_restore_token(state, &position.delivery_token)?;
    if let Some(head) = state.coverage_head {
        if compatible_block_ref(&head, &position.coverage_head).is_err() {
            return Err(
                SubscriberError::RestoreCoverage {
                    checkpoint: head.number,
                    runtime: position.coverage_head.number,
                },
            );
        }
    }
    let mut history: Vec<BlockRef> = copy_blocks(position.canonical_history.as_slice());
    let total: usize = history.len();
    if total == 0 || history[total - 1].number < position.coverage_head.number {
        history.push(position.coverage_head);
    }
    assert(history@ =~= resumed_history(position@));
    validate_checkpoint_history(
        "runtime resume",
        history.as_slice(),
        &Some(position.coverage_head),
    )?;
    let done: Vec<BlockRef> = complete_by(&history, &state.canonical_history)?;
    check_recent(&state.recent_inputs, &done)?;
    Ok(done)
}

/// A checkpoint as it will be installed for a position, before it is validated,
/// and whether its tokens need a new epoch. A live source that cannot replay
/// loses its token and its cursor; so does the last committed token, unless it
/// is that of an empty lifecycle, which no source gave.
pub open spec fn candidate_of(
    chain_id: u64,
    config: HybridConfig,
    p: PositionView,
    c: CheckpointView,
    live_is_durable: bool,
) -> Result<(CheckpointView, bool), SubscriberError> {
    match restored_history(chain_id, config, p, c, live_is_durable) {
        Err(e) => Err(e),
        Ok(history) => {
            let head = match c.coverage_head {
                None => p.coverage_head,
                Some(known) => merged_block(known, p.coverage_head)->Ok_0,
            };
            let n = CheckpointView {
                coverage_head: Some(head),
                canonical_history: newest(history, config.canonical_history_capacity as nat),
                ..c
            };
            if live_is_durable {
                Ok((n, false))
            } else {
                let live = SourceView { delivery_token: None, checkpoint: None, ..n.live_position };
                if is_empty_barrier(n) {
                    Ok((CheckpointView { live_position: live, ..n }, false))
                } else {
                    Ok(
                        (
                            CheckpointView {
                                live_position: SourceView { delivery_digest: None, ..live },
                                last_committed_token: None,
                                ..n
                            },
                            true,
                        ),
                    )
                }
            }
        },
    }
}

/// A checkpoint as it will be installed for a position, and whether its tokens
/// need a new epoch; or why it cannot be.
pub open spec fn normalized_candidate(
    chain_id: u64,
    config: HybridConfig,
    p: PositionView,
    c: CheckpointView,
    live_is_durable: bool,
    sequence: SequenceVerdict,
) -> Result<(CheckpointView, bool), SubscriberError> {
    match candidate_of(chain_id, config, p, c, live_is_durable) {
        Err(e) => Err(e),
        Ok((n, rotate)) => if config_limits_error(config, n, true) is Some {
            Err(config_limits_error(config, n, true)->Some_0)
        } else if state_error(n, sequence) is Some {
            Err(state_error(n, sequence)->Some_0)
        } else {
            Ok((n, rotate))
        },
    }
}

/// Turns a checkpoint into what will be installed for a position, without
/// validating the result, and says whether its tokens need a new epoch.
pub fn derive_restore_candidate(
    chain_id: u64,
    config: &HybridConfig,
    position: &SubscriberResumePosition,
    state: HybridCheckpointV5,
    live_is_durable: bool,
) -> (r: Result<(HybridCheckpointV5, bool), SubscriberError>)
    ensures
        match r {
            Ok((n, rotate)) => candidate_of(
                chain_id,
                *config,
                position@,
                state@,
                live_is_durable,
            ) == Ok::<_, SubscriberError>((n@, rotate)),
            Err(e) => candidate_of(chain_id, *config, position@, state@, live_is_durable) == Err::<
                (CheckpointView, bool),
                _,
            >(e),
        },
{
    let mut history: Vec<BlockRef> = validate_restore_position_preflight(
        chain_id,
        config,
        position,
        &state,
        live_is_durable,
    )?;
    truncate_front_to(&mut history, config.canonical_history_capacity);
    let mut next = state;
    let head: BlockRef = match next.coverage_head {
        Some(known) => compatible_block_ref(&known, &position.coverage_head)?,
        None => position.coverage_head,
    };
    next.coverage_head = Some(head);
    next.canonical_history = history;
    let mut rotate: bool = false;
    if !live_is_durable {
        let barrier: bool = is_committed_empty_lifecycle_barrier(&next);
        next.live_position.delivery_token = None;
        next.live_position.checkpoint = None;
        if !barrier {
            next.live_position.delivery_digest = None;
            next.last_committed_token = None;
            rotate = true;
        }
    }
    Ok((next, rotate))
}

/// Turns a checkpoint into what will be installed for a position, and says
/// whether its tokens need a new epoch.
pub fn normalize_restore_candidate(
    chain_id: u64,
    config: &HybridConfig,
    position: &SubscriberResumePosition,
    state: HybridCheckpointV5,
    live_is_durable: bool,
    sequence: &SequenceVerdict,
) -> (r: Result<(HybridCheckpointV5, bool), SubscriberError>)
    ensures
        match r {
            Ok((n, rotate)) => normalized_candidate(
                chain_id,
                *config,
                position@,
                state@,
                live_is_durable,
                *sequence,
            ) == Ok::<_, SubscriberError>((n@, rotate)),
            Err(e) => normalized_candidate(
                chain_id,
                *config,
                position@,
                state@,
                live_is_durable,
                *sequence,
            ) == Err::<(CheckpointView, bool), _>(e),
        },
{
    let (next, rotate) = derive_restore_candidate(
        chain_id,
        config,
        position,
        state,
        live_is_durable,
    )?;
    validate_checkpoint_config_limits(config, &next)?;
    validate_checkpoint_state(&next, sequence)?;
    Ok((next, rotate))
}

/// The error that a candidate earns that leaves no room for what may follow its
/// restore. One that nothing is subscribed in needs no room.
pub open spec fn restore_room_error(
    c: CheckpointView,
    config: HybridConfig,
    verdicts: ProbeVerdicts,
) -> Option<SubscriberError> {
    if c.lifecycle_intent.active() {
        room_error(c, config, "hybrid restored checkpoint", verdicts)
    } else {
        None
    }
}

/// Refuses a candidate that leaves no room for what may follow its restore.
pub fn preflight_restore_delivery_capacity(
    config: &HybridConfig,
    candidate: &HybridCheckpointV5,
    verdicts: &ProbeVerdicts,
) -> (r: Result<(), SubscriberError>)
    ensures
        match r {
            Ok(_) => restore_room_error(candidate@, *config, *verdicts) is None,
            Err(e) => restore_room_error(candidate@, *config, *verdicts) == Some(e),
        },
{
    if !candidate.lifecycle_intent.has_active_interests() {
        return Ok(());
    }
    preflight_maximum_canonical_log_delivery(
        config,
        candidate,
        "hybrid restored checkpoint",
        verdicts,
    )
}

// ---------------------------------------------------------------------------
// Restoring
// ---------------------------------------------------------------------------

/// What the canonical-sequence rules say in the course of a restore: of the
/// stored checkpoint, of what will be installed, and of the simulated states.
#[derive(Debug, PartialEq, Eq)]
pub struct RestoreVerdicts {
    pub stored: SequenceVerdict,
    pub candidate: SequenceVerdict,
    pub probe: ProbeVerdicts,
}

/// Where a source is told to resume; none where it never delivered.
pub open spec fn source_resume(chain_id: u64, s: SourceView) -> Option<PositionView> {
    match s.coverage_head {
        None => None,
        Some(head) => Some(
            PositionView {
                chain_id,
                coverage_head: head,
                canonical_history: if s.canonical_history.len() == 0 {
                    seq![head]
                } else {
                    s.canonical_history
                },
                delivery_token: s.delivery_token,
                subscriber_checkpoint: s.checkpoint,
            },
        ),
    }
}

/// Where a source is told to resume; none where it never delivered.
pub fn source_resume_position(chain_id: u64, source: &SourcePosition) -> (r: Option<
    SubscriberResumePosition,
>)
    ensures
        opt_position(r) == source_resume(chain_id, source@),
{
    let head: BlockRef = match source.coverage_head {
        None => {
            return None;
        },
        Some(head) => head,
    };
    let mut history: Vec<BlockRef> = copy_blocks(source.canonical_history.as_slice());
    if history.len() == 0 {
        history.push(head);
        assert(history@ =~= seq![head]);
    }
    Some(
        SubscriberResumePosition {
            chain_id,
            coverage_head: head,
            canonical_history: history,
            delivery_token: copy_opt_bytes(&source.delivery_token),
            subscriber_checkpoint: copy_opt_bytes(&source.checkpoint),
        },
    )
}

/// Whether a delivery or a cutover is under way.
pub open spec fn busy(v: CoordView) -> bool {
    v.pending_cutover is Some || v.in_flight is Some || v.live_buffer.len() > 0
}

/// A checkpoint under another epoch where it needs one.
pub open spec fn rotated(c: CheckpointView, rotate: bool, epoch: Epoch) -> CheckpointView {
    if rotate {
        CheckpointView { epoch, ..c }
    } else {
        c
    }
}

/// The restore that a candidate calls for.
pub open spec fn restore_for(
    chain_id: u64,
    p: PositionView,
    c: CheckpointView,
    live_is_durable: bool,
) -> RestoreView {
    let historical = source_resume(chain_id, c.historical_position);
    let live = if live_is_durable {
        source_resume(chain_id, c.live_position)
    } else {
        None
    };
    RestoreView {
        position: p,
        state: c,
        historical_resume: historical,
        live_resume: live,
        historical_restored: historical is None,
        live_restored: live is None,
    }
}

/// The checkpoint of a position as it will be installed, with room for what may
/// follow, or why it is refused: a topology that was subscribed must have been
/// prepared for this very position.
pub open spec fn restore_candidate(
    v: CoordView,
    p: PositionView,
    live_is_durable: bool,
    verdicts: RestoreVerdicts,
    epoch: Epoch,
) -> Result<CheckpointView, SubscriberError> {
    match p.subscriber_checkpoint {
        None => Err(
            SubscriberError::Provider(
                "hybrid restore requires its versioned coordinator checkpoint",
            ),
        ),
        Some(bytes) => match decoded(bytes, verdicts.stored) {
            Err(e) => Err(e),
            Ok(stored) => match normalized_candidate(
                v.durable.chain_id,
                v.config,
                p,
                stored,
                live_is_durable,
                verdicts.candidate,
            ) {
                Err(e) => Err(e),
                Ok((c, rotate)) => if v.prepared_position is Some && v.prepared_position != Some(p) {
                    Err(
                        SubscriberError::Provider(
                            "hybrid live source was prepared for a different restore position",
                        ),
                    )
                } else if c.lifecycle_intent.needs_preparation() && v.prepared_position != Some(p) {
                    Err(
                        SubscriberError::Provider(
                            "restoring a non-empty Hybrid lifecycle or owner topology requires prepare_restore_base_lifecycle (or owner-capable prepare_restore_lifecycle) first",
                        ),
                    )
                } else if v.prepared_position is Some && v.durable.lifecycle_intent
                    != c.lifecycle_intent {
                    Err(
                        SubscriberError::Provider(
                            "prepared live subscriptions do not match the Hybrid checkpoint",
                        ),
                    )
                } else if restore_room_error(c, v.config, verdicts.probe) is Some {
                    Err(restore_room_error(c, v.config, verdicts.probe)->Some_0)
                } else if state_error(rotated(c, rotate, epoch), verdicts.candidate) is Some {
                    Err(state_error(rotated(c, rotate, epoch), verdicts.candidate)->Some_0)
                } else {
                    Ok(rotated(c, rotate, epoch))
                },
            },
        },
    }
}

/// The state once a restore is admitted, or why it is refused. Asking again for
/// a restore that is under way changes nothing.
pub open spec fn restore_begun(
    v: CoordView,
    p: PositionView,
    live_is_durable: bool,
    verdicts: RestoreVerdicts,
    epoch: Epoch,
) -> Result<CoordView, SubscriberError> {
    if healthy_error(v) is Some {
        Err(healthy_error(v)->Some_0)
    } else if v.pending_preparation is Some {
        Err(
            SubscriberError::Provider("hybrid ephemeral-live restore preparation is incomplete"),
        )
    } else if v.pending_restore is Some {
        if v.pending_restore->Some_0.position != p {
            Err(
                SubscriberError::Provider(
                    "hybrid child restore reconciliation is pending for a different position",
                ),
            )
        } else {
            Ok(v)
        }
    } else if busy(v) {
        Err(
            SubscriberError::Provider(
                "hybrid position restore requires a coordinator with no in-flight delivery",
            ),
        )
    } else if p.chain_id != v.durable.chain_id {
        Err(
            SubscriberError::RestoreChain { found: p.chain_id, expected: v.durable.chain_id },
        )
    } else {
        match restore_candidate(v, p, live_is_durable, verdicts, epoch) {
            Err(e) => Err(e),
            Ok(c) => Ok(
                CoordView {
                    pending_restore: Some(
                        restore_for(v.durable.chain_id, p, c, live_is_durable),
                    ),
                    ..v
                },
            ),
        }
    }
}

fn admit_restore(
    core: &Coordinator,
    position: &SubscriberResumePosition,
    live_is_durable: bool,
    verdicts: &RestoreVerdicts,
    epoch: Epoch,
) -> (r: Result<HybridCheckpointV5, SubscriberError>)
    ensures
        match r {
            Ok(c) => restore_candidate(core@, position@, live_is_durable, *verdicts, epoch) == Ok::<
                _,
                SubscriberError,
            >(c@),
            Err(e) => restore_candidate(core@, position@, live_is_durable, *verdicts, epoch)
                == Err::<CheckpointView, _>(e),
        },
{
    let stored: HybridCheckpointV5 = match &position.subscriber_checkpoint {
        None => {
            return Err(
                SubscriberError::Provider(
                    "hybrid restore requires its versioned coordinator checkpoint",
                ),
            );
        },
        Some(bytes) => decode_hybrid_checkpoint(bytes.as_slice(), &verdicts.stored)?,
    };
    let (mut candidate, rotate) = normalize_restore_candidate(
        core.durable.chain_id,
        &core.config,
        position,
        stored,
        live_is_durable,
        &verdicts.candidate,
    )?;
    let prepared: bool = match &core.prepared_position {
        Some(prepared) => {
            if !prepared.same(position) {
                return Err(
                    SubscriberError::Provider(
                        "hybrid live source was prepared for a different restore position",
                    ),
                );
            }
            true
        },
        None => false,
    };
    if candidate.lifecycle_intent.requires_restore_preparation() && !prepared {
        return Err(
            SubscriberError::Provider(
                "restoring a non-empty Hybrid lifecycle or owner topology requires prepare_restore_base_lifecycle (or owner-capable prepare_restore_lifecycle) first",
            ),
        );
    }
    if prepared && !core.durable.lifecycle_intent.same(&candidate.lifecycle_intent) {
        return Err(
            SubscriberError::Provider(
                "prepared live subscriptions do not match the Hybrid checkpoint",
            ),
        );
    }
    preflight_restore_delivery_capacity(&core.config, &candidate, &verdicts.probe)?;
    if rotate {
        candidate.epoch = epoch;
    }
    validate_checkpoint_state(&candidate, &verdicts.candidate)?;
    Ok(candidate)
}

/// What a restore that is under way asks for.
#[derive(Debug, PartialEq, Eq)]
pub enum RestoreStep {
    /// Restore the historical source.
    Historical(SubscriberResumePosition),
    /// Restore the live source.
    Live(SubscriberResumePosition),
    /// Both sources stand where they should.
    Finish,
}

/// What a restore that is under way asks for, over sequences.
pub enum RestoreStepView {
    Historical(PositionView),
    Live(PositionView),
    Finish,
}

impl View for RestoreStep {
    type V = RestoreStepView;

    open spec fn view(&self) -> RestoreStepView {
        match self {
            RestoreStep::Historical(p) => RestoreStepView::Historical(p@),
            RestoreStep::Live(p) => RestoreStepView::Live(p@),
            RestoreStep::Finish => RestoreStepView::Finish,
        }
    }
}

/// What a restore that is under way asks for.
pub open spec fn restore_step_of(r: RestoreView) -> RestoreStepView {
    if !r.historical_restored && r.historical_resume is Some {
        RestoreStepView::Historical(r.historical_resume->Some_0)
    } else if !r.live_restored && r.live_resume is Some {
        RestoreStepView::Live(r.live_resume->Some_0)
    } else {
        RestoreStepView::Finish
    }
}

/// The height that a restored historical source was certified to, in this
/// lifecycle.
pub open spec fn certified_height(c: CheckpointView) -> Option<u64> {
    match c.certified_historical {
        Some(proof_of) => if proof_of.lifecycle_generation == c.lifecycle_generation {
            Some(proof_of.through.number)
        } else {
            None
        },
        None => None,
    }
}

/// The state once both sources were restored.
pub open spec fn restored(v: CoordView, live_is_durable: bool) -> CoordView {
    let r = v.pending_restore->Some_0;
    let active = r.state.lifecycle_intent.active();
    CoordView {
        durable: r.state,
        replay_historical: r.state.historical_position.delivery_token is Some,
        replay_live: r.state.live_position.delivery_token is Some && live_is_durable,
        phase: if active {
            HybridPhase::Recovering
        } else {
            HybridPhase::Live
        },
        fence: None,
        drain_through: None,
        pending_cutover: None,
        acknowledged_historical_through: certified_height(r.state),
        recovery_anchor: if active {
            Some(r.position.coverage_head)
        } else {
            None
        },
        buffered_live_records: 0,
        buffered_live_bytes: 0,
        prepared_position: None,
        pending_restore: None,
        ..v
    }
}

/// The error that the sources earn at the end of a restore for the chains that
/// they are on. A live source that nothing is subscribed at, and that was not
/// restored, need not know its chain.
pub open spec fn restored_chain_error(
    v: CoordView,
    historical_chain: Option<u64>,
    live_chain: Option<u64>,
) -> Option<SubscriberError> {
    let r = v.pending_restore->Some_0;
    let historical = chain_error(v.durable.chain_id, HybridSource::Historical, historical_chain);
    if historical is Some {
        historical
    } else if r.live_resume is Some || r.state.lifecycle_intent.active() {
        chain_error(v.durable.chain_id, HybridSource::Live, live_chain)
    } else {
        None
    }
}

impl Coordinator {
    /// Admits a restore: nothing is changed but that it is noted. `epoch` names
    /// the tokens from here on where the old ones cannot come again.
    pub fn begin_restore(
        &mut self,
        position: &SubscriberResumePosition,
        live_is_durable: bool,
        verdicts: &RestoreVerdicts,
        epoch: Epoch,
    ) -> (r: Result<(), SubscriberError>)
        ensures
            match r {
                Ok(_) => restore_begun(old(self)@, position@, live_is_durable, *verdicts, epoch)
                    == Ok::<_, SubscriberError>(final(self)@),
                Err(e) => restore_begun(old(self)@, position@, live_is_durable, *verdicts, epoch)
                    == Err::<CoordView, _>(e) && final(self)@ == old(self)@,
            },
    {
        self.ensure_healthy()?;
        if self.pending_preparation.is_some() {
            return Err(
                SubscriberError::Provider(
                    "hybrid ephemeral-live restore preparation is incomplete",
                ),
            );
        }
        if let Some(pending) = &self.pending_restore {
            if !pending.position.same(position) {
                return Err(
                    SubscriberError::Provider(
                        "hybrid child restore reconciliation is pending for a different position",
                    ),
                );
            }
            return Ok(());
        }
        assert(self@.live_buffer.len() == self.live_buffer@.len());
        if self.pending_cutover.is_some() || self.in_flight.is_some() || self.live_buffer.len() > 0 {
            return Err(
                SubscriberError::Provider(
                    "hybrid position restore requires a coordinator with no in-flight delivery",
                ),
            );
        }
        let chain_id: u64 = self.durable.chain_id;
        if position.chain_id != chain_id {
            return Err(
                SubscriberError::RestoreChain { found: position.chain_id, expected: chain_id },
            );
        }
        let state: HybridCheckpointV5 = admit_restore(
            self,
            position,
            live_is_durable,
            verdicts,
            epoch,
        )?;
        let historical_resume: Option<SubscriberResumePosition> = source_resume_position(
            chain_id,
            &state.historical_position,
        );
        let live_resume: Option<SubscriberResumePosition> = if live_is_durable {
            source_resume_position(chain_id, &state.live_position)
        } else {
            None
        };
        let historical_restored: bool = historical_resume.is_none();
        let live_restored: bool = live_resume.is_none();
        self.pending_restore = Some(
            PendingRestore {
                position: position.duplicate(),
                state,
                historical_resume,
                live_resume,
                historical_restored,
                live_restored,
            },
        );
        Ok(())
    }

    /// Says what the restore that is under way asks for.
    pub fn restore_step(&self) -> (r: RestoreStep)
        requires
            self@.pending_restore is Some,
        ensures
            r@ == restore_step_of(self@.pending_restore->Some_0),
    {
        if let Some(pending) = &self.pending_restore {
            if !pending.historical_restored {
                if let Some(position) = &pending.historical_resume {
                    return RestoreStep::Historical(position.duplicate());
                }
            }
            if !pending.live_restored {
                if let Some(position) = &pending.live_resume {
                    return RestoreStep::Live(position.duplicate());
                }
            }
        }
        RestoreStep::Finish
    }

    /// Notes that a source was restored.
    pub fn source_restored(&mut self, source: HybridSource)
        requires
            old(self)@.pending_restore is Some,
        ensures
            final(self)@ == (CoordView {
                pending_restore: Some(
                    match source {
                        HybridSource::Historical => RestoreView {
                            historical_restored: true,
                            ..old(self)@.pending_restore->Some_0
                        },
                        HybridSource::Live => RestoreView {
                            live_restored: true,
                            ..old(self)@.pending_restore->Some_0
                        },
                    },
                ),
                ..old(self)@
            }),
    {
        let mut held: Option<PendingRestore> = None;
        std::mem::swap(&mut self.pending_restore, &mut held);
        if let Some(mut pending) = held {
            match source {
                HybridSource::Historical => {
                    pending.historical_restored = true;
                },
                HybridSource::Live => {
                    pending.live_restored = true;
                },
            }
            self.pending_restore = Some(pending);
        }
    }

    /// Ends a restore whose sources stand where they should. A source on another
    /// chain leaves the restore under way.
    pub fn finish_restore(
        &mut self,
        historical_chain: Option<u64>,
        live_chain: Option<u64>,
        live_is_durable: bool,
    ) -> (r: Result<(), SubscriberError>)
        requires
            old(self)@.pending_restore is Some,
            restore_step_of(old(self)@.pending_restore->Some_0) is Finish,
        ensures
            match restored_chain_error(old(self)@, historical_chain, live_chain) {
                Some(e) => r == Err::<(), _>(e) && final(self)@ == old(self)@,
                None => r is Ok && final(self)@ == restored(old(self)@, live_is_durable),
            },
    {
        self.ensure_source_chain(HybridSource::Historical, historical_chain)?;
        let active: bool;
        match &self.pending_restore {
            Some(pending) => {
                active = pending.state.lifecycle_intent.has_active_interests();
                if pending.live_resume.is_some() || active {
                    self.ensure_source_chain(HybridSource::Live, live_chain)?;
                }
            },
            None => {
                return Ok(());
            },
        }
        let mut held: Option<PendingRestore> = None;
        std::mem::swap(&mut self.pending_restore, &mut held);
        if let Some(pending) = held {
            let state: HybridCheckpointV5 = pending.state;
            self.replay_historical = state.historical_position.delivery_token.is_some();
            self.replay_live = state.live_position.delivery_token.is_some() && live_is_durable;
            self.phase = if active {
                HybridPhase::Recovering
            } else {
                HybridPhase::Live
            };
            self.fence = None;
            self.drain_through = None;
            self.pending_cutover = None;
            self.acknowledged_historical_through = match state.certified_historical {
                Some(certified) if certified.lifecycle_generation == state.lifecycle_generation =>
                    Some(certified.through.number),
                _ => None,
            };
            self.recovery_anchor = if active {
                Some(pending.position.coverage_head)
            } else {
                None
            };
            self.buffered_live_records = 0;
            self.buffered_live_bytes = 0;
            self.prepared_position = None;
            self.durable = state;
        }
        Ok(())
    }
}

// ---------------------------------------------------------------------------
// Preparing the live source for a restore
// ---------------------------------------------------------------------------

/// What a preparation asks for.
#[derive(Debug, PartialEq, Eq)]
pub enum PrepareStep {
    /// The live source was prepared for this position before.
    Done,
    /// Install these base interests at the live source.
    InstallBase(Vec<PortableInterest>),
    /// Install these owners, and no others, at the live source.
    InstallOwners(Vec<OwnerInterests>),
    /// The live source has what it needs.
    Finish,
}

/// What a preparation asks for, over sequences.
pub enum PrepareView {
    Done,
    InstallBase(Seq<InterestView>),
    InstallOwners(Seq<OwnerInterestsView>),
    Finish,
}

impl View for PrepareStep {
    type V = PrepareView;

    open spec fn view(&self) -> PrepareView {
        match self {
            PrepareStep::Done => PrepareView::Done,
            PrepareStep::InstallBase(base) => PrepareView::InstallBase(interests_view(base@)),
            PrepareStep::InstallOwners(owners) => PrepareView::InstallOwners(owners_view(owners@)),
            PrepareStep::Finish => PrepareView::Finish,
        }
    }
}

/// The intent of a topology that a position's checkpoint was written under, or
/// why the position cannot be restored with it.
pub open spec fn prepared_intent(
    v: CoordView,
    p: PositionView,
    base: Seq<InterestView>,
    owners: Seq<OwnerInterestsView>,
    live_is_durable: bool,
    verdicts: RestoreVerdicts,
) -> Result<IntentView, SubscriberError> {
    match intent_of(base, owners) {
        Err(e) => Err(e),
        Ok(intent) => match p.subscriber_checkpoint {
            None => Err(
                SubscriberError::Provider(
                    "hybrid live restore preparation requires its coordinator checkpoint",
                ),
            ),
            Some(bytes) => match decoded(bytes, verdicts.stored) {
                Err(e) => Err(e),
                Ok(stored) => match normalized_candidate(
                    v.durable.chain_id,
                    v.config,
                    p,
                    stored,
                    live_is_durable,
                    verdicts.candidate,
                ) {
                    Err(e) => Err(e),
                    Ok((c, _)) => if intent != c.lifecycle_intent {
                        Err(
                            SubscriberError::Provider(
                                "restored runtime interests do not match the hybrid checkpoint lifecycle intent",
                            ),
                        )
                    } else if restore_room_error(c, v.config, verdicts.probe) is Some {
                        Err(restore_room_error(c, v.config, verdicts.probe)->Some_0)
                    } else {
                        Ok(intent)
                    },
                },
            },
        },
    }
}

/// The preparation that is noted first.
pub open spec fn fresh_preparation(
    p: PositionView,
    intent: IntentView,
    base: Seq<InterestView>,
    owners: Seq<OwnerInterestsView>,
) -> PreparationView {
    PreparationView {
        position: p,
        intent,
        base_interests: base,
        owners,
        live_topology_installed: false,
    }
}

/// What a preparation asks for next. A live source that can replay restores its
/// own topology.
pub open spec fn prepare_step_of(
    n: PreparationView,
    base: Seq<InterestView>,
    owners: Seq<OwnerInterestsView>,
    live_is_durable: bool,
) -> PrepareView {
    if live_is_durable || n.live_topology_installed {
        PrepareView::Finish
    } else if owners.len() == 0 {
        PrepareView::InstallBase(base)
    } else {
        PrepareView::InstallOwners(n.owners)
    }
}

/// The state once a preparation is admitted and what it asks for, or why it is
/// refused. Only a new coordinator can be prepared, and for one position.
pub open spec fn preparation_begun(
    v: CoordView,
    p: PositionView,
    base: Seq<InterestView>,
    owners: Seq<OwnerInterestsView>,
    live_is_durable: bool,
    verdicts: RestoreVerdicts,
) -> Result<(CoordView, PrepareView), SubscriberError> {
    if healthy_error(v) is Some {
        Err(healthy_error(v)->Some_0)
    } else if v.pending_restore is Some {
        Err(
            SubscriberError::Provider("hybrid child restore reconciliation is already pending"),
        )
    } else if busy(v) {
        Err(
            SubscriberError::Provider(
                "hybrid live restore preparation requires a fresh coordinator with no in-flight delivery",
            ),
        )
    } else {
        match prepared_intent(v, p, base, owners, live_is_durable, verdicts) {
            Err(e) => Err(e),
            Ok(intent) => if v.prepared_position is Some {
                if v.prepared_position == Some(p) && v.durable.lifecycle_intent == intent {
                    Ok((v, PrepareView::Done))
                } else {
                    Err(
                        SubscriberError::Provider(
                            "hybrid live source is already prepared for a different restore position",
                        ),
                    )
                }
            } else {
                match v.pending_preparation {
                    None => if v.durable.lifecycle_generation != 1 || v.base_interests.len() > 0
                        || v.owners.len() > 0 {
                        Err(
                            SubscriberError::Provider(
                                "hybrid live restore preparation requires a newly constructed coordinator",
                            ),
                        )
                    } else {
                        let n = fresh_preparation(p, intent, base, owners);
                        Ok(
                            (
                                CoordView { pending_preparation: Some(n), ..v },
                                prepare_step_of(n, base, owners, live_is_durable),
                            ),
                        )
                    },
                    Some(n) => if n.position != p || n.intent != intent {
                        Err(
                            SubscriberError::Provider(
                                "hybrid live restore preparation is pending for different interests or a different position",
                            ),
                        )
                    } else {
                        Ok((v, prepare_step_of(n, base, owners, live_is_durable)))
                    },
                }
            },
        }
    }
}

fn admit_preparation(
    core: &Coordinator,
    position: &SubscriberResumePosition,
    base: &Vec<PortableInterest>,
    owners: &Vec<OwnerInterests>,
    live_is_durable: bool,
    verdicts: &RestoreVerdicts,
) -> (r: Result<LifecycleIntent, SubscriberError>)
    ensures
        match r {
            Ok(intent) => prepared_intent(
                core@,
                position@,
                interests_view(base@),
                owners_view(owners@),
                live_is_durable,
                *verdicts,
            ) == Ok::<_, SubscriberError>(intent@),
            Err(e) => prepared_intent(
                core@,
                position@,
                interests_view(base@),
                owners_view(owners@),
                live_is_durable,
                *verdicts,
            ) == Err::<IntentView, _>(e),
        },
{
    let intent: LifecycleIntent = lifecycle_intent(base, owners)?;
    let stored: HybridCheckpointV5 = match &position.subscriber_checkpoint {
        None => {
            return Err(
                SubscriberError::Provider(
                    "hybrid live restore preparation requires its coordinator checkpoint",
                ),
            );
        },
        Some(bytes) => decode_hybrid_checkpoint(bytes.as_slice(), &verdicts.stored)?,
    };
    let (candidate, _rotate) = normalize_restore_candidate(
        core.durable.chain_id,
        &core.config,
        position,
        stored,
        live_is_durable,
        &verdicts.candidate,
    )?;
    if !intent.same(&candidate.lifecycle_intent) {
        return Err(
            SubscriberError::Provider(
                "restored runtime interests do not match the hybrid checkpoint lifecycle intent",
            ),
        );
    }
    preflight_restore_delivery_capacity(&core.config, &candidate, &verdicts.probe)?;
    Ok(intent)
}

/// The state once a preparation is finished with these base interests.
pub open spec fn preparation_finished(v: CoordView, base: Seq<InterestView>) -> CoordView {
    let n = v.pending_preparation->Some_0;
    CoordView {
        durable: CheckpointView { lifecycle_intent: n.intent, ..v.durable },
        base_interests: base,
        owners: topology_of(n.owners),
        prepared_position: Some(n.position),
        pending_preparation: None,
        ..v
    }
}

impl Coordinator {
    /// Admits a preparation of the live source for a restore, and says what it
    /// asks for. Nothing is changed but that it is noted.
    pub fn begin_preparation(
        &mut self,
        position: &SubscriberResumePosition,
        base: &Vec<PortableInterest>,
        owners: &Vec<OwnerInterests>,
        live_is_durable: bool,
        verdicts: &RestoreVerdicts,
    ) -> (r: Result<PrepareStep, SubscriberError>)
        ensures
            match r {
                Ok(step) => preparation_begun(
                    old(self)@,
                    position@,
                    interests_view(base@),
                    owners_view(owners@),
                    live_is_durable,
                    *verdicts,
                ) == Ok::<_, SubscriberError>((final(self)@, step@)),
                Err(e) => preparation_begun(
                    old(self)@,
                    position@,
                    interests_view(base@),
                    owners_view(owners@),
                    live_is_durable,
                    *verdicts,
                ) == Err::<(CoordView, PrepareView), _>(e) && final(self)@ == old(self)@,
            },
    {
        self.ensure_healthy()?;
        if self.pending_restore.is_some() {
            return Err(
                SubscriberError::Provider(
                    "hybrid child restore reconciliation is already pending",
                ),
            );
        }
        assert(self@.live_buffer.len() == self.live_buffer@.len());
        if self.pending_cutover.is_some() || self.in_flight.is_some() || self.live_buffer.len() > 0 {
            return Err(
                SubscriberError::Provider(
                    "hybrid live restore preparation requires a fresh coordinator with no in-flight delivery",
                ),
            );
        }
        let intent: LifecycleIntent = admit_preparation(
            self,
            position,
            base,
            owners,
            live_is_durable,
            verdicts,
        )?;
        if let Some(prepared) = &self.prepared_position {
            if prepared.same(position) && self.durable.lifecycle_intent.same(&intent) {
                return Ok(PrepareStep::Done);
            }
            return Err(
                SubscriberError::Provider(
                    "hybrid live source is already prepared for a different restore position",
                ),
            );
        }
        assert(owners_view(owners@).len() == owners@.len());
        assert(self@.owners.len() == self.owners@.len());
        assert(self@.base_interests.len() == self.base_interests@.len());
        if let Some(pending) = &self.pending_preparation {
            if !pending.position.same(position) || !pending.intent.same(&intent) {
                return Err(
                    SubscriberError::Provider(
                        "hybrid live restore preparation is pending for different interests or a different position",
                    ),
                );
            }
            return if live_is_durable || pending.live_topology_installed {
                Ok(PrepareStep::Finish)
            } else if owners.len() == 0 {
                Ok(PrepareStep::InstallBase(copy_interests(base)))
            } else {
                Ok(PrepareStep::InstallOwners(copy_owners(&pending.owners)))
            };
        }
        if self.durable.lifecycle_generation != 1 || self.base_interests.len() > 0
            || self.owners.len() > 0 {
            return Err(
                SubscriberError::Provider(
                    "hybrid live restore preparation requires a newly constructed coordinator",
                ),
            );
        }
        self.pending_preparation = Some(
            PendingRestorePreparation {
                position: position.duplicate(),
                intent,
                base_interests: copy_interests(base),
                owners: copy_owners(owners),
                live_topology_installed: false,
            },
        );
        if live_is_durable {
            Ok(PrepareStep::Finish)
        } else if owners.len() == 0 {
            Ok(PrepareStep::InstallBase(copy_interests(base)))
        } else {
            Ok(PrepareStep::InstallOwners(copy_owners(owners)))
        }
    }

    /// Notes that the topology of a preparation was installed at the live
    /// source.
    pub fn topology_installed(&mut self)
        requires
            old(self)@.pending_preparation is Some,
        ensures
            final(self)@ == (CoordView {
                pending_preparation: Some(
                    (PreparationView {
                        live_topology_installed: true,
                        ..old(self)@.pending_preparation->Some_0
                    }),
                ),
                ..old(self)@
            }),
    {
        let mut held: Option<PendingRestorePreparation> = None;
        std::mem::swap(&mut self.pending_preparation, &mut held);
        if let Some(mut pending) = held {
            pending.live_topology_installed = true;
            self.pending_preparation = Some(pending);
        }
    }

    /// Ends a preparation: the coordinator waits for the restore of its
    /// position. A live source on another chain leaves it under way.
    pub fn finish_preparation(&mut self, base: &Vec<PortableInterest>, live_chain: Option<u64>) -> (r:
        Result<(), SubscriberError>)
        requires
            old(self)@.pending_preparation is Some,
        ensures
            ({
                let v = old(self)@;
                let active = base@.len() > 0 || topology_active(v.pending_preparation->Some_0.owners);
                let refused = if active {
                    chain_error(v.durable.chain_id, HybridSource::Live, live_chain)
                } else {
                    None
                };
                match refused {
                    Some(e) => r == Err::<(), _>(e) && final(self)@ == v,
                    None => r is Ok && final(self)@ == preparation_finished(
                        v,
                        interests_view(base@),
                    ),
                }
            }),
    {
        match &self.pending_preparation {
            Some(pending) => {
                if base.len() > 0 || any_interests(&pending.owners) {
                    self.ensure_source_chain(HybridSource::Live, live_chain)?;
                }
            },
            None => {
                return Ok(());
            },
        }
        let mut held: Option<PendingRestorePreparation> = None;
        std::mem::swap(&mut self.pending_preparation, &mut held);
        if let Some(pending) = held {
            let mut owners: Vec<OwnerInterests> = Vec::new();
            assert(owners_view(owners@) =~= Seq::<OwnerInterestsView>::empty());
            set_owners(&mut owners, &pending.owners);
            self.base_interests = copy_interests(base);
            self.owners = owners;
            self.durable.lifecycle_intent = pending.intent;
            self.prepared_position = Some(pending.position);
        }
        Ok(())
    }
}

} // verus!
