//! Which records of a batch are owed to whom, and the checkpoint that follows.
use crate::audience::{
    apply_audience_coverage, coverage_with, ensure_witness_compatible, merge_audience, merge_scope,
    merge_witness, merged_audience, merged_scope, merged_witness, no_coverage, residual,
    residual_audience, AudienceCoverage, AudienceView, CoverageView, DeliveryAudience,
    DeliveryScope, RecordWitness,
};
use crate::checkpoint::{recent_view, CheckpointView, HybridCheckpointV5};
use crate::commit::{
    apply_commit_to_checkpoint, audiences_view, committed, find_entry, stored_coverage,
    AudienceCommit, AudienceCommitView, CommitView, PendingCoordinatorCommit,
};
use crate::config::{config_limits_error, validate_checkpoint_config_limits, HybridConfig};
use crate::error::SubscriberError;
use crate::fit::{fit_checkpoint_to_durable_limits, fitted};
use crate::identities::{distinct, id_index, IdentityIndex};
use crate::model::{BlockRef, ReactiveInputIdentity};
use crate::owners::ids_view;
use crate::records::{
    canonical_block, canonical_block_ref, deduplicable, is_deduplicable, record_witness,
    routed_view, validated, validated_record, witness_of, ReactiveInputRecord, RecordView,
    RoutedRecord, RoutedView,
};
use crate::validate::{state_error, validate_checkpoint_state, SequenceVerdict};
use vstd::prelude::*;

verus! {

/// What came of merging a record into an earlier one of the same identity.
#[derive(Debug, PartialEq, Eq)]
pub enum MergeOutcome {
    /// Both stay: their bodies cannot be shown to be equal.
    Separate,
    /// One record stands for both.
    Merged(ReactiveInputRecord),
    /// They contradict each other.
    Refused(String),
}

/// A merge outcome over sequences.
pub enum MergeView {
    Separate,
    Merged(RecordView),
    Refused(String),
}

impl View for MergeOutcome {
    type V = MergeView;

    open spec fn view(&self) -> MergeView {
        match self {
            MergeOutcome::Separate => MergeView::Separate,
            MergeOutcome::Merged(record) => MergeView::Merged(record@),
            MergeOutcome::Refused(reason) => MergeView::Refused(*reason),
        }
    }
}

/// Merge outcomes over sequences.
pub open spec fn merges_view(s: Seq<MergeOutcome>) -> Seq<MergeView> {
    Seq::new(s.len(), |i: int| s[i]@)
}

/// A record that stands for itself and for the records merged into it.
#[derive(Debug, PartialEq, Eq)]
pub struct MergedRecord {
    pub routed: RoutedRecord,
    pub identity: ReactiveInputIdentity,
    pub witness: RecordWitness,
}

/// A merged record over sequences.
pub struct MergedView {
    pub routed: RoutedView,
    pub identity: ReactiveInputIdentity,
    pub witness: RecordWitness,
}

impl View for MergedRecord {
    type V = MergedView;

    open spec fn view(&self) -> MergedView {
        MergedView { routed: self.routed@, identity: self.identity, witness: self.witness }
    }
}

/// Merged records over sequences.
pub open spec fn merged_list(s: Seq<MergedRecord>) -> Seq<MergedView> {
    Seq::new(s.len(), |i: int| s[i]@)
}

/// The identities of merged records.
pub open spec fn merged_ids(s: Seq<MergedView>) -> Seq<ReactiveInputIdentity> {
    Seq::new(s.len(), |i: int| s[i].identity)
}

/// What one more record makes of the merged ones.
pub open spec fn merged_with(acc: Seq<MergedView>, r: RoutedView, merge: MergeView, chain_id: u64) -> Result<
    Seq<MergedView>,
    SubscriberError,
> {
    match validated(r.record, chain_id) {
        Err(e) => Err(e),
        Ok((identity, witness)) => {
            let fresh = MergedView { routed: r, identity, witness };
            let i = id_index(merged_ids(acc), identity, 0);
            if i >= acc.len() {
                Ok(acc.push(fresh))
            } else if merged_witness(acc[i].witness, witness) is Err {
                Err(merged_witness(acc[i].witness, witness)->Err_0)
            } else {
                match merge {
                    MergeView::Refused(reason) => Err(SubscriberError::Reported(reason)),
                    MergeView::Separate => Ok(acc.push(fresh)),
                    MergeView::Merged(record) => match witness_of(record, chain_id) {
                        Err(e) => Err(e),
                        Ok(w) => Ok(
                            acc.update(
                                i,
                                MergedView {
                                    routed: RoutedView {
                                        record,
                                        audience: merged_audience(
                                            acc[i].routed.audience,
                                            r.audience,
                                        ),
                                        scope: merged_scope(acc[i].routed.scope, r.scope),
                                    },
                                    identity,
                                    witness: w,
                                },
                            ),
                        ),
                    },
                }
            }
        },
    }
}

/// What the records from `from` on make of the merged ones.
pub open spec fn merged_from(
    acc: Seq<MergedView>,
    records: Seq<RoutedView>,
    merges: Seq<MergeView>,
    from: int,
    chain_id: u64,
) -> Result<Seq<MergedView>, SubscriberError>
    decreases records.len() - from,
{
    if from < 0 || from >= records.len() {
        Ok(acc)
    } else {
        match merged_with(acc, records[from], merges[from], chain_id) {
            Err(e) => Err(e),
            Ok(next) => merged_from(next, records, merges, from + 1, chain_id),
        }
    }
}

/// Merges records that share an identity, one after the other.
#[derive(Debug, PartialEq, Eq)]
pub struct RecordMerger {
    merged: Vec<MergedRecord>,
    index: IdentityIndex,
}

impl View for RecordMerger {
    type V = Seq<MergedView>;

    closed spec fn view(&self) -> Seq<MergedView> {
        merged_list(self.merged@)
    }
}

impl RecordMerger {
    /// The index lists the identities in order.
    #[verifier::type_invariant]
    spec fn inv(self) -> bool {
        self.index@ =~= merged_ids(merged_list(self.merged@))
    }

    /// Nothing merged yet.
    pub fn new() -> (r: RecordMerger)
        ensures
            r@ == Seq::<MergedView>::empty(),
    {
        let r = RecordMerger { merged: Vec::new(), index: IdentityIndex::new() };
        assert(merged_list(r.merged@) =~= Seq::<MergedView>::empty());
        r
    }

    /// The earlier record that this one shares its identity with.
    pub fn retained(&self, routed: &RoutedRecord, chain_id: u64) -> (r: Result<
        Option<&ReactiveInputRecord>,
        SubscriberError,
    >)
        ensures
            match validated(routed@.record, chain_id) {
                Err(e) => r == Err::<Option<&ReactiveInputRecord>, _>(e),
                Ok((identity, _)) => match r {
                    Err(_) => false,
                    Ok(None) => id_index(merged_ids(self@), identity, 0) >= self@.len(),
                    Ok(Some(record)) => id_index(merged_ids(self@), identity, 0) < self@.len()
                        && record@ == self@[id_index(merged_ids(self@), identity, 0)].routed.record,
                },
            },
    {
        proof {
            use_type_invariant(self);
        }
        let (identity, _witness) = validated_record(&routed.record, chain_id)?;
        let at: usize = self.index.find(&identity);
        if at < self.merged.len() {
            assert(self@[at as int] == self.merged@[at as int]@);
            Ok(Some(&self.merged[at].routed.record))
        } else {
            Ok(None)
        }
    }

    /// Merges one more record, given what came of merging it into the earlier
    /// one that it shares its identity with.
    pub fn admit_record(&mut self, routed: &RoutedRecord, merge: &MergeOutcome, chain_id: u64) -> (r: Result<
        (),
        SubscriberError,
    >)
        ensures
            match r {
                Ok(_) => merged_with(old(self)@, routed@, merge@, chain_id) == Ok::<
                    _,
                    SubscriberError,
                >(final(self)@),
                Err(e) => merged_with(old(self)@, routed@, merge@, chain_id) == Err::<
                    Seq<MergedView>,
                    _,
                >(e) && final(self)@ == old(self)@,
            },
    {
        let mut held = RecordMerger::new();
        std::mem::swap(self, &mut held);
        proof {
            use_type_invariant(&held);
        }
        let r = add_merged(held, routed, merge, chain_id, self);
        r
    }
}

/// Merges one more record into what was merged, and leaves the result in `into`.
fn add_merged(
    held: RecordMerger,
    routed: &RoutedRecord,
    merge: &MergeOutcome,
    chain_id: u64,
    into: &mut RecordMerger,
) -> (r: Result<(), SubscriberError>)
    ensures
        match r {
            Ok(_) => merged_with(held@, routed@, merge@, chain_id) == Ok::<_, SubscriberError>(
                final(into)@,
            ),
            Err(e) => merged_with(held@, routed@, merge@, chain_id) == Err::<Seq<MergedView>, _>(e)
                && final(into)@ == held@,
        },
{
    proof {
        use_type_invariant(&held);
    }
    let RecordMerger { mut merged, mut index } = held;
    let r = step_merged(&mut merged, &mut index, routed, merge, chain_id);
    *into = RecordMerger { merged, index };
    r
}

fn step_merged(
    merged: &mut Vec<MergedRecord>,
    index: &mut IdentityIndex,
    routed: &RoutedRecord,
    merge: &MergeOutcome,
    chain_id: u64,
) -> (r: Result<(), SubscriberError>)
    requires
        old(index)@ =~= merged_ids(merged_list(old(merged)@)),
    ensures
        final(index)@ =~= merged_ids(merged_list(final(merged)@)),
        match r {
            Ok(_) => merged_with(merged_list(old(merged)@), routed@, merge@, chain_id) == Ok::<
                _,
                SubscriberError,
            >(merged_list(final(merged)@)),
            Err(e) => merged_with(merged_list(old(merged)@), routed@, merge@, chain_id) == Err::<
                Seq<MergedView>,
                _,
            >(e) && final(merged)@ == old(merged)@,
        },
{
    let ghost before = merged_list(merged@);
    let (identity, witness) = validated_record(&routed.record, chain_id)?;
    let at: usize = index.find(&identity);
    if at < merged.len() {
        assert(before[at as int] == merged@[at as int]@);
        ensure_witness_compatible(&merged[at].witness, &witness)?;
        match merge {
            MergeOutcome::Refused(reason) => {
                return Err(SubscriberError::Reported(reason.clone()));
            },
            MergeOutcome::Separate => {},
            MergeOutcome::Merged(record) => {
                let w: RecordWitness = record_witness(record, chain_id)?;
                let mut audience: DeliveryAudience = merged[at].routed.audience.duplicate();
                merge_audience(&mut audience, &routed.audience);
                let mut scope: DeliveryScope = merged[at].routed.scope;
                merge_scope(&mut scope, routed.scope);
                let joined = MergedRecord {
                    routed: RoutedRecord { record: record.duplicate(), audience, scope },
                    identity,
                    witness: w,
                };
                let ghost now = joined@;
                merged[at] = joined;
                assert(merged_list(merged@) =~= before.update(at as int, now));
                return Ok(());
            },
        }
    }
    let fresh = MergedRecord { routed: routed.duplicate(), identity, witness };
    let ghost last = fresh@;
    merged.push(fresh);
    index.add_identity(identity);
    assert(merged_list(merged@) =~= before.push(last));
    Ok(())
}

/// Merges the records of a batch that share an identity, given what came of
/// merging each of them into the first.
fn merge_records(
    records: &Vec<RoutedRecord>,
    merges: &Vec<MergeOutcome>,
    chain_id: u64,
) -> (r: Result<Vec<MergedRecord>, SubscriberError>)
    requires
        merges@.len() == records@.len(),
    ensures
        match r {
            Ok(merged) => merged_from(
                Seq::empty(),
                routed_view(records@),
                merges_view(merges@),
                0,
                chain_id,
            ) == Ok::<_, SubscriberError>(merged_list(merged@)),
            Err(e) => merged_from(
                Seq::empty(),
                routed_view(records@),
                merges_view(merges@),
                0,
                chain_id,
            ) == Err::<Seq<MergedView>, _>(e),
        },
{
    let ghost all = routed_view(records@);
    let ghost outcomes = merges_view(merges@);
    let mut merger = RecordMerger::new();
    let mut i: usize = 0;
    while i < records.len()
        invariant
            i <= records@.len(),
            merges@.len() == records@.len(),
            all == routed_view(records@),
            outcomes == merges_view(merges@),
            merged_from(Seq::empty(), all, outcomes, 0, chain_id) == merged_from(
                merger@,
                all,
                outcomes,
                i as int,
                chain_id,
            ),
        decreases records@.len() - i,
    {
        assert(all[i as int] == records@[i as int]@);
        assert(outcomes[i as int] == merges@[i as int]@);
        merger.admit_record(&records[i], &merges[i], chain_id)?;
        i += 1;
    }
    Ok(merger.merged)
}

/// What is known of the records of a batch while they are sorted out.
pub struct Sorted {
    pub staged_ids: Seq<ReactiveInputIdentity>,
    pub staged: Seq<CoverageView>,
    pub out: Seq<RoutedView>,
    pub commits: Seq<AudienceCommitView>,
}

/// Who has had an input before this batch, with the witness of this one joined.
pub open spec fn known_coverage(c: CheckpointView, m: MergedView) -> Result<
    CoverageView,
    SubscriberError,
> {
    match stored_coverage(c.recent_inputs, m.identity) {
        None => Ok(CoverageView { witness: Some(m.witness), ..no_coverage() }),
        Some(coverage) => match coverage.witness {
            None => Err(
                SubscriberError::Provider(
                    "hybrid recent-input journal is missing its payload witness",
                ),
            ),
            Some(stored) => match merged_witness(stored, m.witness) {
                Err(e) => Err(e),
                Ok(w) => Ok(CoverageView { witness: Some(w), ..coverage }),
            },
        },
    }
}

/// What one more merged record makes of the sorted ones: it is delivered to
/// whoever has not had it, and committed in any case.
pub open spec fn sorted_with(c: CheckpointView, s: Sorted, m: MergedView) -> Result<
    Sorted,
    SubscriberError,
> {
    if !is_deduplicable(m.routed.record) {
        Ok(Sorted { out: s.out.push(m.routed), ..s })
    } else {
        let i = id_index(s.staged_ids, m.identity, 0);
        let known = i < s.staged_ids.len();
        match (if known {
            Ok(s.staged[i])
        } else {
            known_coverage(c, m)
        }) {
            Err(e) => Err(e),
            Ok(coverage) => {
                let left = residual(coverage, m.routed.audience, c.owner_generations);
                let now = match left {
                    None => coverage,
                    Some(audience) => coverage_with(coverage, audience, c.owner_generations),
                };
                Ok(
                    Sorted {
                        staged_ids: if known {
                            s.staged_ids
                        } else {
                            s.staged_ids.push(m.identity)
                        },
                        staged: if known {
                            s.staged.update(i, now)
                        } else {
                            s.staged.push(now)
                        },
                        out: match left {
                            None => s.out,
                            Some(audience) => s.out.push(RoutedView { audience, ..m.routed }),
                        },
                        commits: s.commits.push(
                            AudienceCommitView {
                                identity: m.identity,
                                audience: match left {
                                    None => AudienceView::Owners(Seq::empty()),
                                    Some(audience) => audience,
                                },
                                block: canonical_block(m.routed.record.context),
                                witness: coverage.witness->Some_0,
                            },
                        ),
                    },
                )
            },
        }
    }
}

/// What the merged records from `from` on make of the sorted ones.
pub open spec fn sorted_from(c: CheckpointView, s: Sorted, merged: Seq<MergedView>, from: int) -> Result<
    Sorted,
    SubscriberError,
>
    decreases merged.len() - from,
{
    if from < 0 || from >= merged.len() {
        Ok(s)
    } else {
        match sorted_with(c, s, merged[from]) {
            Err(e) => Err(e),
            Ok(next) => sorted_from(c, next, merged, from + 1),
        }
    }
}

/// Nothing sorted yet.
pub open spec fn none_sorted() -> Sorted {
    Sorted {
        staged_ids: Seq::empty(),
        staged: Seq::empty(),
        out: Seq::empty(),
        commits: Seq::empty(),
    }
}

/// The records of a batch that are still owed, each to whom it is owed, and
/// what is committed of them.
pub open spec fn filtered(
    c: CheckpointView,
    records: Seq<RoutedView>,
    merges: Seq<MergeView>,
) -> Result<(Seq<RoutedView>, Seq<AudienceCommitView>), SubscriberError> {
    match merged_from(Seq::empty(), records, merges, 0, c.chain_id) {
        Err(e) => Err(e),
        Ok(merged) => match sorted_from(c, none_sorted(), merged, 0) {
            Err(e) => Err(e),
            Ok(s) => Ok((s.out, s.commits)),
        },
    }
}

/// Coverages over sequences.
pub open spec fn coverages_view(s: Seq<AudienceCoverage>) -> Seq<CoverageView> {
    Seq::new(s.len(), |i: int| s[i]@)
}

fn find_known_coverage(state: &HybridCheckpointV5, m: &MergedRecord) -> (r: Result<
    AudienceCoverage,
    SubscriberError,
>)
    ensures
        match r {
            Ok(coverage) => known_coverage(state@, m@) == Ok::<_, SubscriberError>(coverage@),
            Err(e) => known_coverage(state@, m@) == Err::<CoverageView, _>(e),
        },
{
    let at: usize = find_entry(state.recent_inputs.as_slice(), &m.identity);
    if at >= state.recent_inputs.len() {
        let mut coverage = AudienceCoverage::new();
        coverage.witness = Some(m.witness);
        return Ok(coverage);
    }
    assert(recent_view(state.recent_inputs@)[at as int] == state.recent_inputs@[at as int]@);
    let stored: RecordWitness = match &state.recent_inputs[at].coverage.witness {
        None => {
            return Err(
                SubscriberError::Provider(
                    "hybrid recent-input journal is missing its payload witness",
                ),
            );
        },
        Some(stored) => *stored,
    };
    let joined: RecordWitness = merge_witness(&stored, &m.witness)?;
    let mut coverage: AudienceCoverage = state.recent_inputs[at].coverage.duplicate();
    coverage.witness = Some(joined);
    Ok(coverage)
}

/// Every staged coverage has a witness.
pub open spec fn all_witnessed(staged: Seq<CoverageView>) -> bool {
    forall|i: int| 0 <= i < staged.len() ==> (#[trigger] staged[i]).witness is Some
}

/// Records that are owed, and what is committed of them.
#[derive(Debug, PartialEq, Eq)]
pub struct Filtered {
    pub records: Vec<RoutedRecord>,
    pub commits: Vec<AudienceCommit>,
}

/// Sorts out which records of a batch are still owed to whom. `merges` holds,
/// for each record that shares its identity with an earlier one, what came of
/// merging it into that one; what it holds for the others is not read.
pub fn filter_recent(
    state: &HybridCheckpointV5,
    records: &Vec<RoutedRecord>,
    merges: &Vec<MergeOutcome>,
) -> (r: Result<Filtered, SubscriberError>)
    requires
        merges@.len() == records@.len(),
    ensures
        match r {
            Ok(f) => filtered(state@, routed_view(records@), merges_view(merges@)) == Ok::<
                _,
                SubscriberError,
            >((routed_view(f.records@), audiences_view(f.commits@))),
            Err(e) => filtered(state@, routed_view(records@), merges_view(merges@)) == Err::<
                (Seq<RoutedView>, Seq<AudienceCommitView>),
                _,
            >(e),
        },
{
    let merged: Vec<MergedRecord> = merge_records(records, merges, state.chain_id)?;
    sort_merged(state, &merged)
}

fn sort_merged(state: &HybridCheckpointV5, merged: &Vec<MergedRecord>) -> (r: Result<
    Filtered,
    SubscriberError,
>)
    ensures
        match r {
            Ok(f) => sorted_from(state@, none_sorted(), merged_list(merged@), 0) is Ok
                && sorted_from(state@, none_sorted(), merged_list(merged@), 0)->Ok_0.out
                == routed_view(f.records@) && sorted_from(
                state@,
                none_sorted(),
                merged_list(merged@),
                0,
            )->Ok_0.commits == audiences_view(f.commits@),
            Err(e) => sorted_from(state@, none_sorted(), merged_list(merged@), 0) == Err::<
                Sorted,
                _,
            >(e),
        },
{
    let ghost all = merged_list(merged@);
    let mut index = IdentityIndex::new();
    let mut staged: Vec<AudienceCoverage> = Vec::new();
    let mut out: Vec<RoutedRecord> = Vec::new();
    let mut commits: Vec<AudienceCommit> = Vec::new();
    let mut i: usize = 0;
    assert(coverages_view(staged@) =~= Seq::<CoverageView>::empty());
    assert(routed_view(out@) =~= Seq::<RoutedView>::empty());
    assert(audiences_view(commits@) =~= Seq::<AudienceCommitView>::empty());
    while i < merged.len()
        invariant
            i <= merged@.len(),
            all == merged_list(merged@),
            index@.len() == staged@.len(),
            all_witnessed(coverages_view(staged@)),
            sorted_from(state@, none_sorted(), all, 0) == sorted_from(
                state@,
                Sorted {
                    staged_ids: index@,
                    staged: coverages_view(staged@),
                    out: routed_view(out@),
                    commits: audiences_view(commits@),
                },
                all,
                i as int,
            ),
        decreases merged@.len() - i,
    {
        let m: &MergedRecord = &merged[i];
        assert(all[i as int] == m@);
        let ghost s = Sorted {
            staged_ids: index@,
            staged: coverages_view(staged@),
            out: routed_view(out@),
            commits: audiences_view(commits@),
        };
        if !deduplicable(&m.routed.record) {
            out.push(m.routed.duplicate());
            assert(routed_view(out@) =~= s.out.push(m@.routed));
        } else {
            let at: usize = index.find(&m.identity);
            let known: bool = at < staged.len();
            let mut coverage: AudienceCoverage = if known {
                assert(s.staged[at as int] == staged@[at as int]@);
                staged[at].duplicate()
            } else {
                find_known_coverage(state, m)?
            };
            let witness: RecordWitness = match coverage.witness {
                Some(witness) => witness,
                None => m.witness,
            };
            let left: Option<DeliveryAudience> = residual_audience(
                &coverage,
                &m.routed.audience,
                &state.owner_generations,
            );
            let block: Option<BlockRef> = canonical_block_ref(&m.routed.record);
            match left {
                None => {
                    let none: Vec<crate::model::HandlerId> = Vec::new();
                    assert(ids_view(none@) =~= Seq::<Seq<u8>>::empty());
                    let commit = AudienceCommit {
                        identity: m.identity,
                        audience: DeliveryAudience::Owners(none),
                        block,
                        witness,
                    };
                    let ghost last = commit@;
                    commits.push(commit);
                    assert(audiences_view(commits@) =~= s.commits.push(last));
                },
                Some(audience) => {
                    apply_audience_coverage(&mut coverage, &audience, &state.owner_generations);
                    let commit = AudienceCommit {
                        identity: m.identity,
                        audience: audience.duplicate(),
                        block,
                        witness,
                    };
                    let ghost last = commit@;
                    commits.push(commit);
                    assert(audiences_view(commits@) =~= s.commits.push(last));
                    let routed = RoutedRecord {
                        record: m.routed.record.duplicate(),
                        audience,
                        scope: m.routed.scope,
                    };
                    let ghost shown = routed@;
                    out.push(routed);
                    assert(routed_view(out@) =~= s.out.push(shown));
                },
            }
            let ghost now = coverage@;
            if known {
                staged[at] = coverage;
                assert(coverages_view(staged@) =~= s.staged.update(at as int, now));
            } else {
                staged.push(coverage);
                index.add_identity(m.identity);
                assert(coverages_view(staged@) =~= s.staged.push(now));
            }
        }
        i += 1;
    }
    Ok(Filtered { records: out, commits })
}

// ---------------------------------------------------------------------------
// The checkpoint that follows a delivery
// ---------------------------------------------------------------------------

/// The identities of committed records.
pub open spec fn commit_ids(s: Seq<AudienceCommitView>) -> Seq<ReactiveInputIdentity> {
    Seq::new(s.len(), |i: int| s[i].identity)
}

/// The state once a delivery is committed and fitted, or why it cannot be.
pub open spec fn state_after(
    c: CheckpointView,
    config: HybridConfig,
    commit: CommitView,
    sequence: SequenceVerdict,
) -> Result<CheckpointView, SubscriberError> {
    match committed(c, commit, config.canonical_history_capacity as nat) {
        Err(e) => Err(e),
        Ok(n) => match fitted(
            n,
            distinct(commit_ids(commit.audiences)),
            config.recent_input_capacity as nat,
            config.max_recent_owner_entries as nat,
            sequence,
        ) {
            Err(e) => Err(e),
            Ok(n) => if config_limits_error(config, n, true) is Some {
                Err(config_limits_error(config, n, true)->Some_0)
            } else if state_error(n, sequence) is Some {
                Err(state_error(n, sequence)->Some_0)
            } else {
                Ok(n)
            },
        },
    }
}

fn count_distinct(audiences: &Vec<AudienceCommit>) -> (r: usize)
    ensures
        r == distinct(commit_ids(audiences_view(audiences@))),
{
    let ghost all = commit_ids(audiences_view(audiences@));
    let mut seen = IdentityIndex::new();
    let mut count: usize = 0;
    let mut i: usize = 0;
    assert(all.take(0) =~= Seq::<ReactiveInputIdentity>::empty());
    while i < audiences.len()
        invariant
            i <= audiences@.len(),
            all == commit_ids(audiences_view(audiences@)),
            seen@ =~= all.take(i as int),
            count <= i,
            count == distinct(all.take(i as int)),
        decreases audiences@.len() - i,
    {
        let identity: ReactiveInputIdentity = audiences[i].identity;
        proof {
            let next = all.take(i + 1);
            assert(next.drop_last() =~= all.take(i as int));
            assert(next.last() == identity);
        }
        if seen.find(&identity) >= i {
            count += 1;
        }
        seen.add_identity(identity);
        i += 1;
    }
    assert(all.take(i as int) =~= all);
    count
}

/// The state once a delivery is committed and fitted.
pub fn checkpoint_after(
    state: &HybridCheckpointV5,
    config: &HybridConfig,
    commit: &PendingCoordinatorCommit,
    sequence: &SequenceVerdict,
) -> (r: Result<HybridCheckpointV5, SubscriberError>)
    ensures
        match r {
            Ok(n) => state_after(state@, *config, commit@, *sequence) == Ok::<_, SubscriberError>(
                n@,
            ),
            Err(e) => state_after(state@, *config, commit@, *sequence) == Err::<CheckpointView, _>(
                e,
            ),
        },
{
    let mut next: HybridCheckpointV5 = state.duplicate();
    apply_commit_to_checkpoint(&mut next, commit, config.canonical_history_capacity)?;
    let protected: usize = count_distinct(&commit.audiences);
    fit_checkpoint_to_durable_limits(
        &mut next,
        protected,
        config.recent_input_capacity,
        config.max_recent_owner_entries,
        sequence,
    )?;
    validate_checkpoint_config_limits(config, &next)?;
    validate_checkpoint_state(&next, sequence)?;
    Ok(next)
}

} // verus!
