//! What committing a delivery does to the durable state.
use crate::audience::{
    apply_audience_coverage, coverage_with, merge_optional_block, merge_witness,
    merged_optional_block, merged_witness, no_coverage, AudienceCoverage, AudienceView,
    CoverageView, DeliveryAudience, RecordWitness,
};
use crate::checkpoint::{
    copy_blocks, copy_opt_bytes, opt_bytes, recent_view, CertifiedHistoricalCoverage,
    CheckpointView, HybridCheckpointV5, HybridSource, HybridTokenKind, RecentView, SourcePosition,
    SourceView, StoredCommittedToken, StoredRecentInput, TokenView,
};
use crate::error::SubscriberError;
use crate::history::{
    apply_canonical_mutations_to, moved_all, rewind_other_source, seed_reorg_ancestors, seeded_all,
    source_rewound_all, CanonicalMutation, Trail,
};
use crate::identities::{id_index, identities, lemma_id_index, lemma_id_index_range, IdentityIndex};
use crate::model::{compatible_block_ref, copy_bytes, merged_block, BlockRef, ReactiveInputIdentity};
use crate::owners::OwnerMap;
use crate::words::B256;
use vstd::prelude::*;

verus! {

/// Who a committed record was for.
#[derive(Debug, PartialEq, Eq)]
pub struct AudienceCommit {
    pub identity: ReactiveInputIdentity,
    pub audience: DeliveryAudience,
    pub block: Option<BlockRef>,
    pub witness: RecordWitness,
}

/// An audience commit over sequences.
pub struct AudienceCommitView {
    pub identity: ReactiveInputIdentity,
    pub audience: AudienceView,
    pub block: Option<BlockRef>,
    pub witness: RecordWitness,
}

impl View for AudienceCommit {
    type V = AudienceCommitView;

    open spec fn view(&self) -> AudienceCommitView {
        AudienceCommitView {
            identity: self.identity,
            audience: self.audience@,
            block: self.block,
            witness: self.witness,
        }
    }
}

/// Audience commits over sequences.
pub open spec fn audiences_view(s: Seq<AudienceCommit>) -> Seq<AudienceCommitView> {
    Seq::new(s.len(), |i: int| s[i]@)
}

/// A delivery that was handed out and waits to be acknowledged.
#[derive(Debug, PartialEq, Eq)]
pub struct PendingCoordinatorCommit {
    pub audiences: Vec<AudienceCommit>,
    pub canonical: Vec<CanonicalMutation>,
    pub source: HybridSource,
    pub source_token: Option<Vec<u8>>,
    pub source_checkpoint: Option<Vec<u8>>,
    pub source_progress: Option<BlockRef>,
    pub source_observed_through: Option<BlockRef>,
    pub token_kind: HybridTokenKind,
    pub token_bytes: Vec<u8>,
    pub source_delivery_digest: B256,
    pub next_safe_head: Option<BlockRef>,
    pub next_finalized_head: Option<BlockRef>,
    pub next_canonical_history: Vec<BlockRef>,
    pub next_coverage_head: Option<BlockRef>,
}

/// A pending commit over sequences.
pub struct CommitView {
    pub audiences: Seq<AudienceCommitView>,
    pub canonical: Seq<CanonicalMutation>,
    pub source: HybridSource,
    pub source_token: Option<Seq<u8>>,
    pub source_checkpoint: Option<Seq<u8>>,
    pub source_progress: Option<BlockRef>,
    pub source_observed_through: Option<BlockRef>,
    pub token_kind: HybridTokenKind,
    pub token_bytes: Seq<u8>,
    pub source_delivery_digest: B256,
    pub next_safe_head: Option<BlockRef>,
    pub next_finalized_head: Option<BlockRef>,
    pub next_canonical_history: Seq<BlockRef>,
    pub next_coverage_head: Option<BlockRef>,
}

impl View for PendingCoordinatorCommit {
    type V = CommitView;

    open spec fn view(&self) -> CommitView {
        CommitView {
            audiences: audiences_view(self.audiences@),
            canonical: self.canonical@,
            source: self.source,
            source_token: opt_bytes(self.source_token),
            source_checkpoint: opt_bytes(self.source_checkpoint),
            source_progress: self.source_progress,
            source_observed_through: self.source_observed_through,
            token_kind: self.token_kind,
            token_bytes: self.token_bytes@,
            source_delivery_digest: self.source_delivery_digest,
            next_safe_head: self.next_safe_head,
            next_finalized_head: self.next_finalized_head,
            next_canonical_history: self.next_canonical_history@,
            next_coverage_head: self.next_coverage_head,
        }
    }
}

// ---------------------------------------------------------------------------
// The journal of recent inputs
// ---------------------------------------------------------------------------

/// Whether an input of this block outlives one mutation.
pub open spec fn outlives(block: Option<BlockRef>, mutation: CanonicalMutation) -> bool {
    match mutation {
        CanonicalMutation::Rewind(ancestor) => block is None || block->Some_0.number
            <= ancestor.number,
        CanonicalMutation::Reset => block is None,
        CanonicalMutation::Advance(_) => true,
    }
}

/// Whether an input of this block outlives every mutation.
pub open spec fn outlives_all(block: Option<BlockRef>, mutations: Seq<CanonicalMutation>) -> bool {
    forall|i: int| 0 <= i < mutations.len() ==> outlives(block, #[trigger] mutations[i])
}

/// The recent inputs that outlive every mutation.
pub open spec fn survivors(
    entries: Seq<RecentView>,
    mutations: Seq<CanonicalMutation>,
) -> Seq<RecentView>
    decreases entries.len(),
{
    if entries.len() == 0 {
        Seq::empty()
    } else if outlives_all(entries.last().coverage.block, mutations) {
        survivors(entries.drop_last(), mutations).push(entries.last())
    } else {
        survivors(entries.drop_last(), mutations)
    }
}

fn block_outlives_all(block: &Option<BlockRef>, mutations: &[CanonicalMutation]) -> (r: bool)
    ensures
        r == outlives_all(*block, mutations@),
{
    let mut i: usize = 0;
    while i < mutations.len()
        invariant
            i <= mutations@.len(),
            forall|j: int| 0 <= j < i ==> outlives(*block, #[trigger] mutations@[j]),
        decreases mutations@.len() - i,
    {
        let keeps: bool = match (&mutations[i], block) {
            (CanonicalMutation::Rewind(ancestor), Some(known)) => known.number <= ancestor.number,
            (CanonicalMutation::Rewind(_), None) => true,
            (CanonicalMutation::Reset, known) => known.is_none(),
            (CanonicalMutation::Advance(_), _) => true,
        };
        if !keeps {
            assert(!outlives(*block, mutations@[i as int]));
            return false;
        }
        i += 1;
    }
    true
}

fn retain_survivors(entries: &Vec<StoredRecentInput>, mutations: &[CanonicalMutation]) -> (r: Vec<
    StoredRecentInput,
>)
    ensures
        recent_view(r@) == survivors(recent_view(entries@), mutations@),
{
    let ghost all = recent_view(entries@);
    let mut out: Vec<StoredRecentInput> = Vec::new();
    let mut i: usize = 0;
    assert(all.take(0) =~= Seq::<RecentView>::empty());
    assert(recent_view(out@) =~= Seq::<RecentView>::empty());
    while i < entries.len()
        invariant
            i <= entries@.len(),
            all == recent_view(entries@),
            recent_view(out@) == survivors(all.take(i as int), mutations@),
        decreases entries@.len() - i,
    {
        proof {
            let next = all.take(i + 1);
            assert(next.drop_last() =~= all.take(i as int));
            assert(next.last() == all[i as int]);
        }
        if block_outlives_all(&entries[i].coverage.block, mutations) {
            let ghost before = out@;
            out.push(entries[i].duplicate());
            assert(recent_view(out@) =~= recent_view(before).push(all[i as int]));
        }
        i += 1;
    }
    assert(all.take(i as int) =~= all);
    out
}

/// A journal with one entry for each identity: where it occurs first stands what
/// was said of it last.
pub open spec fn collapsed(entries: Seq<RecentView>) -> Seq<RecentView>
    decreases entries.len(),
{
    if entries.len() == 0 {
        Seq::empty()
    } else {
        let front = collapsed(entries.drop_last());
        let i = id_index(identities(front), entries.last().identity, 0);
        if i < front.len() {
            front.update(i, entries.last())
        } else {
            front.push(entries.last())
        }
    }
}

/// A journal in which no identity occurs twice is not changed.
pub proof fn lemma_collapsed_unique(entries: Seq<RecentView>)
    requires
        identities(entries).no_duplicates(),
    ensures
        collapsed(entries) == entries,
    decreases entries.len(),
{
    if entries.len() > 0 {
        let front = entries.drop_last();
        let ids = identities(entries);
        assert(identities(front) =~= ids.drop_last());
        assert forall|x: int, y: int|
            0 <= x < front.len() && 0 <= y < front.len() && x != y implies identities(front)[x]
            != identities(front)[y] by {
            assert(ids[x] != ids[y]);
        }
        lemma_collapsed_unique(front);
        assert forall|j: int| 0 <= j < front.len() implies identities(front)[j]
            != entries.last().identity by {
            assert(ids[j] != ids[front.len() as int]);
        }
        lemma_id_index(identities(front), entries.last().identity, 0, front.len() as int);
        assert(entries =~= front.push(entries.last()));
    } else {
        assert(collapsed(entries) =~= entries);
    }
}

fn collapse_entries(entries: Vec<StoredRecentInput>) -> (r: Vec<StoredRecentInput>)
    ensures
        recent_view(r@) == collapsed(recent_view(entries@)),
{
    let ghost all = recent_view(entries@);
    let mut index = IdentityIndex::new();
    let mut out: Vec<StoredRecentInput> = Vec::new();
    let mut i: usize = 0;
    assert(all.take(0) =~= Seq::<RecentView>::empty());
    assert(recent_view(out@) =~= Seq::<RecentView>::empty());
    while i < entries.len()
        invariant
            i <= entries@.len(),
            all == recent_view(entries@),
            recent_view(out@) == collapsed(all.take(i as int)),
            index@ =~= identities(recent_view(out@)),
        decreases entries@.len() - i,
    {
        let ghost before = recent_view(out@);
        proof {
            let next = all.take(i + 1);
            assert(next.drop_last() =~= all.take(i as int));
            assert(next.last() == all[i as int]);
            assert(all[i as int] == entries@[i as int]@);
            assert(index@.len() == before.len());
        }
        let identity: ReactiveInputIdentity = entries[i].identity;
        let at: usize = index.find(&identity);
        if at < out.len() {
            out.set(at, entries[i].duplicate());
            assert(recent_view(out@) =~= before.update(at as int, all[i as int]));
            assert(index@[at as int] == identity);
        } else {
            out.push(entries[i].duplicate());
            index.add_identity(identity);
            assert(recent_view(out@) =~= before.push(all[i as int]));
        }
        assert(index@ =~= identities(recent_view(out@)));
        i += 1;
    }
    assert(all.take(i as int) =~= all);
    out
}

/// The index of the first entry with this identity from `from` on; the length
/// where there is none.
pub open spec fn entry_index(
    entries: Seq<RecentView>,
    identity: ReactiveInputIdentity,
    from: int,
) -> int
    decreases entries.len() - from,
{
    if from < 0 || from >= entries.len() {
        entries.len() as int
    } else if entries[from].identity == identity {
        from
    } else {
        entry_index(entries, identity, from + 1)
    }
}

/// The coverage stored for an identity; none where nobody has had it.
pub open spec fn stored_coverage(
    entries: Seq<RecentView>,
    identity: ReactiveInputIdentity,
) -> Option<CoverageView> {
    let i = entry_index(entries, identity, 0);
    if i < entries.len() {
        Some(entries[i].coverage)
    } else {
        None
    }
}

/// The index of the first entry with this identity; the length where there is
/// none.
pub fn find_entry(entries: &[StoredRecentInput], identity: &ReactiveInputIdentity) -> (r: usize)
    ensures
        r == entry_index(recent_view(entries@), *identity, 0),
        r <= entries@.len(),
{
    let mut i: usize = 0;
    while i < entries.len()
        invariant
            i <= entries@.len(),
            entry_index(recent_view(entries@), *identity, 0) == entry_index(
                recent_view(entries@),
                *identity,
                i as int,
            ),
        decreases entries@.len() - i,
    {
        assert(recent_view(entries@)[i as int] == entries@[i as int]@);
        if entries[i].identity == *identity {
            return i;
        }
        i += 1;
    }
    i
}

/// The coverage of an input once a record of it is committed.
pub open spec fn covered(
    coverage: CoverageView,
    a: AudienceCommitView,
    generations: Seq<(Seq<u8>, u64)>,
) -> Result<CoverageView, SubscriberError> {
    match (match coverage.witness {
        Some(stored) => merged_witness(stored, a.witness),
        None => Ok(a.witness),
    }) {
        Err(e) => Err(e),
        Ok(witness) => match merged_optional_block(coverage.block, a.block) {
            Err(e) => Err(e),
            Ok(block) => Ok(
                CoverageView {
                    block,
                    witness: Some(witness),
                    ..coverage_with(coverage, a.audience, generations)
                },
            ),
        },
    }
}

/// The journal once a record is committed: its entry, brought up to date,
/// stands last.
pub open spec fn touched(
    entries: Seq<RecentView>,
    a: AudienceCommitView,
    generations: Seq<(Seq<u8>, u64)>,
) -> Result<Seq<RecentView>, SubscriberError> {
    let i = entry_index(entries, a.identity, 0);
    let known = i < entries.len();
    match covered(
        if known {
            entries[i].coverage
        } else {
            no_coverage()
        },
        a,
        generations,
    ) {
        Err(e) => Err(e),
        Ok(coverage) => Ok(
            (if known {
                entries.remove(i)
            } else {
                entries
            }).push(RecentView { identity: a.identity, coverage }),
        ),
    }
}

/// The journal once the records from `from` on are committed.
pub open spec fn touched_all(
    entries: Seq<RecentView>,
    audiences: Seq<AudienceCommitView>,
    from: int,
    generations: Seq<(Seq<u8>, u64)>,
) -> Result<Seq<RecentView>, SubscriberError>
    decreases audiences.len() - from,
{
    if from < 0 || from >= audiences.len() {
        Ok(entries)
    } else {
        match touched(entries, audiences[from], generations) {
            Err(e) => Err(e),
            Ok(n) => touched_all(n, audiences, from + 1, generations),
        }
    }
}

/// Brings the coverage of an input up to date for a committed record.
fn cover(coverage: &mut AudienceCoverage, a: &AudienceCommit, generations: &OwnerMap<u64>) -> (r:
    Result<(), SubscriberError>)
    ensures
        match r {
            Ok(_) => covered(old(coverage)@, a@, generations@) == Ok::<_, SubscriberError>(
                final(coverage)@,
            ),
            Err(e) => covered(old(coverage)@, a@, generations@) == Err::<CoverageView, _>(e),
        },
{
    let witness: RecordWitness = match &coverage.witness {
        Some(stored) => merge_witness(stored, &a.witness)?,
        None => a.witness,
    };
    let block: Option<BlockRef> = merge_optional_block(coverage.block, a.block)?;
    apply_audience_coverage(coverage, &a.audience, generations);
    coverage.witness = Some(witness);
    coverage.block = block;
    Ok(())
}

/// Brings the journal up to date for committed records, in their order.
fn refresh_journal(
    entries: &mut Vec<StoredRecentInput>,
    audiences: &Vec<AudienceCommit>,
    generations: &OwnerMap<u64>,
) -> (r: Result<(), SubscriberError>)
    ensures
        match r {
            Ok(_) => touched_all(
                recent_view(old(entries)@),
                audiences_view(audiences@),
                0,
                generations@,
            ) == Ok::<_, SubscriberError>(recent_view(final(entries)@)),
            Err(e) => touched_all(
                recent_view(old(entries)@),
                audiences_view(audiences@),
                0,
                generations@,
            ) == Err::<Seq<RecentView>, _>(e),
        },
{
    let ghost start = recent_view(entries@);
    let ghost all = audiences_view(audiences@);
    let mut i: usize = 0;
    while i < audiences.len()
        invariant
            i <= audiences@.len(),
            start == recent_view(old(entries)@),
            all == audiences_view(audiences@),
            touched_all(start, all, 0, generations@) == touched_all(
                recent_view(entries@),
                all,
                i as int,
                generations@,
            ),
        decreases audiences@.len() - i,
    {
        let a: &AudienceCommit = &audiences[i];
        assert(all[i as int] == a@);
        let at: usize = find_entry(entries.as_slice(), &a.identity);
        let ghost before = recent_view(entries@);
        let mut coverage: AudienceCoverage = if at < entries.len() {
            entries[at].coverage.duplicate()
        } else {
            AudienceCoverage::new()
        };
        cover(&mut coverage, a, generations)?;
        if at < entries.len() {
            entries.remove(at);
            assert(recent_view(entries@) =~= before.remove(at as int));
        }
        let ghost mid = recent_view(entries@);
        entries.push(StoredRecentInput { identity: a.identity, coverage });
        assert(recent_view(entries@) =~= mid.push(
            RecentView { identity: a.identity, coverage: coverage@ },
        ));
        i += 1;
    }
    Ok(())
}

/// The identities of a journal.
pub proof fn lemma_entry_index(entries: Seq<RecentView>, identity: ReactiveInputIdentity, from: int)
    requires
        0 <= from <= entries.len(),
    ensures
        from <= entry_index(entries, identity, from) <= entries.len(),
        entry_index(entries, identity, from) < entries.len() ==> entries[entry_index(
            entries,
            identity,
            from,
        )].identity == identity,
        forall|j: int|
            from <= j < entry_index(entries, identity, from) ==> (#[trigger] entries[j]).identity
                != identity,
    decreases entries.len() - from,
{
    if from < entries.len() && entries[from].identity != identity {
        lemma_entry_index(entries, identity, from + 1);
    }
}

/// Committing records keeps every identity of the journal unique.
pub proof fn law_journal_stays_unique(
    entries: Seq<RecentView>,
    audiences: Seq<AudienceCommitView>,
    from: int,
    generations: Seq<(Seq<u8>, u64)>,
)
    requires
        identities(entries).no_duplicates(),
        0 <= from <= audiences.len(),
    ensures
        match touched_all(entries, audiences, from, generations) {
            Ok(n) => identities(n).no_duplicates(),
            Err(_) => true,
        },
    decreases audiences.len() - from,
{
    if from < audiences.len() {
        let a = audiences[from];
        if let Ok(n) = touched(entries, a, generations) {
            lemma_entry_index(entries, a.identity, 0);
            let i = entry_index(entries, a.identity, 0);
            let ids = identities(entries);
            let next = identities(n);
            assert forall|x: int, y: int|
                0 <= x < next.len() && 0 <= y < next.len() && x != y implies next[x] != next[y] by {
                let last = next.len() - 1;
                let ox = if i < entries.len() && x >= i {
                    x + 1
                } else {
                    x
                };
                let oy = if i < entries.len() && y >= i {
                    y + 1
                } else {
                    y
                };
                if x < last && y < last {
                    assert(next[x] == ids[ox] && next[y] == ids[oy]);
                } else if x < last {
                    assert(next[x] == ids[ox]);
                    if i < entries.len() {
                        assert(ids[i] == a.identity);
                    } else {
                        assert(entries[ox].identity != a.identity);
                    }
                } else {
                    assert(next[y] == ids[oy]);
                    if i < entries.len() {
                        assert(ids[i] == a.identity);
                    } else {
                        assert(entries[oy].identity != a.identity);
                    }
                }
            }
            law_journal_stays_unique(n, audiences, from + 1, generations);
        }
    }
}

/// No identity occurs twice in a collapsed journal.
pub proof fn lemma_collapsed_is_unique(entries: Seq<RecentView>)
    ensures
        identities(collapsed(entries)).no_duplicates(),
    decreases entries.len(),
{
    if entries.len() > 0 {
        let front = collapsed(entries.drop_last());
        let last = entries.last();
        lemma_collapsed_is_unique(entries.drop_last());
        let ids = identities(front);
        let next = identities(collapsed(entries));
        lemma_id_index_range(ids, last.identity, 0);
        let i = id_index(ids, last.identity, 0);
        if i < front.len() {
            assert(next =~= ids);
        } else {
            assert(next =~= ids.push(last.identity));
        }
    }
}

/// Whatever the journal was like, no identity occurs twice in it once a delivery
/// is committed.
pub proof fn law_commit_leaves_unique_journal(c: CheckpointView, commit: CommitView, capacity: nat)
    ensures
        match committed(c, commit, capacity) {
            Ok(n) => identities(n.recent_inputs).no_duplicates(),
            Err(_) => true,
        },
{
    let kept = collapsed(survivors(c.recent_inputs, commit.canonical));
    lemma_collapsed_is_unique(survivors(c.recent_inputs, commit.canonical));
    law_journal_stays_unique(kept, commit.audiences, 0, c.owner_generations);
}

// ---------------------------------------------------------------------------
// Positions and certified coverage
// ---------------------------------------------------------------------------

/// The blocks that mutations rewind to, in order.
pub open spec fn ancestors_of(mutations: Seq<CanonicalMutation>) -> Seq<BlockRef>
    decreases mutations.len(),
{
    if mutations.len() == 0 {
        Seq::empty()
    } else {
        match mutations.last() {
            CanonicalMutation::Rewind(ancestor) => ancestors_of(mutations.drop_last()).push(
                ancestor,
            ),
            _ => ancestors_of(mutations.drop_last()),
        }
    }
}

/// Whether mutations drop everything retained at some point.
pub open spec fn resets(mutations: Seq<CanonicalMutation>) -> bool {
    mutations.contains(CanonicalMutation::Reset)
}

fn collect_ancestors(mutations: &[CanonicalMutation]) -> (r: Vec<BlockRef>)
    ensures
        r@ == ancestors_of(mutations@),
{
    let ghost all = mutations@;
    let mut out: Vec<BlockRef> = Vec::new();
    let mut i: usize = 0;
    assert(all.take(0) =~= Seq::<CanonicalMutation>::empty());
    while i < mutations.len()
        invariant
            i <= mutations@.len(),
            all == mutations@,
            out@ == ancestors_of(all.take(i as int)),
        decreases mutations@.len() - i,
    {
        proof {
            let next = all.take(i + 1);
            assert(next.drop_last() =~= all.take(i as int));
            assert(next.last() == all[i as int]);
        }
        if let CanonicalMutation::Rewind(ancestor) = mutations[i] {
            out.push(ancestor);
        }
        i += 1;
    }
    assert(all.take(i as int) =~= all);
    out
}

fn has_reset(mutations: &[CanonicalMutation]) -> (r: bool)
    ensures
        r == resets(mutations@),
{
    let mut i: usize = 0;
    while i < mutations.len()
        invariant
            i <= mutations@.len(),
            forall|j: int| 0 <= j < i ==> mutations@[j] != CanonicalMutation::Reset,
        decreases mutations@.len() - i,
    {
        if let CanonicalMutation::Reset = mutations[i] {
            assert(mutations@[i as int] == CanonicalMutation::Reset);
            return true;
        }
        i += 1;
    }
    false
}

/// Whether certified coverage is lost to mutations: they drop everything, or go
/// back behind it.
pub open spec fn uncertified(
    certified: Option<CertifiedHistoricalCoverage>,
    mutations: Seq<CanonicalMutation>,
) -> bool {
    resets(mutations) || certified is Some && exists|i: int|
        0 <= i < ancestors_of(mutations).len() && certified->Some_0.through.number > (
        #[trigger] ancestors_of(mutations)[i]).number
}

fn loses_certified(
    certified: &Option<CertifiedHistoricalCoverage>,
    mutations: &[CanonicalMutation],
    ancestors: &[BlockRef],
) -> (r: bool)
    requires
        ancestors@ == ancestors_of(mutations@),
    ensures
        r == uncertified(*certified, mutations@),
{
    if has_reset(mutations) {
        return true;
    }
    if let Some(known) = certified {
        let mut i: usize = 0;
        while i < ancestors.len()
            invariant
                i <= ancestors@.len(),
                ancestors@ == ancestors_of(mutations@),
                certified == Some(*known),
                !resets(mutations@),
                forall|j: int|
                    0 <= j < i ==> known.through.number <= (#[trigger] ancestors@[j]).number,
            decreases ancestors@.len() - i,
        {
            if known.through.number > ancestors[i].number {
                assert(ancestors_of(mutations@)[i as int].number < known.through.number);
                return true;
            }
            i += 1;
        }
    }
    false
}

/// Moves the trail of a source position.
pub open spec fn source_moved(
    source: SourceView,
    mutations: Seq<CanonicalMutation>,
    capacity: nat,
) -> Result<SourceView, SubscriberError> {
    match moved_all(
        Trail { history: source.canonical_history, head: source.coverage_head },
        mutations,
        0,
        capacity,
    ) {
        Err(e) => Err(e),
        Ok(t) => Ok(
            SourceView { canonical_history: t.history, coverage_head: t.head, ..source },
        ),
    }
}

/// Moves the trail of a source position to a block, if it is above its head
/// (or, where `at` is set, at it).
pub open spec fn source_advanced(
    source: SourceView,
    block: Option<BlockRef>,
    at: bool,
    capacity: nat,
) -> Result<SourceView, SubscriberError> {
    if block is Some && (source.coverage_head is None || block->Some_0.number
        > source.coverage_head->Some_0.number || at && block->Some_0.number
        == source.coverage_head->Some_0.number) {
        source_moved(source, seq![CanonicalMutation::Advance(block->Some_0)], capacity)
    } else {
        Ok(source)
    }
}

/// The position of the source that delivered, once its delivery is committed.
pub open spec fn source_committed(source: SourceView, commit: CommitView, capacity: nat) -> Result<
    SourceView,
    SubscriberError,
> {
    let named = SourceView {
        delivery_token: commit.source_token,
        checkpoint: commit.source_checkpoint,
        delivery_digest: Some(commit.source_delivery_digest),
        ..source
    };
    match source_moved(named, commit.canonical, capacity) {
        Err(e) => Err(e),
        Ok(s) => match source_advanced(s, commit.source_progress, false, capacity) {
            Err(e) => Err(e),
            Ok(s) => source_advanced(s, commit.source_observed_through, true, capacity),
        },
    }
}

/// The position of the other source, once the reorganizations of a delivery are
/// committed.
pub open spec fn other_committed(source: SourceView, commit: CommitView, capacity: nat) -> Result<
    SourceView,
    SubscriberError,
> {
    match source_rewound_all(source, ancestors_of(commit.canonical), 0, capacity) {
        Err(e) => Err(e),
        Ok(s) => Ok(
            if resets(commit.canonical) {
                crate::checkpoint::no_position()
            } else {
                s
            },
        ),
    }
}

/// The certified coverage once a delivery of the historical source is
/// committed: within one lifecycle it never goes down, and a page of the same
/// height may complete but not contradict it.
pub open spec fn certified_by(
    current: Option<CertifiedHistoricalCoverage>,
    commit: CommitView,
    lifecycle_generation: u64,
) -> Result<Option<CertifiedHistoricalCoverage>, SubscriberError> {
    if commit.source != HybridSource::Historical || commit.source_observed_through is None {
        Ok(current)
    } else {
        let next = CertifiedHistoricalCoverage {
            lifecycle_generation,
            through: commit.source_observed_through->Some_0,
        };
        if current is Some && current->Some_0.lifecycle_generation == lifecycle_generation {
            let known = current->Some_0;
            if known.through.number > next.through.number {
                Ok(current)
            } else if known.through.number == next.through.number {
                match merged_block(known.through, next.through) {
                    Err(e) => Err(e),
                    Ok(through) => Ok(
                        Some(CertifiedHistoricalCoverage { lifecycle_generation, through }),
                    ),
                }
            } else {
                Ok(Some(next))
            }
        } else {
            Ok(Some(next))
        }
    }
}

/// The state once a delivery is committed, or why it cannot be.
pub open spec fn committed(c: CheckpointView, commit: CommitView, capacity: nat) -> Result<
    CheckpointView,
    SubscriberError,
> {
    let mine = c.position(commit.source);
    let other = c.position(
        if commit.source == HybridSource::Live {
            HybridSource::Historical
        } else {
            HybridSource::Live
        },
    );
    match touched_all(
        collapsed(survivors(c.recent_inputs, commit.canonical)),
        commit.audiences,
        0,
        c.owner_generations,
    ) { Err(e) => Err(e), Ok(recent_inputs) =>
    match seeded_all(mine, ancestors_of(commit.canonical), 0, capacity) { Err(e) => Err(e), Ok(mine) =>
    match other_committed(other, commit, capacity) { Err(e) => Err(e), Ok(other) =>
    match source_committed(mine, commit, capacity) { Err(e) => Err(e), Ok(mine) =>
    match certified_by(
        if uncertified(c.certified_historical, commit.canonical) {
            None
        } else {
            c.certified_historical
        },
        commit,
        c.lifecycle_generation,
    ) { Err(e) => Err(e), Ok(certified_historical) =>
    Ok(CheckpointView {
        recent_inputs,
        certified_historical,
        canonical_history: commit.next_canonical_history,
        coverage_head: commit.next_coverage_head,
        safe_head: commit.next_safe_head,
        finalized_head: commit.next_finalized_head,
        historical_position: if commit.source == HybridSource::Historical {
            mine
        } else {
            other
        },
        live_position: if commit.source == HybridSource::Historical {
            other
        } else {
            mine
        },
        last_committed_token: Some(TokenView {
            source: commit.source,
            kind: commit.token_kind,
            inner: commit.token_bytes,
        }),
        ..c
    }) } } } } }
}

fn advance_source(
    source: &mut SourcePosition,
    block: &Option<BlockRef>,
    at: bool,
    capacity: usize,
) -> (r: Result<(), SubscriberError>)
    ensures
        match r {
            Ok(_) => source_advanced(old(source)@, *block, at, capacity as nat) == Ok::<
                _,
                SubscriberError,
            >(final(source)@),
            Err(e) => source_advanced(old(source)@, *block, at, capacity as nat) == Err::<
                SourceView,
                _,
            >(e),
        },
{
    if let Some(next) = block {
        let moves: bool = match &source.coverage_head {
            None => true,
            Some(head) => next.number > head.number || at && next.number == head.number,
        };
        if moves {
            let step: Vec<CanonicalMutation> = vec![CanonicalMutation::Advance(*next)];
            assert(step@ =~= seq![CanonicalMutation::Advance(*next)]);
            apply_canonical_mutations_to(
                &mut source.canonical_history,
                &mut source.coverage_head,
                step.as_slice(),
                capacity,
            )?;
        }
    }
    Ok(())
}

fn commit_source(source: &mut SourcePosition, commit: &PendingCoordinatorCommit, capacity: usize) -> (r:
    Result<(), SubscriberError>)
    ensures
        match r {
            Ok(_) => source_committed(old(source)@, commit@, capacity as nat) == Ok::<
                _,
                SubscriberError,
            >(final(source)@),
            Err(e) => source_committed(old(source)@, commit@, capacity as nat) == Err::<
                SourceView,
                _,
            >(e),
        },
{
    source.delivery_token = copy_opt_bytes(&commit.source_token);
    source.checkpoint = copy_opt_bytes(&commit.source_checkpoint);
    source.delivery_digest = Some(commit.source_delivery_digest);
    apply_canonical_mutations_to(
        &mut source.canonical_history,
        &mut source.coverage_head,
        commit.canonical.as_slice(),
        capacity,
    )?;
    advance_source(source, &commit.source_progress, false, capacity)?;
    advance_source(source, &commit.source_observed_through, true, capacity)
}

fn commit_other(
    source: &mut SourcePosition,
    commit: &PendingCoordinatorCommit,
    ancestors: &[BlockRef],
    capacity: usize,
) -> (r: Result<(), SubscriberError>)
    requires
        ancestors@ == ancestors_of(commit.canonical@),
    ensures
        match r {
            Ok(_) => other_committed(old(source)@, commit@, capacity as nat) == Ok::<
                _,
                SubscriberError,
            >(final(source)@),
            Err(e) => other_committed(old(source)@, commit@, capacity as nat) == Err::<
                SourceView,
                _,
            >(e),
        },
{
    rewind_other_source(source, ancestors, capacity)?;
    if has_reset(commit.canonical.as_slice()) {
        *source = SourcePosition::new();
    }
    Ok(())
}

fn certify(
    current: Option<CertifiedHistoricalCoverage>,
    commit: &PendingCoordinatorCommit,
    lifecycle_generation: u64,
) -> (r: Result<Option<CertifiedHistoricalCoverage>, SubscriberError>)
    ensures
        r == certified_by(current, commit@, lifecycle_generation),
{
    if commit.source != HybridSource::Historical {
        return Ok(current);
    }
    match commit.source_observed_through {
        None => Ok(current),
        Some(through) => {
            let next = CertifiedHistoricalCoverage { lifecycle_generation, through };
            if let Some(known) = current {
                if known.lifecycle_generation == lifecycle_generation {
                    if known.through.number > through.number {
                        return Ok(current);
                    }
                    if known.through.number == through.number {
                        let merged: BlockRef = compatible_block_ref(&known.through, &through)?;
                        return Ok(
                            Some(
                                CertifiedHistoricalCoverage {
                                    lifecycle_generation,
                                    through: merged,
                                },
                            ),
                        );
                    }
                }
            }
            Ok(Some(next))
        },
    }
}

/// Commits a delivery to the state. Where it cannot be committed the error says
/// why, and the state is as it was.
pub fn apply_commit_to_checkpoint(
    state: &mut HybridCheckpointV5,
    commit: &PendingCoordinatorCommit,
    history_capacity: usize,
) -> (r: Result<(), SubscriberError>)
    ensures
        match r {
            Ok(_) => committed(old(state)@, commit@, history_capacity as nat) == Ok::<
                _,
                SubscriberError,
            >(final(state)@),
            Err(e) => committed(old(state)@, commit@, history_capacity as nat) == Err::<
                CheckpointView,
                _,
            >(e) && final(state)@ == old(state)@,
        },
{
    let mut journal: Vec<StoredRecentInput> = collapse_entries(
        retain_survivors(&state.recent_inputs, commit.canonical.as_slice()),
    );
    refresh_journal(&mut journal, &commit.audiences, &state.owner_generations)?;
    let ancestors: Vec<BlockRef> = collect_ancestors(commit.canonical.as_slice());
    let lost: bool = loses_certified(
        &state.certified_historical,
        commit.canonical.as_slice(),
        ancestors.as_slice(),
    );
    let mut historical: SourcePosition = state.historical_position.duplicate();
    let mut live: SourcePosition = state.live_position.duplicate();
    match commit.source {
        HybridSource::Historical => {
            seed_reorg_ancestors(&mut historical, ancestors.as_slice(), history_capacity)?;
            commit_other(&mut live, commit, ancestors.as_slice(), history_capacity)?;
            commit_source(&mut historical, commit, history_capacity)?;
        },
        HybridSource::Live => {
            seed_reorg_ancestors(&mut live, ancestors.as_slice(), history_capacity)?;
            commit_other(&mut historical, commit, ancestors.as_slice(), history_capacity)?;
            commit_source(&mut live, commit, history_capacity)?;
        },
    }
    let kept: Option<CertifiedHistoricalCoverage> = if lost {
        None
    } else {
        state.certified_historical
    };
    let certified: Option<CertifiedHistoricalCoverage> = certify(
        kept,
        commit,
        state.lifecycle_generation,
    )?;
    state.recent_inputs = journal;
    state.certified_historical = certified;
    state.historical_position = historical;
    state.live_position = live;
    state.canonical_history = copy_blocks(commit.next_canonical_history.as_slice());
    state.coverage_head = commit.next_coverage_head;
    state.safe_head = commit.next_safe_head;
    state.finalized_head = commit.next_finalized_head;
    state.last_committed_token =
    Some(
        StoredCommittedToken {
            source: commit.source,
            kind: commit.token_kind,
            inner: copy_bytes(commit.token_bytes.as_slice()),
        },
    );
    Ok(())
}

/// Within one lifecycle, certified historical coverage never goes down unless a
/// reorganization goes behind it or a reset drops everything.
pub proof fn law_certified_coverage_never_regresses(
    c: CheckpointView,
    commit: CommitView,
    capacity: nat,
)
    requires
        c.certified_historical is Some,
        c.certified_historical->Some_0.lifecycle_generation == c.lifecycle_generation,
        !uncertified(c.certified_historical, commit.canonical),
    ensures
        match committed(c, commit, capacity) {
            Ok(n) => n.certified_historical is Some
                && n.certified_historical->Some_0.lifecycle_generation == c.lifecycle_generation
                && n.certified_historical->Some_0.through.number
                >= c.certified_historical->Some_0.through.number && (
            n.certified_historical->Some_0.through.number
                == c.certified_historical->Some_0.through.number
                ==> n.certified_historical->Some_0.through.hash
                == c.certified_historical->Some_0.through.hash),
            Err(_) => true,
        },
{
}

/// A reorganization that goes behind the certified coverage, or a reset, leaves
/// no certified coverage but what the same delivery proves anew.
pub proof fn law_reorganization_revokes_certificate(
    c: CheckpointView,
    commit: CommitView,
    capacity: nat,
)
    requires
        uncertified(c.certified_historical, commit.canonical),
    ensures
        match committed(c, commit, capacity) {
            Ok(n) => n.certified_historical is Some ==> commit.source == HybridSource::Historical
                && commit.source_observed_through is Some && n.certified_historical->Some_0
                == (CertifiedHistoricalCoverage {
                lifecycle_generation: c.lifecycle_generation,
                through: commit.source_observed_through->Some_0,
            }),
            Err(_) => true,
        },
{
}

} // verus!
