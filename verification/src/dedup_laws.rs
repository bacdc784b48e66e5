//! What the journal of recent inputs promises.
use crate::audience::{
    coverage_with, covers, generation_of, ids_covered, law_residual_is_what_is_owed,
    lemma_ids_covered, lemma_owners_covered, lemma_requested_owners, no_coverage, requested_owners,
    residual, AudienceView, CoverageView,
};
use crate::checkpoint::{CheckpointView, RecentView};
use crate::commit::{
    committed, covered, entry_index, law_journal_stays_unique, lemma_collapsed_unique,
    lemma_entry_index, outlives, stored_coverage, survivors, touched, touched_all,
    AudienceCommitView, CommitView,
};
use crate::config::HybridConfig;
use crate::filter::{
    commit_ids, known_coverage, none_sorted, sorted_from, sorted_with, state_after, MergedView,
    Sorted,
};
use crate::fit::law_fit_keeps_protected_suffix;
use crate::flow::takes_back;
use crate::history::CanonicalMutation;
use crate::identities::{distinct, id_index, identities};
use crate::limits_laws::state_typed;
use crate::model::ReactiveInputIdentity;
use crate::owners::{lemma_normalized, lookup, normalized, sorted_keys};
use crate::records::is_deduplicable;
use crate::validate::SequenceVerdict;
use vstd::prelude::*;

verus! {

/// What is owed of a request is nothing exactly where everyone in it has had
/// the input.
pub proof fn law_nothing_owed_means_all_covered(
    coverage: CoverageView,
    audience: AudienceView,
    generations: Seq<(Seq<u8>, u64)>,
)
    ensures
        residual(coverage, audience, generations) is None <==> (audience.reaches_base()
            ==> coverage.base) && forall|k: Seq<u8>|
            requested_owners(audience, generations).contains(k) ==> #[trigger] covers(
                coverage,
                generations,
                k,
            ),
{
    let ids = requested_owners(audience, generations);
    let left = ids_covered(ids, coverage, generations, false);
    lemma_ids_covered(ids, coverage, generations, false);
    lemma_normalized(left);
    if normalized(left).len() > 0 {
        let k = normalized(left)[0];
        assert(normalized(left).contains(k));
        assert(left.contains(k));
        assert(ids.contains(k) && !covers(coverage, generations, k));
    } else {
        assert forall|k: Seq<u8>| ids.contains(k) implies #[trigger] covers(
            coverage,
            generations,
            k,
        ) by {
            if !covers(coverage, generations, k) {
                assert(left.contains(k));
                assert(normalized(left).contains(k));
            }
        }
    }
}

/// What was not owed stays not owed when someone else has had the input too.
pub proof fn law_coverage_only_grows(
    coverage: CoverageView,
    audience: AudienceView,
    other: AudienceView,
    generations: Seq<(Seq<u8>, u64)>,
)
    requires
        sorted_keys(coverage.owners),
        residual(coverage, audience, generations) is None,
    ensures
        residual(coverage_with(coverage, other, generations), audience, generations) is None,
{
    let after = coverage_with(coverage, other, generations);
    lemma_owners_covered(coverage.owners, requested_owners(other, generations), generations);
    law_nothing_owed_means_all_covered(coverage, audience, generations);
    law_nothing_owed_means_all_covered(after, audience, generations);
    assert forall|k: Seq<u8>| requested_owners(audience, generations).contains(k) implies #[trigger] covers(
        after,
        generations,
        k,
    ) by {
        assert(covers(coverage, generations, k));
        assert(lookup(after.owners, k) == Some(generation_of(generations, k)));
    }
}

/// Whether the owners of every entry are sorted.
pub open spec fn entries_sorted(entries: Seq<RecentView>) -> bool {
    forall|i: int| 0 <= i < entries.len() ==> sorted_keys((#[trigger] entries[i]).coverage.owners)
}

/// Whether an audience has had an input, as the journal knows.
pub open spec fn has_had(
    entries: Seq<RecentView>,
    identity: ReactiveInputIdentity,
    audience: AudienceView,
    generations: Seq<(Seq<u8>, u64)>,
) -> bool {
    match stored_coverage(entries, identity) {
        None => false,
        Some(coverage) => residual(coverage, audience, generations) is None,
    }
}

proof fn lemma_unique_index(entries: Seq<RecentView>, identity: ReactiveInputIdentity, at: int)
    requires
        identities(entries).no_duplicates(),
        0 <= at < entries.len(),
        entries[at].identity == identity,
    ensures
        entry_index(entries, identity, 0) == at,
{
    lemma_entry_index(entries, identity, 0);
    let i = entry_index(entries, identity, 0);
    let ids = identities(entries);
    assert(ids[at] == identity);
    if i < entries.len() {
        assert(ids[i] == identity);
    }
}

/// A stored coverage, or that of an input that nobody has had.
pub open spec fn known_or_none(coverage: Option<CoverageView>) -> CoverageView {
    match coverage {
        Some(known) => known,
        None => no_coverage(),
    }
}

/// Whether a stored coverage says of everyone what another one says.
pub open spec fn same_audience_as(stored: Option<CoverageView>, other: CoverageView) -> bool {
    known_or_none(stored).base == other.base && known_or_none(stored).owners == other.owners
}

/// Where the entries of a journal stand once a record is committed.
proof fn lemma_touched(
    entries: Seq<RecentView>,
    a: AudienceCommitView,
    generations: Seq<(Seq<u8>, u64)>,
)
    requires
        identities(entries).no_duplicates(),
        entries_sorted(entries),
        sorted_keys(generations),
        touched(entries, a, generations) is Ok,
    ensures
        ({
            let n = touched(entries, a, generations)->Ok_0;
            &&& identities(n).no_duplicates()
            &&& entries_sorted(n)
            &&& n.len() > 0
            &&& n.last().identity == a.identity
            &&& has_had(n, a.identity, a.audience, generations)
            &&& stored_coverage(n, a.identity) is Some
            &&& same_audience_as(
                stored_coverage(n, a.identity),
                coverage_with(
                    known_or_none(stored_coverage(entries, a.identity)),
                    a.audience,
                    generations,
                ),
            )
            &&& forall|identity: ReactiveInputIdentity|
                identity != a.identity ==> #[trigger] stored_coverage(n, identity)
                    == stored_coverage(entries, identity)
            &&& forall|identity: ReactiveInputIdentity, audience: AudienceView|
                has_had(entries, identity, audience, generations) ==> #[trigger] has_had(
                    n,
                    identity,
                    audience,
                    generations,
                )
        }),
{
    let n = touched(entries, a, generations)->Ok_0;
    let i = entry_index(entries, a.identity, 0);
    lemma_entry_index(entries, a.identity, 0);
    let known = i < entries.len();
    let start = if known {
        entries[i].coverage
    } else {
        no_coverage()
    };
    let now = covered(start, a, generations)->Ok_0;
    let grown = coverage_with(start, a.audience, generations);
    assert(sorted_keys(start.owners));
    crate::audience::law_covered_audience_is_not_owed(start, a.audience, generations);
    lemma_owners_covered(start.owners, requested_owners(a.audience, generations), generations);
    assert(now.base == grown.base && now.owners == grown.owners);
    law_nothing_owed_means_all_covered(grown, a.audience, generations);
    law_nothing_owed_means_all_covered(now, a.audience, generations);
    assert forall|k: Seq<u8>| covers(grown, generations, k) == #[trigger] covers(
        now,
        generations,
        k,
    ) by {}
    let list = seq![a];
    assert(list[0] == a);
    assert(touched_all(entries, list, 0, generations) == touched_all(n, list, 1, generations));
    assert(touched_all(n, list, 1, generations) == Ok::<_, crate::error::SubscriberError>(n));
    law_journal_stays_unique(entries, list, 0, generations);
    let last = n.len() - 1;
    assert(n[last].coverage == now && n[last].identity == a.identity);
    lemma_unique_index(n, a.identity, last);
    assert forall|identity: ReactiveInputIdentity, audience: AudienceView|
        has_had(entries, identity, audience, generations) implies #[trigger] has_had(
        n,
        identity,
        audience,
        generations,
    ) by {
        let j = entry_index(entries, identity, 0);
        lemma_entry_index(entries, identity, 0);
        assert(entries[j].identity == identity);
        if identity == a.identity {
            assert(j == i);
            law_coverage_only_grows(start, audience, a.audience, generations);
            law_nothing_owed_means_all_covered(grown, audience, generations);
            law_nothing_owed_means_all_covered(now, audience, generations);
            assert forall|k: Seq<u8>|
                requested_owners(audience, generations).contains(k) implies #[trigger] covers(
                now,
                generations,
                k,
            ) by {
                assert(covers(grown, generations, k));
            }
        } else {
            let place = if known && j > i {
                j - 1
            } else {
                j
            };
            assert(n[place] == entries[j]);
            lemma_unique_index(n, identity, place);
        }
    }
    assert forall|identity: ReactiveInputIdentity| identity != a.identity implies #[trigger] stored_coverage(
        n,
        identity,
    ) == stored_coverage(entries, identity) by {
        lemma_entry_index(entries, identity, 0);
        lemma_entry_index(n, identity, 0);
        let j = entry_index(entries, identity, 0);
        if j < entries.len() {
            let place = if known && j > i {
                j - 1
            } else {
                j
            };
            assert(n[place] == entries[j]);
            lemma_unique_index(n, identity, place);
        } else {
            let k = entry_index(n, identity, 0);
            if k < n.len() {
                let o = if known && k >= i {
                    k + 1
                } else {
                    k
                };
                assert(n[k] == entries[o]);
                assert(entries[o].identity == identity);
            }
        }
    }
    assert forall|x: int| 0 <= x < n.len() implies sorted_keys((#[trigger] n[x]).coverage.owners) by {
        if x < last {
            let o = if known && x >= i {
                x + 1
            } else {
                x
            };
            assert(n[x] == entries[o]);
        }
    }
}

/// The last `count` entries of a journal are those of these identities.
pub open spec fn ends_with(
    entries: Seq<RecentView>,
    ids: Seq<ReactiveInputIdentity>,
    count: int,
) -> bool {
    &&& 0 <= count <= entries.len()
    &&& forall|k: ReactiveInputIdentity| #[trigger]
        ids.contains(k) ==> exists|x: int|
            entries.len() - count <= x < entries.len() && entries[x].identity == k
    &&& forall|x: int|
        entries.len() - count <= x < entries.len() ==> ids.contains(
            (#[trigger] entries[x]).identity,
        )
}

proof fn lemma_ends_with_step(
    entries: Seq<RecentView>,
    ids: Seq<ReactiveInputIdentity>,
    a: AudienceCommitView,
    generations: Seq<(Seq<u8>, u64)>,
)
    requires
        identities(entries).no_duplicates(),
        touched(entries, a, generations) is Ok,
        ends_with(entries, ids, distinct(ids) as int),
    ensures
        ends_with(
            touched(entries, a, generations)->Ok_0,
            ids.push(a.identity),
            distinct(ids.push(a.identity)) as int,
        ),
{
    let n = touched(entries, a, generations)->Ok_0;
    let i = entry_index(entries, a.identity, 0);
    lemma_entry_index(entries, a.identity, 0);
    let known = i < entries.len();
    let more = ids.push(a.identity);
    let count = distinct(ids) as int;
    let next = distinct(more) as int;
    assert(more.drop_last() =~= ids);
    assert(more.last() == a.identity);
    assert(more[more.len() - 1] == a.identity);
    assert(more.contains(a.identity));
    assert forall|k: ReactiveInputIdentity| ids.contains(k) implies more.contains(k) by {
        let x = choose|x: int| 0 <= x < ids.len() && ids[x] == k;
        assert(more[x] == k);
    }
    if ids.contains(a.identity) {
        let x = choose|x: int|
            entries.len() - count <= x < entries.len() && entries[x].identity == a.identity;
        lemma_unique_index(entries, a.identity, x);
        assert(next == count && known && i == x);
    } else {
        assert(next == count + 1);
        if known {
            if i >= entries.len() - count {
                assert(ids.contains(entries[i].identity));
            }
        }
    }
    assert forall|k: ReactiveInputIdentity| #[trigger] more.contains(k) implies exists|x: int|
        n.len() - next <= x < n.len() && n[x].identity == k by {
        if k == a.identity {
            assert(n[n.len() - 1].identity == k);
        } else {
            let y = choose|y: int| 0 <= y < more.len() && more[y] == k;
            assert(ids[y] == k);
            assert(ids.contains(k));
            let x = choose|x: int|
                entries.len() - count <= x < entries.len() && entries[x].identity == k;
            let place = if known && x > i {
                x - 1
            } else {
                x
            };
            assert(n[place] == entries[x]);
            assert(n.len() - next <= place < n.len());
        }
    }
    assert forall|x: int| n.len() - next <= x < n.len() implies more.contains(
        (#[trigger] n[x]).identity,
    ) by {
        if x < n.len() - 1 {
            let o = if known && x >= i {
                x + 1
            } else {
                x
            };
            assert(n[x] == entries[o]);
            assert(entries.len() - count <= o < entries.len());
            assert(ids.contains(entries[o].identity));
        }
    }
}

/// Committing records: everyone they were for has had them, and their entries
/// stand last.
proof fn lemma_touched_all(
    entries: Seq<RecentView>,
    audiences: Seq<AudienceCommitView>,
    from: int,
    generations: Seq<(Seq<u8>, u64)>,
)
    requires
        identities(entries).no_duplicates(),
        entries_sorted(entries),
        sorted_keys(generations),
        0 <= from <= audiences.len(),
        ends_with(
            entries,
            commit_ids(audiences).take(from),
            distinct(commit_ids(audiences).take(from)) as int,
        ),
        forall|i: int|
            0 <= i < from ==> has_had(
                entries,
                (#[trigger] audiences[i]).identity,
                audiences[i].audience,
                generations,
            ),
        touched_all(entries, audiences, from, generations) is Ok,
    ensures
        ({
            let n = touched_all(entries, audiences, from, generations)->Ok_0;
            &&& identities(n).no_duplicates()
            &&& ends_with(n, commit_ids(audiences), distinct(commit_ids(audiences)) as int)
            &&& forall|i: int|
                0 <= i < audiences.len() ==> has_had(
                    n,
                    (#[trigger] audiences[i]).identity,
                    audiences[i].audience,
                    generations,
                )
            &&& forall|identity: ReactiveInputIdentity, audience: AudienceView|
                has_had(entries, identity, audience, generations) ==> #[trigger] has_had(
                    n,
                    identity,
                    audience,
                    generations,
                )
        }),
    decreases audiences.len() - from,
{
    let ids = commit_ids(audiences);
    if from == audiences.len() {
        assert(ids.take(from) =~= ids);
    } else {
        let a = audiences[from];
        let next = touched(entries, a, generations)->Ok_0;
        lemma_touched(entries, a, generations);
        lemma_ends_with_step(entries, ids.take(from), a, generations);
        assert(ids.take(from).push(a.identity) =~= ids.take(from + 1));
        assert forall|i: int| 0 <= i < from + 1 implies has_had(
            next,
            (#[trigger] audiences[i]).identity,
            audiences[i].audience,
            generations,
        ) by {
            if i < from {
                assert(has_had(
                    entries,
                    audiences[i].identity,
                    audiences[i].audience,
                    generations,
                ));
            }
        }
        lemma_touched_all(next, audiences, from + 1, generations);
        let n = touched_all(entries, audiences, from, generations)->Ok_0;
        assert forall|identity: ReactiveInputIdentity, audience: AudienceView|
            has_had(entries, identity, audience, generations) implies #[trigger] has_had(
            n,
            identity,
            audience,
            generations,
        ) by {
            assert(has_had(next, identity, audience, generations));
        }
    }
}

proof fn lemma_survivors(
    entries: Seq<RecentView>,
    mutations: Seq<CanonicalMutation>,
)
    requires
        identities(entries).no_duplicates(),
        entries_sorted(entries),
    ensures
        identities(survivors(entries, mutations)).no_duplicates(),
        entries_sorted(survivors(entries, mutations)),
        forall|x: int|
            0 <= x < survivors(entries, mutations).len() ==> identities(entries).contains(
                (#[trigger] survivors(entries, mutations)[x]).identity,
            ),
    decreases entries.len(),
{
    if entries.len() > 0 {
        let front = entries.drop_last();
        let all = identities(entries);
        let fids = identities(front);
        assert(fids =~= all.drop_last());
        assert forall|x: int, y: int|
            0 <= x < fids.len() && 0 <= y < fids.len() && x != y implies fids[x] != fids[y] by {
            assert(all[x] != all[y]);
        }
        assert forall|x: int| 0 <= x < front.len() implies sorted_keys(
            (#[trigger] front[x]).coverage.owners,
        ) by {
            assert(front[x] == entries[x]);
        }
        lemma_survivors(front, mutations);
        let kept = survivors(front, mutations);
        let n = survivors(entries, mutations);
        assert forall|x: int| 0 <= x < kept.len() implies all.contains(
            (#[trigger] kept[x]).identity,
        ) && kept[x].identity != entries.last().identity by {
            assert(fids.contains(kept[x].identity));
            let y = choose|y: int| 0 <= y < fids.len() && fids[y] == kept[x].identity;
            assert(all[y] == kept[x].identity);
            assert(all[all.len() - 1] == entries.last().identity);
            assert(all[y] != all[all.len() - 1]);
        }
        let nids = identities(n);
        assert(all[all.len() - 1] == entries.last().identity);
        assert forall|x: int, y: int|
            0 <= x < nids.len() && 0 <= y < nids.len() && x != y implies nids[x] != nids[y] by {
            let kids = identities(kept);
            if x < kept.len() {
                assert(nids[x] == kids[x] && kids[x] == kept[x].identity);
            }
            if y < kept.len() {
                assert(nids[y] == kids[y] && kids[y] == kept[y].identity);
            }
        }
        assert forall|x: int| 0 <= x < n.len() implies all.contains((#[trigger] n[x]).identity) by {
            if x < kept.len() {
                assert(n[x] == kept[x]);
            }
        }
    }
}

/// The journal once a delivery is committed, before anything is forgotten.
spec fn journal_after(c: CheckpointView, commit: CommitView) -> Seq<RecentView> {
    touched_all(
        survivors(c.recent_inputs, commit.canonical),
        commit.audiences,
        0,
        c.owner_generations,
    )->Ok_0
}

/// Where no identity occurs twice, committing touches the entries that outlive
/// its mutations.
proof fn lemma_journal_after(c: CheckpointView, commit: CommitView, capacity: nat)
    requires
        entries_sorted(c.recent_inputs),
        identities(c.recent_inputs).no_duplicates(),
        committed(c, commit, capacity) is Ok,
    ensures
        touched_all(
            survivors(c.recent_inputs, commit.canonical),
            commit.audiences,
            0,
            c.owner_generations,
        ) is Ok,
        committed(c, commit, capacity)->Ok_0.recent_inputs == journal_after(c, commit),
{
    let kept = survivors(c.recent_inputs, commit.canonical);
    lemma_survivors(c.recent_inputs, commit.canonical);
    lemma_collapsed_unique(kept);
}

/// What the journal knows of a committed input is not forgotten at once.
proof fn lemma_fit_keeps(
    c: CheckpointView,
    config: HybridConfig,
    commit: CommitView,
    sequence: SequenceVerdict,
    identity: ReactiveInputIdentity,
    audience: AudienceView,
)
    requires
        state_typed(c),
        identities(c.recent_inputs).no_duplicates(),
        state_after(c, config, commit, sequence) is Ok,
        commit_ids(commit.audiences).contains(identity),
        has_had(journal_after(c, commit), identity, audience, c.owner_generations),
    ensures
        has_had(
            state_after(c, config, commit, sequence)->Ok_0.recent_inputs,
            identity,
            audience,
            c.owner_generations,
        ),
{
    let ids = commit_ids(commit.audiences);
    let kept = survivors(c.recent_inputs, commit.canonical);
    let generations = c.owner_generations;
    lemma_survivors(c.recent_inputs, commit.canonical);
    assert(ids.take(0) =~= Seq::<ReactiveInputIdentity>::empty());
    lemma_journal_after(c, commit, config.canonical_history_capacity as nat);
    lemma_touched_all(kept, commit.audiences, 0, generations);
    let full = journal_after(c, commit);
    let before = committed(c, commit, config.canonical_history_capacity as nat)->Ok_0;
    assert(before.recent_inputs == full);
    let n = state_after(c, config, commit, sequence)->Ok_0;
    let count = distinct(ids);
    law_fit_keeps_protected_suffix(
        before,
        count,
        config.recent_input_capacity as nat,
        config.max_recent_owner_entries as nat,
        sequence,
    );
    let d = choose|d: int|
        0 <= d <= full.len() - count && n == #[trigger] before.drop_recent(d);
    let rest = n.recent_inputs;
    assert(rest =~= full.skip(d));
    let x = choose|x: int|
        full.len() - count <= x < full.len() && full[x].identity == identity;
    lemma_unique_index(full, identity, x);
    let fids = identities(full);
    let rids = identities(rest);
    assert forall|a: int, b: int|
        0 <= a < rids.len() && 0 <= b < rids.len() && a != b implies rids[a] != rids[b] by {
        assert(rids[a] == fids[a + d] && rids[b] == fids[b + d]);
    }
    assert(rest[x - d] == full[x]);
    lemma_unique_index(rest, identity, x - d);
}

/// Once a delivery is committed, nobody it was for is owed it any more, however
/// much of the journal had to be forgotten to make room.
pub proof fn law_committed_audience_is_not_owed_again(
    c: CheckpointView,
    config: HybridConfig,
    commit: CommitView,
    sequence: SequenceVerdict,
    i: int,
)
    requires
        state_typed(c),
        identities(c.recent_inputs).no_duplicates(),
        state_after(c, config, commit, sequence) is Ok,
        0 <= i < commit.audiences.len(),
    ensures
        has_had(
            state_after(c, config, commit, sequence)->Ok_0.recent_inputs,
            commit.audiences[i].identity,
            commit.audiences[i].audience,
            c.owner_generations,
        ),
{
    let ids = commit_ids(commit.audiences);
    let kept = survivors(c.recent_inputs, commit.canonical);
    lemma_survivors(c.recent_inputs, commit.canonical);
    assert(ids.take(0) =~= Seq::<ReactiveInputIdentity>::empty());
    lemma_journal_after(c, commit, config.canonical_history_capacity as nat);
    lemma_touched_all(kept, commit.audiences, 0, c.owner_generations);
    assert(ids[i] == commit.audiences[i].identity);
    lemma_fit_keeps(
        c,
        config,
        commit,
        sequence,
        commit.audiences[i].identity,
        commit.audiences[i].audience,
    );
}

// ---------------------------------------------------------------------------
// Whole batches
// ---------------------------------------------------------------------------

/// Delivering what is owed of a request settles the request.
pub proof fn law_delivering_the_rest_settles_the_request(
    coverage: CoverageView,
    requested: AudienceView,
    generations: Seq<(Seq<u8>, u64)>,
)
    requires
        sorted_keys(coverage.owners),
        sorted_keys(generations),
    ensures
        match residual(coverage, requested, generations) {
            Some(left) => residual(
                coverage_with(coverage, left, generations),
                requested,
                generations,
            ) is None,
            None => true,
        },
{
    if let Some(left) = residual(coverage, requested, generations) {
        let after = coverage_with(coverage, left, generations);
        let ids = requested_owners(requested, generations);
        let mine = requested_owners(left, generations);
        lemma_owners_covered(coverage.owners, mine, generations);
        lemma_ids_covered(ids, coverage, generations, true);
        lemma_ids_covered(ids, coverage, generations, false);
        let open = ids_covered(ids, coverage, generations, false);
        law_nothing_owed_means_all_covered(after, requested, generations);
        assert forall|k: Seq<u8>| ids.contains(k) implies #[trigger] covers(
            after,
            generations,
            k,
        ) by {
            assert(lookup(after.owners, k) == (if mine.contains(k) {
                Some(generation_of(generations, k))
            } else {
                lookup(coverage.owners, k)
            }));
            if !covers(coverage, generations, k) {
                assert(open.contains(k));
                lemma_normalized(open);
                assert(normalized(open).contains(k));
                if requested.reaches_base() && !coverage.base {
                    lemma_rest_reaches(coverage, requested, generations, k);
                } else {
                    lemma_normalized(normalized(open));
                    assert(left == AudienceView::Owners(normalized(open)));
                    assert(mine == normalized(normalized(open)));
                }
                assert(mine.contains(k));
            }
        }
    }
}

/// Where the base subscription is owed, whoever else is owed is among the rest.
proof fn lemma_rest_reaches(
    coverage: CoverageView,
    requested: AudienceView,
    generations: Seq<(Seq<u8>, u64)>,
    k: Seq<u8>,
)
    requires
        sorted_keys(generations),
        requested.reaches_base(),
        !coverage.base,
        requested_owners(requested, generations).contains(k),
        !covers(coverage, generations, k),
    ensures
        requested_owners(
            residual(coverage, requested, generations)->Some_0,
            generations,
        ).contains(k),
{
    let left = residual(coverage, requested, generations)->Some_0;
    lemma_requested_owners(requested, generations);
    lemma_requested_owners(left, generations);
    law_residual_is_what_is_owed(coverage, requested, generations, k);
}

proof fn lemma_touched_all_snoc(
    entries: Seq<RecentView>,
    audiences: Seq<AudienceCommitView>,
    from: int,
    a: AudienceCommitView,
    generations: Seq<(Seq<u8>, u64)>,
)
    requires
        0 <= from <= audiences.len(),
        touched_all(entries, audiences.push(a), from, generations) is Ok,
    ensures
        touched_all(entries, audiences, from, generations) is Ok,
        touched(touched_all(entries, audiences, from, generations)->Ok_0, a, generations)
            == touched_all(entries, audiences.push(a), from, generations),
    decreases audiences.len() - from,
{
    let all = audiences.push(a);
    if from == audiences.len() {
        assert(all[from] == a);
        if let Ok(n) = touched(entries, a, generations) {
            assert(touched_all(n, all, from + 1, generations) == Ok::<
                _,
                crate::error::SubscriberError,
            >(n));
        }
    } else {
        assert(all[from] == audiences[from]);
        let n = touched(entries, audiences[from], generations)->Ok_0;
        lemma_touched_all_snoc(n, audiences, from + 1, a, generations);
    }
}

proof fn lemma_id_index_points(
    ids: Seq<ReactiveInputIdentity>,
    identity: ReactiveInputIdentity,
    from: int,
)
    requires
        0 <= from <= ids.len(),
    ensures
        from <= id_index(ids, identity, from) <= ids.len(),
        id_index(ids, identity, from) < ids.len() ==> ids[id_index(ids, identity, from)]
            == identity,
        id_index(ids, identity, from) == ids.len() ==> forall|j: int|
            from <= j < ids.len() ==> #[trigger] ids[j] != identity,
    decreases ids.len() - from,
{
    if from < ids.len() && ids[from] != identity {
        lemma_id_index_points(ids, identity, from + 1);
    }
}

proof fn lemma_same_residual(
    a: CoverageView,
    b: CoverageView,
    requested: AudienceView,
    generations: Seq<(Seq<u8>, u64)>,
)
    requires
        a.base == b.base,
        a.owners == b.owners,
    ensures
        residual(a, requested, generations) == residual(b, requested, generations),
{
    let ids = requested_owners(requested, generations);
    lemma_same_ids_covered(ids, a, b, generations, true);
    lemma_same_ids_covered(ids, a, b, generations, false);
}

proof fn lemma_same_ids_covered(
    ids: Seq<Seq<u8>>,
    a: CoverageView,
    b: CoverageView,
    generations: Seq<(Seq<u8>, u64)>,
    keep: bool,
)
    requires
        a.owners == b.owners,
    ensures
        ids_covered(ids, a, generations, keep) == ids_covered(ids, b, generations, keep),
    decreases ids.len(),
{
    if ids.len() > 0 {
        lemma_same_ids_covered(ids.drop_last(), a, b, generations, keep);
    }
}

proof fn lemma_nobody_adds_nothing(coverage: CoverageView, generations: Seq<(Seq<u8>, u64)>)
    ensures
        coverage_with(coverage, AudienceView::Owners(Seq::empty()), generations) == coverage,
{
    let none = Seq::<Seq<u8>>::empty();
    lemma_normalized(none);
    if normalized(none).len() > 0 {
        assert(normalized(none).contains(normalized(none)[0]));
    }
    assert(normalized(none) =~= none);
}

/// Whether the journal, with the commits so far, knows what the sorting knows,
/// and the first `done` merged records are settled.
spec fn in_step(c: CheckpointView, s: Sorted, merged: Seq<MergedView>, done: int) -> bool {
    let journal = touched_all(c.recent_inputs, s.commits, 0, c.owner_generations)->Ok_0;
    &&& touched_all(c.recent_inputs, s.commits, 0, c.owner_generations) is Ok
    &&& identities(journal).no_duplicates()
    &&& entries_sorted(journal)
    &&& s.staged_ids.len() == s.staged.len()
    &&& s.staged_ids.no_duplicates()
    &&& forall|j: int|
        0 <= j < s.staged.len() ==> same_audience_as(
            stored_coverage(journal, #[trigger] s.staged_ids[j]),
            s.staged[j],
        )
    &&& forall|identity: ReactiveInputIdentity|
        !s.staged_ids.contains(identity) ==> #[trigger] stored_coverage(journal, identity)
            == stored_coverage(c.recent_inputs, identity)
    &&& forall|i: int|
        0 <= i < done && is_deduplicable((#[trigger] merged[i]).routed.record) ==> has_had(
            journal,
            merged[i].identity,
            merged[i].routed.audience,
            c.owner_generations,
        ) && commit_ids(s.commits).contains(merged[i].identity)
}

proof fn lemma_commits_prefix(c: CheckpointView, s: Sorted, merged: Seq<MergedView>, from: int)
    requires
        0 <= from <= merged.len(),
        sorted_from(c, s, merged, from) is Ok,
        touched_all(
            c.recent_inputs,
            sorted_from(c, s, merged, from)->Ok_0.commits,
            0,
            c.owner_generations,
        ) is Ok,
    ensures
        touched_all(c.recent_inputs, s.commits, 0, c.owner_generations) is Ok,
    decreases merged.len() - from,
{
    if from < merged.len() {
        let next = sorted_with(c, s, merged[from])->Ok_0;
        lemma_commits_prefix(c, next, merged, from + 1);
        if is_deduplicable(merged[from].routed.record) {
            let a = next.commits.last();
            assert(next.commits =~= s.commits.push(a));
            lemma_touched_all_snoc(c.recent_inputs, s.commits, 0, a, c.owner_generations);
        }
    }
}

proof fn lemma_in_step(c: CheckpointView, s: Sorted, merged: Seq<MergedView>, from: int)
    requires
        state_typed(c),
        0 <= from < merged.len(),
        in_step(c, s, merged, from),
        sorted_with(c, s, merged[from]) is Ok,
        touched_all(
            c.recent_inputs,
            sorted_with(c, s, merged[from])->Ok_0.commits,
            0,
            c.owner_generations,
        ) is Ok,
    ensures
        in_step(c, sorted_with(c, s, merged[from])->Ok_0, merged, from + 1),
{
    let m = merged[from];
    let next = sorted_with(c, s, m)->Ok_0;
    let generations = c.owner_generations;
    let journal = touched_all(c.recent_inputs, s.commits, 0, generations)->Ok_0;
    if is_deduplicable(m.routed.record) {
        let a = next.commits.last();
        assert(next.commits =~= s.commits.push(a));
        lemma_touched_all_snoc(c.recent_inputs, s.commits, 0, a, generations);
        lemma_touched(journal, a, generations);
        let after = touched_all(c.recent_inputs, next.commits, 0, generations)->Ok_0;
        let at = id_index(s.staged_ids, m.identity, 0);
        lemma_id_index_points(s.staged_ids, m.identity, 0);
        let known = at < s.staged_ids.len();
        let coverage = if known {
            s.staged[at]
        } else {
            known_coverage(c, m)->Ok_0
        };
        let stored = known_or_none(stored_coverage(journal, m.identity));
        if known {
            assert(s.staged_ids[at] == m.identity);
        } else {
            assert(!s.staged_ids.contains(m.identity));
        }
        assert(stored.base == coverage.base && stored.owners == coverage.owners);
        lemma_entry_index(journal, m.identity, 0);
        assert(sorted_keys(stored.owners));
        let requested = m.routed.audience;
        lemma_same_residual(coverage, stored, requested, generations);
        let left = residual(coverage, requested, generations);
        let grown = coverage_with(stored, a.audience, generations);
        match left {
            None => {
                law_coverage_only_grows(stored, requested, a.audience, generations);
                lemma_nobody_adds_nothing(stored, generations);
            },
            Some(rest) => {
                law_delivering_the_rest_settles_the_request(stored, requested, generations);
            },
        }
        assert(residual(grown, requested, generations) is None);
        lemma_same_residual(
            grown,
            known_or_none(stored_coverage(after, m.identity)),
            requested,
            generations,
        );
        assert(has_had(after, m.identity, requested, generations));
        let now = next.staged[if known { at } else { s.staged.len() as int }];
        assert(now.base == grown.base && now.owners == grown.owners);
        assert forall|j: int| 0 <= j < next.staged.len() implies same_audience_as(
            stored_coverage(after, #[trigger] next.staged_ids[j]),
            next.staged[j],
        ) by {
            if next.staged_ids[j] == m.identity {
                if known {
                    assert(s.staged_ids[j] == m.identity);
                    assert(j == at);
                } else if j < s.staged.len() {
                    assert(s.staged_ids[j] == m.identity);
                    assert(s.staged_ids.contains(m.identity));
                }
            } else {
                assert(j < s.staged.len());
                assert(s.staged_ids[j] == next.staged_ids[j]);
            }
        }
        assert forall|identity: ReactiveInputIdentity|
            !next.staged_ids.contains(identity) implies #[trigger] stored_coverage(after, identity)
            == stored_coverage(c.recent_inputs, identity) by {
            if known {
                assert(s.staged_ids.contains(m.identity));
            } else {
                assert(next.staged_ids[s.staged_ids.len() as int] == m.identity);
                assert(next.staged_ids.contains(m.identity));
            }
            if s.staged_ids.contains(identity) {
                let y = choose|y: int| 0 <= y < s.staged_ids.len() && s.staged_ids[y] == identity;
                assert(next.staged_ids[y] == identity);
            }
        }
        assert(next.staged_ids.no_duplicates()) by {
            let now_ids = next.staged_ids;
            assert forall|x: int, y: int|
                0 <= x < now_ids.len() && 0 <= y < now_ids.len() && x != y implies now_ids[x]
                != now_ids[y] by {
                if !known {
                    if x < s.staged_ids.len() {
                        assert(now_ids[x] == s.staged_ids[x]);
                    }
                    if y < s.staged_ids.len() {
                        assert(now_ids[y] == s.staged_ids[y]);
                    }
                }
            }
        }
        let ids = commit_ids(s.commits);
        let more = commit_ids(next.commits);
        assert(more =~= ids.push(a.identity));
        assert(more[more.len() - 1] == m.identity);
        assert forall|i: int|
            0 <= i < from + 1 && is_deduplicable(
                (#[trigger] merged[i]).routed.record,
            ) implies has_had(after, merged[i].identity, merged[i].routed.audience, generations)
            && more.contains(merged[i].identity) by {
            if i < from {
                assert(ids.contains(merged[i].identity));
                let y = choose|y: int| 0 <= y < ids.len() && ids[y] == merged[i].identity;
                assert(more[y] == merged[i].identity);
            }
        }
    }
}

proof fn lemma_in_step_all(c: CheckpointView, s: Sorted, merged: Seq<MergedView>, from: int)
    requires
        state_typed(c),
        0 <= from <= merged.len(),
        in_step(c, s, merged, from),
        sorted_from(c, s, merged, from) is Ok,
        touched_all(
            c.recent_inputs,
            sorted_from(c, s, merged, from)->Ok_0.commits,
            0,
            c.owner_generations,
        ) is Ok,
    ensures
        in_step(c, sorted_from(c, s, merged, from)->Ok_0, merged, merged.len() as int),
    decreases merged.len() - from,
{
    if from < merged.len() {
        let next = sorted_with(c, s, merged[from])->Ok_0;
        lemma_commits_prefix(c, next, merged, from + 1);
        lemma_in_step(c, s, merged, from);
        lemma_in_step_all(c, next, merged, from + 1);
    }
}

proof fn lemma_all_survive(entries: Seq<RecentView>, mutations: Seq<CanonicalMutation>)
    requires
        !takes_back(mutations),
    ensures
        survivors(entries, mutations) == entries,
    decreases entries.len(),
{
    if entries.len() > 0 {
        lemma_all_survive(entries.drop_last(), mutations);
        assert forall|i: int| 0 <= i < mutations.len() implies outlives(
            entries.last().coverage.block,
            #[trigger] mutations[i],
        ) by {
            assert(mutations[i] is Advance);
        }
        assert(entries.drop_last().push(entries.last()) =~= entries);
    }
}

proof fn lemma_sorted_ignores_number(
    c: CheckpointView,
    d: CheckpointView,
    s: Sorted,
    merged: Seq<MergedView>,
    from: int,
)
    requires
        c.recent_inputs == d.recent_inputs,
        c.owner_generations == d.owner_generations,
        0 <= from <= merged.len(),
    ensures
        sorted_from(c, s, merged, from) == sorted_from(d, s, merged, from),
    decreases merged.len() - from,
{
    if from < merged.len() {
        assert(sorted_with(c, s, merged[from]) == sorted_with(d, s, merged[from]));
        if let Ok(next) = sorted_with(c, s, merged[from]) {
            lemma_sorted_ignores_number(c, d, next, merged, from + 1);
        }
    }
}

/// Once a batch that takes nothing back is committed, every record of it that
/// can be told apart is settled: nobody that it was routed to, at any time, is
/// owed it again. So a batch that comes again hands out no such record twice.
/// (`number` is the next number for a token once the batch has taken one.)
pub proof fn law_committed_batch_is_settled(
    c: CheckpointView,
    number: u64,
    config: HybridConfig,
    merged: Seq<MergedView>,
    commit: CommitView,
    sequence: SequenceVerdict,
    i: int,
)
    requires
        state_typed(c),
        identities(c.recent_inputs).no_duplicates(),
        sorted_from(c, none_sorted(), merged, 0) is Ok,
        commit.audiences == sorted_from(c, none_sorted(), merged, 0)->Ok_0.commits,
        !takes_back(commit.canonical),
        state_after(
            CheckpointView { next_synthetic_token: number, ..c },
            config,
            commit,
            sequence,
        ) is Ok,
        0 <= i < merged.len(),
        is_deduplicable(merged[i].routed.record),
    ensures
        has_had(
            state_after(
                CheckpointView { next_synthetic_token: number, ..c },
                config,
                commit,
                sequence,
            )->Ok_0.recent_inputs,
            merged[i].identity,
            merged[i].routed.audience,
            c.owner_generations,
        ),
{
    let d = CheckpointView { next_synthetic_token: number, ..c };
    lemma_sorted_ignores_number(c, d, none_sorted(), merged, 0);
    lemma_all_survive(d.recent_inputs, commit.canonical);
    lemma_journal_after(d, commit, config.canonical_history_capacity as nat);
    assert(touched_all(d.recent_inputs, Seq::empty(), 0, d.owner_generations) == Ok::<
        _,
        crate::error::SubscriberError,
    >(d.recent_inputs));
    assert(in_step(d, none_sorted(), merged, 0));
    lemma_in_step_all(d, none_sorted(), merged, 0);
    lemma_fit_keeps(
        d,
        config,
        commit,
        sequence,
        merged[i].identity,
        merged[i].routed.audience,
    );
}

} // verus!
