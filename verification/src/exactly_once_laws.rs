//! Whom the records of a batch are handed out to.
use crate::audience::{
    coverage_with, covers, generation_of, law_residual_is_what_is_owed, lemma_owners_covered,
    lemma_requested_owners, merged_audience, merged_scope, merged_witness, requested_owners,
    residual, AudienceView, CoverageView, DeliveryScope, RecordWitness,
};
use crate::checkpoint::CheckpointView;
use crate::commit::{entry_index, lemma_entry_index, AudienceCommitView};
use crate::dedup_laws::{entries_sorted, law_nothing_owed_means_all_covered};
use crate::error::SubscriberError;
use crate::filter::{
    known_coverage, merged_from, merged_ids, merged_with, none_sorted, sorted_from, sorted_with,
    MergeView, MergedView, Sorted,
};
use crate::identities::{id_index, identities, lemma_id_index, lemma_id_index_range};
use crate::model::ReactiveInputIdentity;
use crate::owners::{lookup, sorted_keys};
use crate::records::{validated, ChainStatus, InputView, RecordView, RoutedView};
use crate::recovery_laws::block_of;
use crate::selection::{ascending, lemma_positions, positions};
use vstd::prelude::*;

verus! {

// ---------------------------------------------------------------------------
// Who is meant, and who has had an input
// ---------------------------------------------------------------------------

/// Whether an audience means an owner.
pub open spec fn means(audience: AudienceView, owner: Seq<u8>) -> bool {
    match audience {
        AudienceView::All => true,
        AudienceView::Owners(listed) => listed.contains(owner),
        AudienceView::AllExcept(excluded) => !excluded.contains(owner),
    }
}

/// Whether an audience means the subscription of no owner.
pub open spec fn means_base(audience: AudienceView) -> bool {
    match audience {
        AudienceView::All => true,
        AudienceView::Owners(_) => false,
        AudienceView::AllExcept(_) => true,
    }
}

/// Whether an owner is registered.
pub open spec fn registered(c: CheckpointView, owner: Seq<u8>) -> bool {
    lookup(c.owner_generations, owner) is Some
}

/// Whether an audience lists registered owners alone.
pub open spec fn lists_registered(c: CheckpointView, audience: AudienceView) -> bool {
    match audience {
        AudienceView::Owners(listed) => forall|k: Seq<u8>| #[trigger]
            listed.contains(k) ==> registered(c, k),
        _ => true,
    }
}

/// Whether a record can be told apart, so that it is delivered once: its body is
/// known, and it takes nothing back.
pub open spec fn told_apart(record: RecordView) -> bool {
    &&& record.payload_deduplicable
    &&& match record.context.chain_status {
        ChainStatus::Reorged { .. } => false,
        _ => true,
    }
    &&& match record.input {
        InputView::Log(log) => !log.removed,
        _ => true,
    }
}

/// Whether the journal knows that an owner has had an input in its present
/// generation.
pub open spec fn journal_has(c: CheckpointView, identity: ReactiveInputIdentity, owner: Seq<u8>) -> bool {
    exists|e: int|
        0 <= e < c.recent_inputs.len() && (#[trigger] c.recent_inputs[e]).identity == identity
            && lookup(c.recent_inputs[e].coverage.owners, owner) is Some && lookup(
            c.recent_inputs[e].coverage.owners,
            owner,
        ) == lookup(c.owner_generations, owner)
}

/// Whether the journal knows that the subscription of no owner has had an input.
pub open spec fn journal_has_base(c: CheckpointView, identity: ReactiveInputIdentity) -> bool {
    exists|e: int|
        0 <= e < c.recent_inputs.len() && (#[trigger] c.recent_inputs[e]).identity == identity
            && c.recent_inputs[e].coverage.base
}

/// Whether record `j` stands before position `i` and is of this identity.
pub open spec fn earlier(merged: Seq<MergedView>, identity: ReactiveInputIdentity, j: int, i: int) -> bool {
    0 <= j < i && j < merged.len() && told_apart(merged[j].routed.record) && merged[j].identity
        == identity
}

/// Whether an owner has had an input before position `i` of a batch: the journal
/// knows it, or an earlier record of the batch was for the owner.
pub open spec fn had_before(
    c: CheckpointView,
    merged: Seq<MergedView>,
    i: int,
    identity: ReactiveInputIdentity,
    owner: Seq<u8>,
) -> bool {
    journal_has(c, identity, owner) || exists|j: int|
        #[trigger] earlier(merged, identity, j, i) && means(merged[j].routed.audience, owner)
}

/// Whether the subscription of no owner has had an input before position `i` of
/// a batch.
pub open spec fn base_had_before(
    c: CheckpointView,
    merged: Seq<MergedView>,
    i: int,
    identity: ReactiveInputIdentity,
) -> bool {
    journal_has_base(c, identity) || exists|j: int|
        #[trigger] earlier(merged, identity, j, i) && means_base(merged[j].routed.audience)
}

/// Whether record `i` of a batch is owed to an owner.
pub open spec fn owed(c: CheckpointView, merged: Seq<MergedView>, i: int, owner: Seq<u8>) -> bool {
    registered(c, owner) && means(merged[i].routed.audience, owner) && !had_before(
        c,
        merged,
        i,
        merged[i].identity,
        owner,
    )
}

/// Whether record `i` of a batch is owed to the subscription of no owner.
pub open spec fn owed_base(c: CheckpointView, merged: Seq<MergedView>, i: int) -> bool {
    means_base(merged[i].routed.audience) && !base_had_before(c, merged, i, merged[i].identity)
}

/// Whether record `i` of a batch is handed out: it cannot be told apart, or
/// someone is owed it.
pub open spec fn goes_out(c: CheckpointView, merged: Seq<MergedView>, i: int) -> bool {
    !told_apart(merged[i].routed.record) || owed_base(c, merged, i) || exists|k: Seq<u8>| #[trigger]
        owed(c, merged, i, k)
}

/// Whether an audience is exactly whoever is owed record `i` of a batch.
pub open spec fn for_the_owed(
    c: CheckpointView,
    merged: Seq<MergedView>,
    i: int,
    audience: AudienceView,
) -> bool {
    &&& means_base(audience) <==> owed_base(c, merged, i)
    &&& forall|k: Seq<u8>|
        registered(c, k) ==> (#[trigger] means(audience, k) <==> owed(c, merged, i, k))
}

/// Whether `r` is record `i` of a batch as it is to be handed out.
pub open spec fn handed_out(c: CheckpointView, merged: Seq<MergedView>, i: int, r: RoutedView) -> bool {
    &&& r.record == merged[i].routed.record
    &&& r.scope == merged[i].routed.scope
    &&& if told_apart(merged[i].routed.record) {
        for_the_owed(c, merged, i, r.audience)
    } else {
        r.audience == merged[i].routed.audience
    }
}

/// Whether `a` is what is to be committed of record `i` of a batch.
pub open spec fn noted(c: CheckpointView, merged: Seq<MergedView>, i: int, a: AudienceCommitView) -> bool {
    &&& a.identity == merged[i].identity
    &&& a.block == block_of(merged[i].routed.record)
    &&& for_the_owed(c, merged, i, a.audience)
}

// ---------------------------------------------------------------------------
// The proof
// ---------------------------------------------------------------------------

spec fn out_at(c: CheckpointView, merged: Seq<MergedView>) -> spec_fn(int) -> bool {
    |i: int| goes_out(c, merged, i)
}

spec fn noted_at(merged: Seq<MergedView>) -> spec_fn(int) -> bool {
    |i: int| told_apart(merged[i].routed.record)
}

spec fn known_rightly(
    c: CheckpointView,
    merged: Seq<MergedView>,
    i: int,
    identity: ReactiveInputIdentity,
    coverage: CoverageView,
) -> bool {
    &&& sorted_keys(coverage.owners)
    &&& coverage.base <==> base_had_before(c, merged, i, identity)
    &&& forall|k: Seq<u8>|
        registered(c, k) ==> (#[trigger] covers(coverage, c.owner_generations, k) <==> had_before(
            c,
            merged,
            i,
            identity,
            k,
        ))
}

spec fn sorted_rightly(c: CheckpointView, merged: Seq<MergedView>, i: int, s: Sorted) -> bool {
    let out = positions(i as nat, out_at(c, merged));
    let note = positions(i as nat, noted_at(merged));
    &&& s.staged_ids.len() == s.staged.len()
    &&& s.staged_ids.no_duplicates()
    &&& forall|x: int|
        0 <= x < s.staged.len() ==> known_rightly(
            c,
            merged,
            i,
            s.staged_ids[x],
            #[trigger] s.staged[x],
        )
    &&& forall|j: int|
        0 <= j < i && told_apart((#[trigger] merged[j]).routed.record) ==> s.staged_ids.contains(
            merged[j].identity,
        )
    &&& s.out.len() == out.len()
    &&& forall|n: int| 0 <= n < out.len() ==> handed_out(c, merged, out[n], #[trigger] s.out[n])
    &&& s.commits.len() == note.len()
    &&& forall|n: int| 0 <= n < note.len() ==> noted(c, merged, note[n], #[trigger] s.commits[n])
}

spec fn fit_to_sort(c: CheckpointView, merged: Seq<MergedView>) -> bool {
    &&& sorted_keys(c.owner_generations)
    &&& entries_sorted(c.recent_inputs)
    &&& identities(c.recent_inputs).no_duplicates()
    &&& forall|i: int|
        0 <= i < merged.len() ==> lists_registered(c, (#[trigger] merged[i]).routed.audience)
}

proof fn lemma_journal_coverage(
    c: CheckpointView,
    merged: Seq<MergedView>,
    i: int,
    m: MergedView,
)
    requires
        entries_sorted(c.recent_inputs),
        identities(c.recent_inputs).no_duplicates(),
        forall|j: int| !#[trigger] earlier(merged, m.identity, j, i),
        known_coverage(c, m) is Ok,
    ensures
        known_rightly(c, merged, i, m.identity, known_coverage(c, m)->Ok_0),
{
    let entries = c.recent_inputs;
    let coverage = known_coverage(c, m)->Ok_0;
    lemma_entry_index(entries, m.identity, 0);
    let at = entry_index(entries, m.identity, 0);
    let ids = identities(entries);
    if at < entries.len() {
        assert(entries[at].identity == m.identity);
        assert(sorted_keys(entries[at].coverage.owners));
        assert forall|e: int| 0 <= e < entries.len() && (#[trigger] entries[e]).identity
            == m.identity implies e == at by {
            assert(ids[e] == m.identity && ids[at] == m.identity);
        }
    } else {
        assert forall|e: int| 0 <= e < entries.len() implies (#[trigger] entries[e]).identity
            != m.identity by {}
        assert(coverage.owners =~= Seq::<(Seq<u8>, u64)>::empty());
    }
    assert forall|k: Seq<u8>| registered(c, k) implies (#[trigger] covers(
        coverage,
        c.owner_generations,
        k,
    ) <==> had_before(c, merged, i, m.identity, k)) by {
        assert(generation_of(c.owner_generations, k) == lookup(c.owner_generations, k)->Some_0);
        if at < entries.len() {
            if covers(coverage, c.owner_generations, k) {
                assert(lookup(entries[at].coverage.owners, k) == lookup(c.owner_generations, k));
                assert(journal_has(c, m.identity, k));
            }
        } else {
            assert(lookup(coverage.owners, k) is None);
        }
    }
    if at < entries.len() {
        if coverage.base {
            assert(entries[at].coverage.base);
            assert(journal_has_base(c, m.identity));
        }
    }
}

/// What is owed of record `i`, where its coverage is rightly known.
proof fn lemma_rest(
    c: CheckpointView,
    merged: Seq<MergedView>,
    i: int,
    coverage: CoverageView,
)
    requires
        fit_to_sort(c, merged),
        0 <= i < merged.len(),
        told_apart(merged[i].routed.record),
        known_rightly(c, merged, i, merged[i].identity, coverage),
    ensures
        ({
            let left = residual(coverage, merged[i].routed.audience, c.owner_generations);
            &&& left is Some <==> goes_out(c, merged, i)
            &&& left is Some ==> for_the_owed(c, merged, i, left->Some_0)
            &&& left is None ==> for_the_owed(
                c,
                merged,
                i,
                AudienceView::Owners(Seq::<Seq<u8>>::empty()),
            )
        }),
{
    let g = c.owner_generations;
    let wanted = merged[i].routed.audience;
    let left = residual(coverage, wanted, g);
    let none = AudienceView::Owners(Seq::<Seq<u8>>::empty());
    assert forall|k: Seq<u8>| registered(c, k) implies (owed(c, merged, i, k) <==> means(wanted, k)
        && !covers(coverage, g, k)) && (left is Some ==> (#[trigger] means(left->Some_0, k) <==> owed(
        c,
        merged,
        i,
        k,
    ))) && (left is None ==> !owed(c, merged, i, k)) by {
        assert(covers(coverage, g, k) <==> had_before(c, merged, i, merged[i].identity, k));
        law_residual_is_what_is_owed(coverage, wanted, g, k);
    }
    law_nothing_owed_means_all_covered(coverage, wanted, g);
    lemma_requested_owners(wanted, g);
    if left is Some {
        if !owed_base(c, merged, i) {
            let k = choose|k: Seq<u8>|
                requested_owners(wanted, g).contains(k) && !#[trigger] covers(coverage, g, k);
            assert(requested_owners(wanted, g).contains(k));
            assert(registered(c, k) && means(wanted, k)) by {
                if wanted is Owners {
                    assert(means(wanted, k));
                } else {
                    assert(registered(c, k));
                }
            }
            assert(means(left->Some_0, k) <==> owed(c, merged, i, k));
            assert(owed(c, merged, i, k));
        }
    } else {
        if goes_out(c, merged, i) {
            if !owed_base(c, merged, i) {
                let k = choose|k: Seq<u8>| #[trigger] owed(c, merged, i, k);
                assert(means(none, k) || !means(none, k));
                assert(covers(coverage, g, k) <==> had_before(c, merged, i, merged[i].identity, k));
                law_residual_is_what_is_owed(coverage, wanted, g, k);
            }
        }
        assert forall|k: Seq<u8>| registered(c, k) implies (#[trigger] means(none, k) <==> owed(
            c,
            merged,
            i,
            k,
        )) by {
            assert(covers(coverage, g, k) <==> had_before(c, merged, i, merged[i].identity, k));
            law_residual_is_what_is_owed(coverage, wanted, g, k);
        }
    }
}

/// Once record `i` is sorted, everyone it was for has had it.
proof fn lemma_known_after(
    c: CheckpointView,
    merged: Seq<MergedView>,
    i: int,
    coverage: CoverageView,
    now: CoverageView,
)
    requires
        fit_to_sort(c, merged),
        0 <= i < merged.len(),
        told_apart(merged[i].routed.record),
        known_rightly(c, merged, i, merged[i].identity, coverage),
        now == (match residual(coverage, merged[i].routed.audience, c.owner_generations) {
            None => coverage,
            Some(audience) => coverage_with(coverage, audience, c.owner_generations),
        }),
    ensures
        known_rightly(c, merged, i + 1, merged[i].identity, now),
{
    let g = c.owner_generations;
    let d = merged[i].identity;
    let wanted = merged[i].routed.audience;
    let left = residual(coverage, wanted, g);
    lemma_rest(c, merged, i, coverage);
    assert(earlier(merged, d, i, i + 1));
    assert forall|j: int| #[trigger] earlier(merged, d, j, i + 1) <==> earlier(merged, d, j, i) || j
        == i by {}
    if let Some(audience) = left {
        lemma_requested_owners(audience, g);
        lemma_owners_covered(coverage.owners, requested_owners(audience, g), g);
    }
    assert forall|k: Seq<u8>| registered(c, k) implies (#[trigger] covers(now, g, k) <==> had_before(
        c,
        merged,
        i + 1,
        d,
        k,
    )) by {
        assert(covers(coverage, g, k) <==> had_before(c, merged, i, d, k));
        if let Some(audience) = left {
            assert(means(audience, k) <==> owed(c, merged, i, k));
            assert(lookup(now.owners, k) == (if requested_owners(audience, g).contains(k) {
                Some(generation_of(g, k))
            } else {
                lookup(coverage.owners, k)
            }));
            assert(requested_owners(audience, g).contains(k) <==> means(audience, k));
        } else {
            let none = AudienceView::Owners(Seq::<Seq<u8>>::empty());
            assert(means(none, k) <==> owed(c, merged, i, k));
        }
        lemma_had_step(c, merged, i, d, k);
    }
    lemma_base_had_step(c, merged, i, d);
    if left is None {
        let none = AudienceView::Owners(Seq::<Seq<u8>>::empty());
        assert(!means_base(none));
    }
}

proof fn lemma_had_step(
    c: CheckpointView,
    merged: Seq<MergedView>,
    i: int,
    d: ReactiveInputIdentity,
    k: Seq<u8>,
)
    requires
        0 <= i < merged.len(),
    ensures
        had_before(c, merged, i + 1, d, k) <==> had_before(c, merged, i, d, k) || (told_apart(
            merged[i].routed.record,
        ) && merged[i].identity == d && means(merged[i].routed.audience, k)),
{
    if had_before(c, merged, i + 1, d, k) && !journal_has(c, d, k) {
        let j = choose|j: int| #[trigger]
            earlier(merged, d, j, i + 1) && means(merged[j].routed.audience, k);
        if j < i {
            assert(earlier(merged, d, j, i));
        }
    }
    if had_before(c, merged, i, d, k) && !journal_has(c, d, k) {
        let j = choose|j: int| #[trigger]
            earlier(merged, d, j, i) && means(merged[j].routed.audience, k);
        assert(earlier(merged, d, j, i + 1));
    }
    if told_apart(merged[i].routed.record) && merged[i].identity == d {
        assert(earlier(merged, d, i, i + 1));
    }
}

proof fn lemma_base_had_step(
    c: CheckpointView,
    merged: Seq<MergedView>,
    i: int,
    d: ReactiveInputIdentity,
)
    requires
        0 <= i < merged.len(),
    ensures
        base_had_before(c, merged, i + 1, d) <==> base_had_before(c, merged, i, d) || (told_apart(
            merged[i].routed.record,
        ) && merged[i].identity == d && means_base(merged[i].routed.audience)),
{
    if base_had_before(c, merged, i + 1, d) && !journal_has_base(c, d) {
        let j = choose|j: int| #[trigger]
            earlier(merged, d, j, i + 1) && means_base(merged[j].routed.audience);
        if j < i {
            assert(earlier(merged, d, j, i));
        }
    }
    if base_had_before(c, merged, i, d) && !journal_has_base(c, d) {
        let j = choose|j: int| #[trigger]
            earlier(merged, d, j, i) && means_base(merged[j].routed.audience);
        assert(earlier(merged, d, j, i + 1));
    }
    if told_apart(merged[i].routed.record) && merged[i].identity == d {
        assert(earlier(merged, d, i, i + 1));
    }
}

/// A record of another identity, or one that cannot be told apart, changes
/// nothing of what is known.
proof fn lemma_known_stays(
    c: CheckpointView,
    merged: Seq<MergedView>,
    i: int,
    d: ReactiveInputIdentity,
    coverage: CoverageView,
)
    requires
        0 <= i < merged.len(),
        known_rightly(c, merged, i, d, coverage),
        merged[i].identity != d || !told_apart(merged[i].routed.record),
    ensures
        known_rightly(c, merged, i + 1, d, coverage),
{
    lemma_base_had_step(c, merged, i, d);
    assert forall|k: Seq<u8>| registered(c, k) implies (#[trigger] covers(
        coverage,
        c.owner_generations,
        k,
    ) <==> had_before(c, merged, i + 1, d, k)) by {
        lemma_had_step(c, merged, i, d, k);
    }
}

proof fn lemma_staged(c: CheckpointView, merged: Seq<MergedView>, i: int, s: Sorted)
    requires
        fit_to_sort(c, merged),
        0 <= i < merged.len(),
        told_apart(merged[i].routed.record),
        sorted_rightly(c, merged, i, s),
        sorted_with(c, s, merged[i]) is Ok,
    ensures
        ({
            let n = sorted_with(c, s, merged[i])->Ok_0;
            &&& n.staged_ids.len() == n.staged.len()
            &&& n.staged_ids.no_duplicates()
            &&& forall|x: int|
                0 <= x < n.staged.len() ==> known_rightly(
                    c,
                    merged,
                    i + 1,
                    n.staged_ids[x],
                    #[trigger] n.staged[x],
                )
            &&& forall|j: int|
                0 <= j < i + 1 && told_apart((#[trigger] merged[j]).routed.record)
                    ==> n.staged_ids.contains(merged[j].identity)
            &&& match (if id_index(s.staged_ids, merged[i].identity, 0) < s.staged_ids.len() {
                Ok(s.staged[id_index(s.staged_ids, merged[i].identity, 0)])
            } else {
                known_coverage(c, merged[i])
            }) {
                Ok(coverage) => known_rightly(c, merged, i, merged[i].identity, coverage),
                Err(_) => false,
            }
        }),
{
    let m = merged[i];
    let n = sorted_with(c, s, m)->Ok_0;
    lemma_id_index_range(s.staged_ids, m.identity, 0);
    let at = id_index(s.staged_ids, m.identity, 0);
    let known = at < s.staged_ids.len();
    let coverage = if known {
        s.staged[at]
    } else {
        known_coverage(c, m)->Ok_0
    };
    if known {
        assert(known_rightly(c, merged, i, s.staged_ids[at], s.staged[at]));
    } else {
        assert forall|j: int| !#[trigger] earlier(merged, m.identity, j, i) by {
            if earlier(merged, m.identity, j, i) {
                assert(told_apart(merged[j].routed.record));
                assert(s.staged_ids.contains(merged[j].identity));
                let x = choose|x: int|
                    0 <= x < s.staged_ids.len() && s.staged_ids[x] == m.identity;
                assert(s.staged_ids[x] == m.identity);
            }
        }
        lemma_journal_coverage(c, merged, i, m);
    }
    let now = match residual(coverage, m.routed.audience, c.owner_generations) {
        None => coverage,
        Some(audience) => coverage_with(coverage, audience, c.owner_generations),
    };
    lemma_known_after(c, merged, i, coverage, now);
    assert forall|x: int| 0 <= x < n.staged.len() implies known_rightly(
        c,
        merged,
        i + 1,
        n.staged_ids[x],
        #[trigger] n.staged[x],
    ) by {
        if known {
            if x == at {
                assert(n.staged[x] == now);
            } else {
                assert(n.staged[x] == s.staged[x] && n.staged_ids[x] == s.staged_ids[x]);
                assert(s.staged_ids[x] != s.staged_ids[at]);
                lemma_known_stays(c, merged, i, s.staged_ids[x], s.staged[x]);
            }
        } else if x == s.staged.len() {
            assert(n.staged[x] == now);
        } else {
            assert(n.staged[x] == s.staged[x] && n.staged_ids[x] == s.staged_ids[x]);
            assert(s.staged_ids[x] != m.identity);
            lemma_known_stays(c, merged, i, s.staged_ids[x], s.staged[x]);
        }
    }
    assert forall|j: int| 0 <= j < i + 1 && told_apart((#[trigger] merged[j]).routed.record) implies n.staged_ids.contains(
        merged[j].identity,
    ) by {
        if j < i {
            assert(s.staged_ids.contains(merged[j].identity));
            let x = choose|x: int|
                0 <= x < s.staged_ids.len() && s.staged_ids[x] == merged[j].identity;
            assert(n.staged_ids[x] == merged[j].identity);
        } else if known {
            assert(n.staged_ids[at] == m.identity);
        } else {
            assert(n.staged_ids[s.staged_ids.len() as int] == m.identity);
        }
    }
}

proof fn lemma_sorted_step(c: CheckpointView, merged: Seq<MergedView>, i: int, s: Sorted)
    requires
        fit_to_sort(c, merged),
        0 <= i < merged.len(),
        sorted_rightly(c, merged, i, s),
        sorted_with(c, s, merged[i]) is Ok,
    ensures
        sorted_rightly(c, merged, i + 1, sorted_with(c, s, merged[i])->Ok_0),
{
    let m = merged[i];
    let n = sorted_with(c, s, m)->Ok_0;
    let out = positions(i as nat, out_at(c, merged));
    let note = positions(i as nat, noted_at(merged));
    assert(positions(((i + 1) - 1) as nat, out_at(c, merged)) == out);
    assert(positions(((i + 1) - 1) as nat, noted_at(merged)) == note);
    assert(out_at(c, merged)(i) == goes_out(c, merged, i));
    assert(noted_at(merged)(i) == told_apart(m.routed.record));
    if told_apart(m.routed.record) {
        lemma_staged(c, merged, i, s);
        let at = id_index(s.staged_ids, m.identity, 0);
        let coverage = (if at < s.staged_ids.len() {
            Ok(s.staged[at])
        } else {
            known_coverage(c, m)
        })->Ok_0;
        lemma_rest(c, merged, i, coverage);
        let left = residual(coverage, m.routed.audience, c.owner_generations);
        if left is Some {
            assert(n.out == s.out.push(RoutedView { audience: left->Some_0, ..m.routed }));
        } else {
            assert(n.out == s.out);
        }
    } else {
        assert(goes_out(c, merged, i));
        assert(n.out == s.out.push(m.routed));
        assert forall|x: int| 0 <= x < n.staged.len() implies known_rightly(
            c,
            merged,
            i + 1,
            n.staged_ids[x],
            #[trigger] n.staged[x],
        ) by {
            lemma_known_stays(c, merged, i, s.staged_ids[x], s.staged[x]);
        }
    }
}

proof fn lemma_sorted_all(c: CheckpointView, merged: Seq<MergedView>, i: int, s: Sorted)
    requires
        fit_to_sort(c, merged),
        0 <= i <= merged.len(),
        sorted_rightly(c, merged, i, s),
        sorted_from(c, s, merged, i) is Ok,
    ensures
        sorted_rightly(c, merged, merged.len() as int, sorted_from(c, s, merged, i)->Ok_0),
    decreases merged.len() - i,
{
    if i < merged.len() {
        lemma_sorted_step(c, merged, i, s);
        lemma_sorted_all(c, merged, i + 1, sorted_with(c, s, merged[i])->Ok_0);
    }
}

// ---------------------------------------------------------------------------
// Laws
// ---------------------------------------------------------------------------

/// The records that are handed out of a batch. A record that cannot be told
/// apart is handed out as it is. Any other is handed out exactly where someone
/// is owed it, to exactly those: an owner that it was for and that has not had
/// the input, be it by the journal or by an earlier record of the batch. The
/// order is kept. What is committed is what every record that can be told apart
/// was handed out for, if it was.
pub proof fn law_records_go_to_whom_they_are_owed(c: CheckpointView, merged: Seq<MergedView>)
    requires
        sorted_keys(c.owner_generations),
        entries_sorted(c.recent_inputs),
        identities(c.recent_inputs).no_duplicates(),
        forall|i: int|
            0 <= i < merged.len() ==> lists_registered(c, (#[trigger] merged[i]).routed.audience),
        sorted_from(c, none_sorted(), merged, 0) is Ok,
    ensures
        ({
            let s = sorted_from(c, none_sorted(), merged, 0)->Ok_0;
            &&& exists|at: Seq<int>|
                {
                    &&& #[trigger] ascending(at, merged.len())
                    &&& forall|i: int| #[trigger]
                        at.contains(i) <==> 0 <= i < merged.len() && goes_out(c, merged, i)
                    &&& s.out.len() == at.len()
                    &&& forall|n: int|
                        0 <= n < at.len() ==> handed_out(c, merged, at[n], #[trigger] s.out[n])
                }
            &&& exists|at: Seq<int>|
                {
                    &&& #[trigger] ascending(at, merged.len())
                    &&& forall|i: int| #[trigger]
                        at.contains(i) <==> 0 <= i < merged.len() && told_apart(
                            merged[i].routed.record,
                        )
                    &&& s.commits.len() == at.len()
                    &&& forall|n: int|
                        0 <= n < at.len() ==> noted(c, merged, at[n], #[trigger] s.commits[n])
                }
        }),
{
    let s = sorted_from(c, none_sorted(), merged, 0)->Ok_0;
    let out_keep = out_at(c, merged);
    let note_keep = noted_at(merged);
    assert(positions(0, out_keep) =~= Seq::<int>::empty());
    assert(positions(0, note_keep) =~= Seq::<int>::empty());
    lemma_sorted_all(c, merged, 0, none_sorted());
    lemma_positions(merged.len(), out_keep);
    lemma_positions(merged.len(), note_keep);
    let out = positions(merged.len(), out_keep);
    let note = positions(merged.len(), note_keep);
    assert(ascending(out, merged.len()) && ascending(note, merged.len()));
    assert forall|i: int| #[trigger] out.contains(i) <==> 0 <= i < merged.len() && goes_out(
        c,
        merged,
        i,
    ) by {
        assert(out_keep(i) == goes_out(c, merged, i));
    }
    assert forall|i: int| #[trigger] note.contains(i) <==> 0 <= i < merged.len() && told_apart(
        merged[i].routed.record,
    ) by {
        assert(note_keep(i) == told_apart(merged[i].routed.record));
    }
}

/// Nobody is handed one input twice: of two records of one identity that can be
/// told apart, no registered owner is owed both, nor is the subscription of no
/// owner.
pub proof fn law_nobody_is_owed_an_input_twice(
    c: CheckpointView,
    merged: Seq<MergedView>,
    i: int,
    j: int,
    owner: Seq<u8>,
)
    requires
        0 <= i < j < merged.len(),
        merged[i].identity == merged[j].identity,
        told_apart(merged[i].routed.record),
    ensures
        !(owed(c, merged, i, owner) && owed(c, merged, j, owner)),
        !(owed_base(c, merged, i) && owed_base(c, merged, j)),
{
    assert(earlier(merged, merged[j].identity, i, j));
}

// ---------------------------------------------------------------------------
// Records of one identity
// ---------------------------------------------------------------------------

/// How far a scope reaches.
pub open spec fn reach(scope: DeliveryScope) -> int {
    match scope {
        DeliveryScope::OwnerCatchup => 0,
        DeliveryScope::CanonicalProgress => 1,
        DeliveryScope::Canonical => 2,
    }
}

/// Whether a merged record answers for one that came in: it is of its identity,
/// for everyone that one was for, and reaches as far.
pub open spec fn answers_for(m: MergedView, r: RoutedView) -> bool {
    &&& r.record.identity == Ok::<_, String>(m.identity)
    &&& means_base(r.audience) ==> means_base(m.routed.audience)
    &&& forall|k: Seq<u8>| means(r.audience, k) ==> #[trigger] means(m.routed.audience, k)
    &&& reach(m.routed.scope) >= reach(r.scope)
}

/// Whether one of the first `n` records that came in is of this identity and was
/// for an owner.
pub open spec fn asked_for(
    records: Seq<RoutedView>,
    n: int,
    identity: ReactiveInputIdentity,
    owner: Seq<u8>,
) -> bool {
    exists|j: int|
        0 <= j < n && (#[trigger] records[j]).record.identity == Ok::<_, String>(identity) && means(
            records[j].audience,
            owner,
        )
}

/// Whether one of the first `n` records that came in is of this identity and was
/// for the subscription of no owner.
pub open spec fn asked_for_base(
    records: Seq<RoutedView>,
    n: int,
    identity: ReactiveInputIdentity,
) -> bool {
    exists|j: int|
        0 <= j < n && (#[trigger] records[j]).record.identity == Ok::<_, String>(identity)
            && means_base(records[j].audience)
}

/// Whether one of the first `n` records that came in is of this identity and
/// reaches this far.
pub open spec fn asked_reach(
    records: Seq<RoutedView>,
    n: int,
    identity: ReactiveInputIdentity,
    scope: DeliveryScope,
) -> bool {
    exists|j: int|
        0 <= j < n && (#[trigger] records[j]).record.identity == Ok::<_, String>(identity)
            && records[j].scope == scope
}

spec fn answered(records: Seq<RoutedView>, n: int, acc: Seq<MergedView>) -> bool {
    forall|j: int|
        0 <= j < n ==> exists|m: int|
            0 <= m < acc.len() && answers_for(#[trigger] acc[m], #[trigger] records[j])
}

/// Whether a merged record is for nobody that no record asked for it.
pub open spec fn asked(records: Seq<RoutedView>, n: int, m: MergedView) -> bool {
    &&& means_base(m.routed.audience) ==> asked_for_base(records, n, m.identity)
    &&& forall|k: Seq<u8>| #[trigger]
        means(m.routed.audience, k) ==> asked_for(records, n, m.identity, k)
    &&& asked_reach(records, n, m.identity, m.routed.scope)
}

spec fn merged_rightly(
    records: Seq<RoutedView>,
    n: int,
    acc: Seq<MergedView>,
    chain_id: u64,
) -> bool {
    &&& answered(records, n, acc)
    &&& forall|m: int| 0 <= m < acc.len() ==> asked(records, n, #[trigger] acc[m])
    &&& forall|m: int|
        0 <= m < acc.len() ==> crate::records::witness_of(
            (#[trigger] acc[m]).routed.record,
            chain_id,
        ) == Ok::<_, SubscriberError>(acc[m].witness)
}

proof fn lemma_asked_stays(records: Seq<RoutedView>, n: int, m: MergedView)
    requires
        0 <= n < records.len(),
        asked(records, n, m),
    ensures
        asked(records, n + 1, m),
{
    let d = m.identity;
    if means_base(m.routed.audience) {
        let j = choose|j: int|
            0 <= j < n && (#[trigger] records[j]).record.identity == Ok::<_, String>(d)
                && means_base(records[j].audience);
        assert(records[j].record.identity == Ok::<_, String>(d));
    }
    assert forall|k: Seq<u8>| #[trigger] means(m.routed.audience, k) implies asked_for(
        records,
        n + 1,
        d,
        k,
    ) by {
        assert(asked_for(records, n, d, k));
        let j = choose|j: int|
            0 <= j < n && (#[trigger] records[j]).record.identity == Ok::<_, String>(d) && means(
                records[j].audience,
                k,
            );
        assert(records[j].record.identity == Ok::<_, String>(d));
    }
    let j = choose|j: int|
        0 <= j < n && (#[trigger] records[j]).record.identity == Ok::<_, String>(d)
            && records[j].scope == m.routed.scope;
    assert(records[j].record.identity == Ok::<_, String>(d));
}

proof fn lemma_union(left: AudienceView, right: AudienceView, k: Seq<u8>)
    ensures
        means(merged_audience(left, right), k) <==> means(left, k) || means(right, k),
        means_base(merged_audience(left, right)) <==> means_base(left) || means_base(right),
{
    crate::audience::law_merged_audience_is_union(left, right);
    assert(merged_audience(left, right).reaches(k) == (left.reaches(k) || right.reaches(k)));
}

/// A record of a new entry.
proof fn lemma_pushed(
    records: Seq<RoutedView>,
    n: int,
    acc: Seq<MergedView>,
    fresh: MergedView,
    chain_id: u64,
)
    requires
        0 <= n < records.len(),
        merged_rightly(records, n, acc, chain_id),
        fresh.routed == records[n],
        records[n].record.identity == Ok::<_, String>(fresh.identity),
        crate::records::witness_of(fresh.routed.record, chain_id) == Ok::<_, SubscriberError>(
            fresh.witness,
        ),
    ensures
        merged_rightly(records, n + 1, acc.push(fresh), chain_id),
{
    let next = acc.push(fresh);
    let d = fresh.identity;
    assert(asked(records, n + 1, fresh)) by {
        assert forall|k: Seq<u8>| #[trigger] means(fresh.routed.audience, k) implies asked_for(
            records,
            n + 1,
            d,
            k,
        ) by {
            assert(records[n].record.identity == Ok::<_, String>(d));
        }
        assert(records[n].record.identity == Ok::<_, String>(d));
    }
    assert forall|j: int| 0 <= j < n + 1 implies exists|m: int|
        0 <= m < next.len() && answers_for(#[trigger] next[m], #[trigger] records[j]) by {
        if j == n {
            assert(answers_for(next[acc.len() as int], records[j]));
        } else {
            let m = choose|m: int| 0 <= m < acc.len() && answers_for(#[trigger] acc[m], records[j]);
            assert(next[m] == acc[m]);
            assert(answers_for(next[m], records[j]));
        }
    }
    assert forall|m: int| 0 <= m < next.len() implies asked(records, n + 1, #[trigger] next[m]) by {
        if m < acc.len() {
            assert(next[m] == acc[m]);
            lemma_asked_stays(records, n, acc[m]);
        }
    }
    assert forall|m: int| 0 <= m < next.len() implies crate::records::witness_of(
        (#[trigger] next[m]).routed.record,
        chain_id,
    ) == Ok::<_, SubscriberError>(next[m].witness) by {
        if m < acc.len() {
            assert(next[m] == acc[m]);
        }
    }
}

proof fn lemma_joined_answers(r: RoutedView, was: MergedView, now: MergedView)
    requires
        r.record.identity == Ok::<_, String>(was.identity),
        now.identity == was.identity,
        now.routed.audience == merged_audience(was.routed.audience, r.audience),
        now.routed.scope == merged_scope(was.routed.scope, r.scope),
    ensures
        answers_for(now, r),
        forall|x: RoutedView| #[trigger] answers_for(was, x) ==> answers_for(now, x),
{
    assert forall|k: Seq<u8>| #[trigger] means(now.routed.audience, k) <==> means(
        was.routed.audience,
        k,
    ) || means(r.audience, k) by {
        lemma_union(was.routed.audience, r.audience, k);
    }
    lemma_union(was.routed.audience, r.audience, Seq::empty());
    assert forall|x: RoutedView| #[trigger] answers_for(was, x) implies answers_for(now, x) by {
        assert forall|k: Seq<u8>| means(x.audience, k) implies #[trigger] means(
            now.routed.audience,
            k,
        ) by {
            assert(means(was.routed.audience, k));
        }
    }
}

proof fn lemma_joined_asked(records: Seq<RoutedView>, n: int, was: MergedView, now: MergedView)
    requires
        0 <= n < records.len(),
        asked(records, n, was),
        records[n].record.identity == Ok::<_, String>(was.identity),
        now.identity == was.identity,
        now.routed.audience == merged_audience(was.routed.audience, records[n].audience),
        now.routed.scope == merged_scope(was.routed.scope, records[n].scope),
    ensures
        asked(records, n + 1, now),
{
    let r = records[n];
    let d = was.identity;
    lemma_asked_stays(records, n, was);
    lemma_union(was.routed.audience, r.audience, Seq::empty());
    assert forall|k: Seq<u8>| #[trigger] means(now.routed.audience, k) implies asked_for(
        records,
        n + 1,
        d,
        k,
    ) by {
        lemma_union(was.routed.audience, r.audience, k);
        if means(r.audience, k) {
            assert(records[n].record.identity == Ok::<_, String>(d));
        } else {
            assert(means(was.routed.audience, k));
        }
    }
    if means_base(r.audience) {
        assert(records[n].record.identity == Ok::<_, String>(d));
    }
    if now.routed.scope != was.routed.scope {
        assert(now.routed.scope == r.scope);
        assert(records[n].record.identity == Ok::<_, String>(d));
    }
}

/// A record that joins an entry.
proof fn lemma_joined(
    records: Seq<RoutedView>,
    n: int,
    acc: Seq<MergedView>,
    i: int,
    now: MergedView,
    chain_id: u64,
)
    requires
        0 <= n < records.len(),
        0 <= i < acc.len(),
        merged_rightly(records, n, acc, chain_id),
        records[n].record.identity == Ok::<_, String>(acc[i].identity),
        now.identity == acc[i].identity,
        now.routed.audience == merged_audience(acc[i].routed.audience, records[n].audience),
        now.routed.scope == merged_scope(acc[i].routed.scope, records[n].scope),
        crate::records::witness_of(now.routed.record, chain_id) == Ok::<_, SubscriberError>(
            now.witness,
        ),
    ensures
        merged_rightly(records, n + 1, acc.update(i, now), chain_id),
{
    let next = acc.update(i, now);
    lemma_joined_answers(records[n], acc[i], now);
    lemma_joined_asked(records, n, acc[i], now);
    assert forall|j: int| 0 <= j < n + 1 implies exists|m: int|
        0 <= m < next.len() && answers_for(#[trigger] next[m], #[trigger] records[j]) by {
        if j == n {
            assert(answers_for(next[i], records[j]));
        } else {
            let m = choose|m: int| 0 <= m < acc.len() && answers_for(#[trigger] acc[m], records[j]);
            if m != i {
                assert(next[m] == acc[m]);
            }
            assert(answers_for(next[m], records[j]));
        }
    }
    assert forall|m: int| 0 <= m < next.len() implies asked(records, n + 1, #[trigger] next[m]) by {
        if m != i {
            assert(next[m] == acc[m]);
            lemma_asked_stays(records, n, acc[m]);
        }
    }
    assert forall|m: int| 0 <= m < next.len() implies crate::records::witness_of(
        (#[trigger] next[m]).routed.record,
        chain_id,
    ) == Ok::<_, SubscriberError>(next[m].witness) by {
        if m != i {
            assert(next[m] == acc[m]);
        }
    }
}

proof fn lemma_merged_step(
    records: Seq<RoutedView>,
    n: int,
    acc: Seq<MergedView>,
    merge: MergeView,
    chain_id: u64,
)
    requires
        0 <= n < records.len(),
        merged_rightly(records, n, acc, chain_id),
        merged_with(acc, records[n], merge, chain_id) is Ok,
    ensures
        merged_rightly(
            records,
            n + 1,
            merged_with(acc, records[n], merge, chain_id)->Ok_0,
            chain_id,
        ),
{
    let r = records[n];
    let next = merged_with(acc, r, merge, chain_id)->Ok_0;
    let d = validated(r.record, chain_id)->Ok_0.0;
    assert(r.record.identity == Ok::<_, String>(d));
    lemma_id_index_range(merged_ids(acc), d, 0);
    let i = id_index(merged_ids(acc), d, 0);
    if i < acc.len() && merge is Merged {
        assert(merged_ids(acc)[i] == d);
        let now = MergedView {
            routed: RoutedView {
                record: merge->Merged_0,
                audience: merged_audience(acc[i].routed.audience, r.audience),
                scope: merged_scope(acc[i].routed.scope, r.scope),
            },
            identity: d,
            witness: crate::records::witness_of(merge->Merged_0, chain_id)->Ok_0,
        };
        assert(next == acc.update(i, now));
        lemma_joined(records, n, acc, i, now, chain_id);
    } else {
        let fresh = MergedView {
            routed: r,
            identity: d,
            witness: validated(r.record, chain_id)->Ok_0.1,
        };
        assert(next == acc.push(fresh));
        lemma_pushed(records, n, acc, fresh, chain_id);
    }
}

proof fn lemma_merged_all(
    records: Seq<RoutedView>,
    n: int,
    acc: Seq<MergedView>,
    merges: Seq<MergeView>,
    chain_id: u64,
)
    requires
        0 <= n <= records.len(),
        merged_rightly(records, n, acc, chain_id),
        merged_from(acc, records, merges, n, chain_id) is Ok,
    ensures
        merged_rightly(
            records,
            records.len() as int,
            merged_from(acc, records, merges, n, chain_id)->Ok_0,
            chain_id,
        ),
    decreases records.len() - n,
{
    if n < records.len() {
        lemma_merged_step(records, n, acc, merges[n], chain_id);
        lemma_merged_all(
            records,
            n + 1,
            merged_with(acc, records[n], merges[n], chain_id)->Ok_0,
            merges,
            chain_id,
        );
    }
}

/// Merging loses no request and makes none up: every record that came in is
/// answered for by a merged one of its identity, and a merged one is for nobody
/// that no record of its identity was for, and reaches no further.
pub proof fn law_merging_keeps_every_request(
    records: Seq<RoutedView>,
    merges: Seq<MergeView>,
    chain_id: u64,
)
    requires
        merged_from(Seq::empty(), records, merges, 0, chain_id) is Ok,
    ensures
        ({
            let merged = merged_from(Seq::empty(), records, merges, 0, chain_id)->Ok_0;
            &&& forall|j: int|
                0 <= j < records.len() ==> exists|m: int|
                    0 <= m < merged.len() && answers_for(
                        #[trigger] merged[m],
                        #[trigger] records[j],
                    )
            &&& forall|m: int|
                0 <= m < merged.len() ==> asked(
                    records,
                    records.len() as int,
                    #[trigger] merged[m],
                )
            &&& forall|m: int|
                0 <= m < merged.len() ==> crate::records::witness_of(
                    (#[trigger] merged[m]).routed.record,
                    chain_id,
                ) == Ok::<_, SubscriberError>(merged[m].witness)
        }),
{
    lemma_merged_all(records, 0, Seq::empty(), merges, chain_id);
}

/// A record whose body, chain or position contradicts an earlier one of its
/// identity is refused, whatever a merge made of them; one of a new identity is
/// taken as it is.
pub proof fn law_contradicting_record_is_refused(
    acc: Seq<MergedView>,
    r: RoutedView,
    merge: MergeView,
    chain_id: u64,
    m: int,
)
    requires
        validated(r.record, chain_id) is Ok,
        0 <= m <= acc.len(),
        forall|i: int|
            0 <= i < m ==> (#[trigger] acc[i]).identity != validated(r.record, chain_id)->Ok_0.0,
        m < acc.len() ==> acc[m].identity == validated(r.record, chain_id)->Ok_0.0,
    ensures
        ({
            let (identity, witness) = validated(r.record, chain_id)->Ok_0;
            &&& m == acc.len() ==> merged_with(acc, r, merge, chain_id) == Ok::<_, SubscriberError>(
                acc.push(MergedView { routed: r, identity, witness }),
            )
            &&& m < acc.len() && (acc[m].witness.payload_digest != witness.payload_digest
                || acc[m].witness.chain_id != witness.chain_id
                || acc[m].witness.transaction_index != witness.transaction_index
                || acc[m].witness.log_index != witness.log_index) ==> merged_with(
                acc,
                r,
                merge,
                chain_id,
            ) is Err
        }),
{
    let identity = validated(r.record, chain_id)->Ok_0.0;
    let ids = merged_ids(acc);
    assert forall|i: int| 0 <= i < m implies ids[i] != identity by {
        assert(acc[i].identity != identity);
    }
    lemma_id_index(ids, identity, 0, m);
}

/// Whether the lifecycles of two accounts of one record go together: both are
/// pending, both are taken back, or both are settled on the chain.
pub open spec fn lifecycles_agree(
    a: crate::audience::WitnessLifecycle,
    b: crate::audience::WitnessLifecycle,
) -> bool {
    a == b || !(a is Pending) && !(a is Reorg) && !(b is Pending) && !(b is Reorg)
}

/// Whether nothing that both of two options hold differs.
pub open spec fn options_agree<A>(a: Option<A>, b: Option<A>) -> bool {
    a is Some && b is Some ==> a == b
}

/// Two witnesses can be joined exactly where they are of one body, chain and
/// position, and nothing that both know of its block differs. The join is as
/// settled as the more settled of them, and knows what either knows.
pub proof fn law_witnesses_join_where_they_agree(a: RecordWitness, b: RecordWitness)
    ensures
        merged_witness(a, b) is Ok <==> {
            &&& a.payload_digest == b.payload_digest
            &&& a.chain_id == b.chain_id
            &&& a.transaction_index == b.transaction_index
            &&& a.log_index == b.log_index
            &&& lifecycles_agree(a.lifecycle, b.lifecycle)
            &&& a.block is Some && b.block is Some ==> crate::recovery_laws::agree(
                a.block->Some_0,
                b.block->Some_0,
            )
            &&& options_agree(a.log_block_timestamp, b.log_block_timestamp)
        },
        match merged_witness(a, b) {
            Ok(m) => {
                &&& m.payload_digest == a.payload_digest
                &&& m.chain_id == a.chain_id
                &&& m.transaction_index == a.transaction_index
                &&& m.log_index == a.log_index
                &&& m.lifecycle == a.lifecycle || m.lifecycle == b.lifecycle
                &&& a.lifecycle is Finalized || b.lifecycle is Finalized ==> m.lifecycle is Finalized
                &&& a.lifecycle is Safe && b.lifecycle is Included ==> m.lifecycle is Safe
                &&& a.lifecycle is Included && b.lifecycle is Safe ==> m.lifecycle is Safe
                &&& m.block is Some <==> a.block is Some || b.block is Some
                &&& a.block is None ==> m.block == b.block
                &&& b.block is None ==> m.block == a.block
                &&& m.log_block_timestamp == (if a.log_block_timestamp is Some {
                    a.log_block_timestamp
                } else {
                    b.log_block_timestamp
                })
            },
            Err(_) => true,
        },
{
    if a.block is Some && b.block is Some {
        crate::recovery_laws::law_accounts_join_where_they_agree(a.block->Some_0, b.block->Some_0);
    }
}

/// A record passes as one that was delivered before exactly where the journal
/// holds its identity with a witness that goes together with its own.
pub proof fn law_repeat_is_what_was_witnessed(c: CheckpointView, record: RecordView)
    requires
        identities(c.recent_inputs).no_duplicates(),
    ensures
        crate::overlap::witness_error(c, record) is None <==> validated(record, c.chain_id) is Ok
            && exists|e: int|
            {
                &&& 0 <= e < c.recent_inputs.len()
                &&& (#[trigger] c.recent_inputs[e]).identity == validated(
                    record,
                    c.chain_id,
                )->Ok_0.0
                &&& c.recent_inputs[e].coverage.witness is Some
                &&& merged_witness(
                    c.recent_inputs[e].coverage.witness->Some_0,
                    validated(record, c.chain_id)->Ok_0.1,
                ) is Ok
            },
{
    let entries = c.recent_inputs;
    if validated(record, c.chain_id) is Ok {
        let (identity, witness) = validated(record, c.chain_id)->Ok_0;
        lemma_entry_index(entries, identity, 0);
        let at = entry_index(entries, identity, 0);
        let ids = identities(entries);
        if at < entries.len() {
            assert(entries[at].identity == identity);
            assert forall|e: int| 0 <= e < entries.len() && (#[trigger] entries[e]).identity
                == identity implies e == at by {
                assert(ids[e] == identity && ids[at] == identity);
            }
        }
    }
}

} // verus!
