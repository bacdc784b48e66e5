//! Who a delivery is for, and who has already had it.
use crate::error::SubscriberError;
use crate::model::{
    compatible_block_ref, merge_optional_metadata, merged_block, merged_metadata, shown_id,
    BlockRef, HandlerId,
};
use crate::owners::{
    copy_ids, has_duplicate_owners, has_key, ids_view, keys_of, lemma_lookup, lemma_normalized,
    lemma_with_entry, lookup, normalize_owners, normalized, owner_set, sorted_keys, with_entry,
    OwnerMap,
};
use crate::words::B256;
use vstd::prelude::*;

verus! {

/// The longest handler id, in bytes, that a durable checkpoint can hold.
pub const HYBRID_MAX_HANDLER_ID_BYTES: usize = 4096;

/// Who a delivery is for.
#[derive(Debug, PartialEq, Eq)]
pub enum DeliveryAudience {
    /// The base subscription and every owner.
    All,
    /// These owners alone.
    Owners(Vec<HandlerId>),
    /// The base subscription and every owner but these.
    AllExcept(Vec<HandlerId>),
}

/// An audience with its owners as bytes.
pub enum AudienceView {
    All,
    Owners(Seq<Seq<u8>>),
    AllExcept(Seq<Seq<u8>>),
}

impl View for DeliveryAudience {
    type V = AudienceView;

    open spec fn view(&self) -> AudienceView {
        match self {
            DeliveryAudience::All => AudienceView::All,
            DeliveryAudience::Owners(ids) => AudienceView::Owners(ids_view(ids@)),
            DeliveryAudience::AllExcept(ids) => AudienceView::AllExcept(ids_view(ids@)),
        }
    }
}

impl AudienceView {
    /// Whether the audience holds the base subscription.
    pub open spec fn reaches_base(self) -> bool {
        !(self is Owners)
    }

    /// Whether the audience holds `owner`.
    pub open spec fn reaches(self, owner: Seq<u8>) -> bool {
        match self {
            AudienceView::All => true,
            AudienceView::Owners(ids) => ids.contains(owner),
            AudienceView::AllExcept(ids) => !ids.contains(owner),
        }
    }

    /// The owners that the audience lists.
    pub open spec fn explicit(self) -> Seq<Seq<u8>> {
        match self {
            AudienceView::All => Seq::empty(),
            AudienceView::Owners(ids) => ids,
            AudienceView::AllExcept(ids) => ids,
        }
    }
}

impl DeliveryAudience {
    /// Another audience with the same owners.
    pub fn duplicate(&self) -> (r: DeliveryAudience)
        ensures
            r@ == self@,
    {
        match self {
            DeliveryAudience::All => DeliveryAudience::All,
            DeliveryAudience::Owners(ids) => DeliveryAudience::Owners(copy_ids(ids.as_slice())),
            DeliveryAudience::AllExcept(ids) => DeliveryAudience::AllExcept(
                copy_ids(ids.as_slice()),
            ),
        }
    }
}

/// How far a delivery reaches into the canonical state.
#[derive(Clone, Copy, Debug, PartialEq, Eq, Structural)]
pub enum DeliveryScope {
    Canonical,
    CanonicalProgress,
    OwnerCatchup,
}

/// Whether deliveries of this scope move canonical coverage.
pub fn scope_advances_canonical(scope: DeliveryScope) -> (r: bool)
    ensures
        r == (scope != DeliveryScope::OwnerCatchup),
{
    match scope {
        DeliveryScope::Canonical => true,
        DeliveryScope::CanonicalProgress => true,
        DeliveryScope::OwnerCatchup => false,
    }
}

/// The ids of `ids` that are, or are not, in `among`.
pub open spec fn ids_among(ids: Seq<Seq<u8>>, among: Seq<Seq<u8>>, keep: bool) -> Seq<Seq<u8>>
    decreases ids.len(),
{
    if ids.len() == 0 {
        Seq::empty()
    } else if among.contains(ids.last()) == keep {
        ids_among(ids.drop_last(), among, keep).push(ids.last())
    } else {
        ids_among(ids.drop_last(), among, keep)
    }
}

/// Which ids `ids_among` keeps.
pub proof fn lemma_ids_among(ids: Seq<Seq<u8>>, among: Seq<Seq<u8>>, keep: bool)
    ensures
        forall|k: Seq<u8>| #[trigger]
            ids_among(ids, among, keep).contains(k) <==> ids.contains(k) && among.contains(k)
                == keep,
    decreases ids.len(),
{
    let out = ids_among(ids, among, keep);
    if ids.len() > 0 {
        let front = ids.drop_last();
        lemma_ids_among(front, among, keep);
        let rest = ids_among(front, among, keep);
        assert forall|k: Seq<u8>| #[trigger] out.contains(k) <==> ids.contains(k)
            && among.contains(k) == keep by {
            assert(rest.contains(k) <==> front.contains(k) && among.contains(k) == keep);
            lemma_contains_last(ids, k);
            if among.contains(ids.last()) == keep {
                lemma_contains_last(out, k);
                assert(out.drop_last() =~= rest);
            }
        }
    }
}

/// Something is in a sequence if it is the last item or among the others.
pub proof fn lemma_contains_last<A>(s: Seq<A>, k: A)
    requires
        s.len() > 0,
    ensures
        s.contains(k) <==> s.drop_last().contains(k) || s.last() == k,
{
    let front = s.drop_last();
    if s.contains(k) {
        let i = choose|i: int| 0 <= i < s.len() && s[i] == k;
        if i < front.len() {
            assert(front[i] == k);
        }
    }
    if front.contains(k) {
        let i = choose|i: int| 0 <= i < front.len() && front[i] == k;
        assert(s[i] == k);
    }
    if s.last() == k {
        assert(s[s.len() - 1] == k);
    }
}

/// The ids of `ids` that are, or are not, in `among`.
fn select_ids(ids: &[HandlerId], among: &OwnerMap<()>, Ghost(names): Ghost<Seq<Seq<u8>>>, keep: bool) -> (r: Vec<
    HandlerId,
>)
    requires
        forall|k: Seq<u8>| #[trigger] has_key(among@, k) <==> names.contains(k),
    ensures
        ids_view(r@) == ids_among(ids_view(ids@), names, keep),
{
    let ghost all = ids_view(ids@);
    let mut out: Vec<HandlerId> = Vec::new();
    let mut i: usize = 0;
    assert(all.take(0) =~= Seq::<Seq<u8>>::empty());
    assert(ids_view(out@) =~= Seq::<Seq<u8>>::empty());
    while i < ids.len()
        invariant
            i <= ids@.len(),
            all == ids_view(ids@),
            forall|k: Seq<u8>| #[trigger] has_key(among@, k) <==> names.contains(k),
            ids_view(out@) == ids_among(all.take(i as int), names, keep),
        decreases ids@.len() - i,
    {
        let ghost next = all.take(i + 1);
        proof {
            assert(next.drop_last() =~= all.take(i as int));
            assert(next.last() == all[i as int]);
        }
        if among.contains_key(&ids[i]) == keep {
            let ghost before = out@;
            out.push(ids[i].duplicate());
            assert(ids_view(out@) =~= ids_view(before).push(all[i as int]));
        }
        i += 1;
    }
    assert(all.take(i as int) =~= all);
    out
}

/// The audience that holds whoever is in either audience.
pub open spec fn merged_audience(left: AudienceView, right: AudienceView) -> AudienceView {
    match (left, right) {
        (AudienceView::All, _) => AudienceView::All,
        (_, AudienceView::All) => AudienceView::All,
        (AudienceView::Owners(a), AudienceView::Owners(b)) => AudienceView::Owners(
            normalized(a + b),
        ),
        (AudienceView::AllExcept(a), AudienceView::Owners(b)) => AudienceView::AllExcept(
            normalized(ids_among(a, b, false)),
        ),
        (AudienceView::Owners(a), AudienceView::AllExcept(b)) => AudienceView::AllExcept(
            normalized(ids_among(b, a, false)),
        ),
        (AudienceView::AllExcept(a), AudienceView::AllExcept(b)) => AudienceView::AllExcept(
            normalized(ids_among(a, b, true)),
        ),
    }
}

/// Widens `current` to hold whoever is in `incoming`.
pub fn merge_audience(current: &mut DeliveryAudience, incoming: &DeliveryAudience)
    ensures
        final(current)@ == merged_audience(old(current)@, incoming@),
{
    let merged: DeliveryAudience = match (&*current, incoming) {
        (DeliveryAudience::All, _) => DeliveryAudience::All,
        (_, DeliveryAudience::All) => DeliveryAudience::All,
        (DeliveryAudience::Owners(a), DeliveryAudience::Owners(b)) => {
            let mut ids: Vec<HandlerId> = copy_ids(a.as_slice());
            let mut more: Vec<HandlerId> = copy_ids(b.as_slice());
            let ghost (x, y) = (ids@, more@);
            ids.append(&mut more);
            assert(ids_view(ids@) =~= ids_view(x) + ids_view(y));
            normalize_owners(&mut ids);
            DeliveryAudience::Owners(ids)
        },
        (DeliveryAudience::AllExcept(a), DeliveryAudience::Owners(b)) => {
            let set: OwnerMap<()> = owner_set(b.as_slice());
            let mut ids: Vec<HandlerId> = select_ids(a.as_slice(), &set, Ghost(ids_view(b@)), false);
            normalize_owners(&mut ids);
            DeliveryAudience::AllExcept(ids)
        },
        (DeliveryAudience::Owners(a), DeliveryAudience::AllExcept(b)) => {
            let set: OwnerMap<()> = owner_set(a.as_slice());
            let mut ids: Vec<HandlerId> = select_ids(b.as_slice(), &set, Ghost(ids_view(a@)), false);
            normalize_owners(&mut ids);
            DeliveryAudience::AllExcept(ids)
        },
        (DeliveryAudience::AllExcept(a), DeliveryAudience::AllExcept(b)) => {
            let set: OwnerMap<()> = owner_set(b.as_slice());
            let mut ids: Vec<HandlerId> = select_ids(a.as_slice(), &set, Ghost(ids_view(b@)), true);
            normalize_owners(&mut ids);
            DeliveryAudience::AllExcept(ids)
        },
    };
    *current = merged;
}

/// A merged audience holds exactly whoever is in one of its parts.
pub proof fn law_merged_audience_is_union(left: AudienceView, right: AudienceView)
    ensures
        merged_audience(left, right).reaches_base() == (left.reaches_base()
            || right.reaches_base()),
        forall|owner: Seq<u8>| #[trigger]
            merged_audience(left, right).reaches(owner) == (left.reaches(owner) || right.reaches(
                owner,
            )),
{
    assert forall|owner: Seq<u8>| #[trigger] merged_audience(left, right).reaches(owner) == (
    left.reaches(owner) || right.reaches(owner)) by {
        match (left, right) {
            (AudienceView::Owners(a), AudienceView::Owners(b)) => {
                lemma_normalized(a + b);
                assert(normalized(a + b).contains(owner) <==> (a + b).contains(owner));
                if a.contains(owner) {
                    let i = choose|i: int| 0 <= i < a.len() && a[i] == owner;
                    assert((a + b)[i] == owner);
                }
                if b.contains(owner) {
                    let i = choose|i: int| 0 <= i < b.len() && b[i] == owner;
                    assert((a + b)[a.len() + i] == owner);
                }
                if (a + b).contains(owner) {
                    let i = choose|i: int| 0 <= i < (a + b).len() && (a + b)[i] == owner;
                    if i >= a.len() {
                        assert(b[i - a.len()] == owner);
                    }
                }
            },
            (AudienceView::AllExcept(a), AudienceView::Owners(b)) => {
                lemma_ids_among(a, b, false);
                lemma_normalized(ids_among(a, b, false));
                assert(ids_among(a, b, false).contains(owner) <==> a.contains(owner) && !b.contains(
                    owner,
                ));
                assert(normalized(ids_among(a, b, false)).contains(owner) <==> ids_among(
                    a,
                    b,
                    false,
                ).contains(owner));
            },
            (AudienceView::Owners(a), AudienceView::AllExcept(b)) => {
                lemma_ids_among(b, a, false);
                lemma_normalized(ids_among(b, a, false));
                assert(ids_among(b, a, false).contains(owner) <==> b.contains(owner) && !a.contains(
                    owner,
                ));
                assert(normalized(ids_among(b, a, false)).contains(owner) <==> ids_among(
                    b,
                    a,
                    false,
                ).contains(owner));
            },
            (AudienceView::AllExcept(a), AudienceView::AllExcept(b)) => {
                lemma_ids_among(a, b, true);
                lemma_normalized(ids_among(a, b, true));
                assert(ids_among(a, b, true).contains(owner) <==> a.contains(owner) && b.contains(
                    owner,
                ));
                assert(normalized(ids_among(a, b, true)).contains(owner) <==> ids_among(
                    a,
                    b,
                    true,
                ).contains(owner));
            },
            _ => {},
        }
    }
}

/// The wider of two scopes.
pub open spec fn merged_scope(left: DeliveryScope, right: DeliveryScope) -> DeliveryScope {
    if left == DeliveryScope::Canonical || right == DeliveryScope::Canonical {
        DeliveryScope::Canonical
    } else if left == DeliveryScope::CanonicalProgress || right
        == DeliveryScope::CanonicalProgress {
        DeliveryScope::CanonicalProgress
    } else {
        DeliveryScope::OwnerCatchup
    }
}

/// Widens `current` to `incoming`.
pub fn merge_scope(current: &mut DeliveryScope, incoming: DeliveryScope)
    ensures
        *final(current) == merged_scope(*old(current), incoming),
{
    *current = match (*current, incoming) {
        (DeliveryScope::Canonical, _) => DeliveryScope::Canonical,
        (_, DeliveryScope::Canonical) => DeliveryScope::Canonical,
        (DeliveryScope::CanonicalProgress, _) => DeliveryScope::CanonicalProgress,
        (_, DeliveryScope::CanonicalProgress) => DeliveryScope::CanonicalProgress,
        (DeliveryScope::OwnerCatchup, DeliveryScope::OwnerCatchup) => DeliveryScope::OwnerCatchup,
    };
}

/// The position of the first id that is too long, counted from `from`.
pub open spec fn first_long_id(ids: Seq<Seq<u8>>, from: int) -> Option<int>
    decreases ids.len() - from,
{
    if from < 0 || from >= ids.len() {
        None
    } else if ids[from].len() > HYBRID_MAX_HANDLER_ID_BYTES {
        Some(from)
    } else {
        first_long_id(ids, from + 1)
    }
}

/// The error that a list of ids earns for its first id that is too long.
pub open spec fn long_id_error(ids: Seq<Seq<u8>>) -> Option<SubscriberError> {
    match first_long_id(ids, 0) {
        Some(i) => Some(SubscriberError::HandlerIdTooLong { owner: shown_id(ids[i]) }),
        None => None,
    }
}

/// Refuses ids that a durable checkpoint cannot hold.
pub fn validate_handler_ids(owners: &[HandlerId]) -> (r: Result<(), SubscriberError>)
    ensures
        match r {
            Ok(_) => long_id_error(ids_view(owners@)) is None,
            Err(e) => long_id_error(ids_view(owners@)) == Some(e),
        },
{
    let mut i: usize = 0;
    while i < owners.len()
        invariant
            i <= owners@.len(),
            first_long_id(ids_view(owners@), 0) == first_long_id(ids_view(owners@), i as int),
        decreases owners@.len() - i,
    {
        if owners[i].byte_len() > HYBRID_MAX_HANDLER_ID_BYTES {
            return Err(SubscriberError::HandlerIdTooLong { owner: owners[i].shown() });
        }
        i += 1;
    }
    Ok(())
}

/// The error that a list of owners earns.
pub open spec fn owner_list_error(ids: Seq<Seq<u8>>, label: &'static str) -> Option<
    SubscriberError,
> {
    if ids.len() == 0 {
        Some(SubscriberError::EmptyOwners { label })
    } else if !ids.no_duplicates() {
        Some(SubscriberError::DuplicateOwner { label })
    } else {
        long_id_error(ids)
    }
}

/// Refuses an owner list that is empty, repeats an owner, or names one that is
/// too long.
pub fn validate_owner_list(owners: &[HandlerId], label: &'static str) -> (r: Result<
    (),
    SubscriberError,
>)
    ensures
        match r {
            Ok(_) => owner_list_error(ids_view(owners@), label) is None,
            Err(e) => owner_list_error(ids_view(owners@), label) == Some(e),
        },
{
    if owners.len() == 0 {
        return Err(SubscriberError::EmptyOwners { label });
    }
    if has_duplicate_owners(owners) {
        return Err(SubscriberError::DuplicateOwner { label });
    }
    validate_handler_ids(owners)
}

/// The error that a delivery earns for its audience and scope.
pub open spec fn routing_error(audience: AudienceView, scope: DeliveryScope) -> Option<
    SubscriberError,
> {
    let listed = match audience {
        AudienceView::All => None,
        AudienceView::Owners(ids) => owner_list_error(ids, "owner audience"),
        AudienceView::AllExcept(ids) => if long_id_error(ids) is Some {
            long_id_error(ids)
        } else if !ids.no_duplicates() {
            Some(
                SubscriberError::Provider(
                    "hybrid source emitted a duplicate owner in an exclusion audience",
                ),
            )
        } else {
            None
        },
    };
    if listed is Some {
        listed
    } else if scope == DeliveryScope::OwnerCatchup && !(audience is Owners) {
        Some(
            SubscriberError::Provider(
                "hybrid owner-catchup delivery requires a non-empty exact owner audience",
            ),
        )
    } else {
        None
    }
}

/// Refuses a delivery whose audience is ill-formed or does not suit its scope.
pub fn validate_routing(audience: &DeliveryAudience, scope: DeliveryScope) -> (r: Result<
    (),
    SubscriberError,
>)
    ensures
        match r {
            Ok(_) => routing_error(audience@, scope) is None,
            Err(e) => routing_error(audience@, scope) == Some(e),
        },
{
    match audience {
        DeliveryAudience::All => {},
        DeliveryAudience::Owners(owners) => {
            validate_owner_list(owners.as_slice(), "owner audience")?;
        },
        DeliveryAudience::AllExcept(owners) => {
            validate_handler_ids(owners.as_slice())?;
            if has_duplicate_owners(owners.as_slice()) {
                return Err(
                    SubscriberError::Provider(
                        "hybrid source emitted a duplicate owner in an exclusion audience",
                    ),
                );
            }
        },
    }
    match (scope, audience) {
        (DeliveryScope::Canonical, _) => Ok(()),
        (DeliveryScope::CanonicalProgress, _) => Ok(()),
        (DeliveryScope::OwnerCatchup, DeliveryAudience::Owners(_)) => Ok(()),
        (DeliveryScope::OwnerCatchup, _) => Err(
            SubscriberError::Provider(
                "hybrid owner-catchup delivery requires a non-empty exact owner audience",
            ),
        ),
    }
}

/// How far the block of a record had settled when the record was committed.
#[derive(Clone, Copy, Debug, PartialEq, Eq, Structural)]
pub enum WitnessLifecycle {
    Included,
    Safe,
    Finalized,
    Reorg,
    Pending,
}

/// Proof that a record was committed before: a digest of its body and the
/// positions that it was delivered with.
#[derive(Clone, Copy, Debug, PartialEq, Eq, Structural)]
pub struct RecordWitness {
    pub payload_digest: B256,
    pub chain_id: u64,
    pub lifecycle: WitnessLifecycle,
    pub block: Option<BlockRef>,
    pub transaction_index: Option<u64>,
    pub log_index: Option<u64>,
    pub log_block_timestamp: Option<u64>,
}

/// How settled a canonical lifecycle is; none for the others.
pub open spec fn settled_rank(lifecycle: WitnessLifecycle) -> Option<int> {
    match lifecycle {
        WitnessLifecycle::Included => Some(0),
        WitnessLifecycle::Safe => Some(1),
        WitnessLifecycle::Finalized => Some(2),
        WitnessLifecycle::Reorg => None,
        WitnessLifecycle::Pending => None,
    }
}

/// The lifecycle that two accounts of one record give together: the more
/// settled of two canonical ones, or the one both name.
pub open spec fn merged_lifecycle(left: WitnessLifecycle, right: WitnessLifecycle) -> Result<
    WitnessLifecycle,
    SubscriberError,
> {
    if settled_rank(left) is Some && settled_rank(right) is Some {
        Ok(
            if settled_rank(left)->Some_0 >= settled_rank(right)->Some_0 {
                left
            } else {
                right
            },
        )
    } else if left == right {
        Ok(left)
    } else {
        Err(
            SubscriberError::Provider(
                "hybrid duplicate identity carries conflicting lifecycle context",
            ),
        )
    }
}

/// Joins the lifecycles of two accounts of one record.
pub fn merge_witness_lifecycle(left: WitnessLifecycle, right: WitnessLifecycle) -> (r: Result<
    WitnessLifecycle,
    SubscriberError,
>)
    ensures
        r == merged_lifecycle(left, right),
{
    match (left, right) {
        (WitnessLifecycle::Pending, WitnessLifecycle::Pending) => Ok(WitnessLifecycle::Pending),
        (WitnessLifecycle::Reorg, WitnessLifecycle::Reorg) => Ok(WitnessLifecycle::Reorg),
        (WitnessLifecycle::Pending, _) | (_, WitnessLifecycle::Pending) | (
            WitnessLifecycle::Reorg,
            _,
        ) | (_, WitnessLifecycle::Reorg) => Err(
            SubscriberError::Provider(
                "hybrid duplicate identity carries conflicting lifecycle context",
            ),
        ),
        (WitnessLifecycle::Finalized, _) | (_, WitnessLifecycle::Finalized) => Ok(
            WitnessLifecycle::Finalized,
        ),
        (WitnessLifecycle::Safe, _) | (_, WitnessLifecycle::Safe) => Ok(WitnessLifecycle::Safe),
        (WitnessLifecycle::Included, WitnessLifecycle::Included) => Ok(WitnessLifecycle::Included),
    }
}

/// Joining lifecycles never lowers how settled a record is, and does not
/// depend on the order.
pub proof fn law_merged_lifecycle_is_join(left: WitnessLifecycle, right: WitnessLifecycle)
    ensures
        merged_lifecycle(left, right) == merged_lifecycle(right, left),
        merged_lifecycle(left, left) == Ok::<_, SubscriberError>(left),
        match merged_lifecycle(left, right) {
            Ok(m) => (m == left || m == right) && (settled_rank(left) is Some ==> settled_rank(
                m,
            )->Some_0 >= settled_rank(left)->Some_0 && settled_rank(m)->Some_0 >= settled_rank(
                right,
            )->Some_0),
            Err(_) => true,
        },
{
}

/// What two accounts of the block of a record say together.
pub open spec fn merged_optional_block(left: Option<BlockRef>, right: Option<BlockRef>) -> Result<
    Option<BlockRef>,
    SubscriberError,
> {
    match (left, right) {
        (Some(a), Some(b)) => match merged_block(a, b) {
            Ok(m) => Ok(Some(m)),
            Err(e) => Err(e),
        },
        (Some(a), None) => Ok(Some(a)),
        (None, b) => Ok(b),
    }
}

/// Joins two accounts of an optional block.
pub fn merge_optional_block(left: Option<BlockRef>, right: Option<BlockRef>) -> (r: Result<
    Option<BlockRef>,
    SubscriberError,
>)
    ensures
        r == merged_optional_block(left, right),
{
    match (left, right) {
        (Some(a), Some(b)) => {
            let merged: BlockRef = compatible_block_ref(&a, &b)?;
            Ok(Some(merged))
        },
        (Some(a), None) => Ok(Some(a)),
        (None, b) => Ok(b),
    }
}

/// What two witnesses of one record say together, or why they cannot both be
/// true.
pub open spec fn merged_witness(left: RecordWitness, right: RecordWitness) -> Result<
    RecordWitness,
    SubscriberError,
> {
    if left.payload_digest != right.payload_digest || left.chain_id != right.chain_id
        || left.transaction_index != right.transaction_index || left.log_index
        != right.log_index {
        Err(
            SubscriberError::Provider(
                "hybrid duplicate identity carries conflicting payload or required positions",
            ),
        )
    } else {
        match merged_lifecycle(left.lifecycle, right.lifecycle) {
            Err(e) => Err(e),
            Ok(lifecycle) => match merged_optional_block(left.block, right.block) {
                Err(e) => Err(e),
                Ok(block) => match merged_metadata(
                    left.log_block_timestamp,
                    right.log_block_timestamp,
                    "log timestamp",
                    (if block is Some { block->Some_0.number } else { 0 }),
                ) {
                    Err(e) => Err(e),
                    Ok(log_block_timestamp) => Ok(
                        RecordWitness { lifecycle, block, log_block_timestamp, ..left },
                    ),
                },
            },
        }
    }
}

/// Joins two witnesses of one record.
pub fn merge_witness(left: &RecordWitness, right: &RecordWitness) -> (r: Result<
    RecordWitness,
    SubscriberError,
>)
    ensures
        r == merged_witness(*left, *right),
{
    if left.payload_digest != right.payload_digest || left.chain_id != right.chain_id
        || left.transaction_index != right.transaction_index || left.log_index
        != right.log_index {
        return Err(
            SubscriberError::Provider(
                "hybrid duplicate identity carries conflicting payload or required positions",
            ),
        );
    }
    let lifecycle: WitnessLifecycle = merge_witness_lifecycle(left.lifecycle, right.lifecycle)?;
    let block: Option<BlockRef> = merge_optional_block(left.block, right.block)?;
    let number: u64 = match block {
        Some(known) => known.number,
        None => 0,
    };
    let log_block_timestamp: Option<u64> = merge_optional_metadata(
        left.log_block_timestamp,
        right.log_block_timestamp,
        "log timestamp",
        number,
    )?;
    Ok(
        RecordWitness {
            payload_digest: left.payload_digest,
            chain_id: left.chain_id,
            lifecycle,
            block,
            transaction_index: left.transaction_index,
            log_index: left.log_index,
            log_block_timestamp,
        },
    )
}

/// Refuses two witnesses of one record that contradict each other.
pub fn ensure_witness_compatible(left: &RecordWitness, right: &RecordWitness) -> (r: Result<
    (),
    SubscriberError,
>)
    ensures
        match r {
            Ok(_) => merged_witness(*left, *right) is Ok,
            Err(e) => merged_witness(*left, *right) == Err::<RecordWitness, _>(e),
        },
{
    merge_witness(left, right)?;
    Ok(())
}

/// Once two witnesses are joined, seeing either of them again changes nothing.
pub proof fn law_merged_witness_absorbs(left: RecordWitness, right: RecordWitness)
    ensures
        merged_witness(left, left) == Ok::<_, SubscriberError>(left),
        match merged_witness(left, right) {
            Ok(m) => merged_witness(m, left) == Ok::<_, SubscriberError>(m) && merged_witness(
                m,
                right,
            ) == Ok::<_, SubscriberError>(m) && merged_witness(right, left) == Ok::<
                _,
                SubscriberError,
            >(m),
            Err(_) => true,
        },
{
}

/// Who has had an input: the base subscription, owners by the generation in
/// which they had it, the block of the input, and its witness.
#[derive(Debug, PartialEq, Eq)]
pub struct AudienceCoverage {
    pub base: bool,
    pub owners: OwnerMap<u64>,
    pub block: Option<BlockRef>,
    pub witness: Option<RecordWitness>,
}

/// A coverage with its owners as a sequence of pairs.
pub struct CoverageView {
    pub base: bool,
    pub owners: Seq<(Seq<u8>, u64)>,
    pub block: Option<BlockRef>,
    pub witness: Option<RecordWitness>,
}

impl View for AudienceCoverage {
    type V = CoverageView;

    open spec fn view(&self) -> CoverageView {
        CoverageView {
            base: self.base,
            owners: self.owners@,
            block: self.block,
            witness: self.witness,
        }
    }
}

/// The coverage of an input that nobody has had.
pub open spec fn no_coverage() -> CoverageView {
    CoverageView { base: false, owners: Seq::empty(), block: None, witness: None }
}

impl AudienceCoverage {
    /// The coverage of an input that nobody has had.
    pub fn new() -> (r: AudienceCoverage)
        ensures
            r@ == no_coverage(),
    {
        AudienceCoverage { base: false, owners: OwnerMap::new(), block: None, witness: None }
    }

    /// Another coverage with the same contents.
    pub fn duplicate(&self) -> (r: AudienceCoverage)
        ensures
            r@ == self@,
    {
        AudienceCoverage {
            base: self.base,
            owners: self.owners.duplicate(),
            block: self.block,
            witness: self.witness,
        }
    }
}

/// The generation in which `owner` is registered; 0 where it is not.
pub open spec fn generation_of(generations: Seq<(Seq<u8>, u64)>, owner: Seq<u8>) -> u64 {
    match lookup(generations, owner) {
        Some(g) => g,
        None => 0,
    }
}

/// The owners that a delivery to `audience` is for.
pub open spec fn requested_owners(
    audience: AudienceView,
    generations: Seq<(Seq<u8>, u64)>,
) -> Seq<Seq<u8>> {
    match audience {
        AudienceView::All => keys_of(generations),
        AudienceView::Owners(ids) => normalized(ids),
        AudienceView::AllExcept(ids) => normalized(ids_among(keys_of(generations), ids, false)),
    }
}

/// Whether `owner` has had the input in its present generation.
pub open spec fn covers(
    coverage: CoverageView,
    generations: Seq<(Seq<u8>, u64)>,
    owner: Seq<u8>,
) -> bool {
    lookup(coverage.owners, owner) == Some(generation_of(generations, owner))
}

/// The owners of `ids` that have, or have not, had the input.
pub open spec fn ids_covered(
    ids: Seq<Seq<u8>>,
    coverage: CoverageView,
    generations: Seq<(Seq<u8>, u64)>,
    covered: bool,
) -> Seq<Seq<u8>>
    decreases ids.len(),
{
    if ids.len() == 0 {
        Seq::empty()
    } else if covers(coverage, generations, ids.last()) == covered {
        ids_covered(ids.drop_last(), coverage, generations, covered).push(ids.last())
    } else {
        ids_covered(ids.drop_last(), coverage, generations, covered)
    }
}

/// The part of `requested` that has not had the input yet.
pub open spec fn residual(
    coverage: CoverageView,
    requested: AudienceView,
    generations: Seq<(Seq<u8>, u64)>,
) -> Option<AudienceView> {
    let ids = requested_owners(requested, generations);
    let excluded = match requested {
        AudienceView::AllExcept(listed) => normalized(listed),
        _ => Seq::empty(),
    };
    if requested.reaches_base() && !coverage.base {
        Some(
            AudienceView::AllExcept(
                normalized(excluded + ids_covered(ids, coverage, generations, true)),
            ),
        )
    } else {
        let left = normalized(ids_covered(ids, coverage, generations, false));
        if left.len() > 0 {
            Some(AudienceView::Owners(left))
        } else {
            None
        }
    }
}

/// The owners that a delivery to `audience` is for.
fn owners_requested(audience: &DeliveryAudience, generations: &OwnerMap<u64>) -> (r: Vec<HandlerId>)
    ensures
        ids_view(r@) == requested_owners(audience@, generations@),
{
    match audience {
        DeliveryAudience::All => generations.owners(),
        DeliveryAudience::Owners(owners) => {
            let mut ids: Vec<HandlerId> = copy_ids(owners.as_slice());
            normalize_owners(&mut ids);
            ids
        },
        DeliveryAudience::AllExcept(excluded) => {
            let set: OwnerMap<()> = owner_set(excluded.as_slice());
            let all: Vec<HandlerId> = generations.owners();
            let mut ids: Vec<HandlerId> = select_ids(
                all.as_slice(),
                &set,
                Ghost(ids_view(excluded@)),
                false,
            );
            normalize_owners(&mut ids);
            ids
        },
    }
}

/// The generation in which `owner` is registered; 0 where it is not.
fn registered_generation(generations: &OwnerMap<u64>, owner: &HandlerId) -> (r: u64)
    ensures
        r == generation_of(generations@, owner@),
{
    match generations.get(owner) {
        Some(g) => *g,
        None => 0,
    }
}

/// The part of `requested` that has not had the input yet, if any.
pub fn residual_audience(
    coverage: &AudienceCoverage,
    requested: &DeliveryAudience,
    owner_generations: &OwnerMap<u64>,
) -> (r: Option<DeliveryAudience>)
    ensures
        match r {
            Some(audience) => residual(coverage@, requested@, owner_generations@) == Some(
                audience@,
            ),
            None => residual(coverage@, requested@, owner_generations@) is None,
        },
{
    let ids: Vec<HandlerId> = owners_requested(requested, owner_generations);
    let mut excluded: Vec<HandlerId> = Vec::new();
    let mut base_requested: bool = true;
    match requested {
        DeliveryAudience::All => {},
        DeliveryAudience::Owners(_) => {
            base_requested = false;
        },
        DeliveryAudience::AllExcept(listed) => {
            excluded = copy_ids(listed.as_slice());
            normalize_owners(&mut excluded);
        },
    }
    assert(requested@ is AllExcept || ids_view(excluded@) =~= Seq::<Seq<u8>>::empty());
    let ghost all = ids_view(ids@);
    let mut covered: Vec<HandlerId> = Vec::new();
    let mut uncovered: Vec<HandlerId> = Vec::new();
    let mut i: usize = 0;
    assert(all.take(0) =~= Seq::<Seq<u8>>::empty());
    assert(ids_view(covered@) =~= Seq::<Seq<u8>>::empty());
    assert(ids_view(uncovered@) =~= Seq::<Seq<u8>>::empty());
    while i < ids.len()
        invariant
            i <= ids@.len(),
            all == ids_view(ids@),
            ids_view(covered@) == ids_covered(
                all.take(i as int),
                coverage@,
                owner_generations@,
                true,
            ),
            ids_view(uncovered@) == ids_covered(
                all.take(i as int),
                coverage@,
                owner_generations@,
                false,
            ),
        decreases ids@.len() - i,
    {
        let ghost next = all.take(i + 1);
        proof {
            assert(next.drop_last() =~= all.take(i as int));
            assert(next.last() == all[i as int]);
        }
        let generation: u64 = registered_generation(owner_generations, &ids[i]);
        let had: bool = match coverage.owners.get(&ids[i]) {
            Some(known) => *known == generation,
            None => false,
        };
        if had {
            let ghost before = covered@;
            covered.push(ids[i].duplicate());
            assert(ids_view(covered@) =~= ids_view(before).push(all[i as int]));
        } else {
            let ghost before = uncovered@;
            uncovered.push(ids[i].duplicate());
            assert(ids_view(uncovered@) =~= ids_view(before).push(all[i as int]));
        }
        i += 1;
    }
    assert(all.take(i as int) =~= all);
    if base_requested && !coverage.base {
        let ghost (x, y) = (excluded@, covered@);
        excluded.append(&mut covered);
        assert(ids_view(excluded@) =~= ids_view(x) + ids_view(y));
        normalize_owners(&mut excluded);
        return Some(DeliveryAudience::AllExcept(excluded));
    }
    normalize_owners(&mut uncovered);
    if uncovered.len() > 0 {
        Some(DeliveryAudience::Owners(uncovered))
    } else {
        None
    }
}

/// `owners` with each of `ids` set to its present generation.
pub open spec fn owners_covered(
    owners: Seq<(Seq<u8>, u64)>,
    ids: Seq<Seq<u8>>,
    generations: Seq<(Seq<u8>, u64)>,
) -> Seq<(Seq<u8>, u64)>
    decreases ids.len(),
{
    if ids.len() == 0 {
        owners
    } else {
        with_entry(
            owners_covered(owners, ids.drop_last(), generations),
            ids.last(),
            generation_of(generations, ids.last()),
        )
    }
}

/// `coverage` once `audience` has had the input.
pub open spec fn coverage_with(
    coverage: CoverageView,
    audience: AudienceView,
    generations: Seq<(Seq<u8>, u64)>,
) -> CoverageView {
    CoverageView {
        base: coverage.base || audience.reaches_base(),
        owners: owners_covered(coverage.owners, requested_owners(audience, generations), generations),
        ..coverage
    }
}

/// Records that `audience` has had the input.
pub fn apply_audience_coverage(
    coverage: &mut AudienceCoverage,
    audience: &DeliveryAudience,
    owner_generations: &OwnerMap<u64>,
)
    ensures
        final(coverage)@ == coverage_with(old(coverage)@, audience@, owner_generations@),
{
    let ids: Vec<HandlerId> = owners_requested(audience, owner_generations);
    let ghost all = ids_view(ids@);
    let ghost start = coverage@;
    match audience {
        DeliveryAudience::Owners(_) => {},
        _ => {
            coverage.base = true;
        },
    }
    let mut i: usize = 0;
    assert(all.take(0) =~= Seq::<Seq<u8>>::empty());
    while i < ids.len()
        invariant
            i <= ids@.len(),
            all == ids_view(ids@),
            coverage@ == (CoverageView {
                base: start.base || audience@.reaches_base(),
                owners: owners_covered(start.owners, all.take(i as int), owner_generations@),
                ..start
            }),
        decreases ids@.len() - i,
    {
        proof {
            let next = all.take(i + 1);
            assert(next.drop_last() =~= all.take(i as int));
            assert(next.last() == all[i as int]);
        }
        let generation: u64 = registered_generation(owner_generations, &ids[i]);
        coverage.owners.insert(ids[i].duplicate(), generation);
        i += 1;
    }
    assert(all.take(i as int) =~= all);
}

/// What covering owners does to each of them.
pub proof fn lemma_owners_covered(
    owners: Seq<(Seq<u8>, u64)>,
    ids: Seq<Seq<u8>>,
    generations: Seq<(Seq<u8>, u64)>,
)
    requires
        sorted_keys(owners),
    ensures
        sorted_keys(owners_covered(owners, ids, generations)),
        forall|k: Seq<u8>| #[trigger]
            lookup(owners_covered(owners, ids, generations), k) == (if ids.contains(k) {
                Some(generation_of(generations, k))
            } else {
                lookup(owners, k)
            }),
    decreases ids.len(),
{
    if ids.len() > 0 {
        let front = ids.drop_last();
        lemma_owners_covered(owners, front, generations);
        let mid = owners_covered(owners, front, generations);
        let last = ids.last();
        lemma_with_entry(mid, last, generation_of(generations, last));
        assert forall|k: Seq<u8>| #[trigger]
            lookup(owners_covered(owners, ids, generations), k) == (if ids.contains(k) {
                Some(generation_of(generations, k))
            } else {
                lookup(owners, k)
            }) by {
            lemma_contains_last(ids, k);
            if k != last {
                assert(lookup(owners_covered(owners, ids, generations), k) == lookup(mid, k));
            }
        }
    }
}

/// Which ids `ids_covered` keeps.
pub proof fn lemma_ids_covered(
    ids: Seq<Seq<u8>>,
    coverage: CoverageView,
    generations: Seq<(Seq<u8>, u64)>,
    covered: bool,
)
    ensures
        forall|k: Seq<u8>| #[trigger]
            ids_covered(ids, coverage, generations, covered).contains(k) <==> ids.contains(k)
                && covers(coverage, generations, k) == covered,
    decreases ids.len(),
{
    let out = ids_covered(ids, coverage, generations, covered);
    if ids.len() > 0 {
        let front = ids.drop_last();
        lemma_ids_covered(front, coverage, generations, covered);
        let rest = ids_covered(front, coverage, generations, covered);
        assert forall|k: Seq<u8>| #[trigger] out.contains(k) <==> ids.contains(k) && covers(
            coverage,
            generations,
            k,
        ) == covered by {
            assert(rest.contains(k) <==> front.contains(k) && covers(coverage, generations, k)
                == covered);
            lemma_contains_last(ids, k);
            if covers(coverage, generations, ids.last()) == covered {
                lemma_contains_last(out, k);
                assert(out.drop_last() =~= rest);
            }
        }
    }
}

/// The owners that a delivery is for are the registered ones that the audience
/// holds, and whoever it lists by name.
pub proof fn lemma_requested_owners(audience: AudienceView, generations: Seq<(Seq<u8>, u64)>)
    requires
        sorted_keys(generations),
    ensures
        forall|k: Seq<u8>| #[trigger]
            requested_owners(audience, generations).contains(k) <==> audience.reaches(k) && (
            audience is Owners || has_key(generations, k)),
{
    let all = keys_of(generations);
    assert forall|k: Seq<u8>| #[trigger] all.contains(k) <==> has_key(generations, k) by {
        lemma_lookup(generations, k);
        if all.contains(k) {
            let i = choose|i: int| 0 <= i < all.len() && all[i] == k;
            assert(generations[i].0 == k);
        }
        if has_key(generations, k) {
            let i = choose|i: int| 0 <= i < generations.len() && #[trigger] generations[i].0 == k;
            assert(all[i] == k);
        }
    }
    assert forall|k: Seq<u8>| #[trigger]
        requested_owners(audience, generations).contains(k) <==> audience.reaches(k) && (
        audience is Owners || has_key(generations, k)) by {
        assert(all.contains(k) <==> has_key(generations, k));
        match audience {
            AudienceView::All => {},
            AudienceView::Owners(ids) => {
                lemma_normalized(ids);
                assert(normalized(ids).contains(k) <==> ids.contains(k));
            },
            AudienceView::AllExcept(ids) => {
                lemma_ids_among(all, ids, false);
                lemma_normalized(ids_among(all, ids, false));
                assert(ids_among(all, ids, false).contains(k) <==> all.contains(k)
                    && !ids.contains(k));
                assert(normalized(ids_among(all, ids, false)).contains(k) <==> ids_among(
                    all,
                    ids,
                    false,
                ).contains(k));
            },
        }
    }
}

/// Once an audience has had an input, nothing of it is owed any more.
pub proof fn law_covered_audience_is_not_owed(
    coverage: CoverageView,
    audience: AudienceView,
    generations: Seq<(Seq<u8>, u64)>,
)
    requires
        sorted_keys(coverage.owners),
        sorted_keys(generations),
    ensures
        residual(coverage_with(coverage, audience, generations), audience, generations) is None,
{
    let after = coverage_with(coverage, audience, generations);
    let ids = requested_owners(audience, generations);
    lemma_owners_covered(coverage.owners, ids, generations);
    lemma_ids_covered(ids, after, generations, false);
    let left = ids_covered(ids, after, generations, false);
    lemma_normalized(left);
    if normalized(left).len() > 0 {
        let k = normalized(left)[0];
        assert(normalized(left).contains(k));
        assert(left.contains(k));
        assert(lookup(after.owners, k) == Some(generation_of(generations, k)));
        assert(false);
    }
}

/// What is owed of a request is exactly the part that nobody has had: the base
/// subscription, and each registered or listed owner, is in it if the request
/// holds them and they have not had the input.
pub proof fn law_residual_is_what_is_owed(
    coverage: CoverageView,
    requested: AudienceView,
    generations: Seq<(Seq<u8>, u64)>,
    owner: Seq<u8>,
)
    requires
        sorted_keys(generations),
        requested is Owners || has_key(generations, owner),
    ensures
        match residual(coverage, requested, generations) {
            Some(left) => left.reaches_base() == (requested.reaches_base() && !coverage.base)
                && left.reaches(owner) == (requested.reaches(owner) && !covers(
                coverage,
                generations,
                owner,
            )),
            None => !(requested.reaches_base() && !coverage.base) && !(requested.reaches(owner)
                && !covers(coverage, generations, owner)),
        },
{
    let ids = requested_owners(requested, generations);
    lemma_requested_owners(requested, generations);
    assert(ids.contains(owner) <==> requested.reaches(owner));
    let excluded = match requested {
        AudienceView::AllExcept(listed) => normalized(listed),
        _ => Seq::<Seq<u8>>::empty(),
    };
    let had = ids_covered(ids, coverage, generations, true);
    let open = ids_covered(ids, coverage, generations, false);
    lemma_ids_covered(ids, coverage, generations, true);
    lemma_ids_covered(ids, coverage, generations, false);
    assert(had.contains(owner) <==> ids.contains(owner) && covers(coverage, generations, owner));
    assert(open.contains(owner) <==> ids.contains(owner) && !covers(coverage, generations, owner));
    lemma_normalized(open);
    assert(normalized(open).contains(owner) <==> open.contains(owner));
    lemma_normalized(excluded + had);
    assert(normalized(excluded + had).contains(owner) <==> (excluded + had).contains(owner));
    assert((excluded + had).contains(owner) <==> excluded.contains(owner) || had.contains(owner))
        by {
        if excluded.contains(owner) {
            let i = choose|i: int| 0 <= i < excluded.len() && excluded[i] == owner;
            assert((excluded + had)[i] == owner);
        }
        if had.contains(owner) {
            let i = choose|i: int| 0 <= i < had.len() && had[i] == owner;
            assert((excluded + had)[excluded.len() + i] == owner);
        }
        if (excluded + had).contains(owner) {
            let i = choose|i: int|
                0 <= i < (excluded + had).len() && (excluded + had)[i] == owner;
            if i >= excluded.len() {
                assert(had[i - excluded.len()] == owner);
            }
        }
    }
    if let AudienceView::AllExcept(listed) = requested {
        lemma_normalized(listed);
        assert(excluded.contains(owner) <==> listed.contains(owner));
    }
}

} // verus!
