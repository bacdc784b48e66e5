//! What is subscribed, and fingerprints of it.
use crate::audience::{long_id_error, validate_handler_ids};
use crate::checkpoint::{
    CheckpointView, HybridCheckpointV5, HybridSource, HybridTokenKind, IntentView, LifecycleIntent,
};
use crate::error::SubscriberError;
use crate::model::{copy_bytes, HandlerId};
use crate::owners::{
    bytes_before, bytes_lt, has_duplicate_owners, ids_view, keys_of, lemma_bytes_lt_total,
    lemma_bytes_lt_transitive, with_entry, OwnerMap,
};
use crate::transcript::{
    keccak_digest, t_bytes, t_hash, t_len, t_start, t_tag, t_u64, CanonicalHasher,
};
use crate::words::{word_bytes, B256};
use vstd::prelude::*;
use vstd::string::StringSliceAdditionalSpecFns;

verus! {

/// The text of the error for a topology that mixes base and owned interests.
pub const EXCLUSIVE_TOPOLOGY_ERROR: &'static str =
    "hybrid base/unowned interests and owner-managed interests are mutually exclusive; after coverage, either mode may be cleared to effective-empty and allowed to reach Live, then base-to-owner activation requires replace_interest_owners_with_global_backfill; owner-to-base activation has no EventSubscriber global-backfill primitive and requires a fresh coordinator restored at an authoritative checkpoint";

/// How much of a block an interest asks for.
#[derive(Clone, Copy, Debug, PartialEq, Eq, Structural)]
pub enum BlockMode {
    Unspecified,
    Header,
    FullBlock,
}

/// An interest in a form that every provider understands.
#[derive(Debug, PartialEq, Eq)]
pub enum PortableInterest {
    /// Logs of these addresses whose topics are, position by position, among
    /// these values.
    Log { addresses: Vec<Vec<u8>>, topics: Vec<Vec<Vec<u8>>> },
    /// Blocks; the mode is absent where it is not a known one.
    Block { mode: Option<BlockMode> },
    /// An interest whose kind is absent.
    Missing,
}

/// An interest over sequences.
pub enum InterestView {
    Log { addresses: Seq<Seq<u8>>, topics: Seq<Seq<Seq<u8>>> },
    Block { mode: Option<BlockMode> },
    Missing,
}

/// Byte strings over sequences.
pub open spec fn byte_strings(s: Seq<Vec<u8>>) -> Seq<Seq<u8>> {
    Seq::new(s.len(), |i: int| s[i]@)
}

/// Lists of byte strings over sequences.
pub open spec fn byte_lists(s: Seq<Vec<Vec<u8>>>) -> Seq<Seq<Seq<u8>>> {
    Seq::new(s.len(), |i: int| byte_strings(s[i]@))
}

impl View for PortableInterest {
    type V = InterestView;

    open spec fn view(&self) -> InterestView {
        match self {
            PortableInterest::Log { addresses, topics } => InterestView::Log {
                addresses: byte_strings(addresses@),
                topics: byte_lists(topics@),
            },
            PortableInterest::Block { mode } => InterestView::Block { mode: *mode },
            PortableInterest::Missing => InterestView::Missing,
        }
    }
}

/// Interests over sequences.
pub open spec fn interests_view(s: Seq<PortableInterest>) -> Seq<InterestView> {
    Seq::new(s.len(), |i: int| s[i]@)
}

/// Another list with the same byte strings.
fn copy_byte_strings(items: &Vec<Vec<u8>>) -> (r: Vec<Vec<u8>>)
    ensures
        byte_strings(r@) == byte_strings(items@),
{
    let mut out: Vec<Vec<u8>> = Vec::new();
    let mut i: usize = 0;
    while i < items.len()
        invariant
            i <= items@.len(),
            out@.len() == i,
            forall|j: int| 0 <= j < i ==> (#[trigger] out@[j])@ == items@[j]@,
        decreases items@.len() - i,
    {
        out.push(copy_bytes(items[i].as_slice()));
        i += 1;
    }
    assert(byte_strings(out@) =~= byte_strings(items@));
    out
}

impl PortableInterest {
    /// Another interest with the same contents.
    pub fn duplicate(&self) -> (r: PortableInterest)
        ensures
            r@ == self@,
    {
        match self {
            PortableInterest::Log { addresses, topics } => {
                let mut lists: Vec<Vec<Vec<u8>>> = Vec::new();
                let mut i: usize = 0;
                while i < topics.len()
                    invariant
                        i <= topics@.len(),
                        lists@.len() == i,
                        forall|j: int|
                            0 <= j < i ==> byte_strings((#[trigger] lists@[j])@) == byte_strings(
                                topics@[j]@,
                            ),
                    decreases topics@.len() - i,
                {
                    lists.push(copy_byte_strings(&topics[i]));
                    i += 1;
                }
                assert(byte_lists(lists@) =~= byte_lists(topics@));
                PortableInterest::Log { addresses: copy_byte_strings(addresses), topics: lists }
            },
            PortableInterest::Block { mode } => PortableInterest::Block { mode: *mode },
            PortableInterest::Missing => PortableInterest::Missing,
        }
    }
}

/// Another list with the same interests.
pub fn copy_interests(items: &Vec<PortableInterest>) -> (r: Vec<PortableInterest>)
    ensures
        interests_view(r@) == interests_view(items@),
{
    let mut out: Vec<PortableInterest> = Vec::new();
    let mut i: usize = 0;
    while i < items.len()
        invariant
            i <= items@.len(),
            out@.len() == i,
            forall|j: int| 0 <= j < i ==> (#[trigger] out@[j])@ == items@[j]@,
        decreases items@.len() - i,
    {
        out.push(items[i].duplicate());
        i += 1;
    }
    assert(interests_view(out@) =~= interests_view(items@));
    out
}

// ---------------------------------------------------------------------------
// Fingerprints
// ---------------------------------------------------------------------------

/// Byte strings one behind the other in a transcript.
pub open spec fn t_strings(s: Seq<Seq<u8>>) -> Seq<u8>
    decreases s.len(),
{
    if s.len() == 0 {
        Seq::empty()
    } else {
        t_strings(s.drop_last()) + t_bytes(s.last())
    }
}

/// Lists of byte strings, each with its length, in a transcript.
pub open spec fn t_lists(s: Seq<Seq<Seq<u8>>>) -> Seq<u8>
    decreases s.len(),
{
    if s.len() == 0 {
        Seq::empty()
    } else {
        t_lists(s.drop_last()) + (t_len(s.last().len()) + t_strings(s.last()))
    }
}

/// The tag of a block mode.
pub open spec fn block_mode_tag(mode: BlockMode) -> u8 {
    match mode {
        BlockMode::Header => 1,
        BlockMode::FullBlock => 2,
        BlockMode::Unspecified => 0,
    }
}

/// The transcript of one interest, or why it has none.
pub open spec fn t_interest(interest: InterestView) -> Result<Seq<u8>, SubscriberError> {
    let start = t_start("EFCHY-LIFECYCLE-INTEREST-V2".spec_bytes());
    match interest {
        InterestView::Log { addresses, topics } => Ok(
            start + t_tag(1) + (t_len(addresses.len()) + t_strings(addresses)) + (t_len(
                topics.len(),
            ) + t_lists(topics)),
        ),
        InterestView::Block { mode } => match mode {
            Some(m) => Ok(start + t_tag(2) + t_tag(block_mode_tag(m))),
            None => Err(
                SubscriberError::Provider("hybrid lifecycle interest has an unknown block mode"),
            ),
        },
        InterestView::Missing => Err(
            SubscriberError::Provider("hybrid lifecycle interest is missing its portable kind"),
        ),
    }
}

/// Appends byte strings with their number.
fn append_strings(hasher: &mut CanonicalHasher, items: &Vec<Vec<u8>>)
    ensures
        final(hasher)@ == old(hasher)@ + (t_len(items@.len()) + t_strings(byte_strings(items@))),
{
    let ghost all = byte_strings(items@);
    let ghost start = hasher@;
    hasher.sequence_len(items.len());
    let ghost head = hasher@;
    let mut i: usize = 0;
    assert(all.take(0) =~= Seq::<Seq<u8>>::empty());
    assert(head + t_strings(all.take(0)) =~= head);
    while i < items.len()
        invariant
            i <= items@.len(),
            all == byte_strings(items@),
            hasher@ == head + t_strings(all.take(i as int)),
        decreases items@.len() - i,
    {
        hasher.bytes(items[i].as_slice());
        proof {
            let next = all.take(i + 1);
            assert(next.drop_last() =~= all.take(i as int));
            assert(next.last() == all[i as int]);
            assert(hasher@ =~= head + t_strings(next));
        }
        i += 1;
    }
    assert(all.take(i as int) =~= all);
    assert(hasher@ =~= start + (t_len(items@.len()) + t_strings(all)));
}

/// Appends lists of byte strings with their number.
fn append_lists(hasher: &mut CanonicalHasher, items: &Vec<Vec<Vec<u8>>>)
    ensures
        final(hasher)@ == old(hasher)@ + (t_len(items@.len()) + t_lists(byte_lists(items@))),
{
    let ghost all = byte_lists(items@);
    let ghost start = hasher@;
    hasher.sequence_len(items.len());
    let ghost head = hasher@;
    let mut i: usize = 0;
    assert(all.take(0) =~= Seq::<Seq<Seq<u8>>>::empty());
    assert(head + t_lists(all.take(0)) =~= head);
    while i < items.len()
        invariant
            i <= items@.len(),
            all == byte_lists(items@),
            hasher@ == head + t_lists(all.take(i as int)),
        decreases items@.len() - i,
    {
        append_strings(hasher, &items[i]);
        proof {
            let next = all.take(i + 1);
            assert(next.drop_last() =~= all.take(i as int));
            assert(next.last() == all[i as int]);
            assert(hasher@ =~= head + t_lists(next));
        }
        i += 1;
    }
    assert(all.take(i as int) =~= all);
    assert(hasher@ =~= start + (t_len(items@.len()) + t_lists(all)));
}

/// The digest of one interest.
fn interest_digest(interest: &PortableInterest) -> (r: Result<B256, SubscriberError>)
    ensures
        match r {
            Ok(digest) => t_interest(interest@) is Ok && digest == keccak_digest(
                t_interest(interest@)->Ok_0,
            ),
            Err(e) => t_interest(interest@) == Err::<Seq<u8>, _>(e),
        },
{
    let mut hasher = CanonicalHasher::new("EFCHY-LIFECYCLE-INTEREST-V2".as_bytes());
    match interest {
        PortableInterest::Log { addresses, topics } => {
            hasher.tag(1);
            append_strings(&mut hasher, addresses);
            append_lists(&mut hasher, topics);
        },
        PortableInterest::Block { mode } => {
            hasher.tag(2);
            match mode {
                None => {
                    return Err(
                        SubscriberError::Provider(
                            "hybrid lifecycle interest has an unknown block mode",
                        ),
                    );
                },
                Some(BlockMode::Header) => hasher.tag(1),
                Some(BlockMode::FullBlock) => hasher.tag(2),
                Some(BlockMode::Unspecified) => hasher.tag(0),
            }
        },
        PortableInterest::Missing => {
            return Err(
                SubscriberError::Provider("hybrid lifecycle interest is missing its portable kind"),
            );
        },
    }
    Ok(hasher.finish())
}

/// `d` put into an ascending sequence of digests.
pub open spec fn with_digest(s: Seq<B256>, d: B256) -> Seq<B256>
    decreases s.len(),
{
    if s.len() == 0 || bytes_lt(s.last().bytes(), d.bytes()) || s.last() == d {
        s.push(d)
    } else {
        with_digest(s.drop_last(), d).push(s.last())
    }
}

/// The digests of `interests` in ascending order, or the error of the first
/// interest that has none.
pub open spec fn sorted_digests(interests: Seq<InterestView>) -> Result<Seq<B256>, SubscriberError>
    decreases interests.len(),
{
    if interests.len() == 0 {
        Ok(Seq::empty())
    } else {
        match sorted_digests(interests.drop_last()) {
            Err(e) => Err(e),
            Ok(s) => match t_interest(interests.last()) {
                Err(e) => Err(e),
                Ok(t) => Ok(with_digest(s, keccak_digest(t))),
            },
        }
    }
}

/// Digests one behind the other in a transcript.
pub open spec fn t_hashes(s: Seq<B256>) -> Seq<u8>
    decreases s.len(),
{
    if s.len() == 0 {
        Seq::empty()
    } else {
        t_hashes(s.drop_last()) + t_hash(s.last())
    }
}

/// The fingerprint of a list of interests.
pub open spec fn fingerprint(interests: Seq<InterestView>) -> Result<B256, SubscriberError> {
    match sorted_digests(interests) {
        Err(e) => Err(e),
        Ok(s) => Ok(
            keccak_digest(
                t_start("EFCHY-LIFECYCLE-V2".spec_bytes()) + (t_len(s.len()) + t_hashes(s)),
            ),
        ),
    }
}

/// Puts a digest into an ascending vector of them.
fn insert_digest(digests: &mut Vec<B256>, digest: B256)
    ensures
        final(digests)@ == with_digest(old(digests)@, digest),
{
    let ghost all = digests@;
    let wanted: Vec<u8> = digest.to_vec();
    let mut at: usize = digests.len();
    assert(all.take(at as int) =~= all);
    assert(all.skip(at as int) =~= Seq::<B256>::empty());
    assert(with_digest(all, digest) + all.skip(at as int) =~= with_digest(all, digest));
    while at > 0
        invariant
            at <= digests@.len(),
            digests@ == all,
            all == old(digests)@,
            wanted@ == digest.bytes(),
            with_digest(all, digest) == with_digest(all.take(at as int), digest) + all.skip(
                at as int,
            ),
        decreases at,
    {
        let ghost front = all.take(at as int);
        assert(front.last() == all[at - 1]);
        let last: Vec<u8> = digests[at - 1].to_vec();
        if bytes_before(last.as_slice(), wanted.as_slice()) || digests[at - 1] == digest {
            digests.insert(at, digest);
            assert(digests@ =~= front.push(digest) + all.skip(at as int));
            return;
        }
        proof {
            assert(front.drop_last() =~= all.take(at - 1));
            assert(with_digest(front, digest) + all.skip(at as int) =~= with_digest(
                all.take(at - 1),
                digest,
            ) + all.skip(at - 1));
        }
        at -= 1;
    }
    digests.insert(0, digest);
    assert(digests@ =~= all.take(0).push(digest) + all.skip(0));
}

/// The fingerprint of a list of interests, which does not depend on their
/// order.
pub fn interest_fingerprint(interests: &Vec<PortableInterest>) -> (r: Result<B256, SubscriberError>)
    ensures
        r == fingerprint(interests_view(interests@)),
{
    let ghost all = interests_view(interests@);
    let mut digests: Vec<B256> = Vec::new();
    let mut i: usize = 0;
    assert(all.take(0) =~= Seq::<InterestView>::empty());
    while i < interests.len()
        invariant
            i <= interests@.len(),
            all == interests_view(interests@),
            sorted_digests(all.take(i as int)) == Ok::<_, SubscriberError>(digests@),
        decreases interests@.len() - i,
    {
        proof {
            let next = all.take(i + 1);
            assert(next.drop_last() =~= all.take(i as int));
            assert(next.last() == all[i as int]);
        }
        match interest_digest(&interests[i]) {
            Ok(digest) => {
                insert_digest(&mut digests, digest);
            },
            Err(e) => {
                proof {
                    lemma_digest_error(all, i as int, e);
                }
                return Err(e);
            },
        }
        i += 1;
    }
    assert(all.take(i as int) =~= all);
    let mut hasher = CanonicalHasher::new("EFCHY-LIFECYCLE-V2".as_bytes());
    let ghost start = hasher@;
    hasher.sequence_len(digests.len());
    let ghost head = hasher@;
    let mut j: usize = 0;
    assert(digests@.take(0) =~= Seq::<B256>::empty());
    assert(head + t_hashes(digests@.take(0)) =~= head);
    while j < digests.len()
        invariant
            j <= digests@.len(),
            hasher@ == head + t_hashes(digests@.take(j as int)),
        decreases digests@.len() - j,
    {
        hasher.hash(&digests[j]);
        proof {
            let next = digests@.take(j + 1);
            assert(next.drop_last() =~= digests@.take(j as int));
            assert(next.last() == digests@[j as int]);
            assert(hasher@ =~= head + t_hashes(next));
        }
        j += 1;
    }
    assert(digests@.take(j as int) =~= digests@);
    assert(hasher@ =~= start + (t_len(digests@.len()) + t_hashes(digests@)));
    Ok(hasher.finish())
}

/// The first interest without a digest decides the error of the whole list.
proof fn lemma_digest_error(all: Seq<InterestView>, i: int, e: SubscriberError)
    requires
        0 <= i < all.len(),
        sorted_digests(all.take(i)) is Ok,
        t_interest(all[i]) == Err::<Seq<u8>, _>(e),
    ensures
        sorted_digests(all) == Err::<Seq<B256>, _>(e),
    decreases all.len() - i,
{
    let next = all.take(i + 1);
    assert(next.drop_last() =~= all.take(i));
    assert(next.last() == all[i]);
    lemma_digest_error_grows(all, i + 1, e);
}

proof fn lemma_digest_error_grows(all: Seq<InterestView>, i: int, e: SubscriberError)
    requires
        0 <= i <= all.len(),
        sorted_digests(all.take(i)) == Err::<Seq<B256>, _>(e),
    ensures
        sorted_digests(all) == Err::<Seq<B256>, _>(e),
    decreases all.len() - i,
{
    if i == all.len() {
        assert(all.take(i) =~= all);
    } else {
        let next = all.take(i + 1);
        assert(next.drop_last() =~= all.take(i));
        lemma_digest_error_grows(all, i + 1, e);
    }
}

/// The order of digests: smaller bytes first.
pub open spec fn digest_le(a: B256, b: B256) -> bool {
    bytes_lt(a.bytes(), b.bytes()) || a == b
}

/// The order of digests is total.
proof fn lemma_digest_order()
    ensures
        vstd::relations::total_ordering(|a: B256, b: B256| digest_le(a, b)),
{
    let r = |a: B256, b: B256| digest_le(a, b);
    assert forall|a: B256, b: B256| #[trigger] r(a, b) && #[trigger] r(b, a) implies a == b by {
        lemma_bytes_lt_total(a.bytes(), b.bytes());
    }
    assert forall|a: B256, b: B256, c: B256| #[trigger] r(a, b) && #[trigger] r(b, c) implies r(
        a,
        c,
    ) by {
        if bytes_lt(a.bytes(), b.bytes()) && bytes_lt(b.bytes(), c.bytes()) {
            lemma_bytes_lt_transitive(a.bytes(), b.bytes(), c.bytes());
        }
    }
    assert forall|a: B256, b: B256| #[trigger] r(a, b) || #[trigger] r(b, a) by {
        lemma_bytes_lt_total(a.bytes(), b.bytes());
        if a.bytes() == b.bytes() {
            B256::lemma_bytes_injective(a, b);
        }
    }
}

/// Putting a digest into an ascending sequence keeps it ascending.
proof fn lemma_with_digest(s: Seq<B256>, d: B256)
    requires
        vstd::relations::sorted_by(s, |a: B256, b: B256| digest_le(a, b)),
    ensures
        vstd::relations::sorted_by(with_digest(s, d), |a: B256, b: B256| digest_le(a, b)),
        with_digest(s, d).to_multiset() == s.to_multiset().insert(d),
        forall|x: B256| with_digest(s, d).contains(x) ==> s.contains(x) || x == d,
    decreases s.len(),
{
    broadcast use vstd::seq_lib::group_to_multiset_ensures;

    let r = |a: B256, b: B256| digest_le(a, b);
    lemma_digest_order();
    if s.len() == 0 || bytes_lt(s.last().bytes(), d.bytes()) || s.last() == d {
        let t = s.push(d);
        assert forall|i: int, j: int| 0 <= i < j < t.len() implies #[trigger] r(t[i], t[j]) by {
            if j == s.len() {
                if i < s.len() - 1 {
                    assert(r(s[i], s[s.len() - 1]));
                }
                assert(r(s.last(), d));
            } else {
                assert(r(s[i], s[j]));
            }
        }
        assert forall|x: B256| t.contains(x) implies s.contains(x) || x == d by {
            let i = choose|i: int| 0 <= i < t.len() && t[i] == x;
            if i < s.len() {
                assert(s[i] == x);
            }
        }
    } else {
        let front = s.drop_last();
        assert forall|i: int, j: int| 0 <= i < j < front.len() implies #[trigger] r(
            front[i],
            front[j],
        ) by {
            assert(r(s[i], s[j]));
        }
        lemma_with_digest(front, d);
        let mid = with_digest(front, d);
        let t = mid.push(s.last());
        assert(r(d, s.last())) by {
            assert(r(s.last(), d) || r(d, s.last()));
        }
        assert forall|i: int, j: int| 0 <= i < j < t.len() implies #[trigger] r(t[i], t[j]) by {
            if j == mid.len() {
                assert(mid.contains(mid[i]));
                if front.contains(mid[i]) {
                    let k = choose|k: int| 0 <= k < front.len() && front[k] == mid[i];
                    assert(r(s[k], s[s.len() - 1]));
                }
            } else {
                assert(r(mid[i], mid[j]));
            }
        }
        assert forall|x: B256| t.contains(x) implies s.contains(x) || x == d by {
            let i = choose|i: int| 0 <= i < t.len() && t[i] == x;
            if i < mid.len() {
                assert(mid.contains(x));
                if front.contains(x) {
                    let k = choose|k: int| 0 <= k < front.len() && front[k] == x;
                    assert(s[k] == x);
                }
            } else {
                assert(s[s.len() - 1] == x);
            }
        }
        assert(s =~= front.push(s.last()));
        assert(t.to_multiset() =~= s.to_multiset().insert(d));
    }
}

/// The digests of interests, each with its multiplicity.
pub open spec fn digest_bag(interests: Seq<InterestView>) -> vstd::multiset::Multiset<B256>
    decreases interests.len(),
{
    if interests.len() == 0 {
        vstd::multiset::Multiset::empty()
    } else {
        digest_bag(interests.drop_last()).insert(keccak_digest(t_interest(interests.last())->Ok_0))
    }
}

proof fn lemma_sorted_digests(interests: Seq<InterestView>)
    ensures
        match sorted_digests(interests) {
            Ok(s) => vstd::relations::sorted_by(s, |a: B256, b: B256| digest_le(a, b))
                && s.to_multiset() == digest_bag(interests),
            Err(_) => true,
        },
    decreases interests.len(),
{
    broadcast use vstd::seq_lib::group_to_multiset_ensures;

    if interests.len() > 0 {
        lemma_sorted_digests(interests.drop_last());
        if let Ok(s) = sorted_digests(interests.drop_last()) {
            if let Ok(t) = t_interest(interests.last()) {
                lemma_with_digest(s, keccak_digest(t));
            }
        }
    } else {
        assert(Seq::<B256>::empty().to_multiset() =~= vstd::multiset::Multiset::empty());
    }
}

/// Two lists of interests with the same digests, in whatever order, have the
/// same fingerprint.
pub proof fn law_fingerprint_ignores_order(a: Seq<InterestView>, b: Seq<InterestView>)
    requires
        fingerprint(a) is Ok,
        fingerprint(b) is Ok,
        digest_bag(a) == digest_bag(b),
    ensures
        fingerprint(a) == fingerprint(b),
{
    lemma_sorted_digests(a);
    lemma_sorted_digests(b);
    lemma_digest_order();
    let s = sorted_digests(a)->Ok_0;
    let t = sorted_digests(b)->Ok_0;
    vstd::seq_lib::lemma_sorted_unique(s, t, |x: B256, y: B256| digest_le(x, y));
}

/// The fingerprint of no interests.
pub open spec fn empty_fingerprint() -> B256 {
    keccak_digest(t_start("EFCHY-LIFECYCLE-V2".spec_bytes()) + t_u64(0))
}

/// The fingerprint of no interests.
pub fn empty_interest_fingerprint() -> (r: B256)
    ensures
        r == empty_fingerprint(),
{
    let mut hasher = CanonicalHasher::new("EFCHY-LIFECYCLE-V2".as_bytes());
    hasher.u64(0);
    hasher.finish()
}

/// The fingerprint of an empty list is that of no interests.
pub proof fn law_empty_list_has_empty_fingerprint()
    ensures
        fingerprint(Seq::empty()) == Ok::<_, SubscriberError>(empty_fingerprint()),
{
    assert(t_len(0) + t_hashes(Seq::<B256>::empty()) =~= t_u64(0));
}

// ---------------------------------------------------------------------------
// Lifecycle intents
// ---------------------------------------------------------------------------

impl IntentView {
    /// Whether anything is subscribed.
    pub open spec fn active(self) -> bool {
        self.base != empty_fingerprint() || exists|i: int|
            0 <= i < self.owners.len() && (#[trigger] self.owners[i]).1 != empty_fingerprint()
    }

    /// Whether restoring this intent needs a preparation: something is
    /// subscribed or some owner is registered.
    pub open spec fn needs_preparation(self) -> bool {
        self.active() || self.owners.len() > 0
    }
}

impl LifecycleIntent {
    /// Whether anything is subscribed.
    pub fn has_active_interests(&self) -> (r: bool)
        ensures
            r == self@.active(),
    {
        let empty: B256 = empty_interest_fingerprint();
        if self.base != empty {
            return true;
        }
        let mut i: usize = 0;
        while i < self.owners.len()
            invariant
                i <= self.owners@.len(),
                empty == empty_fingerprint(),
                self.base == empty,
                forall|j: int| 0 <= j < i ==> (#[trigger] self.owners@[j]).1 == empty,
            decreases self.owners@.len() - i,
        {
            if *self.owners.value_at(i) != empty {
                assert(self@.owners[i as int].1 != empty_fingerprint());
                return true;
            }
            i += 1;
        }
        false
    }

    /// Whether restoring this intent needs a preparation.
    pub fn requires_restore_preparation(&self) -> (r: bool)
        ensures
            r == self@.needs_preparation(),
    {
        self.has_active_interests() || !self.owners.is_empty()
    }
}

/// One owner and what it is interested in.
#[derive(Debug, PartialEq, Eq)]
pub struct OwnerInterests {
    pub owner: HandlerId,
    pub interests: Vec<PortableInterest>,
}

/// One owner and its interests over sequences.
pub type OwnerInterestsView = (Seq<u8>, Seq<InterestView>);

impl View for OwnerInterests {
    type V = OwnerInterestsView;

    open spec fn view(&self) -> OwnerInterestsView {
        (self.owner@, interests_view(self.interests@))
    }
}

impl OwnerInterests {
    /// Another entry with the same contents.
    pub fn duplicate(&self) -> (r: OwnerInterests)
        ensures
            r@ == self@,
    {
        OwnerInterests {
            owner: self.owner.duplicate(),
            interests: copy_interests(&self.interests),
        }
    }
}

/// Owners and their interests over sequences.
pub open spec fn owners_view(s: Seq<OwnerInterests>) -> Seq<OwnerInterestsView> {
    Seq::new(s.len(), |i: int| s[i]@)
}

/// Another list with the same owners and interests.
pub fn copy_owners(items: &Vec<OwnerInterests>) -> (r: Vec<OwnerInterests>)
    ensures
        owners_view(r@) == owners_view(items@),
{
    let mut out: Vec<OwnerInterests> = Vec::new();
    let mut i: usize = 0;
    while i < items.len()
        invariant
            i <= items@.len(),
            out@.len() == i,
            forall|j: int| 0 <= j < i ==> (#[trigger] out@[j])@ == items@[j]@,
        decreases items@.len() - i,
    {
        out.push(items[i].duplicate());
        i += 1;
    }
    assert(owners_view(out@) =~= owners_view(items@));
    out
}

/// The ids of a list of owners.
pub fn list_owner_ids(items: &Vec<OwnerInterests>) -> (r: Vec<HandlerId>)
    ensures
        ids_view(r@) == keys_of(owners_view(items@)),
{
    let mut out: Vec<HandlerId> = Vec::new();
    let mut i: usize = 0;
    while i < items.len()
        invariant
            i <= items@.len(),
            out@.len() == i,
            forall|j: int| 0 <= j < i ==> (#[trigger] out@[j])@ == items@[j].owner@,
        decreases items@.len() - i,
    {
        out.push(items[i].owner.duplicate());
        i += 1;
    }
    assert(ids_view(out@) =~= keys_of(owners_view(items@)));
    out
}

/// The fingerprints of owners, keyed by owner, or the error of the first one
/// that has none.
pub open spec fn owner_fingerprints(owners: Seq<OwnerInterestsView>) -> Result<
    Seq<(Seq<u8>, B256)>,
    SubscriberError,
>
    decreases owners.len(),
{
    if owners.len() == 0 {
        Ok(Seq::empty())
    } else {
        match owner_fingerprints(owners.drop_last()) {
            Err(e) => Err(e),
            Ok(map) => match fingerprint(owners.last().1) {
                Err(e) => Err(e),
                Ok(f) => Ok(with_entry(map, owners.last().0, f)),
            },
        }
    }
}

/// The lifecycle intent of a topology, or why it has none.
pub open spec fn intent_of(
    base: Seq<InterestView>,
    owners: Seq<OwnerInterestsView>,
) -> Result<IntentView, SubscriberError> {
    if !keys_of(owners).no_duplicates() {
        Err(
            SubscriberError::Provider("hybrid lifecycle intent contains a duplicate owner id"),
        )
    } else if long_id_error(keys_of(owners)) is Some {
        Err(long_id_error(keys_of(owners))->Some_0)
    } else if base.len() > 0 && owners.len() > 0 {
        Err(SubscriberError::InvalidConfig(EXCLUSIVE_TOPOLOGY_ERROR))
    } else {
        match fingerprint(base) {
            Err(e) => Err(e),
            Ok(f) => match owner_fingerprints(owners) {
                Err(e) => Err(e),
                Ok(map) => Ok(IntentView { base: f, owners: map }),
            },
        }
    }
}

/// The lifecycle intent of a topology: base interests, or owners with theirs,
/// but not both.
pub fn lifecycle_intent(
    base_interests: &Vec<PortableInterest>,
    owners: &Vec<OwnerInterests>,
) -> (r: Result<LifecycleIntent, SubscriberError>)
    ensures
        match r {
            Ok(intent) => intent_of(interests_view(base_interests@), owners_view(owners@)) == Ok::<
                _,
                SubscriberError,
            >(intent@),
            Err(e) => intent_of(interests_view(base_interests@), owners_view(owners@)) == Err::<
                IntentView,
                _,
            >(e),
        },
{
    let ids: Vec<HandlerId> = list_owner_ids(owners);
    if has_duplicate_owners(ids.as_slice()) {
        return Err(
            SubscriberError::Provider("hybrid lifecycle intent contains a duplicate owner id"),
        );
    }
    validate_handler_ids(ids.as_slice())?;
    if base_interests.len() > 0 && owners.len() > 0 {
        return Err(SubscriberError::InvalidConfig(EXCLUSIVE_TOPOLOGY_ERROR));
    }
    let base: B256 = interest_fingerprint(base_interests)?;
    let map: OwnerMap<B256> = fingerprint_owners(owners)?;
    Ok(LifecycleIntent { base, owners: map })
}

fn fingerprint_owners(owners: &Vec<OwnerInterests>) -> (r: Result<OwnerMap<B256>, SubscriberError>)
    ensures
        match r {
            Ok(map) => owner_fingerprints(owners_view(owners@)) == Ok::<_, SubscriberError>(map@),
            Err(e) => owner_fingerprints(owners_view(owners@)) == Err::<Seq<(Seq<u8>, B256)>, _>(e),
        },
{
    let ghost all = owners_view(owners@);
    let mut map: OwnerMap<B256> = OwnerMap::new();
    let mut i: usize = 0;
    assert(all.take(0) =~= Seq::<OwnerInterestsView>::empty());
    while i < owners.len()
        invariant
            i <= owners@.len(),
            all == owners_view(owners@),
            owner_fingerprints(all.take(i as int)) == Ok::<_, SubscriberError>(map@),
        decreases owners@.len() - i,
    {
        proof {
            let next = all.take(i + 1);
            assert(next.drop_last() =~= all.take(i as int));
            assert(next.last() == all[i as int]);
        }
        match interest_fingerprint(&owners[i].interests) {
            Ok(f) => {
                map.insert(owners[i].owner.duplicate(), f);
            },
            Err(e) => {
                proof {
                    lemma_fingerprint_error(all, i + 1, e);
                }
                return Err(e);
            },
        }
        i += 1;
    }
    assert(all.take(i as int) =~= all);
    Ok(map)
}

proof fn lemma_fingerprint_error(all: Seq<OwnerInterestsView>, i: int, e: SubscriberError)
    requires
        0 <= i <= all.len(),
        owner_fingerprints(all.take(i)) == Err::<Seq<(Seq<u8>, B256)>, _>(e),
    ensures
        owner_fingerprints(all) == Err::<Seq<(Seq<u8>, B256)>, _>(e),
    decreases all.len() - i,
{
    if i == all.len() {
        assert(all.take(i) =~= all);
    } else {
        assert(all.take(i + 1).drop_last() =~= all.take(i));
        lemma_fingerprint_error(all, i + 1, e);
    }
}

/// Owner fingerprints one behind the other in a transcript.
pub open spec fn t_owner_digests(s: Seq<(Seq<u8>, B256)>) -> Seq<u8>
    decreases s.len(),
{
    if s.len() == 0 {
        Seq::empty()
    } else {
        t_owner_digests(s.drop_last()) + t_bytes(s.last().0) + t_hash(s.last().1)
    }
}

/// The id of the barrier that a state emits when nothing is subscribed.
pub open spec fn barrier_id(state: CheckpointView) -> Seq<u8> {
    keccak_digest(
        t_start("EFCHY-EMPTY-LIFECYCLE-BARRIER-V1".spec_bytes()) + t_u64(state.chain_id) + t_bytes(
            state.epoch.bytes(),
        ) + t_u64(state.lifecycle_generation) + t_hash(state.lifecycle_intent.base) + t_len(
            state.lifecycle_intent.owners.len(),
        ) + t_owner_digests(state.lifecycle_intent.owners),
    ).bytes()
}

/// The id of the barrier that a state emits when nothing is subscribed.
pub fn empty_lifecycle_barrier_id(state: &HybridCheckpointV5) -> (r: Vec<u8>)
    ensures
        r@ == barrier_id(state@),
{
    let mut hasher = CanonicalHasher::new("EFCHY-EMPTY-LIFECYCLE-BARRIER-V1".as_bytes());
    hasher.u64(state.chain_id);
    let epoch: Vec<u8> = state.epoch.to_vec();
    hasher.bytes(epoch.as_slice());
    hasher.u64(state.lifecycle_generation);
    hasher.hash(&state.lifecycle_intent.base);
    let owners: &OwnerMap<B256> = &state.lifecycle_intent.owners;
    hasher.sequence_len(owners.len());
    let ghost head = hasher@;
    let mut i: usize = 0;
    assert(owners@.take(0) =~= Seq::<(Seq<u8>, B256)>::empty());
    assert(head + t_owner_digests(owners@.take(0)) =~= head);
    while i < owners.len()
        invariant
            i <= owners@.len(),
            hasher@ == head + t_owner_digests(owners@.take(i as int)),
        decreases owners@.len() - i,
    {
        hasher.handler_id(owners.owner_at(i));
        hasher.hash(owners.value_at(i));
        proof {
            let next = owners@.take(i + 1);
            assert(next.drop_last() =~= owners@.take(i as int));
            assert(next.last() == owners@[i as int]);
            assert(hasher@ =~= head + t_owner_digests(next));
        }
        i += 1;
    }
    assert(owners@.take(i as int) =~= owners@);
    hasher.finish().to_vec()
}

/// Whether the last commit of a state is the barrier for an empty topology.
pub open spec fn is_empty_barrier(state: CheckpointView) -> bool {
    !state.lifecycle_intent.active() && state.next_synthetic_token == 2
        && state.last_committed_token is Some && state.last_committed_token->Some_0.source
        == HybridSource::Live && state.last_committed_token->Some_0.kind
        == HybridTokenKind::Synthetic && state.last_committed_token->Some_0.inner == word_bytes(1)
}

/// Whether the last commit of a state is the barrier for an empty topology.
pub fn is_committed_empty_lifecycle_barrier(state: &HybridCheckpointV5) -> (r: bool)
    ensures
        r == is_empty_barrier(state@),
{
    if state.lifecycle_intent.has_active_interests() || state.next_synthetic_token != 2 {
        return false;
    }
    match &state.last_committed_token {
        None => false,
        Some(token) => {
            let mut first: Vec<u8> = Vec::new();
            crate::words::push_word(&mut first, 1);
            assert(first@ =~= word_bytes(1));
            token.source == HybridSource::Live && token.kind == HybridTokenKind::Synthetic
                && crate::model::same_bytes(token.inner.as_slice(), first.as_slice())
        },
    }
}

} // verus!
