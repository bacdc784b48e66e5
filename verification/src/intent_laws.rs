//! What fingerprints tell of what is subscribed.
use crate::checkpoint::{CheckpointView, IntentView};
use crate::error::SubscriberError;
use crate::framing::{in_a_row, lemma_regroup_3, lemma_regroup_7, lemma_row_tells, tells};
use crate::intent::{
    barrier_id, fingerprint, intent_of, owner_fingerprints, sorted_digests, t_hashes, t_interest,
    t_lists, t_owner_digests, t_strings, with_digest, InterestView, OwnerInterestsView,
};
use crate::owners::{keys_of, lemma_with_entry, lookup, sorted_keys, with_entry};
use crate::transcript::{
    keccak_digest, law_bytes_framing, law_hash_framing, law_integer_framing, lemma_cancel, t_bytes,
    t_hash, t_len, t_start, t_tag, t_u64,
};
use crate::words::B256;
use vstd::prelude::*;
use vstd::string::StringSliceAdditionalSpecFns;

verus! {

// ---------------------------------------------------------------------------
// One interest
// ---------------------------------------------------------------------------

/// Whether the length of a list, and of each string in it, can be counted.
pub open spec fn countable(s: Seq<Seq<u8>>) -> bool {
    s.len() <= u64::MAX && forall|i: int| 0 <= i < s.len() ==> (#[trigger] s[i]).len() <= u64::MAX
}

/// Whether every length in an interest can be counted.
pub open spec fn countable_interest(interest: InterestView) -> bool {
    match interest {
        InterestView::Log { addresses, topics } => countable(addresses) && topics.len() <= u64::MAX
            && forall|i: int| 0 <= i < topics.len() ==> countable(#[trigger] topics[i]),
        _ => true,
    }
}

spec fn one_string() -> spec_fn(Seq<u8>) -> Seq<u8> {
    |s: Seq<u8>| t_bytes(s)
}

spec fn short_string() -> spec_fn(Seq<u8>) -> bool {
    |s: Seq<u8>| s.len() <= u64::MAX
}

spec fn one_list() -> spec_fn(Seq<Seq<u8>>) -> Seq<u8> {
    |s: Seq<Seq<u8>>| t_len(s.len()) + t_strings(s)
}

spec fn short_list() -> spec_fn(Seq<Seq<u8>>) -> bool {
    |s: Seq<Seq<u8>>| countable(s)
}

proof fn lemma_strings_row(s: Seq<Seq<u8>>)
    ensures
        t_strings(s) == in_a_row(s, one_string()),
    decreases s.len(),
{
    if s.len() > 0 {
        lemma_strings_row(s.drop_last());
    }
}

proof fn lemma_lists_row(s: Seq<Seq<Seq<u8>>>)
    ensures
        t_lists(s) == in_a_row(s, one_list()),
    decreases s.len(),
{
    if s.len() > 0 {
        lemma_lists_row(s.drop_last());
    }
}

/// A list of strings is told by the bytes it takes, whatever follows.
pub proof fn law_string_list_framing(
    a: Seq<Seq<u8>>,
    b: Seq<Seq<u8>>,
    x: Seq<u8>,
    y: Seq<u8>,
)
    requires
        countable(a),
        countable(b),
        (t_len(a.len()) + t_strings(a)) + x == (t_len(b.len()) + t_strings(b)) + y,
    ensures
        a == b,
        x == y,
{
    assert((t_len(a.len()) + t_strings(a)) + x =~= t_u64(a.len() as u64) + (t_strings(a) + x));
    assert((t_len(b.len()) + t_strings(b)) + y =~= t_u64(b.len() as u64) + (t_strings(b) + y));
    law_integer_framing(a.len() as u64, b.len() as u64, t_strings(a) + x, t_strings(b) + y);
    lemma_strings_row(a);
    lemma_strings_row(b);
    assert(tells(one_string(), short_string())) by {
        assert forall|p: Seq<u8>, q: Seq<u8>, u: Seq<u8>, v: Seq<u8>|
            short_string()(p) && short_string()(q) && #[trigger] (one_string()(p) + u)
                == #[trigger] (one_string()(q) + v) implies p == q && u == v by {
            law_bytes_framing(p, q, u, v);
        }
    }
    lemma_row_tells(a, b, one_string(), short_string(), x, y);
}

/// A list of lists of strings is told by the bytes it takes, whatever follows.
pub proof fn law_nested_list_framing(
    a: Seq<Seq<Seq<u8>>>,
    b: Seq<Seq<Seq<u8>>>,
    x: Seq<u8>,
    y: Seq<u8>,
)
    requires
        a.len() <= u64::MAX,
        b.len() <= u64::MAX,
        forall|i: int| 0 <= i < a.len() ==> countable(#[trigger] a[i]),
        forall|i: int| 0 <= i < b.len() ==> countable(#[trigger] b[i]),
        (t_len(a.len()) + t_lists(a)) + x == (t_len(b.len()) + t_lists(b)) + y,
    ensures
        a == b,
        x == y,
{
    assert((t_len(a.len()) + t_lists(a)) + x =~= t_u64(a.len() as u64) + (t_lists(a) + x));
    assert((t_len(b.len()) + t_lists(b)) + y =~= t_u64(b.len() as u64) + (t_lists(b) + y));
    law_integer_framing(a.len() as u64, b.len() as u64, t_lists(a) + x, t_lists(b) + y);
    lemma_lists_row(a);
    lemma_lists_row(b);
    assert(tells(one_list(), short_list())) by {
        assert forall|p: Seq<Seq<u8>>, q: Seq<Seq<u8>>, u: Seq<u8>, v: Seq<u8>|
            short_list()(p) && short_list()(q) && #[trigger] (one_list()(p) + u)
                == #[trigger] (one_list()(q) + v) implies p == q && u == v by {
            law_string_list_framing(p, q, u, v);
        }
    }
    lemma_row_tells(a, b, one_list(), short_list(), x, y);
}

/// An interest is told by its transcript: two interests with the same one ask
/// for the same addresses and the same topics, or for the same of blocks.
pub proof fn law_interest_is_told_by_its_transcript(a: InterestView, b: InterestView)
    requires
        countable_interest(a),
        countable_interest(b),
        t_interest(a) is Ok,
        t_interest(b) is Ok,
        t_interest(a)->Ok_0 == t_interest(b)->Ok_0,
    ensures
        a == b,
{
    let start = t_start("EFCHY-LIFECYCLE-INTEREST-V2".spec_bytes());
    let (ta, tb) = (t_interest(a)->Ok_0, t_interest(b)->Ok_0);
    match (a, b) {
        (
            InterestView::Log { addresses: p, topics: s },
            InterestView::Log { addresses: q, topics: t },
        ) => {
            let (x, y) = (
                (t_len(p.len()) + t_strings(p)) + ((t_len(s.len()) + t_lists(s))
                    + Seq::<u8>::empty()),
                (t_len(q.len()) + t_strings(q)) + ((t_len(t.len()) + t_lists(t))
                    + Seq::<u8>::empty()),
            );
            assert(ta =~= (start + t_tag(1)) + x);
            assert(tb =~= (start + t_tag(1)) + y);
            lemma_cancel(start + t_tag(1), start + t_tag(1), x, y);
            law_string_list_framing(
                p,
                q,
                (t_len(s.len()) + t_lists(s)) + Seq::<u8>::empty(),
                (t_len(t.len()) + t_lists(t)) + Seq::<u8>::empty(),
            );
            law_nested_list_framing(s, t, Seq::empty(), Seq::empty());
        },
        (InterestView::Block { mode: p }, InterestView::Block { mode: q }) => {
            assert(ta[start.len() as int + 1] == crate::intent::block_mode_tag(p->Some_0));
            assert(tb[start.len() as int + 1] == crate::intent::block_mode_tag(q->Some_0));
            assert(p->Some_0 == q->Some_0);
        },
        _ => {
            assert(ta[start.len() as int] != tb[start.len() as int]);
        },
    }
}

/// Every interest with a kind and a known mode has a transcript.
pub proof fn law_known_interests_have_transcripts(interest: InterestView)
    ensures
        t_interest(interest) is Ok <==> match interest {
            InterestView::Log { .. } => true,
            InterestView::Block { mode } => mode is Some,
            InterestView::Missing => false,
        },
{
}

// ---------------------------------------------------------------------------
// Lists of interests
// ---------------------------------------------------------------------------

/// How often an item occurs in a sequence.
pub open spec fn occurrences<A>(s: Seq<A>, x: A) -> nat
    decreases s.len(),
{
    if s.len() == 0 {
        0
    } else {
        occurrences(s.drop_last(), x) + (if s.last() == x {
            1nat
        } else {
            0nat
        })
    }
}

proof fn lemma_occurs<A>(s: Seq<A>, x: A)
    ensures
        occurrences(s, x) > 0 <==> s.contains(x),
    decreases s.len(),
{
    if s.len() > 0 {
        let front = s.drop_last();
        lemma_occurs(front, x);
        if front.contains(x) {
            let i = choose|i: int| 0 <= i < front.len() && front[i] == x;
            assert(s[i] == x);
        }
        if s.contains(x) && s.last() != x {
            let i = choose|i: int| 0 <= i < s.len() && s[i] == x;
            assert(front[i] == x);
        }
        if s.last() == x {
            assert(s[s.len() - 1] == x);
        }
    }
}

proof fn lemma_with_digest_occurs(s: Seq<B256>, d: B256, x: B256)
    ensures
        occurrences(with_digest(s, d), x) == occurrences(s, x) + (if d == x {
            1nat
        } else {
            0nat
        }),
    decreases s.len(),
{
    if s.len() == 0 || crate::owners::bytes_lt(s.last().bytes(), d.bytes()) || s.last() == d {
        assert(s.push(d).drop_last() =~= s);
    } else {
        lemma_with_digest_occurs(s.drop_last(), d, x);
        let mid = with_digest(s.drop_last(), d);
        assert(mid.push(s.last()).drop_last() =~= mid);
    }
}

/// Whether a transcript is one of those that the fingerprints of two lists of
/// interests rest on.
pub open spec fn rests_on(a: Seq<InterestView>, b: Seq<InterestView>, t: Seq<u8>) -> bool {
    ||| exists|i: int| 0 <= i < a.len() && t_interest(#[trigger] a[i]) == Ok::<_, SubscriberError>(t)
    ||| exists|i: int| 0 <= i < b.len() && t_interest(#[trigger] b[i]) == Ok::<_, SubscriberError>(t)
    ||| t == list_transcript(a)
    ||| t == list_transcript(b)
}

/// What the fingerprint of a list is the digest of.
pub open spec fn list_transcript(interests: Seq<InterestView>) -> Seq<u8> {
    let s = sorted_digests(interests)->Ok_0;
    t_start("EFCHY-LIFECYCLE-V2".spec_bytes()) + (t_len(s.len()) + t_hashes(s))
}

/// Whether no two different transcripts that the fingerprints of two lists rest
/// on have the same digest.
pub open spec fn no_collision(a: Seq<InterestView>, b: Seq<InterestView>) -> bool {
    forall|p: Seq<u8>, q: Seq<u8>|
        rests_on(a, b, p) && rests_on(a, b, q) && #[trigger] keccak_digest(p)
            == #[trigger] keccak_digest(q) ==> p == q
}

spec fn one_hash() -> spec_fn(B256) -> Seq<u8> {
    |h: B256| t_hash(h)
}

spec fn any_hash() -> spec_fn(B256) -> bool {
    |h: B256| true
}

proof fn lemma_hashes_row(s: Seq<B256>)
    ensures
        t_hashes(s) == in_a_row(s, one_hash()),
    decreases s.len(),
{
    if s.len() > 0 {
        lemma_hashes_row(s.drop_last());
    }
}

proof fn lemma_list_transcript(s: Seq<B256>, t: Seq<B256>)
    requires
        s.len() <= u64::MAX,
        t.len() <= u64::MAX,
        t_start("EFCHY-LIFECYCLE-V2".spec_bytes()) + (t_len(s.len()) + t_hashes(s)) == t_start(
            "EFCHY-LIFECYCLE-V2".spec_bytes(),
        ) + (t_len(t.len()) + t_hashes(t)),
    ensures
        s == t,
{
    let start = t_start("EFCHY-LIFECYCLE-V2".spec_bytes());
    lemma_cancel(start, start, t_len(s.len()) + t_hashes(s), t_len(t.len()) + t_hashes(t));
    law_integer_framing(s.len() as u64, t.len() as u64, t_hashes(s), t_hashes(t));
    lemma_hashes_row(s);
    lemma_hashes_row(t);
    assert(tells(one_hash(), any_hash())) by {
        assert forall|p: B256, q: B256, u: Seq<u8>, v: Seq<u8>|
            any_hash()(p) && any_hash()(q) && #[trigger] (one_hash()(p) + u) == #[trigger] (
            one_hash()(q) + v) implies p == q && u == v by {
            law_hash_framing(p, q, u, v);
        }
    }
    let none = Seq::<u8>::empty();
    assert(in_a_row(s, one_hash()) + none =~= in_a_row(s, one_hash()));
    assert(in_a_row(t, one_hash()) + none =~= in_a_row(t, one_hash()));
    lemma_row_tells(s, t, one_hash(), any_hash(), none, none);
}

proof fn lemma_sorted_digests_shape(interests: Seq<InterestView>)
    requires
        sorted_digests(interests) is Ok,
    ensures
        sorted_digests(interests)->Ok_0.len() == interests.len(),
        forall|i: int| 0 <= i < interests.len() ==> t_interest(#[trigger] interests[i]) is Ok,
    decreases interests.len(),
{
    if interests.len() > 0 {
        let front = interests.drop_last();
        lemma_sorted_digests_shape(front);
        lemma_with_digest_len(
            sorted_digests(front)->Ok_0,
            keccak_digest(t_interest(interests.last())->Ok_0),
        );
        assert forall|i: int| 0 <= i < interests.len() implies t_interest(
            #[trigger] interests[i],
        ) is Ok by {
            if i < front.len() {
                assert(front[i] == interests[i]);
            }
        }
    }
}

proof fn lemma_with_digest_len(s: Seq<B256>, d: B256)
    ensures
        with_digest(s, d).len() == s.len() + 1,
    decreases s.len(),
{
    if !(s.len() == 0 || crate::owners::bytes_lt(s.last().bytes(), d.bytes()) || s.last() == d) {
        lemma_with_digest_len(s.drop_last(), d);
    }
}

/// How often a digest occurs is how often its interest does, where no two
/// interests share one.
proof fn lemma_digest_counts(
    a: Seq<InterestView>,
    b: Seq<InterestView>,
    part: Seq<InterestView>,
    x: InterestView,
)
    requires
        no_collision(a, b),
        forall|i: int| 0 <= i < a.len() ==> countable_interest(#[trigger] a[i]),
        forall|i: int| 0 <= i < b.len() ==> countable_interest(#[trigger] b[i]),
        forall|i: int|
            0 <= i < part.len() ==> a.contains(#[trigger] part[i]) || b.contains(part[i]),
        a.contains(x) || b.contains(x),
        t_interest(x) is Ok,
        sorted_digests(part) is Ok,
    ensures
        occurrences(sorted_digests(part)->Ok_0, keccak_digest(t_interest(x)->Ok_0)) == occurrences(
            part,
            x,
        ),
    decreases part.len(),
{
    if part.len() > 0 {
        let front = part.drop_last();
        let last = part.last();
        assert forall|i: int| 0 <= i < front.len() implies a.contains(#[trigger] front[i])
            || b.contains(front[i]) by {
            assert(front[i] == part[i]);
        }
        lemma_digest_counts(a, b, front, x);
        let d = keccak_digest(t_interest(last)->Ok_0);
        lemma_with_digest_occurs(
            sorted_digests(front)->Ok_0,
            d,
            keccak_digest(t_interest(x)->Ok_0),
        );
        assert(part[part.len() - 1] == last);
        lemma_rests(a, b, last);
        lemma_rests(a, b, x);
        if d == keccak_digest(t_interest(x)->Ok_0) {
            lemma_countable_of(a, b, last);
            lemma_countable_of(a, b, x);
            law_interest_is_told_by_its_transcript(last, x);
        }
    }
}

proof fn lemma_rests(a: Seq<InterestView>, b: Seq<InterestView>, x: InterestView)
    requires
        a.contains(x) || b.contains(x),
        t_interest(x) is Ok,
    ensures
        rests_on(a, b, t_interest(x)->Ok_0),
{
    if a.contains(x) {
        let i = choose|i: int| 0 <= i < a.len() && a[i] == x;
        assert(t_interest(a[i]) == t_interest(x));
    } else {
        let i = choose|i: int| 0 <= i < b.len() && b[i] == x;
        assert(t_interest(b[i]) == t_interest(x));
    }
}

proof fn lemma_countable_of(a: Seq<InterestView>, b: Seq<InterestView>, x: InterestView)
    requires
        a.contains(x) || b.contains(x),
        forall|i: int| 0 <= i < a.len() ==> countable_interest(#[trigger] a[i]),
        forall|i: int| 0 <= i < b.len() ==> countable_interest(#[trigger] b[i]),
    ensures
        countable_interest(x),
{
    if a.contains(x) {
        let i = choose|i: int| 0 <= i < a.len() && a[i] == x;
        assert(countable_interest(a[i]));
    } else {
        let i = choose|i: int| 0 <= i < b.len() && b[i] == x;
        assert(countable_interest(b[i]));
    }
}

/// Whether every length in a list of interests can be counted.
pub open spec fn countable_list(s: Seq<InterestView>) -> bool {
    s.len() <= u64::MAX && forall|i: int| 0 <= i < s.len() ==> countable_interest(#[trigger] s[i])
}

/// A fingerprint tells a list of interests from every other, but for their
/// order: two lists with the same one hold the same interests, each as often.
/// (Two transcripts of the same digest would be an exception; none of those that
/// the two fingerprints rest on may be.)
pub proof fn law_fingerprint_tells_the_interests(
    a: Seq<InterestView>,
    b: Seq<InterestView>,
    x: InterestView,
)
    requires
        countable_list(a),
        countable_list(b),
        no_collision(a, b),
        fingerprint(a) is Ok,
        fingerprint(a) == fingerprint(b),
    ensures
        a.len() == b.len(),
        occurrences(a, x) == occurrences(b, x),
        a.contains(x) <==> b.contains(x),
{
    let (s, t) = (sorted_digests(a)->Ok_0, sorted_digests(b)->Ok_0);
    lemma_sorted_digests_shape(a);
    lemma_sorted_digests_shape(b);
    assert(rests_on(a, b, list_transcript(a)) && rests_on(a, b, list_transcript(b)));
    assert(keccak_digest(list_transcript(a)) == keccak_digest(list_transcript(b)));
    lemma_list_transcript(s, t);
    lemma_occurs(a, x);
    lemma_occurs(b, x);
    if a.contains(x) || b.contains(x) {
        assert(t_interest(x) is Ok) by {
            if a.contains(x) {
                let i = choose|i: int| 0 <= i < a.len() && a[i] == x;
                assert(t_interest(a[i]) is Ok);
            } else {
                let i = choose|i: int| 0 <= i < b.len() && b[i] == x;
                assert(t_interest(b[i]) is Ok);
            }
        }
        assert forall|i: int| 0 <= i < a.len() implies a.contains(#[trigger] a[i]) by {}
        assert forall|i: int| 0 <= i < b.len() implies b.contains(#[trigger] b[i]) by {}
        lemma_digest_counts(a, b, a, x);
        lemma_digest_counts(a, b, b, x);
    }
}

// ---------------------------------------------------------------------------
// Topologies
// ---------------------------------------------------------------------------

proof fn lemma_owner_fingerprints(owners: Seq<OwnerInterestsView>)
    requires
        owner_fingerprints(owners) is Ok,
        keys_of(owners).no_duplicates(),
    ensures
        sorted_keys(owner_fingerprints(owners)->Ok_0),
        forall|i: int|
            0 <= i < owners.len() ==> fingerprint((#[trigger] owners[i]).1) is Ok && lookup(
                owner_fingerprints(owners)->Ok_0,
                owners[i].0,
            ) == Some(fingerprint(owners[i].1)->Ok_0),
        forall|k: Seq<u8>|
            !keys_of(owners).contains(k) ==> #[trigger] lookup(
                owner_fingerprints(owners)->Ok_0,
                k,
            ) is None,
    decreases owners.len(),
{
    let keys = keys_of(owners);
    if owners.len() > 0 {
        let front = owners.drop_last();
        let last = owners.last();
        assert(keys_of(front) =~= keys.drop_last());
        assert forall|x: int, y: int|
            0 <= x < front.len() && 0 <= y < front.len() && x != y implies keys_of(front)[x]
            != keys_of(front)[y] by {
            assert(keys[x] != keys[y]);
        }
        lemma_owner_fingerprints(front);
        let map = owner_fingerprints(front)->Ok_0;
        let f = fingerprint(last.1)->Ok_0;
        lemma_with_entry(map, last.0, f);
        assert(keys[owners.len() - 1] == last.0);
        assert forall|i: int| 0 <= i < owners.len() implies fingerprint((#[trigger] owners[i]).1) is Ok
            && lookup(owner_fingerprints(owners)->Ok_0, owners[i].0) == Some(
            fingerprint(owners[i].1)->Ok_0,
        ) by {
            if i < front.len() {
                assert(front[i] == owners[i]);
                assert(keys[i] != keys[owners.len() - 1]);
                assert(keys[i] == owners[i].0);
                assert(lookup(with_entry(map, last.0, f), owners[i].0) == lookup(map, owners[i].0));
            }
        }
        assert forall|k: Seq<u8>| !keys.contains(k) implies #[trigger] lookup(
            owner_fingerprints(owners)->Ok_0,
            k,
        ) is None by {
            assert(k != last.0);
            if keys_of(front).contains(k) {
                let i = choose|i: int| 0 <= i < keys_of(front).len() && keys_of(front)[i] == k;
                assert(keys[i] == k);
            }
            assert(lookup(with_entry(map, last.0, f), k) == lookup(map, k));
        }
    }
}

/// The intent of a topology holds the fingerprint of the base interests, and for
/// each owner, and no one else, that of its own.
pub proof fn law_intent_holds_each_fingerprint(
    base: Seq<InterestView>,
    owners: Seq<OwnerInterestsView>,
)
    ensures
        match intent_of(base, owners) {
            Ok(intent) => {
                &&& fingerprint(base) == Ok::<_, SubscriberError>(intent.base)
                &&& base.len() == 0 || owners.len() == 0
                &&& forall|i: int|
                    0 <= i < owners.len() ==> fingerprint((#[trigger] owners[i]).1) is Ok && lookup(
                        intent.owners,
                        owners[i].0,
                    ) == Some(fingerprint(owners[i].1)->Ok_0)
                &&& forall|k: Seq<u8>|
                    !keys_of(owners).contains(k) ==> #[trigger] lookup(intent.owners, k) is None
            },
            Err(_) => true,
        },
{
    if intent_of(base, owners) is Ok {
        lemma_owner_fingerprints(owners);
    }
}

/// Two topologies with the same intent register the same owners, and subscribe
/// each to the same interests.
pub proof fn law_intent_tells_the_topology(
    base: Seq<InterestView>,
    owners: Seq<OwnerInterestsView>,
    other_base: Seq<InterestView>,
    others: Seq<OwnerInterestsView>,
    i: int,
    x: InterestView,
)
    requires
        intent_of(base, owners) is Ok,
        intent_of(base, owners) == intent_of(other_base, others),
        countable_list(base),
        countable_list(other_base),
        no_collision(base, other_base),
        0 <= i < owners.len(),
        countable_list(owners[i].1),
        forall|j: int|
            0 <= j < others.len() ==> countable_list((#[trigger] others[j]).1) && no_collision(
                owners[i].1,
                others[j].1,
            ),
    ensures
        occurrences(base, x) == occurrences(other_base, x),
        exists|j: int|
            0 <= j < others.len() && (#[trigger] others[j]).0 == owners[i].0 && occurrences(
                owners[i].1,
                x,
            ) == occurrences(others[j].1, x),
{
    law_intent_holds_each_fingerprint(base, owners);
    law_intent_holds_each_fingerprint(other_base, others);
    let intent = intent_of(base, owners)->Ok_0;
    let k = owners[i].0;
    assert(lookup(intent.owners, k) is Some);
    assert(keys_of(others).contains(k));
    let j = choose|j: int| 0 <= j < keys_of(others).len() && keys_of(others)[j] == k;
    assert(others[j].0 == k);
    law_fingerprint_tells_the_interests(owners[i].1, others[j].1, x);
    law_fingerprint_tells_the_interests(base, other_base, x);
}

spec fn one_owner() -> spec_fn((Seq<u8>, B256)) -> Seq<u8> {
    |e: (Seq<u8>, B256)| t_bytes(e.0) + t_hash(e.1)
}

spec fn short_owner() -> spec_fn((Seq<u8>, B256)) -> bool {
    |e: (Seq<u8>, B256)| e.0.len() <= u64::MAX
}

proof fn lemma_owner_digests_row(s: Seq<(Seq<u8>, B256)>)
    ensures
        t_owner_digests(s) == in_a_row(s, one_owner()),
    decreases s.len(),
{
    if s.len() > 0 {
        lemma_owner_digests_row(s.drop_last());
        let front = t_owner_digests(s.drop_last());
        assert(front + t_bytes(s.last().0) + t_hash(s.last().1) =~= front + (t_bytes(s.last().0)
            + t_hash(s.last().1)));
    }
}

/// What the id of a barrier is the digest of.
pub open spec fn barrier_transcript(c: CheckpointView) -> Seq<u8> {
    t_start("EFCHY-EMPTY-LIFECYCLE-BARRIER-V1".spec_bytes()) + t_u64(c.chain_id) + t_bytes(
        c.epoch.bytes(),
    ) + t_u64(c.lifecycle_generation) + t_hash(c.lifecycle_intent.base) + t_len(
        c.lifecycle_intent.owners.len(),
    ) + t_owner_digests(c.lifecycle_intent.owners)
}

/// Whether every length in an intent can be counted.
pub open spec fn countable_intent(intent: IntentView) -> bool {
    intent.owners.len() <= u64::MAX && forall|i: int|
        0 <= i < intent.owners.len() ==> (#[trigger] intent.owners[i]).0.len() <= u64::MAX
}

/// The id of a barrier names one revision of one coordinator: two states with
/// the same one agree on the chain, the epoch, the generation and the intent.
/// (Two transcripts of the same digest would be an exception.)
pub proof fn law_barrier_names_its_revision(a: CheckpointView, b: CheckpointView)
    requires
        countable_intent(a.lifecycle_intent),
        countable_intent(b.lifecycle_intent),
        keccak_digest(barrier_transcript(a)) == keccak_digest(barrier_transcript(b))
            ==> barrier_transcript(a) == barrier_transcript(b),
        barrier_id(a) == barrier_id(b),
    ensures
        a.chain_id == b.chain_id,
        a.epoch == b.epoch,
        a.lifecycle_generation == b.lifecycle_generation,
        a.lifecycle_intent == b.lifecycle_intent,
{
    B256::lemma_bytes_injective(
        keccak_digest(barrier_transcript(a)),
        keccak_digest(barrier_transcript(b)),
    );
    let start = t_start("EFCHY-EMPTY-LIFECYCLE-BARRIER-V1".spec_bytes());
    lemma_barrier_told(
        start,
        a.chain_id,
        b.chain_id,
        a.epoch.bytes(),
        b.epoch.bytes(),
        a.lifecycle_generation,
        b.lifecycle_generation,
        a.lifecycle_intent,
        b.lifecycle_intent,
    );
    lemma_epoch_told(a.epoch, b.epoch);
}

spec fn barrier_parts(
    start: Seq<u8>,
    chain_id: u64,
    epoch: Seq<u8>,
    generation: u64,
    intent: IntentView,
) -> Seq<u8> {
    start + t_u64(chain_id) + t_bytes(epoch) + t_u64(generation) + t_hash(intent.base) + t_len(
        intent.owners.len(),
    ) + t_owner_digests(intent.owners)
}

proof fn lemma_barrier_told(
    start: Seq<u8>,
    c: u64,
    d: u64,
    e: Seq<u8>,
    f: Seq<u8>,
    g: u64,
    h: u64,
    i: IntentView,
    j: IntentView,
)
    requires
        countable_intent(i),
        countable_intent(j),
        e.len() <= u64::MAX,
        f.len() <= u64::MAX,
        barrier_parts(start, c, e, g, i) == barrier_parts(start, d, f, h, j),
    ensures
        c == d,
        e == f,
        g == h,
        i == j,
{
    let (oi, oj) = (t_owner_digests(i.owners), t_owner_digests(j.owners));
    let (li, lj) = (t_len(i.owners.len()), t_len(j.owners.len()));
    lemma_regroup_7(start, t_u64(c), t_bytes(e), t_u64(g), t_hash(i.base), li, oi);
    lemma_regroup_7(start, t_u64(d), t_bytes(f), t_u64(h), t_hash(j.base), lj, oj);
    let (a3, b3) = (t_hash(i.base) + (li + oi), t_hash(j.base) + (lj + oj));
    let (a2, b2) = (t_u64(g) + a3, t_u64(h) + b3);
    let (a1, b1) = (t_bytes(e) + a2, t_bytes(f) + b2);
    lemma_cancel(start, start, t_u64(c) + a1, t_u64(d) + b1);
    law_integer_framing(c, d, a1, b1);
    law_bytes_framing(e, f, a2, b2);
    law_integer_framing(g, h, a3, b3);
    law_hash_framing(i.base, j.base, li + oi, lj + oj);
    law_integer_framing(i.owners.len() as u64, j.owners.len() as u64, oi, oj);
    lemma_owner_digests_told(i.owners, j.owners);
}

proof fn lemma_owner_digests_told(a: Seq<(Seq<u8>, B256)>, b: Seq<(Seq<u8>, B256)>)
    requires
        a.len() == b.len(),
        forall|i: int| 0 <= i < a.len() ==> (#[trigger] a[i]).0.len() <= u64::MAX,
        forall|i: int| 0 <= i < b.len() ==> (#[trigger] b[i]).0.len() <= u64::MAX,
        t_owner_digests(a) == t_owner_digests(b),
    ensures
        a == b,
{
    let none = Seq::<u8>::empty();
    lemma_owner_digests_row(a);
    lemma_owner_digests_row(b);
    assert(in_a_row(a, one_owner()) + none =~= in_a_row(a, one_owner()));
    assert(in_a_row(b, one_owner()) + none =~= in_a_row(b, one_owner()));
    assert(tells(one_owner(), short_owner())) by {
        assert forall|p: (Seq<u8>, B256), q: (Seq<u8>, B256), u: Seq<u8>, v: Seq<u8>|
            short_owner()(p) && short_owner()(q) && #[trigger] (one_owner()(p) + u)
                == #[trigger] (one_owner()(q) + v) implies p == q && u == v by {
            lemma_regroup_3(t_bytes(p.0), t_hash(p.1), u);
            lemma_regroup_3(t_bytes(q.0), t_hash(q.1), v);
            law_bytes_framing(p.0, q.0, t_hash(p.1) + u, t_hash(q.1) + v);
            law_hash_framing(p.1, q.1, u, v);
        }
    }
    lemma_row_tells(a, b, one_owner(), short_owner(), none, none);
}

proof fn lemma_epoch_told(a: crate::words::Epoch, b: crate::words::Epoch)
    requires
        a.bytes() == b.bytes(),
    ensures
        a == b,
{
    a.lemma_of_bytes();
    b.lemma_of_bytes();
}

} // verus!
