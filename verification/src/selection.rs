//! Parts of a sequence, in their order.
use vstd::prelude::*;

verus! {

/// The positions below `n` at which `keep` holds, in ascending order.
pub open spec fn positions(n: nat, keep: spec_fn(int) -> bool) -> Seq<int>
    decreases n,
{
    if n == 0 {
        Seq::empty()
    } else {
        let front = positions((n - 1) as nat, keep);
        if keep(n - 1) {
            front.push(n - 1)
        } else {
            front
        }
    }
}

/// Whether positions ascend and stay below `n`.
pub open spec fn ascending(at: Seq<int>, n: nat) -> bool {
    (forall|i: int| 0 <= i < at.len() ==> 0 <= #[trigger] at[i] < n) && forall|i: int, j: int|
        0 <= i < j < at.len() ==> #[trigger] at[i] < #[trigger] at[j]
}

/// The items of a sequence at some positions.
pub open spec fn items_at<A>(s: Seq<A>, at: Seq<int>) -> Seq<A> {
    Seq::new(at.len(), |i: int| s[at[i]])
}

/// The positions ascend, and hold exactly those at which `keep` holds.
pub proof fn lemma_positions(n: nat, keep: spec_fn(int) -> bool)
    ensures
        ascending(positions(n, keep), n),
        forall|i: int| #[trigger]
            positions(n, keep).contains(i) <==> 0 <= i < n && keep(i),
    decreases n,
{
    let all = positions(n, keep);
    if n > 0 {
        let front = positions((n - 1) as nat, keep);
        lemma_positions((n - 1) as nat, keep);
        assert forall|i: int| #[trigger] all.contains(i) <==> 0 <= i < n && keep(i) by {
            if front.contains(i) {
                let j = choose|j: int| 0 <= j < front.len() && front[j] == i;
                assert(all[j] == i);
            }
            if i == n - 1 && keep(i) {
                assert(all[front.len() as int] == i);
            }
            if all.contains(i) {
                let j = choose|j: int| 0 <= j < all.len() && all[j] == i;
                if j < front.len() {
                    assert(front[j] == i);
                }
            }
        }
        assert forall|i: int| 0 <= i < all.len() implies 0 <= #[trigger] all[i] < n by {
            if i < front.len() {
                assert(all[i] == front[i]);
            }
        }
        assert forall|i: int, j: int| 0 <= i < j < all.len() implies #[trigger] all[i] < (
        #[trigger] all[j]) by {
            assert(all[i] == front[i]);
            if j < front.len() {
                assert(all[j] == front[j]);
            }
        }
    } else {
        assert(all =~= Seq::<int>::empty());
    }
}

} // verus!
