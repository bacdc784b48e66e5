//! Items one behind the other, each of which is told by the bytes it takes.
use vstd::prelude::*;

verus! {

/// What the items of a sequence take, one behind the other.
pub open spec fn in_a_row<A>(s: Seq<A>, f: spec_fn(A) -> Seq<u8>) -> Seq<u8>
    decreases s.len(),
{
    if s.len() == 0 {
        Seq::empty()
    } else {
        in_a_row(s.drop_last(), f) + f(s.last())
    }
}

/// Whether an item is told by the bytes it takes, whatever follows.
pub open spec fn tells<A>(f: spec_fn(A) -> Seq<u8>, fits: spec_fn(A) -> bool) -> bool {
    forall|a: A, b: A, x: Seq<u8>, y: Seq<u8>|
        fits(a) && fits(b) && #[trigger] (f(a) + x) == #[trigger] (f(b) + y) ==> a == b && x == y
}

proof fn lemma_row_front<A>(s: Seq<A>, f: spec_fn(A) -> Seq<u8>)
    requires
        s.len() > 0,
    ensures
        in_a_row(s, f) == f(s[0]) + in_a_row(s.drop_first(), f),
    decreases s.len(),
{
    let rest = s.drop_first();
    if s.len() == 1 {
        assert(s.drop_last() =~= Seq::<A>::empty());
        assert(rest =~= Seq::<A>::empty());
        assert(in_a_row(s, f) =~= f(s[0]) + in_a_row(rest, f));
    } else {
        lemma_row_front(s.drop_last(), f);
        assert(s.drop_last().drop_first() =~= rest.drop_last());
        assert(rest.last() == s.last());
        assert(in_a_row(s, f) =~= f(s[0]) + in_a_row(rest, f));
    }
}

/// As many items in a row are told by the bytes they take, whatever follows.
pub proof fn lemma_row_tells<A>(
    a: Seq<A>,
    b: Seq<A>,
    f: spec_fn(A) -> Seq<u8>,
    fits: spec_fn(A) -> bool,
    x: Seq<u8>,
    y: Seq<u8>,
)
    requires
        tells(f, fits),
        a.len() == b.len(),
        forall|i: int| 0 <= i < a.len() ==> fits(#[trigger] a[i]),
        forall|i: int| 0 <= i < b.len() ==> fits(#[trigger] b[i]),
        in_a_row(a, f) + x == in_a_row(b, f) + y,
    ensures
        a == b,
        x == y,
    decreases a.len(),
{
    if a.len() == 0 {
        assert(a =~= b);
        assert(in_a_row(a, f) + x =~= x);
        assert(in_a_row(b, f) + y =~= y);
    } else {
        lemma_row_front(a, f);
        lemma_row_front(b, f);
        let (p, q) = (a.drop_first(), b.drop_first());
        assert(in_a_row(a, f) + x =~= f(a[0]) + (in_a_row(p, f) + x));
        assert(in_a_row(b, f) + y =~= f(b[0]) + (in_a_row(q, f) + y));
        assert(fits(a[0]) && fits(b[0]));
        assert(f(a[0]) + (in_a_row(p, f) + x) == f(b[0]) + (in_a_row(q, f) + y));
        assert forall|i: int| 0 <= i < p.len() implies fits(#[trigger] p[i]) by {
            assert(p[i] == a[i + 1]);
        }
        assert forall|i: int| 0 <= i < q.len() implies fits(#[trigger] q[i]) by {
            assert(q[i] == b[i + 1]);
        }
        lemma_row_tells(p, q, f, fits, x, y);
        assert(a =~= seq![a[0]] + p);
        assert(b =~= seq![b[0]] + q);
    }
}

pub proof fn lemma_regroup_3(a: Seq<u8>, b: Seq<u8>, c: Seq<u8>)
    ensures
        a + b + c == a + (b + (c)),
{
    assert(a + b + c =~= a + (b + (c)));
}

pub proof fn lemma_regroup_4(a: Seq<u8>, b: Seq<u8>, c: Seq<u8>, d: Seq<u8>)
    ensures
        a + b + c + d == a + (b + (c + (d))),
{
    assert(a + b + c + d =~= a + (b + (c + (d))));
}

pub proof fn lemma_regroup_5(a: Seq<u8>, b: Seq<u8>, c: Seq<u8>, d: Seq<u8>, e: Seq<u8>)
    ensures
        a + b + c + d + e == a + (b + (c + (d + (e)))),
{
    assert(a + b + c + d + e =~= a + (b + (c + (d + (e)))));
}

pub proof fn lemma_regroup_6(a: Seq<u8>, b: Seq<u8>, c: Seq<u8>, d: Seq<u8>, e: Seq<u8>, f: Seq<u8>)
    ensures
        a + b + c + d + e + f == a + (b + (c + (d + (e + (f))))),
{
    assert(a + b + c + d + e + f =~= a + (b + (c + (d + (e + (f))))));
}

pub proof fn lemma_regroup_7(a: Seq<u8>, b: Seq<u8>, c: Seq<u8>, d: Seq<u8>, e: Seq<u8>, f: Seq<u8>, g: Seq<u8>)
    ensures
        a + b + c + d + e + f + g == a + (b + (c + (d + (e + (f + (g)))))),
{
    assert(a + b + c + d + e + f + g =~= a + (b + (c + (d + (e + (f + (g)))))));
}

pub proof fn lemma_regroup_8(a: Seq<u8>, b: Seq<u8>, c: Seq<u8>, d: Seq<u8>, e: Seq<u8>, f: Seq<u8>, g: Seq<u8>, h: Seq<u8>)
    ensures
        a + b + c + d + e + f + g + h == a + (b + (c + (d + (e + (f + (g + (h))))))),
{
    assert(a + b + c + d + e + f + g + h =~= a + (b + (c + (d + (e + (f + (g + (h))))))));
}

} // verus!
