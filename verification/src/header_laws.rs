//! The canonical form of a header does not depend on the order of its fields.
use crate::header::{by_key, canonical_json, field_pieces, insert_piece, JsonView, Piece};
use crate::owners::{
    bytes_lt, lemma_bytes_lt_irreflexive, lemma_bytes_lt_total, lemma_bytes_lt_transitive,
};
use vstd::prelude::*;
use vstd::utf8::{encode_utf8, encode_utf8_decode_utf8};

verus! {

/// Whether pieces are in strictly ascending order of their keys.
pub open spec fn keys_ascend(s: Seq<Piece>) -> bool {
    forall|i: int, j: int| 0 <= i < j < s.len() ==> bytes_lt(#[trigger] s[i].key, #[trigger] s[j].key)
}

/// Whether no key occurs twice.
pub open spec fn keys_differ(s: Seq<Piece>) -> bool {
    forall|i: int, j: int| 0 <= i < j < s.len() ==> #[trigger] s[i].key != #[trigger] s[j].key
}

proof fn lemma_insert_piece(s: Seq<Piece>, p: Piece)
    requires
        keys_ascend(s),
        forall|i: int| 0 <= i < s.len() ==> (#[trigger] s[i]).key != p.key,
    ensures
        keys_ascend(insert_piece(s, p)),
        insert_piece(s, p).len() == s.len() + 1,
        forall|x: Piece| #[trigger] insert_piece(s, p).contains(x) <==> s.contains(x) || x == p,
    decreases s.len(),
{
    let t = insert_piece(s, p);
    if s.len() == 0 || !bytes_lt(p.key, s.last().key) {
        assert forall|i: int, j: int| 0 <= i < j < t.len() implies bytes_lt(
            #[trigger] t[i].key,
            #[trigger] t[j].key,
        ) by {
            if j == s.len() {
                lemma_bytes_lt_total(p.key, s.last().key);
                assert(s[s.len() - 1].key != p.key);
                if i < s.len() - 1 {
                    lemma_bytes_lt_transitive(s[i].key, s.last().key, p.key);
                }
            }
        }
        assert forall|x: Piece| #[trigger] t.contains(x) <==> s.contains(x) || x == p by {
            if t.contains(x) {
                let i = choose|i: int| 0 <= i < t.len() && t[i] == x;
                if i < s.len() {
                    assert(s[i] == x);
                }
            }
            if s.contains(x) {
                let i = choose|i: int| 0 <= i < s.len() && s[i] == x;
                assert(t[i] == x);
            }
            assert(t[s.len() as int] == p);
        }
    } else {
        let front = s.drop_last();
        assert forall|i: int, j: int| 0 <= i < j < front.len() implies bytes_lt(
            #[trigger] front[i].key,
            #[trigger] front[j].key,
        ) by {
            assert(bytes_lt(s[i].key, s[j].key));
        }
        lemma_insert_piece(front, p);
        let mid = insert_piece(front, p);
        assert(t == mid.push(s.last()));
        assert forall|i: int, j: int| 0 <= i < j < t.len() implies bytes_lt(
            #[trigger] t[i].key,
            #[trigger] t[j].key,
        ) by {
            if j == mid.len() {
                assert(mid.contains(mid[i]));
                if front.contains(mid[i]) {
                    let k = choose|k: int| 0 <= k < front.len() && front[k] == mid[i];
                    assert(bytes_lt(s[k].key, s[s.len() - 1].key));
                }
            }
        }
        assert forall|x: Piece| #[trigger] t.contains(x) <==> s.contains(x) || x == p by {
            assert(mid.contains(x) <==> front.contains(x) || x == p);
            if t.contains(x) {
                let i = choose|i: int| 0 <= i < t.len() && t[i] == x;
                if i < mid.len() {
                    assert(mid[i] == x);
                    if front.contains(x) {
                        let k = choose|k: int| 0 <= k < front.len() && front[k] == x;
                        assert(s[k] == x);
                    }
                } else {
                    assert(s[s.len() - 1] == x);
                }
            }
            if s.contains(x) {
                let i = choose|i: int| 0 <= i < s.len() && s[i] == x;
                if i < front.len() {
                    assert(front[i] == x);
                    let k = choose|k: int| 0 <= k < mid.len() && mid[k] == x;
                    assert(t[k] == x);
                } else {
                    assert(t[mid.len() as int] == x);
                }
            }
            if x == p {
                let k = choose|k: int| 0 <= k < mid.len() && mid[k] == x;
                assert(t[k] == x);
            }
        }
    }
}

pub proof fn lemma_by_key(s: Seq<Piece>)
    requires
        keys_differ(s),
    ensures
        keys_ascend(by_key(s)),
        by_key(s).len() == s.len(),
        forall|x: Piece| #[trigger] by_key(s).contains(x) <==> s.contains(x),
    decreases s.len(),
{
    if s.len() > 0 {
        let front = s.drop_last();
        assert forall|i: int, j: int| 0 <= i < j < front.len() implies #[trigger] front[i].key
            != #[trigger] front[j].key by {
            assert(s[i].key != s[j].key);
        }
        lemma_by_key(front);
        let mid = by_key(front);
        assert forall|i: int| 0 <= i < mid.len() implies (#[trigger] mid[i]).key != s.last().key by {
            assert(mid.contains(mid[i]));
            let k = choose|k: int| 0 <= k < front.len() && front[k] == mid[i];
            assert(s[k].key != s[s.len() - 1].key);
        }
        lemma_insert_piece(mid, s.last());
        assert forall|x: Piece| #[trigger] by_key(s).contains(x) <==> s.contains(x) by {
            if front.contains(x) {
                let k = choose|k: int| 0 <= k < front.len() && front[k] == x;
                assert(s[k] == x);
            }
            if s.contains(x) {
                let k = choose|k: int| 0 <= k < s.len() && s[k] == x;
                if k < front.len() {
                    assert(front[k] == x);
                }
            }
            assert(s[s.len() - 1] == s.last());
        }
    }
}

proof fn lemma_ascending_unique(a: Seq<Piece>, b: Seq<Piece>)
    requires
        keys_ascend(a),
        keys_ascend(b),
        a.len() == b.len(),
        forall|x: Piece| #[trigger] a.contains(x) <==> b.contains(x),
    ensures
        a == b,
    decreases a.len(),
{
    if a.len() == 0 {
        assert(a =~= b);
    } else {
        let x = a.last();
        let y = b.last();
        let n = a.len() - 1;
        assert(a[n] == x && b[n] == y);
        assert(a.contains(x) && b.contains(y));
        assert(b.contains(x) && a.contains(y));
        let i = choose|i: int| 0 <= i < b.len() && b[i] == x;
        let j = choose|j: int| 0 <= j < a.len() && a[j] == y;
        if i < n && j < n {
            assert(bytes_lt(b[i].key, b[n].key) && bytes_lt(a[j].key, a[n].key));
            lemma_bytes_lt_total(x.key, y.key);
        }
        assert(x == y);
        let fa = a.drop_last();
        let fb = b.drop_last();
        lemma_bytes_lt_irreflexive(x.key);
        assert forall|p: Piece| #[trigger] fa.contains(p) <==> fb.contains(p) by {
            if fa.contains(p) {
                let k = choose|k: int| 0 <= k < fa.len() && fa[k] == p;
                assert(a[k] == p && bytes_lt(a[k].key, a[n].key));
                assert(a.contains(p));
                assert(b.contains(p));
                let m = choose|m: int| 0 <= m < b.len() && b[m] == p;
                assert(m < n);
                assert(fb[m] == p);
            }
            if fb.contains(p) {
                let k = choose|k: int| 0 <= k < fb.len() && fb[k] == p;
                assert(b[k] == p && bytes_lt(b[k].key, b[n].key));
                assert(a.contains(p));
                let m = choose|m: int| 0 <= m < a.len() && a[m] == p;
                assert(m < n);
                assert(fa[m] == p);
            }
        }
        assert forall|p: int, q: int| 0 <= p < q < fa.len() implies bytes_lt(
            #[trigger] fa[p].key,
            #[trigger] fa[q].key,
        ) by {
            assert(bytes_lt(a[p].key, a[q].key));
        }
        assert forall|p: int, q: int| 0 <= p < q < fb.len() implies bytes_lt(
            #[trigger] fb[p].key,
            #[trigger] fb[q].key,
        ) by {
            assert(bytes_lt(b[p].key, b[q].key));
        }
        lemma_ascending_unique(fa, fb);
        assert(a =~= fa.push(x) && b =~= fb.push(y));
    }
}

/// The piece that a field is written as.
pub open spec fn field_piece(field: (Seq<char>, JsonView)) -> Piece {
    Piece {
        key: encode_utf8(field.0),
        text: crate::header::json_quoted(field.0) + seq![0x3au8] + canonical_json(field.1),
    }
}

pub proof fn lemma_field_pieces(fields: Seq<(Seq<char>, JsonView)>, n: nat)
    requires
        n <= fields.len(),
    ensures
        field_pieces(JsonView::Object(fields), n).len() == n,
        forall|i: int|
            0 <= i < n ==> #[trigger] field_pieces(JsonView::Object(fields), n)[i] == field_piece(
                fields[i],
            ),
    decreases n,
{
    if n > 0 {
        lemma_field_pieces(fields, (n - 1) as nat);
    }
}

/// Whether every field of one object is also one of another, with a value that
/// is written the same.
pub open spec fn fields_within(a: Seq<(Seq<char>, JsonView)>, b: Seq<(Seq<char>, JsonView)>) -> bool {
    forall|i: int|
        0 <= i < a.len() ==> exists|j: int|
            0 <= j < b.len() && (#[trigger] a[i]).0 == (#[trigger] b[j]).0 && canonical_json(a[i].1)
                == canonical_json(b[j].1)
}

/// Whether no field of an object occurs twice.
pub open spec fn fields_differ(a: Seq<(Seq<char>, JsonView)>) -> bool {
    forall|i: int, j: int| 0 <= i < j < a.len() ==> (#[trigger] a[i]).0 != (#[trigger] a[j]).0
}

pub proof fn lemma_fields_differ(a: Seq<(Seq<char>, JsonView)>)
    requires
        fields_differ(a),
    ensures
        keys_differ(field_pieces(JsonView::Object(a), a.len())),
{
    lemma_field_pieces(a, a.len());
    let s = field_pieces(JsonView::Object(a), a.len());
    assert forall|i: int, j: int| 0 <= i < j < s.len() implies #[trigger] s[i].key
        != #[trigger] s[j].key by {
        assert(s[i] == field_piece(a[i]) && s[j] == field_piece(a[j]));
        encode_utf8_decode_utf8(a[i].0);
        encode_utf8_decode_utf8(a[j].0);
        assert(a[i].0 != a[j].0);
    }
}

proof fn lemma_fields_within(a: Seq<(Seq<char>, JsonView)>, b: Seq<(Seq<char>, JsonView)>, x: Piece)
    requires
        fields_within(a, b),
        field_pieces(JsonView::Object(a), a.len()).contains(x),
    ensures
        field_pieces(JsonView::Object(b), b.len()).contains(x),
{
    lemma_field_pieces(a, a.len());
    lemma_field_pieces(b, b.len());
    let s = field_pieces(JsonView::Object(a), a.len());
    let t = field_pieces(JsonView::Object(b), b.len());
    let i = choose|i: int| 0 <= i < s.len() && s[i] == x;
    assert(s[i] == field_piece(a[i]));
    let j = choose|j: int|
        0 <= j < b.len() && a[i].0 == (#[trigger] b[j]).0 && canonical_json(a[i].1)
            == canonical_json(b[j].1);
    assert(t[j] == field_piece(b[j]));
}

/// Two objects with the same fields, in whatever order, at whatever depth, are
/// written the same.
pub proof fn law_field_order_does_not_matter(
    a: Seq<(Seq<char>, JsonView)>,
    b: Seq<(Seq<char>, JsonView)>,
)
    requires
        a.len() == b.len(),
        fields_differ(a),
        fields_differ(b),
        fields_within(a, b),
        fields_within(b, a),
    ensures
        canonical_json(JsonView::Object(a)) == canonical_json(JsonView::Object(b)),
{
    let s = field_pieces(JsonView::Object(a), a.len());
    let t = field_pieces(JsonView::Object(b), b.len());
    lemma_field_pieces(a, a.len());
    lemma_field_pieces(b, b.len());
    lemma_fields_differ(a);
    lemma_fields_differ(b);
    lemma_by_key(s);
    lemma_by_key(t);
    assert forall|x: Piece| #[trigger] by_key(s).contains(x) <==> by_key(t).contains(x) by {
        if s.contains(x) {
            lemma_fields_within(a, b, x);
        }
        if t.contains(x) {
            lemma_fields_within(b, a, x);
        }
    }
    lemma_ascending_unique(by_key(s), by_key(t));
}

} // verus!
