//! How a header is written, piece by piece, and what its digest tells.
use crate::header::{
    all_escaped, by_key, canonical_json, digest_of_tree, field_pieces, header_digest, item_texts,
    json_escaped, json_parsed, json_quoted, piece_texts, with_commas, JsonView,
    MAX_HEADER_CANONICALIZATION_BYTES,
};
use crate::header_laws::{
    field_piece, fields_differ, lemma_by_key, lemma_field_pieces, lemma_fields_differ,
};
use crate::owners::{bytes_lt, lemma_bytes_lt_total};
use crate::transcript::keccak_digest;
use vstd::prelude::*;
use vstd::string::StringSliceAdditionalSpecFns;
use vstd::utf8::encode_utf8;

verus! {

// ---------------------------------------------------------------------------
// Texts
// ---------------------------------------------------------------------------

/// The number that a digit in hexadecimal stands for.
pub open spec fn digit_of(b: u8) -> int {
    if 0x30 <= b <= 0x39 {
        b - 0x30
    } else if 0x61 <= b <= 0x66 {
        b - 0x61 + 10
    } else {
        -1
    }
}

/// The byte that stands first in an escaped text, and how many bytes it takes.
pub open spec fn first_byte(s: Seq<u8>) -> (int, int) {
    if s.len() == 0 || s[0] == 0x22 || s[0] < 0x20 {
        (-1, 0)
    } else if s[0] != 0x5c {
        (s[0] as int, 1)
    } else if s.len() < 2 {
        (-1, 0)
    } else if s[1] == 0x22 || s[1] == 0x5c {
        (s[1] as int, 2)
    } else if s[1] == 0x62 {
        (0x08, 2)
    } else if s[1] == 0x74 {
        (0x09, 2)
    } else if s[1] == 0x6e {
        (0x0a, 2)
    } else if s[1] == 0x66 {
        (0x0c, 2)
    } else if s[1] == 0x72 {
        (0x0d, 2)
    } else if s[1] == 0x75 && s.len() >= 6 && s[2] == 0x30 && s[3] == 0x30 && digit_of(s[4]) >= 0
        && digit_of(s[5]) >= 0 {
        (digit_of(s[4]) * 16 + digit_of(s[5]), 6)
    } else {
        (-1, 0)
    }
}

/// Whether an escaped text reads as these bytes.
pub open spec fn reads_as(s: Seq<u8>, bytes: Seq<u8>) -> bool
    decreases bytes.len(),
{
    if bytes.len() == 0 {
        s.len() == 0
    } else {
        first_byte(s).0 == bytes[0] && reads_as(s.skip(first_byte(s).1), bytes.drop_first())
    }
}

proof fn lemma_front(bytes: Seq<u8>)
    requires
        bytes.len() > 0,
    ensures
        all_escaped(bytes) == json_escaped(bytes[0]) + all_escaped(bytes.drop_first()),
    decreases bytes.len(),
{
    if bytes.len() == 1 {
        assert(bytes.drop_last() =~= Seq::<u8>::empty());
        assert(bytes.drop_first() =~= Seq::<u8>::empty());
        assert(all_escaped(Seq::<u8>::empty()) =~= Seq::<u8>::empty());
        assert(all_escaped(bytes) =~= json_escaped(bytes[0]) + all_escaped(bytes.drop_first()));
    } else {
        lemma_front(bytes.drop_last());
        assert(bytes.drop_first().drop_last() =~= bytes.drop_last().drop_first());
        assert(bytes.drop_first().last() == bytes.last());
        assert(all_escaped(bytes) =~= json_escaped(bytes[0]) + all_escaped(bytes.drop_first()));
    }
}

proof fn lemma_reads_as(bytes: Seq<u8>)
    ensures
        reads_as(all_escaped(bytes), bytes),
    decreases bytes.len(),
{
    if bytes.len() > 0 {
        lemma_front(bytes);
        lemma_reads_as(bytes.drop_first());
        let e = json_escaped(bytes[0]);
        let s = e + all_escaped(bytes.drop_first());
        let b = bytes[0];
        assert(b / 16 < 16 && b % 16 < 16 && (b / 16) * 16 + b % 16 == b) by (nonlinear_arith)
            requires
                0 <= b < 256,
        ;
        assert(forall|i: int| 0 <= i < e.len() ==> s[i] == e[i]);
        assert(first_byte(s) == (b as int, e.len() as int));
        assert(s.skip(e.len() as int) =~= all_escaped(bytes.drop_first()));
    }
}

/// A text stands between quotes and is read back as it was, byte by byte: no
/// quote or control character in it stands bare.
pub proof fn law_text_is_read_back(text: Seq<char>)
    ensures
        ({
            let s = json_quoted(text);
            &&& s.len() >= 2
            &&& s[0] == 0x22
            &&& s.last() == 0x22
            &&& reads_as(s.subrange(1, s.len() - 1), encode_utf8(text))
        }),
{
    let s = json_quoted(text);
    let inner = all_escaped(encode_utf8(text));
    lemma_reads_as(encode_utf8(text));
    assert(s.subrange(1, s.len() - 1) =~= inner);
}

/// Escaped texts that are the same read the same: two texts are written alike
/// only where they have the same bytes.
pub proof fn law_texts_are_told_apart(a: Seq<u8>, b: Seq<u8>)
    requires
        all_escaped(a) == all_escaped(b),
    ensures
        a == b,
{
    lemma_reads_as(a);
    lemma_reads_as(b);
    lemma_read_once(all_escaped(a), a, b);
}

proof fn lemma_read_once(s: Seq<u8>, a: Seq<u8>, b: Seq<u8>)
    requires
        reads_as(s, a),
        reads_as(s, b),
    ensures
        a == b,
    decreases a.len(),
{
    if a.len() > 0 && b.len() > 0 {
        lemma_read_once(s.skip(first_byte(s).1), a.drop_first(), b.drop_first());
        assert(a =~= seq![a[0]] + a.drop_first());
        assert(b =~= seq![b[0]] + b.drop_first());
    } else if a.len() == 0 && b.len() == 0 {
        assert(a =~= b);
    }
}

// ---------------------------------------------------------------------------
// Values
// ---------------------------------------------------------------------------

/// What is not a list of other values is written as it is.
pub proof fn law_simple_values_are_written_as_they_are(t: Seq<char>)
    ensures
        canonical_json(JsonView::Null) == seq![0x6eu8, 0x75, 0x6c, 0x6c],
        canonical_json(JsonView::Bool(true)) == seq![0x74u8, 0x72, 0x75, 0x65],
        canonical_json(JsonView::Bool(false)) == seq![0x66u8, 0x61, 0x6c, 0x73, 0x65],
        canonical_json(JsonView::Number(t)) == encode_utf8(t),
        canonical_json(JsonView::Text(t)) == json_quoted(t),
{
    broadcast use vstd::string::is_ascii_spec_bytes;

    reveal_strlit("null");
    reveal_strlit("true");
    reveal_strlit("false");
    assert(vstd::string::is_ascii("null"));
    assert(vstd::string::is_ascii("true"));
    assert(vstd::string::is_ascii("false"));
    assert("null".spec_bytes() =~= seq![0x6eu8, 0x75, 0x6c, 0x6c]);
    assert("true".spec_bytes() =~= seq![0x74u8, 0x72, 0x75, 0x65]);
    assert("false".spec_bytes() =~= seq![0x66u8, 0x61, 0x6c, 0x73, 0x65]);
}

proof fn lemma_item_texts(items: Seq<JsonView>, n: nat)
    requires
        n <= items.len(),
    ensures
        item_texts(JsonView::Array(items), n).len() == n,
        forall|i: int|
            0 <= i < n ==> #[trigger] item_texts(JsonView::Array(items), n)[i] == canonical_json(
                items[i],
            ),
    decreases n,
{
    if n > 0 {
        lemma_item_texts(items, (n - 1) as nat);
    }
}

/// An empty list of values is a pair of brackets.
pub proof fn law_nothing_stands_between_empty_brackets()
    ensures
        canonical_json(JsonView::Array(Seq::empty())) == seq![0x5bu8, 0x5d],
        canonical_json(JsonView::Object(Seq::empty())) == seq![0x7bu8, 0x7d],
{
    let a = JsonView::Array(Seq::empty());
    let o = JsonView::Object(Seq::empty());
    lemma_item_texts(Seq::empty(), 0);
    lemma_field_pieces(Seq::empty(), 0);
    assert(item_texts(a, 0) =~= Seq::<Seq<u8>>::empty());
    assert(with_commas(Seq::<Seq<u8>>::empty()) =~= Seq::<u8>::empty());
    assert(canonical_json(a) =~= seq![0x5bu8, 0x5d]);
    assert(piece_texts(by_key(field_pieces(o, 0))) =~= Seq::<Seq<u8>>::empty());
    assert(canonical_json(o) =~= seq![0x7bu8, 0x7d]);
}

/// One more item of an array is written last, behind a comma where there are
/// others; what was written for the others stays.
pub proof fn law_array_grows_by_its_last_item(items: Seq<JsonView>, x: JsonView)
    ensures
        ({
            let before = canonical_json(JsonView::Array(items));
            let after = canonical_json(JsonView::Array(items.push(x)));
            &&& items.len() > 0 ==> after == before.drop_last() + seq![0x2cu8] + canonical_json(x)
                + seq![0x5du8]
            &&& items.len() == 0 ==> after == seq![0x5bu8] + canonical_json(x) + seq![0x5du8]
        }),
{
    let n = items.len();
    let more = items.push(x);
    lemma_item_texts(items, n);
    lemma_item_texts(more, n + 1);
    let s = item_texts(JsonView::Array(items), n);
    let t = item_texts(JsonView::Array(more), n + 1);
    assert(t =~= s.push(canonical_json(x)));
    assert(t.drop_last() =~= s);
    let before = canonical_json(JsonView::Array(items));
    let after = canonical_json(JsonView::Array(more));
    assert(before.drop_last() =~= seq![0x5bu8] + with_commas(s));
    if n > 0 {
        assert(after =~= before.drop_last() + seq![0x2cu8] + canonical_json(x) + seq![0x5du8]);
    } else {
        assert(after =~= seq![0x5bu8] + canonical_json(x) + seq![0x5du8]);
    }
}

/// One more field of an object, whose key comes behind all others, is written
/// last: the key as a text, a colon and the value, behind a comma where there
/// are others; what was written for the others stays.
pub proof fn law_object_grows_by_its_last_field(
    fields: Seq<(Seq<char>, JsonView)>,
    key: Seq<char>,
    value: JsonView,
)
    requires
        fields_differ(fields.push((key, value))),
        forall|i: int|
            0 <= i < fields.len() ==> bytes_lt(
                encode_utf8((#[trigger] fields[i]).0),
                encode_utf8(key),
            ),
    ensures
        ({
            let before = canonical_json(JsonView::Object(fields));
            let after = canonical_json(JsonView::Object(fields.push((key, value))));
            let field = json_quoted(key) + seq![0x3au8] + canonical_json(value);
            &&& fields.len() > 0 ==> after == before.drop_last() + seq![0x2cu8] + field
                + seq![0x7du8]
            &&& fields.len() == 0 ==> after == seq![0x7bu8] + field + seq![0x7du8]
        }),
{
    let n = fields.len();
    let more = fields.push((key, value));
    assert(fields_differ(fields)) by {
        assert forall|i: int, j: int| 0 <= i < j < fields.len() implies (#[trigger] fields[i]).0
            != (#[trigger] fields[j]).0 by {
            assert(more[i].0 != more[j].0);
        }
    }
    lemma_field_pieces(fields, n);
    lemma_field_pieces(more, n + 1);
    lemma_fields_differ(fields);
    let s = field_pieces(JsonView::Object(fields), n);
    let t = field_pieces(JsonView::Object(more), n + 1);
    let p = field_piece((key, value));
    assert(t =~= s.push(p));
    assert(t.drop_last() =~= s);
    lemma_by_key(s);
    let sorted = by_key(s);
    if n > 0 {
        let last = sorted.last();
        assert(sorted[sorted.len() - 1] == last);
        assert(sorted.contains(last));
        let i = choose|i: int| 0 <= i < s.len() && s[i] == last;
        assert(s[i] == field_piece(fields[i]));
        lemma_bytes_lt_total(last.key, p.key);
    }
    assert(by_key(t) == sorted.push(p));
    let texts = piece_texts(sorted);
    assert(piece_texts(by_key(t)) =~= texts.push(p.text));
    assert(texts.push(p.text).drop_last() =~= texts);
    let before = canonical_json(JsonView::Object(fields));
    let after = canonical_json(JsonView::Object(more));
    assert(before.drop_last() =~= seq![0x7bu8] + with_commas(texts));
    if n > 0 {
        assert(after =~= before.drop_last() + seq![0x2cu8] + p.text + seq![0x7du8]);
    } else {
        assert(after =~= seq![0x7bu8] + p.text + seq![0x7du8]);
    }
}

// ---------------------------------------------------------------------------
// Digests
// ---------------------------------------------------------------------------

/// A header has a digest exactly where it is JSON, and neither it nor its
/// canonical form is longer than asked for, nor than any header may be; the
/// limit decides nothing else.
pub proof fn law_header_has_a_digest_within_its_limit(json: Seq<u8>, limit: usize, wider: usize)
    ensures
        ({
            let r = header_digest(json, limit);
            let text = canonical_json(json_parsed(json)->Ok_0);
            &&& r is Ok <==> {
                &&& json_parsed(json) is Ok
                &&& json.len() <= limit
                &&& json.len() <= MAX_HEADER_CANONICALIZATION_BYTES
                &&& text.len() <= limit
                &&& text.len() <= MAX_HEADER_CANONICALIZATION_BYTES
            }
            &&& r is Ok ==> r->Ok_0.1 == text.len()
            &&& r is Ok && limit <= wider ==> header_digest(json, wider) == r
        }),
{
}

/// Headers with the same canonical form have the same digest, and headers with
/// the same digest have the same canonical form, unless two texts that are
/// digested collide.
pub proof fn law_digest_tells_the_canonical_form(
    a: JsonView,
    b: JsonView,
    limit: usize,
    reason: String,
)
    requires
        digest_of_tree(Ok(a), limit) is Ok,
        digest_of_tree(Ok(b), limit) is Ok,
    ensures
        ({
            let domain = "EFCHY-HEADER-CANONICAL-JSON-V1".spec_bytes();
            let (x, y) = (domain + canonical_json(a), domain + canonical_json(b));
            let (d, e) = (digest_of_tree(Ok(a), limit), digest_of_tree(Ok(b), limit));
            &&& canonical_json(a) == canonical_json(b) ==> d == e
            &&& d == e && (keccak_digest(x) == keccak_digest(y) ==> x == y) ==> canonical_json(a)
                == canonical_json(b)
            &&& digest_of_tree(Err(reason), limit) is Err
        }),
{
    let domain = "EFCHY-HEADER-CANONICAL-JSON-V1".spec_bytes();
    let (x, y) = (domain + canonical_json(a), domain + canonical_json(b));
    assert(x.skip(domain.len() as int) =~= canonical_json(a));
    assert(y.skip(domain.len() as int) =~= canonical_json(b));
}

} // verus!
