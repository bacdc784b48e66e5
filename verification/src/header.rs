//! Digests of block headers, whatever the order of their fields.
//!
//! A header is handed over as JSON. It is parsed, written again with the keys of
//! every object in ascending order, and digested under a domain of its own.
use crate::error::SubscriberError;
use crate::owners::{bytes_before, bytes_lt};
use crate::transcript::{keccak256, keccak_digest};
use crate::words::B256;
use vstd::prelude::*;
use vstd::string::StringSliceAdditionalSpecFns;
use vstd::utf8::encode_utf8;

verus! {

/// The longest header, in bytes, that is parsed.
pub const MAX_HEADER_CANONICALIZATION_BYTES: usize = 262_144;

/// A buffer that refuses to grow beyond a limit.
#[derive(Debug, PartialEq, Eq)]
pub struct BoundedHeaderBuffer {
    pub bytes: Vec<u8>,
    pub encoded_limit: usize,
    pub limit_exceeded: bool,
}

impl BoundedHeaderBuffer {
    /// An empty buffer for at most `encoded_limit` bytes.
    pub fn new(encoded_limit: usize) -> (r: BoundedHeaderBuffer)
        ensures
            r.bytes@.len() == 0,
            r.encoded_limit == encoded_limit,
            !r.limit_exceeded,
    {
        BoundedHeaderBuffer { bytes: Vec::new(), encoded_limit, limit_exceeded: false }
    }

    /// Appends bytes, unless the buffer would grow beyond its limit; then it is
    /// marked and left as it was.
    pub fn write(&mut self, bytes: &[u8]) -> (r: bool)
        ensures
            r == (old(self).bytes@.len() + bytes@.len() <= old(self).encoded_limit),
            final(self).encoded_limit == old(self).encoded_limit,
            r ==> final(self).bytes@ == old(self).bytes@ + bytes@ && final(self).limit_exceeded
                == old(self).limit_exceeded,
            !r ==> final(self).bytes@ == old(self).bytes@ && final(self).limit_exceeded,
    {
        let fits: bool = match self.bytes.len().checked_add(bytes.len()) {
            Some(next_len) => next_len <= self.encoded_limit,
            None => false,
        };
        if !fits {
            self.limit_exceeded = true;
            return false;
        }
        self.bytes.extend_from_slice(bytes);
        assert(self.bytes@ =~= old(self).bytes@ + bytes@);
        true
    }
}

/// A parsed JSON value. Numbers keep the text that they are written as.
#[derive(Debug, PartialEq, Eq)]
pub enum JsonTree {
    Null,
    Bool(bool),
    Number(String),
    Text(String),
    Array(Vec<JsonTree>),
    Object(Vec<JsonEntry>),
}

/// One field of a JSON object.
#[derive(Debug, PartialEq, Eq)]
pub struct JsonEntry {
    pub key: String,
    pub value: JsonTree,
}

/// A parsed JSON value over sequences.
pub enum JsonView {
    Null,
    Bool(bool),
    Number(Seq<char>),
    Text(Seq<char>),
    Array(Seq<JsonView>),
    Object(Seq<(Seq<char>, JsonView)>),
}

impl JsonTree {
    /// The value over sequences.
    pub open spec fn spec_view(self) -> JsonView
        decreases self,
    {
        match self {
            JsonTree::Null => JsonView::Null,
            JsonTree::Bool(b) => JsonView::Bool(b),
            JsonTree::Number(t) => JsonView::Number(t@),
            JsonTree::Text(t) => JsonView::Text(t@),
            JsonTree::Array(items) => JsonView::Array(
                Seq::new(
                    items@.len(),
                    |i: int|
                        if 0 <= i < items@.len() {
                            items@[i].spec_view()
                        } else {
                            JsonView::Null
                        },
                ),
            ),
            JsonTree::Object(entries) => JsonView::Object(
                Seq::new(
                    entries@.len(),
                    |i: int|
                        if 0 <= i < entries@.len() {
                            (entries@[i].key@, entries@[i].value.spec_view())
                        } else {
                            (Seq::empty(), JsonView::Null)
                        },
                ),
            ),
        }
    }
}

/// The value that some bytes spell as JSON, or what is said of bytes that are
/// not JSON.
pub uninterp spec fn json_parsed(bytes: Seq<u8>) -> Result<JsonView, String>;

/// A digit in hexadecimal.
pub open spec fn hex_digit(n: u8) -> u8 {
    if n < 10 {
        (0x30 + n) as u8
    } else {
        (0x57 + n) as u8
    }
}

/// A byte of a text as it stands in a JSON string.
pub open spec fn json_escaped(b: u8) -> Seq<u8> {
    if b == 0x22 || b == 0x5c {
        seq![0x5cu8, b]
    } else if b == 0x08 {
        seq![0x5cu8, 0x62u8]
    } else if b == 0x09 {
        seq![0x5cu8, 0x74u8]
    } else if b == 0x0a {
        seq![0x5cu8, 0x6eu8]
    } else if b == 0x0c {
        seq![0x5cu8, 0x66u8]
    } else if b == 0x0d {
        seq![0x5cu8, 0x72u8]
    } else if b < 0x20 {
        seq![0x5cu8, 0x75u8, 0x30u8, 0x30u8, hex_digit(b / 16), hex_digit(b % 16)]
    } else {
        seq![b]
    }
}

/// The bytes of a text as they stand in a JSON string.
pub open spec fn all_escaped(bytes: Seq<u8>) -> Seq<u8>
    decreases bytes.len(),
{
    if bytes.len() == 0 {
        Seq::empty()
    } else {
        all_escaped(bytes.drop_last()) + json_escaped(bytes.last())
    }
}

/// A text as a JSON string, with its quotes.
pub open spec fn json_quoted(text: Seq<char>) -> Seq<u8> {
    seq![0x22u8] + all_escaped(encode_utf8(text)) + seq![0x22u8]
}

/// The value type of `serde_json`, carried from the parser to `json_tree`.
#[verifier::external_type_specification]
#[verifier::external_body]
pub struct ExJsonValue(serde_json::Value);

/// Turns a `serde_json::Value` into a `JsonTree`, variant by variant. Nothing is
/// stated here: `parse_json` states what comes of the bytes.
#[verifier::external_body]
fn json_tree(value: serde_json::Value) -> JsonTree {
    match value {
        serde_json::Value::Null => JsonTree::Null,
        serde_json::Value::Bool(flag) => JsonTree::Bool(flag),
        serde_json::Value::Number(number) => JsonTree::Number(number.to_string()),
        serde_json::Value::String(text) => JsonTree::Text(text),
        serde_json::Value::Array(items) => {
            JsonTree::Array(items.into_iter().map(json_tree).collect())
        },
        serde_json::Value::Object(fields) => JsonTree::Object(
            fields.into_iter().map(|(key, value)| JsonEntry { key, value: json_tree(value) }).collect(),
        ),
    }
}

/// `serde_json::from_slice`: the JSON value that the bytes spell, or the text of
/// the error where they are not JSON; a function of the bytes alone.
#[verifier::external_body]
fn parse_json(bytes: &[u8]) -> (r: Result<JsonTree, String>)
    ensures
        match r {
            Ok(tree) => json_parsed(bytes@) == Ok::<_, String>(tree.spec_view()),
            Err(reason) => json_parsed(bytes@) == Err::<JsonView, _>(reason),
        },
{
    serde_json::from_slice::<serde_json::Value>(bytes)
        .map(json_tree)
        .map_err(|error| error.to_string())
}

/// `serde_json::to_vec` of a text: the text in quotes, with quotes, backslashes
/// and the bytes below a blank escaped, and every other byte of its UTF-8 form
/// as it is.
#[verifier::external_body]
fn quote_json(text: &str) -> (r: Vec<u8>)
    ensures
        r@ == json_quoted(text@),
{
    serde_json::to_vec(text).unwrap_or_default()
}

// ---------------------------------------------------------------------------
// One way to write a value
// ---------------------------------------------------------------------------

/// A key with what is written for its field.
pub struct Piece {
    pub key: Seq<u8>,
    pub text: Seq<u8>,
}

/// `p` put behind every piece whose key does not come after its own.
pub open spec fn insert_piece(s: Seq<Piece>, p: Piece) -> Seq<Piece>
    decreases s.len(),
{
    if s.len() == 0 || !bytes_lt(p.key, s.last().key) {
        s.push(p)
    } else {
        insert_piece(s.drop_last(), p).push(s.last())
    }
}

/// Pieces in ascending order of their keys.
pub open spec fn by_key(s: Seq<Piece>) -> Seq<Piece>
    decreases s.len(),
{
    if s.len() == 0 {
        s
    } else {
        insert_piece(by_key(s.drop_last()), s.last())
    }
}

/// Texts with commas between them.
pub open spec fn with_commas(s: Seq<Seq<u8>>) -> Seq<u8>
    decreases s.len(),
{
    if s.len() == 0 {
        Seq::empty()
    } else if s.len() == 1 {
        s[0]
    } else {
        with_commas(s.drop_last()) + seq![0x2cu8] + s.last()
    }
}

/// The texts of pieces.
pub open spec fn piece_texts(s: Seq<Piece>) -> Seq<Seq<u8>> {
    Seq::new(s.len(), |i: int| s[i].text)
}

/// A value written with the keys of every object in ascending order and no
/// blanks.
pub open spec fn canonical_json(v: JsonView) -> Seq<u8>
    decreases v, 1nat, 0nat,
{
    match v {
        JsonView::Null => "null".spec_bytes(),
        JsonView::Bool(true) => "true".spec_bytes(),
        JsonView::Bool(false) => "false".spec_bytes(),
        JsonView::Number(t) => encode_utf8(t),
        JsonView::Text(t) => json_quoted(t),
        JsonView::Array(items) => seq![0x5bu8] + with_commas(item_texts(v, items.len()))
            + seq![0x5du8],
        JsonView::Object(entries) => seq![0x7bu8] + with_commas(
            piece_texts(by_key(field_pieces(v, entries.len()))),
        ) + seq![0x7du8],
    }
}

/// What is written for the first `n` items of an array.
pub open spec fn item_texts(v: JsonView, n: nat) -> Seq<Seq<u8>>
    decreases v, 0nat, n,
{
    match v {
        JsonView::Array(items) => if n == 0 || n > items.len() {
            Seq::empty()
        } else {
            item_texts(v, (n - 1) as nat).push(canonical_json(items[n - 1]))
        },
        _ => Seq::empty(),
    }
}

/// What is written for the first `n` fields of an object, each with its key.
pub open spec fn field_pieces(v: JsonView, n: nat) -> Seq<Piece>
    decreases v, 0nat, n,
{
    match v {
        JsonView::Object(entries) => if n == 0 || n > entries.len() {
            Seq::empty()
        } else {
            field_pieces(v, (n - 1) as nat).push(
                Piece {
                    key: encode_utf8(entries[n - 1].0),
                    text: json_quoted(entries[n - 1].0) + seq![0x3au8] + canonical_json(
                        entries[n - 1].1,
                    ),
                },
            )
        },
        _ => Seq::empty(),
    }
}

/// A key with what is written for its field.
#[derive(Debug, PartialEq, Eq)]
struct FieldText {
    key: Vec<u8>,
    text: Vec<u8>,
}

spec fn pieces(s: Seq<FieldText>) -> Seq<Piece> {
    Seq::new(s.len(), |i: int| Piece { key: s[i].key@, text: s[i].text@ })
}

fn insert_field(fields: &mut Vec<FieldText>, field: FieldText)
    ensures
        pieces(final(fields)@) == insert_piece(
            pieces(old(fields)@),
            Piece { key: field.key@, text: field.text@ },
        ),
{
    let ghost all = pieces(fields@);
    let ghost p = Piece { key: field.key@, text: field.text@ };
    let mut at: usize = fields.len();
    assert(all.take(at as int) =~= all);
    assert(insert_piece(all, p) + all.skip(at as int) =~= insert_piece(all, p));
    while at > 0
        invariant
            at <= fields@.len(),
            fields@ == old(fields)@,
            all == pieces(old(fields)@),
            p == (Piece { key: field.key@, text: field.text@ }),
            insert_piece(all, p) == insert_piece(all.take(at as int), p) + all.skip(at as int),
        decreases at,
    {
        let ghost front = all.take(at as int);
        assert(front.last() == all[at - 1]);
        if !bytes_before(field.key.as_slice(), fields[at - 1].key.as_slice()) {
            fields.insert(at, field);
            assert(pieces(fields@) =~= front.push(p) + all.skip(at as int));
            return;
        }
        proof {
            assert(front.drop_last() =~= all.take(at - 1));
            assert(insert_piece(front, p) + all.skip(at as int) =~= insert_piece(
                all.take(at - 1),
                p,
            ) + all.skip(at - 1));
        }
        at -= 1;
    }
    fields.insert(0, field);
    assert(pieces(fields@) =~= all.take(0).push(p) + all.skip(0));
}

fn append(out: &mut Vec<u8>, bytes: &[u8])
    ensures
        final(out)@ == old(out)@ + bytes@,
{
    out.extend_from_slice(bytes);
    assert(out@ =~= old(out)@ + bytes@);
}

/// Writes a value with the keys of every object in ascending order.
fn write_canonical_json(tree: &JsonTree) -> (r: Vec<u8>)
    ensures
        r@ == canonical_json(tree.spec_view()),
    decreases *tree,
{
    let mut out: Vec<u8> = Vec::new();
    match tree {
        JsonTree::Null => {
            append(&mut out, "null".as_bytes());
            assert(out@ =~= "null".spec_bytes());
        },
        JsonTree::Bool(flag) => {
            if *flag {
                append(&mut out, "true".as_bytes());
                assert(out@ =~= "true".spec_bytes());
            } else {
                append(&mut out, "false".as_bytes());
                assert(out@ =~= "false".spec_bytes());
            }
        },
        JsonTree::Number(text) => {
            append(&mut out, text.as_str().as_bytes());
            assert(out@ =~= encode_utf8(text@));
        },
        JsonTree::Text(text) => {
            out = quote_json(text.as_str());
        },
        JsonTree::Array(items) => {
            let ghost view = tree.spec_view()->Array_0;
            out.push(0x5b);
            let mut i: usize = 0;
            assert(out@ =~= seq![0x5bu8] + with_commas(item_texts(JsonView::Array(view), 0)));
            while i < items.len()
                invariant
                    i <= items@.len(),
                    *tree == JsonTree::Array(*items),
                    view.len() == items@.len(),
                    forall|j: int| 0 <= j < view.len() ==> #[trigger] view[j] == items@[j].spec_view(),
                    item_texts(JsonView::Array(view), i as nat).len() == i,
                    out@ == seq![0x5bu8] + with_commas(item_texts(JsonView::Array(view), i as nat)),
                decreases items@.len() - i,
            {
                let ghost done = item_texts(JsonView::Array(view), i as nat);
                if i != 0 {
                    out.push(0x2c);
                }
                assert(decreases_to!(*items => items[i as int]));
                assert(decreases_to!(*tree => tree->Array_0));
                assert(tree->Array_0 == *items);
                assert(decreases_to!(*tree => items[i as int]));
                let mut item: Vec<u8> = write_canonical_json(&items[i]);
                proof {
                    assert(view[i as int] == items@[i as int].spec_view());
                    let next = item_texts(JsonView::Array(view), (i + 1) as nat);
                    assert(next == done.push(item@));
                    assert(next.drop_last() =~= done);
                }
                let ghost text = item@;
                out.append(&mut item);
                proof {
                    let next = done.push(text);
                    if i == 0 {
                        assert(next[0] == text);
                        assert(done =~= Seq::<Seq<u8>>::empty());
                    }
                    assert(out@ =~= seq![0x5bu8] + with_commas(next));
                }
                i += 1;
            }
            out.push(0x5d);
            assert(out@ =~= canonical_json(JsonView::Array(view)));
        },
        JsonTree::Object(entries) => {
            let ghost view = tree.spec_view()->Object_0;
            let mut fields: Vec<FieldText> = Vec::new();
            let mut i: usize = 0;
            assert(pieces(fields@) =~= by_key(field_pieces(JsonView::Object(view), 0)));
            while i < entries.len()
                invariant
                    i <= entries@.len(),
                    *tree == JsonTree::Object(*entries),
                    view.len() == entries@.len(),
                    forall|j: int|
                        0 <= j < view.len() ==> #[trigger] view[j] == (
                            entries@[j].key@,
                            entries@[j].value.spec_view(),
                        ),
                    pieces(fields@) == by_key(field_pieces(JsonView::Object(view), i as nat)),
                decreases entries@.len() - i,
            {
                let ghost done = field_pieces(JsonView::Object(view), i as nat);
                let entry: &JsonEntry = &entries[i];
                assert(view[i as int] == (entry.key@, entry.value.spec_view()));
                let mut text: Vec<u8> = quote_json(entry.key.as_str());
                text.push(0x3a);
                assert(decreases_to!(*entries => entries[i as int]));
                assert(decreases_to!(*tree => tree->Object_0));
                assert(tree->Object_0 == *entries);
                assert(decreases_to!(entries[i as int] => entries[i as int].value));
                assert(decreases_to!(*tree => entry.value));
                let mut value: Vec<u8> = write_canonical_json(&entry.value);
                let ghost last = Piece {
                    key: encode_utf8(entry.key@),
                    text: json_quoted(entry.key@) + seq![0x3au8] + value@,
                };
                text.append(&mut value);
                assert(text@ =~= last.text);
                let mut key: Vec<u8> = Vec::new();
                append(&mut key, entry.key.as_str().as_bytes());
                assert(key@ =~= last.key);
                insert_field(&mut fields, FieldText { key, text });
                proof {
                    let next = field_pieces(JsonView::Object(view), (i + 1) as nat);
                    assert(next == done.push(last));
                    assert(next.drop_last() =~= done);
                }
                i += 1;
            }
            let ghost all = field_pieces(JsonView::Object(view), view.len());
            let ghost texts = piece_texts(by_key(all));
            out.push(0x7b);
            let mut k: usize = 0;
            assert(out@ =~= seq![0x7bu8] + with_commas(texts.take(0)));
            while k < fields.len()
                invariant
                    k <= fields@.len(),
                    pieces(fields@) == by_key(all),
                    texts == piece_texts(by_key(all)),
                    out@ == seq![0x7bu8] + with_commas(texts.take(k as int)),
                decreases fields@.len() - k,
            {
                if k != 0 {
                    out.push(0x2c);
                }
                append(&mut out, fields[k].text.as_slice());
                proof {
                    let next = texts.take(k + 1);
                    assert(next.drop_last() =~= texts.take(k as int));
                    assert(pieces(fields@)[k as int].text == fields@[k as int].text@);
                    assert(next.last() == fields@[k as int].text@);
                    if k == 0 {
                        assert(next[0] == texts[0]);
                    }
                    assert(out@ =~= seq![0x7bu8] + with_commas(next));
                }
                k += 1;
            }
            assert(texts.take(k as int) =~= texts);
            out.push(0x7d);
            assert(out@ =~= canonical_json(JsonView::Object(view)));
        },
    }
    out
}

// ---------------------------------------------------------------------------
// Digests of headers
// ---------------------------------------------------------------------------

/// The digest of a header and the length of its canonical form, or why it has
/// none.
pub open spec fn header_digest(json: Seq<u8>, encoded_limit: usize) -> Result<
    (B256, usize),
    SubscriberError,
> {
    let limit = if encoded_limit <= MAX_HEADER_CANONICALIZATION_BYTES {
        encoded_limit
    } else {
        MAX_HEADER_CANONICALIZATION_BYTES
    };
    if json.len() > limit {
        Err(SubscriberError::HeaderTooLarge { limit })
    } else {
        digest_of_tree(json_parsed(json), limit)
    }
}

/// The digest of a parsed header whose canonical form may have `limit` bytes.
pub open spec fn digest_of_tree(tree: Result<JsonView, String>, limit: usize) -> Result<
    (B256, usize),
    SubscriberError,
> {
    match tree {
        Err(reason) => Err(SubscriberError::HeaderNotJson { reason }),
        Ok(v) => {
            let text = canonical_json(v);
            if text.len() > limit {
                Err(SubscriberError::HeaderTooLarge { limit })
            } else {
                Ok(
                    (
                        keccak_digest("EFCHY-HEADER-CANONICAL-JSON-V1".spec_bytes() + text),
                        text.len() as usize,
                    ),
                )
            }
        },
    }
}

/// The digest of a parsed header, and the length of its canonical form, which
/// may have `limit` bytes.
pub fn header_tree_digest(tree: &JsonTree, limit: usize) -> (r: Result<
    (B256, usize),
    SubscriberError,
>)
    ensures
        r == digest_of_tree(Ok(tree.spec_view()), limit),
{
    let text: Vec<u8> = write_canonical_json(tree);
    let length: usize = text.len();
    if length > limit {
        return Err(SubscriberError::HeaderTooLarge { limit });
    }
    let mut bytes: Vec<u8> = Vec::new();
    append(&mut bytes, "EFCHY-HEADER-CANONICAL-JSON-V1".as_bytes());
    append(&mut bytes, text.as_slice());
    assert(bytes@ =~= "EFCHY-HEADER-CANONICAL-JSON-V1".spec_bytes() + text@);
    Ok((keccak256(bytes.as_slice()), length))
}

/// The digest of a header that is handed over as JSON, and the length of its
/// canonical form. Neither form may have more bytes than the limit, nor than
/// the fixed limit of this module.
pub fn header_body_digest(json: &[u8], encoded_limit: usize) -> (r: Result<
    (B256, usize),
    SubscriberError,
>)
    ensures
        r == header_digest(json@, encoded_limit),
{
    let limit: usize = if encoded_limit <= MAX_HEADER_CANONICALIZATION_BYTES {
        encoded_limit
    } else {
        MAX_HEADER_CANONICALIZATION_BYTES
    };
    let mut bounded = BoundedHeaderBuffer::new(limit);
    if !bounded.write(json) {
        return Err(SubscriberError::HeaderTooLarge { limit });
    }
    assert(bounded.bytes@ =~= json@);
    match parse_json(bounded.bytes.as_slice()) {
        Err(reason) => Err(SubscriberError::HeaderNotJson { reason }),
        Ok(tree) => header_tree_digest(&tree, limit),
    }
}

} // verus!
