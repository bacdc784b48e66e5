//! The bytes of checkpoints, envelopes and tokens, and the digits of numbers.
use crate::audience::{CoverageView, RecordWitness, WitnessLifecycle};
use crate::checkpoint::{
    CertifiedHistoricalCoverage, CheckpointView, HybridSource, HybridTokenKind, IntentView,
    RecentView, SourceView, TokenView,
};
use crate::codec::{crc32_checksum, encoded, enveloped, half_bytes};
use crate::decode::MAX_CHECKPOINT_PAYLOAD_BYTES;
use crate::limits::limits_error;
use crate::message::{decimal, digit};
use crate::model::{BlockRef, InputRef, ReactiveInputIdentity, ReactiveInputKind};
use crate::rlp::{
    be_bytes, lemma_be_bytes, lemma_be_len_words, rlp_bool, rlp_header, rlp_list, rlp_string,
    rlp_uint,
};
use crate::token::wrapped;
use crate::validate::{state_error, SequenceVerdict};
use crate::wire::{
    enc_block, enc_checkpoint, enc_coverage, enc_identity, enc_input_ref, enc_intent, enc_middle,
    enc_opt_block, enc_opt_bytes, enc_opt_certified, enc_opt_hash, enc_opt_token, enc_opt_u64,
    enc_opt_witness, enc_recent, enc_source, enc_tail, enc_witness, flat_blocks, flat_digests,
    flat_generations, flat_recent,
};
use crate::words::{word_bytes, B256, Epoch};
use vstd::prelude::*;

verus! {

// ---------------------------------------------------------------------------
// Integers
// ---------------------------------------------------------------------------

/// The number that bytes spell, the most significant first.
pub open spec fn number_in(bytes: Seq<u8>) -> nat
    decreases bytes.len(),
{
    if bytes.len() == 0 {
        0
    } else {
        number_in(bytes.drop_last()) * 256 + bytes.last() as nat
    }
}

/// A number is spelled by its bytes, the most significant first, with none to
/// spare.
pub proof fn law_number_has_no_leading_zero(x: nat)
    ensures
        number_in(be_bytes(x)) == x,
        be_bytes(x).len() > 0 ==> be_bytes(x)[0] != 0,
    decreases x,
{
    if x > 0 {
        law_number_has_no_leading_zero(x / 256);
        assert(be_bytes(x).drop_last() =~= be_bytes(x / 256));
        lemma_be_bytes(x);
    }
}

/// A word takes eight bytes, the most significant first.
pub proof fn law_word_has_eight_bytes(x: u64)
    ensures
        word_bytes(x).len() == 8,
        number_in(word_bytes(x)) == x,
{
    let s = word_bytes(x);
    lemma_number_of_eight(s);
    let (a, b, c, d) = (s[0] as u64, s[1] as u64, s[2] as u64, s[3] as u64);
    let (e, f, g, h) = (s[4] as u64, s[5] as u64, s[6] as u64, s[7] as u64);
    assert(a * 0x100_0000_0000_0000 + b * 0x1_0000_0000_0000 + c * 0x100_0000_0000 + d
        * 0x1_0000_0000 + e * 0x100_0000 + f * 0x1_0000 + g * 0x100 + h == x) by (bit_vector)
        requires
            a == (x >> 56) as u8 as u64,
            b == (x >> 48) as u8 as u64,
            c == (x >> 40) as u8 as u64,
            d == (x >> 32) as u8 as u64,
            e == (x >> 24) as u8 as u64,
            f == (x >> 16) as u8 as u64,
            g == (x >> 8) as u8 as u64,
            h == x as u8 as u64,
    ;
}

proof fn lemma_number_step(s: Seq<u8>, n: int)
    requires
        0 < n <= s.len(),
    ensures
        number_in(s.take(n)) == number_in(s.take(n - 1)) * 256 + s[n - 1] as nat,
        number_in(s.take(0)) == 0,
{
    assert(s.take(n).drop_last() =~= s.take(n - 1));
    assert(s.take(n).last() == s[n - 1]);
}

proof fn lemma_number_of_eight(s: Seq<u8>)
    requires
        s.len() == 8,
    ensures
        number_in(s) == s[0] * 0x100_0000_0000_0000 + s[1] * 0x1_0000_0000_0000 + s[2]
            * 0x100_0000_0000 + s[3] * 0x1_0000_0000 + s[4] * 0x100_0000 + s[5] * 0x1_0000 + s[6]
            * 0x100 + s[7],
{
    lemma_number_step(s, 1);
    lemma_number_step(s, 2);
    lemma_number_step(s, 3);
    lemma_number_step(s, 4);
    lemma_number_step(s, 5);
    lemma_number_step(s, 6);
    lemma_number_step(s, 7);
    lemma_number_step(s, 8);
    assert(s.take(8) =~= s);
}

proof fn lemma_number_of_four(s: Seq<u8>)
    requires
        s.len() == 4,
    ensures
        number_in(s) == s[0] * 0x100_0000 + s[1] * 0x1_0000 + s[2] * 0x100 + s[3],
{
    lemma_number_step(s, 1);
    lemma_number_step(s, 2);
    lemma_number_step(s, 3);
    lemma_number_step(s, 4);
    assert(s.take(4) =~= s);
}

/// Half a word takes four bytes, the most significant first.
pub proof fn law_half_has_four_bytes(x: u32)
    ensures
        half_bytes(x).len() == 4,
        number_in(half_bytes(x)) == x,
{
    let s = half_bytes(x);
    lemma_number_of_four(s);
    let (a, b, c, d) = (s[0] as u32, s[1] as u32, s[2] as u32, s[3] as u32);
    assert(a * 0x100_0000 + b * 0x1_0000 + c * 0x100 + d == x) by (bit_vector)
        requires
            a == (x >> 24) as u8 as u32,
            b == (x >> 16) as u8 as u32,
            c == (x >> 8) as u8 as u32,
            d == x as u8 as u32,
    ;
}

/// The number that decimal digits spell.
pub open spec fn number_told(s: Seq<char>) -> nat
    decreases s.len(),
{
    if s.len() == 0 {
        0
    } else {
        number_told(s.drop_last()) * 10 + (s.last() as u32 - 0x30) as nat
    }
}

proof fn lemma_digit(n: nat)
    requires
        n < 10,
    ensures
        digit(n).len() == 1,
        digit(n)[0] as u32 == 0x30 + n,
{
    reveal_strlit("0");
    reveal_strlit("1");
    reveal_strlit("2");
    reveal_strlit("3");
    reveal_strlit("4");
    reveal_strlit("5");
    reveal_strlit("6");
    reveal_strlit("7");
    reveal_strlit("8");
    reveal_strlit("9");
}

/// A number is told in decimal digits, with none to spare.
pub proof fn law_number_is_told_in_digits(n: nat)
    ensures
        number_told(decimal(n)) == n,
        decimal(n).len() > 0,
        decimal(n).len() > 1 ==> decimal(n)[0] as u32 != 0x30,
        forall|i: int| 0 <= i < decimal(n).len() ==> 0x30 <= #[trigger] decimal(n)[i] as u32 <= 0x39,
        n > 0 ==> decimal(n)[0] as u32 != 0x30,
    decreases n,
{
    let s = decimal(n);
    if n < 10 {
        lemma_digit(n);
        assert(s.drop_last() =~= Seq::<char>::empty());
        assert(number_told(s.drop_last()) == 0);
    } else {
        law_number_is_told_in_digits(n / 10);
        lemma_digit(n % 10);
        assert(s.drop_last() =~= decimal(n / 10));
        assert(s[0] == decimal(n / 10)[0]);
    }
}

// ---------------------------------------------------------------------------
// Items
// ---------------------------------------------------------------------------

/// A header of up to fifty-five payload bytes is one byte, which tells strings
/// and lists apart and holds the length; a longer one holds how many bytes the
/// length takes, and then the length.
pub proof fn law_header_tells_kind_and_length(list: bool, n: nat)
    requires
        n <= u64::MAX,
    ensures
        ({
            let h = rlp_header(list, n);
            &&& n < 56 ==> h.len() == 1 && h[0] == n + if list {
                0xc0int
            } else {
                0x80int
            }
            &&& n >= 56 ==> {
                let l = h.skip(1);
                &&& number_in(l) == n
                &&& 1 <= l.len() <= 8
                &&& l[0] != 0
                &&& h[0] == l.len() + if list {
                    0xf7int
                } else {
                    0xb7int
                }
            }
        }),
{
    reveal(rlp_header);
    law_number_has_no_leading_zero(n);
    lemma_be_len_words(n);
    lemma_be_bytes(n);
    if n >= 56 {
        assert(rlp_header(list, n).skip(1) =~= be_bytes(n));
    }
}

/// A value as it is laid out.
pub enum Item {
    /// A byte string.
    Bytes(Seq<u8>),
    /// An unsigned integer.
    Number(nat),
    /// Items one behind the other.
    List(Seq<Item>),
}

/// What an item is written as.
#[verifier::opaque]
pub open spec fn written(item: Item) -> Seq<u8>
    decreases item, 1nat, 0nat,
{
    match item {
        Item::Bytes(b) => if b.len() == 1 && b[0] < 0x80 {
            b
        } else {
            rlp_header(false, b.len()) + b
        },
        Item::Number(n) => {
            let b = be_bytes(n);
            if b.len() == 1 && b[0] < 0x80 {
                b
            } else {
                rlp_header(false, b.len()) + b
            }
        },
        Item::List(items) => rlp_header(true, row(item, items.len()).len()) + row(
            item,
            items.len(),
        ),
    }
}

/// What the last `n` items of a list are written as, one behind the other.
#[verifier::opaque]
pub open spec fn row(item: Item, n: nat) -> Seq<u8>
    decreases item, 0nat, n,
{
    match item {
        Item::List(items) => if n == 0 || n > items.len() {
            Seq::empty()
        } else {
            written(items[items.len() - n]) + row(item, (n - 1) as nat)
        },
        _ => Seq::empty(),
    }
}

/// An optional value: an empty list, or a list of the value alone.
pub open spec fn option_item(value: Option<Item>) -> Item {
    match value {
        Some(x) => Item::List(seq![x]),
        None => Item::List(Seq::empty()),
    }
}

pub open spec fn hash_item(h: B256) -> Item {
    Item::Bytes(h.bytes())
}

pub open spec fn option_number(value: Option<u64>) -> Item {
    match value {
        Some(x) => option_item(Some(Item::Number(x as nat))),
        None => option_item(None),
    }
}

pub open spec fn option_hash(value: Option<B256>) -> Item {
    match value {
        Some(h) => option_item(Some(hash_item(h))),
        None => option_item(None),
    }
}

pub open spec fn option_bytes(value: Option<Seq<u8>>) -> Item {
    match value {
        Some(b) => option_item(Some(Item::Bytes(b))),
        None => option_item(None),
    }
}

pub open spec fn block_item(b: BlockRef) -> Item {
    Item::List(
        seq![
            Item::Number(b.number as nat),
            hash_item(b.hash),
            option_hash(b.parent_hash),
            option_number(b.timestamp),
        ],
    )
}

pub open spec fn option_block(value: Option<BlockRef>) -> Item {
    match value {
        Some(b) => option_item(Some(block_item(b))),
        None => option_item(None),
    }
}

pub open spec fn blocks_item(s: Seq<BlockRef>) -> Item {
    Item::List(Seq::new(s.len(), |i: int| block_item(s[i])))
}

pub open spec fn generation_item(entry: (Seq<u8>, u64)) -> Item {
    Item::List(seq![Item::Bytes(entry.0), Item::Number(entry.1 as nat)])
}

pub open spec fn generations_item(s: Seq<(Seq<u8>, u64)>) -> Item {
    Item::List(Seq::new(s.len(), |i: int| generation_item(s[i])))
}

pub open spec fn digest_item(entry: (Seq<u8>, B256)) -> Item {
    Item::List(seq![Item::Bytes(entry.0), hash_item(entry.1)])
}

pub open spec fn intent_item(intent: IntentView) -> Item {
    Item::List(
        seq![
            hash_item(intent.base),
            Item::List(Seq::new(intent.owners.len(), |i: int| digest_item(intent.owners[i]))),
        ],
    )
}

pub open spec fn reference_item(r: InputRef) -> Item {
    match r {
        InputRef::Log { chain_id, block_hash, transaction_hash, log_index } => Item::List(
            seq![
                Item::Number(1),
                option_number(chain_id),
                hash_item(block_hash),
                hash_item(transaction_hash),
                Item::Number(log_index as nat),
            ],
        ),
        InputRef::PendingTx { chain_id, hash } => Item::List(
            seq![Item::Number(2), option_number(chain_id), hash_item(hash)],
        ),
        InputRef::Block { chain_id, hash, number } => Item::List(
            seq![
                Item::Number(3),
                option_number(chain_id),
                hash_item(hash),
                Item::Number(number as nat),
            ],
        ),
    }
}

pub open spec fn identity_item(x: ReactiveInputIdentity) -> Item {
    Item::List(
        seq![
            reference_item(x.input_ref),
            Item::Number(
                match x.kind {
                    ReactiveInputKind::CanonicalLog => 1,
                    ReactiveInputKind::ReorgSignalLog => 2,
                    ReactiveInputKind::BlockHeader => 3,
                    ReactiveInputKind::FullBlock => 4,
                    ReactiveInputKind::PendingTxHash => 5,
                    ReactiveInputKind::PendingTx => 6,
                },
            ),
        ],
    )
}

pub open spec fn witness_item(w: RecordWitness) -> Item {
    Item::List(
        seq![
            hash_item(w.payload_digest),
            Item::Number(w.chain_id as nat),
            Item::Number(
                match w.lifecycle {
                    WitnessLifecycle::Included => 1,
                    WitnessLifecycle::Safe => 2,
                    WitnessLifecycle::Finalized => 3,
                    WitnessLifecycle::Reorg => 4,
                    WitnessLifecycle::Pending => 5,
                },
            ),
            option_block(w.block),
            option_number(w.transaction_index),
            option_number(w.log_index),
            option_number(w.log_block_timestamp),
        ],
    )
}

pub open spec fn option_witness(value: Option<RecordWitness>) -> Item {
    match value {
        Some(w) => option_item(Some(witness_item(w))),
        None => option_item(None),
    }
}

#[verifier::opaque]
pub open spec fn recent_item(r: RecentView) -> Item {
    Item::List(seq![identity_item(r.identity), coverage_item(r.coverage)])
}

pub open spec fn flag_item(b: bool) -> Item {
    Item::Number(if b { 1 } else { 0 })
}

pub open spec fn coverage_item(c: CoverageView) -> Item {
    Item::List(
        seq![
            flag_item(c.base),
            generations_item(c.owners),
            option_block(c.block),
            option_witness(c.witness),
        ],
    )
}

pub open spec fn source_item(p: SourceView) -> Item {
    Item::List(
        seq![
            option_bytes(p.delivery_token),
            option_bytes(p.checkpoint),
            option_block(p.coverage_head),
            blocks_item(p.canonical_history),
            option_hash(p.delivery_digest),
        ],
    )
}

pub open spec fn certified_item(c: CertifiedHistoricalCoverage) -> Item {
    Item::List(seq![Item::Number(c.lifecycle_generation as nat), block_item(c.through)])
}

pub open spec fn token_item(t: TokenView) -> Item {
    Item::List(
        seq![
            Item::Number(
                match t.source {
                    HybridSource::Historical => 1,
                    HybridSource::Live => 2,
                },
            ),
            Item::Number(
                match t.kind {
                    HybridTokenKind::Forwarded => 1,
                    HybridTokenKind::Synthetic => 2,
                },
            ),
            Item::Bytes(t.inner),
        ],
    )
}

pub open spec fn option_certified(value: Option<CertifiedHistoricalCoverage>) -> Item {
    match value {
        Some(x) => option_item(Some(certified_item(x))),
        None => option_item(None),
    }
}

pub open spec fn option_token(value: Option<TokenView>) -> Item {
    match value {
        Some(t) => option_item(Some(token_item(t))),
        None => option_item(None),
    }
}

/// A checkpoint: a list of fifteen items, in an order that never changes.
pub open spec fn checkpoint_item(c: CheckpointView) -> Item {
    Item::List(
        seq![
            Item::Number(c.chain_id as nat),
            Item::Bytes(c.epoch.bytes()),
            Item::Number(c.next_synthetic_token as nat),
            Item::Number(c.lifecycle_generation as nat),
            generations_item(c.owner_generations),
            intent_item(c.lifecycle_intent),
            Item::List(Seq::new(c.recent_inputs.len(), |i: int| recent_item(c.recent_inputs[i]))),
            blocks_item(c.canonical_history),
            option_block(c.coverage_head),
            option_block(c.safe_head),
            option_block(c.finalized_head),
            option_certified(c.certified_historical),
            source_item(c.historical_position),
            source_item(c.live_position),
            option_token(c.last_committed_token),
        ],
    )
}

proof fn lemma_leaf(b: Seq<u8>, n: nat)
    ensures
        written(Item::Bytes(b)) == rlp_string(b),
        written(Item::Number(n)) == rlp_uint(n),
{
    reveal(written);
}

proof fn lemma_list(items: Seq<Item>)
    ensures
        written(Item::List(items)) == rlp_list(row(Item::List(items), items.len())),
        row(Item::List(items), 0) == Seq::<u8>::empty(),
{
    reveal(written);
    reveal(row);
}

proof fn lemma_step(items: Seq<Item>, n: nat)
    requires
        1 <= n <= items.len(),
    ensures
        row(Item::List(items), n) == written(items[items.len() - n]) + row(
            Item::List(items),
            (n - 1) as nat,
        ),
{
    reveal_with_fuel(row, 2);
    reveal_with_fuel(written, 2);
}

proof fn lemma_one(items: Seq<Item>)
    requires
        items.len() >= 1,
    ensures
        row(Item::List(items), 1) == written(items[items.len() - 1]),
{
    lemma_list(items);
    lemma_step(items, 1);
    assert(written(items[items.len() - 1]) + Seq::<u8>::empty() =~= written(
        items[items.len() - 1],
    ));
}

proof fn lemma_option(x: Item)
    ensures
        written(option_item(Some(x))) == rlp_list(written(x)),
        written(option_item(None)) == rlp_list(Seq::empty()),
{
    lemma_list(seq![x]);
    lemma_one(seq![x]);
    lemma_list(Seq::empty());
}

proof fn lemma_two(a: Item, b: Item)
    ensures
        written(Item::List(seq![a, b])) == rlp_list(written(a) + written(b)),
{
    let items = seq![a, b];
    lemma_list(items);
    lemma_one(items);
    lemma_step(items, 2);
}

proof fn lemma_three(a: Item, b: Item, c: Item)
    ensures
        written(Item::List(seq![a, b, c])) == rlp_list(written(a) + (written(b) + written(c))),
{
    let items = seq![a, b, c];
    lemma_list(items);
    lemma_one(items);
    lemma_step(items, 2);
    lemma_step(items, 3);
}

proof fn lemma_four(a: Item, b: Item, c: Item, d: Item)
    ensures
        written(Item::List(seq![a, b, c, d])) == rlp_list(written(a) + (written(b) + (written(c) + written(d)))),
{
    let items = seq![a, b, c, d];
    lemma_list(items);
    lemma_one(items);
    lemma_step(items, 2);
    lemma_step(items, 3);
    lemma_step(items, 4);
}

proof fn lemma_five(a: Item, b: Item, c: Item, d: Item, e: Item)
    ensures
        written(Item::List(seq![a, b, c, d, e])) == rlp_list(written(a) + (written(b) + (written(c) + (written(d) + written(e))))),
{
    let items = seq![a, b, c, d, e];
    lemma_list(items);
    lemma_one(items);
    lemma_step(items, 2);
    lemma_step(items, 3);
    lemma_step(items, 4);
    lemma_step(items, 5);
}

proof fn lemma_options(n: Option<u64>, h: Option<B256>, b: Option<Seq<u8>>)
    ensures
        written(option_number(n)) == enc_opt_u64(n),
        written(option_hash(h)) == enc_opt_hash(h),
        written(option_bytes(b)) == enc_opt_bytes(b),
{
    lemma_option(Item::Number(n->Some_0 as nat));
    lemma_option(hash_item(h->Some_0));
    lemma_option(Item::Bytes(b->Some_0));
    lemma_leaf(b->Some_0, n->Some_0 as nat);
    lemma_leaf(h->Some_0.bytes(), 0);
}

proof fn lemma_block(b: BlockRef)
    ensures
        written(block_item(b)) == enc_block(b),
{
    lemma_options(b.timestamp, b.parent_hash, None);
    lemma_leaf(b.hash.bytes(), b.number as nat);
    lemma_four(
        Item::Number(b.number as nat),
        hash_item(b.hash),
        option_hash(b.parent_hash),
        option_number(b.timestamp),
    );
}

proof fn lemma_option_block(value: Option<BlockRef>)
    ensures
        written(option_block(value)) == enc_opt_block(value),
{
    lemma_block(value->Some_0);
    lemma_option(block_item(value->Some_0));
}

proof fn lemma_blocks_row(s: Seq<BlockRef>, n: nat)
    requires
        n <= s.len(),
    ensures
        row(blocks_item(s), n) == flat_blocks(s.skip(s.len() - n)),
    decreases n,
{
    let items = Seq::new(s.len(), |i: int| block_item(s[i]));
    lemma_list(items);
    let t = s.skip(s.len() - n);
    if n > 0 {
        lemma_step(items, n);
        lemma_blocks_row(s, (n - 1) as nat);
        lemma_block(s[s.len() - n]);
        assert(t.drop_first() =~= s.skip(s.len() - (n - 1)));
        assert(t[0] == s[s.len() - n]);
    }
}

proof fn lemma_blocks(s: Seq<BlockRef>)
    ensures
        written(blocks_item(s)) == rlp_list(flat_blocks(s)),
{
    lemma_list(Seq::new(s.len(), |i: int| block_item(s[i])));
    lemma_blocks_row(s, s.len());
    assert(s.skip(0) =~= s);
}

proof fn lemma_generations_row(s: Seq<(Seq<u8>, u64)>, n: nat)
    requires
        n <= s.len(),
    ensures
        row(generations_item(s), n) == flat_generations(s.skip(s.len() - n)),
    decreases n,
{
    let items = Seq::new(s.len(), |i: int| generation_item(s[i]));
    lemma_list(items);
    let t = s.skip(s.len() - n);
    if n > 0 {
        let e = s[s.len() - n];
        lemma_step(items, n);
        lemma_generations_row(s, (n - 1) as nat);
        lemma_leaf(e.0, e.1 as nat);
        lemma_two(Item::Bytes(e.0), Item::Number(e.1 as nat));
        assert(t.drop_first() =~= s.skip(s.len() - (n - 1)));
        assert(t[0] == e);
    }
}

proof fn lemma_generations(s: Seq<(Seq<u8>, u64)>)
    ensures
        written(generations_item(s)) == rlp_list(flat_generations(s)),
{
    lemma_list(Seq::new(s.len(), |i: int| generation_item(s[i])));
    lemma_generations_row(s, s.len());
    assert(s.skip(0) =~= s);
}

spec fn digests_item(s: Seq<(Seq<u8>, B256)>) -> Item {
    Item::List(Seq::new(s.len(), |i: int| digest_item(s[i])))
}

proof fn lemma_digests_row(s: Seq<(Seq<u8>, B256)>, n: nat)
    requires
        n <= s.len(),
    ensures
        row(digests_item(s), n) == flat_digests(s.skip(s.len() - n)),
    decreases n,
{
    let items = Seq::new(s.len(), |i: int| digest_item(s[i]));
    lemma_list(items);
    let t = s.skip(s.len() - n);
    if n > 0 {
        let e = s[s.len() - n];
        lemma_step(items, n);
        lemma_digests_row(s, (n - 1) as nat);
        lemma_leaf(e.0, 0);
        lemma_leaf(e.1.bytes(), 0);
        lemma_two(Item::Bytes(e.0), hash_item(e.1));
        assert(t.drop_first() =~= s.skip(s.len() - (n - 1)));
        assert(t[0] == e);
    }
}

proof fn lemma_intent(intent: IntentView)
    ensures
        written(intent_item(intent)) == enc_intent(intent),
{
    let owners = digests_item(intent.owners);
    lemma_list(Seq::new(intent.owners.len(), |i: int| digest_item(intent.owners[i])));
    lemma_leaf(intent.base.bytes(), 0);
    lemma_digests_row(intent.owners, intent.owners.len());
    assert(intent.owners.skip(0) =~= intent.owners);
    lemma_two(hash_item(intent.base), owners);
    assert(intent_item(intent) == Item::List(seq![hash_item(intent.base), owners]));
}

proof fn lemma_reference(r: InputRef)
    ensures
        written(reference_item(r)) == enc_input_ref(r),
{
    match r {
        InputRef::Log { chain_id, block_hash, transaction_hash, log_index } => {
            lemma_options(chain_id, None, None);
            lemma_leaf(block_hash.bytes(), 1);
            lemma_leaf(transaction_hash.bytes(), log_index as nat);
            lemma_five(
                Item::Number(1),
                option_number(chain_id),
                hash_item(block_hash),
                hash_item(transaction_hash),
                Item::Number(log_index as nat),
            );
        },
        InputRef::PendingTx { chain_id, hash } => {
            lemma_options(chain_id, None, None);
            lemma_leaf(hash.bytes(), 2);
            lemma_three(Item::Number(2), option_number(chain_id), hash_item(hash));
        },
        InputRef::Block { chain_id, hash, number } => {
            lemma_options(chain_id, None, None);
            lemma_leaf(hash.bytes(), 3);
            lemma_leaf(hash.bytes(), number as nat);
            lemma_four(
                Item::Number(3),
                option_number(chain_id),
                hash_item(hash),
                Item::Number(number as nat),
            );
        },
    }
}

proof fn lemma_identity(x: ReactiveInputIdentity)
    ensures
        written(identity_item(x)) == enc_identity(x),
{
    let kind = Item::Number(crate::wire::kind_tag(x.kind) as nat);
    lemma_reference(x.input_ref);
    lemma_leaf(Seq::empty(), crate::wire::kind_tag(x.kind) as nat);
    lemma_two(reference_item(x.input_ref), kind);
    assert(identity_item(x) == Item::List(seq![reference_item(x.input_ref), kind]));
}

proof fn lemma_witness(w: RecordWitness)
    ensures
        written(witness_item(w)) == enc_witness(w),
{
    let (a, b) = (hash_item(w.payload_digest), Item::Number(w.chain_id as nat));
    let c = Item::Number(crate::wire::lifecycle_tag(w.lifecycle) as nat);
    let (d, e) = (option_block(w.block), option_number(w.transaction_index));
    let (f, g) = (option_number(w.log_index), option_number(w.log_block_timestamp));
    let items = seq![a, b, c, d, e, f, g];
    assert(witness_item(w) == Item::List(items));
    lemma_leaf(w.payload_digest.bytes(), w.chain_id as nat);
    lemma_leaf(Seq::empty(), crate::wire::lifecycle_tag(w.lifecycle) as nat);
    lemma_option_block(w.block);
    lemma_options(w.transaction_index, None, None);
    lemma_options(w.log_index, None, None);
    lemma_options(w.log_block_timestamp, None, None);
    lemma_list(items);
    lemma_one(items);
    lemma_step(items, 2);
    lemma_step(items, 3);
    lemma_step(items, 4);
    lemma_step(items, 5);
    lemma_step(items, 6);
    lemma_step(items, 7);
}

proof fn lemma_coverage(c: CoverageView)
    ensures
        written(coverage_item(c)) == enc_coverage(c),
{
    lemma_leaf(Seq::empty(), 1);
    lemma_leaf(Seq::empty(), 0);
    lemma_witness(c.witness->Some_0);
    lemma_option(witness_item(c.witness->Some_0));
    assert(written(option_witness(c.witness)) == enc_opt_witness(c.witness));
    assert(written(flag_item(c.base)) == rlp_bool(c.base));
    lemma_option_block(c.block);
    lemma_generations(c.owners);
    lemma_four(
        flag_item(c.base),
        generations_item(c.owners),
        option_block(c.block),
        option_witness(c.witness),
    );
}

proof fn lemma_recent(r: RecentView)
    ensures
        written(recent_item(r)) == enc_recent(r),
{
    reveal(recent_item);
    lemma_identity(r.identity);
    lemma_coverage(r.coverage);
    lemma_two(identity_item(r.identity), coverage_item(r.coverage));
}

spec fn recents_item(s: Seq<RecentView>) -> Item {
    Item::List(Seq::new(s.len(), |i: int| recent_item(s[i])))
}

proof fn lemma_recents_row(s: Seq<RecentView>, n: nat)
    requires
        n <= s.len(),
    ensures
        row(recents_item(s), n) == flat_recent(s.skip(s.len() - n)),
    decreases n,
{
    let items = Seq::new(s.len(), |i: int| recent_item(s[i]));
    lemma_list(items);
    let t = s.skip(s.len() - n);
    if n > 0 {
        lemma_step(items, n);
        lemma_recents_row(s, (n - 1) as nat);
        lemma_recent(s[s.len() - n]);
        assert(t.drop_first() =~= s.skip(s.len() - (n - 1)));
        assert(t[0] == s[s.len() - n]);
    }
}

proof fn lemma_source(p: SourceView)
    ensures
        written(source_item(p)) == enc_source(p),
{
    lemma_options(None, p.delivery_digest, p.delivery_token);
    lemma_options(None, None, p.checkpoint);
    lemma_option_block(p.coverage_head);
    lemma_blocks(p.canonical_history);
    lemma_five(
        option_bytes(p.delivery_token),
        option_bytes(p.checkpoint),
        option_block(p.coverage_head),
        blocks_item(p.canonical_history),
        option_hash(p.delivery_digest),
    );
}

proof fn lemma_ends(c: CheckpointView)
    ensures
        written(option_certified(c.certified_historical)) == enc_opt_certified(
            c.certified_historical,
        ),
        written(option_token(c.last_committed_token)) == enc_opt_token(c.last_committed_token),
{
    let x = c.certified_historical->Some_0;
    lemma_block(x.through);
    lemma_leaf(Seq::empty(), x.lifecycle_generation as nat);
    lemma_two(Item::Number(x.lifecycle_generation as nat), block_item(x.through));
    lemma_option(certified_item(x));
    let t = c.last_committed_token->Some_0;
    let source = Item::Number(t.source.spec_tag() as nat);
    let kind = Item::Number(t.kind.spec_tag() as nat);
    lemma_leaf(t.inner, t.source.spec_tag() as nat);
    lemma_leaf(t.inner, t.kind.spec_tag() as nat);
    lemma_three(source, kind, Item::Bytes(t.inner));
    assert(token_item(t) == Item::List(seq![source, kind, Item::Bytes(t.inner)]));
    lemma_option(token_item(t));
}

proof fn lemma_tail(c: CheckpointView)
    ensures
        row(checkpoint_item(c), 7) == enc_tail(c),
{
    reveal(enc_tail);
    let items = checkpoint_item(c)->List_0;
    lemma_option_block(c.coverage_head);
    lemma_option_block(c.safe_head);
    lemma_option_block(c.finalized_head);
    lemma_source(c.historical_position);
    lemma_source(c.live_position);
    lemma_ends(c);
    lemma_one(items);
    lemma_step(items, 2);
    lemma_step(items, 3);
    lemma_step(items, 4);
    lemma_step(items, 5);
    lemma_step(items, 6);
    lemma_step(items, 7);
}

proof fn lemma_middle(c: CheckpointView)
    ensures
        row(checkpoint_item(c), 11) == enc_middle(c),
{
    reveal(enc_middle);
    let items = checkpoint_item(c)->List_0;
    lemma_tail(c);
    lemma_generations(c.owner_generations);
    lemma_intent(c.lifecycle_intent);
    lemma_recents_row(c.recent_inputs, c.recent_inputs.len());
    lemma_list(Seq::new(c.recent_inputs.len(), |i: int| recent_item(c.recent_inputs[i])));
    assert(c.recent_inputs.skip(0) =~= c.recent_inputs);
    assert(items[6] == recents_item(c.recent_inputs));
    lemma_blocks(c.canonical_history);
    lemma_step(items, 8);
    lemma_step(items, 9);
    lemma_step(items, 10);
    lemma_step(items, 11);
}

/// A payload is one list of fifteen items in an order that never changes, each
/// laid out as its kind is: the reader of another version finds every field
/// where it was.
pub proof fn law_payload_keeps_its_layout(c: CheckpointView)
    ensures
        enc_checkpoint(c) == written(checkpoint_item(c)),
{
    let items = checkpoint_item(c)->List_0;
    lemma_middle(c);
    lemma_leaf(c.epoch.bytes(), c.chain_id as nat);
    lemma_leaf(c.epoch.bytes(), c.next_synthetic_token as nat);
    lemma_leaf(c.epoch.bytes(), c.lifecycle_generation as nat);
    lemma_list(items);
    lemma_step(items, 12);
    lemma_step(items, 13);
    lemma_step(items, 14);
    lemma_step(items, 15);
}

// ---------------------------------------------------------------------------
// Envelopes and tokens
// ---------------------------------------------------------------------------

/// An envelope starts with its name and version, then the length of the payload
/// and its checksum, then the payload as it is.
pub proof fn law_envelope_keeps_its_layout(payload: Seq<u8>)
    requires
        payload.len() <= u32::MAX,
    ensures
        ({
            let s = enveloped(payload);
            &&& s.len() == 18 + payload.len()
            &&& s.take(8) == seq![0x45u8, 0x46, 0x43, 0x48, 0x59, 0x43, 0x50, 0x00]
            &&& number_in(s.subrange(8, 10)) == 5
            &&& number_in(s.subrange(10, 14)) == payload.len()
            &&& number_in(s.subrange(14, 18)) == crc32_checksum(payload)
            &&& s.skip(18) == payload
        }),
{
    let s = enveloped(payload);
    law_half_has_four_bytes(payload.len() as u32);
    law_half_has_four_bytes(crc32_checksum(payload));
    assert(s.take(8) =~= seq![0x45u8, 0x46, 0x43, 0x48, 0x59, 0x43, 0x50, 0x00]);
    assert(s.subrange(8, 10) =~= seq![0u8, 5u8]);
    assert(seq![0u8, 5u8].drop_last() =~= seq![0u8]);
    assert(seq![0u8].drop_last() =~= Seq::<u8>::empty());
    assert(number_in(Seq::<u8>::empty()) == 0);
    assert(number_in(seq![0u8]) == 0);
    assert(s.subrange(10, 14) =~= half_bytes(payload.len() as u32));
    assert(s.subrange(14, 18) =~= half_bytes(crc32_checksum(payload)));
    assert(s.skip(18) =~= payload);
}

/// A state is written exactly where it is valid, keeps to the limits of the wire
/// form, and its payload is no longer than asked for, nor than any may be.
pub proof fn law_state_is_written_where_it_can_be_read(
    c: CheckpointView,
    sequence: SequenceVerdict,
    limit: usize,
)
    ensures
        encoded(c, sequence, limit) is Ok <==> {
            &&& state_error(c, sequence) is None
            &&& limits_error(c) is None
            &&& enc_checkpoint(c).len() <= limit
            &&& enc_checkpoint(c).len() <= MAX_CHECKPOINT_PAYLOAD_BYTES
        },
        encoded(c, sequence, limit) is Ok ==> encoded(c, sequence, limit)->Ok_0 == enveloped(
            enc_checkpoint(c),
        ),
{
}

/// A token starts with its name, then the epoch, the source and the kind, then
/// what the source gave, or the number that was made up, as it is.
pub proof fn law_token_keeps_its_layout(
    epoch: Epoch,
    source: HybridSource,
    kind: HybridTokenKind,
    inner: Seq<u8>,
)
    ensures
        ({
            let t = wrapped(epoch, source, kind, inner);
            &&& t.len() == 26 + inner.len()
            &&& t.take(8) == seq![0x45u8, 0x46, 0x43, 0x48, 0x59, 0x42, 0x32, 0x00]
            &&& t.subrange(8, 24) == epoch.bytes()
            &&& t[24] == match source {
                HybridSource::Historical => 1u8,
                HybridSource::Live => 2u8,
            }
            &&& t[25] == match kind {
                HybridTokenKind::Forwarded => 1u8,
                HybridTokenKind::Synthetic => 2u8,
            }
            &&& t.skip(26) == inner
        }),
{
    let t = wrapped(epoch, source, kind, inner);
    assert(t.take(8) =~= seq![0x45u8, 0x46, 0x43, 0x48, 0x59, 0x42, 0x32, 0x00]);
    assert(t.subrange(8, 24) =~= epoch.bytes());
    assert(t.skip(26) =~= inner);
}

} // verus!
