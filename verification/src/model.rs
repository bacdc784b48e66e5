//! Blocks, inputs and handlers as the coordinator sees them.
use crate::error::SubscriberError;
use crate::words::B256;
use vstd::prelude::*;
use vstd::utf8::{decode_utf8, encode_utf8, valid_utf8};

verus! {

/// A reference to one canonical block.
#[derive(Clone, Copy, Debug, PartialEq, Eq, Structural)]
pub struct BlockRef {
    pub number: u64,
    pub hash: B256,
    pub parent_hash: Option<B256>,
    pub timestamp: Option<u64>,
}

/// What one optional item is known to be once two accounts of it are joined.
pub open spec fn merged_metadata<T>(
    left: Option<T>,
    right: Option<T>,
    label: &'static str,
    number: u64,
) -> Result<Option<T>, SubscriberError> {
    if left is Some && right is Some && left->Some_0 != right->Some_0 {
        Err(SubscriberError::MetadataConflict { label, number })
    } else if left is Some {
        Ok(left)
    } else {
        Ok(right)
    }
}

/// Joins two accounts of an optional number, which may complete but never
/// contradict each other.
pub fn merge_optional_metadata(
    left: Option<u64>,
    right: Option<u64>,
    label: &'static str,
    block_number: u64,
) -> (r: Result<Option<u64>, SubscriberError>)
    ensures
        r == merged_metadata(left, right, label, block_number),
{
    match (left, right) {
        (Some(a), Some(b)) => if a != b {
            Err(SubscriberError::MetadataConflict { label, number: block_number })
        } else {
            Ok(Some(a))
        },
        (Some(a), None) => Ok(Some(a)),
        (None, b) => Ok(b),
    }
}

/// Joins two accounts of an optional hash.
fn merge_optional_hash(
    left: Option<B256>,
    right: Option<B256>,
    label: &'static str,
    block_number: u64,
) -> (r: Result<Option<B256>, SubscriberError>)
    ensures
        r == merged_metadata(left, right, label, block_number),
{
    match (left, right) {
        (Some(a), Some(b)) => if a != b {
            Err(SubscriberError::MetadataConflict { label, number: block_number })
        } else {
            Ok(Some(a))
        },
        (Some(a), None) => Ok(Some(a)),
        (None, b) => Ok(b),
    }
}

/// What two references to one block say together, or why they cannot both be
/// true.
pub open spec fn merged_block(left: BlockRef, right: BlockRef) -> Result<
    BlockRef,
    SubscriberError,
> {
    if left.number != right.number || left.hash != right.hash {
        Err(SubscriberError::BlockConflict { number: left.number })
    } else {
        match merged_metadata(left.parent_hash, right.parent_hash, "parent hash", left.number) {
            Err(e) => Err(e),
            Ok(parent_hash) => match merged_metadata(
                left.timestamp,
                right.timestamp,
                "timestamp",
                left.number,
            ) {
                Err(e) => Err(e),
                Ok(timestamp) => Ok(
                    BlockRef { number: left.number, hash: left.hash, parent_hash, timestamp },
                ),
            },
        }
    }
}

/// Joins two references to one block.
pub fn compatible_block_ref(left: &BlockRef, right: &BlockRef) -> (r: Result<
    BlockRef,
    SubscriberError,
>)
    ensures
        r == merged_block(*left, *right),
{
    if left.number != right.number || left.hash != right.hash {
        return Err(SubscriberError::BlockConflict { number: left.number });
    }
    let parent_hash = merge_optional_hash(
        left.parent_hash,
        right.parent_hash,
        "parent hash",
        left.number,
    )?;
    let timestamp = merge_optional_metadata(
        left.timestamp,
        right.timestamp,
        "timestamp",
        left.number,
    )?;
    Ok(BlockRef { number: left.number, hash: left.hash, parent_hash, timestamp })
}

/// Whether two references to one height agree, where both speak of it.
pub open spec fn same_height_conflict(left: BlockRef, right: BlockRef) -> Option<SubscriberError> {
    if left.number == right.number {
        match merged_block(left, right) {
            Err(e) => Some(e),
            Ok(_) => None,
        }
    } else {
        None
    }
}

/// Refuses two references to one height that contradict each other.
pub fn compatible_same_height_metadata(left: &BlockRef, right: &BlockRef) -> (r: Result<
    (),
    SubscriberError,
>)
    ensures
        match r {
            Ok(_) => same_height_conflict(*left, *right) is None,
            Err(e) => same_height_conflict(*left, *right) == Some(e),
        },
{
    if left.number == right.number {
        compatible_block_ref(left, right)?;
    }
    Ok(())
}

/// Joining two references does not depend on their order, as far as success
/// and the joined value go.
pub proof fn law_merged_block_commutes(left: BlockRef, right: BlockRef)
    ensures
        merged_block(left, right) is Ok <==> merged_block(right, left) is Ok,
        merged_block(left, right) is Ok ==> merged_block(left, right) == merged_block(right, left),
{
}

/// A joined reference says everything that either part said, and joining it
/// with either part again changes nothing.
pub proof fn law_merged_block_extends(left: BlockRef, right: BlockRef)
    ensures
        match merged_block(left, right) {
            Ok(m) => merged_block(m, left) == Ok::<_, SubscriberError>(m) && merged_block(m, right)
                == Ok::<_, SubscriberError>(m) && merged_block(left, m) == Ok::<_, SubscriberError>(
                m,
            ) && (left.parent_hash is Some ==> m.parent_hash == left.parent_hash) && (
            right.timestamp is Some ==> m.timestamp == right.timestamp),
            Err(_) => true,
        },
        merged_block(left, left) == Ok::<_, SubscriberError>(left),
{
}

/// Which representation of an input was delivered.
#[derive(Clone, Copy, Debug, PartialEq, Eq, Structural)]
pub enum ReactiveInputKind {
    CanonicalLog,
    ReorgSignalLog,
    BlockHeader,
    FullBlock,
    PendingTxHash,
    PendingTx,
}

/// What an input refers to on the chain.
#[derive(Clone, Copy, Debug, PartialEq, Eq, Structural)]
pub enum InputRef {
    Log { chain_id: Option<u64>, block_hash: B256, transaction_hash: B256, log_index: u64 },
    PendingTx { chain_id: Option<u64>, hash: B256 },
    Block { chain_id: Option<u64>, hash: B256, number: u64 },
}

/// The chain that an input names, if it names one.
pub open spec fn chain_of(input_ref: InputRef) -> Option<u64> {
    match input_ref {
        InputRef::Log { chain_id, .. } => chain_id,
        InputRef::PendingTx { chain_id, .. } => chain_id,
        InputRef::Block { chain_id, .. } => chain_id,
    }
}

/// The chain that an input names, if it names one.
pub fn input_ref_chain_id(input_ref: InputRef) -> (r: Option<u64>)
    ensures
        r == chain_of(input_ref),
{
    match input_ref {
        InputRef::Log { chain_id, .. } => chain_id,
        InputRef::PendingTx { chain_id, .. } => chain_id,
        InputRef::Block { chain_id, .. } => chain_id,
    }
}

/// An input together with the representation in which it was delivered.
#[derive(Clone, Copy, Debug, PartialEq, Eq, Structural)]
pub struct ReactiveInputIdentity {
    pub input_ref: InputRef,
    pub kind: ReactiveInputKind,
}

impl ReactiveInputIdentity {
    /// Whether the representation can stand for what is referred to.
    pub open spec fn compatible(self) -> bool {
        match self.input_ref {
            InputRef::Log { .. } => self.kind == ReactiveInputKind::CanonicalLog || self.kind
                == ReactiveInputKind::ReorgSignalLog,
            InputRef::Block { .. } => self.kind == ReactiveInputKind::BlockHeader || self.kind
                == ReactiveInputKind::FullBlock,
            InputRef::PendingTx { .. } => self.kind == ReactiveInputKind::PendingTxHash
                || self.kind == ReactiveInputKind::PendingTx,
        }
    }

    /// Pairs a reference with a representation that can stand for it.
    pub fn try_from_parts(input_ref: InputRef, kind: ReactiveInputKind) -> (r: Option<
        ReactiveInputIdentity,
    >)
        ensures
            r == (if (ReactiveInputIdentity { input_ref, kind }).compatible() {
                Some(ReactiveInputIdentity { input_ref, kind })
            } else {
                None
            }),
    {
        let matches: bool = match input_ref {
            InputRef::Log { .. } => kind == ReactiveInputKind::CanonicalLog || kind
                == ReactiveInputKind::ReorgSignalLog,
            InputRef::Block { .. } => kind == ReactiveInputKind::BlockHeader || kind
                == ReactiveInputKind::FullBlock,
            InputRef::PendingTx { .. } => kind == ReactiveInputKind::PendingTxHash || kind
                == ReactiveInputKind::PendingTx,
        };
        if matches {
            Some(ReactiveInputIdentity { input_ref, kind })
        } else {
            None
        }
    }
}

/// The name of a handler: a text that is not empty.
#[derive(Debug, PartialEq, Eq)]
pub struct HandlerId {
    text: String,
}

impl View for HandlerId {
    type V = Seq<u8>;

    /// The UTF-8 bytes of the name.
    closed spec fn view(&self) -> Seq<u8> {
        encode_utf8(self.text@)
    }
}

/// What every handler id is: UTF-8 and not empty.
pub open spec fn handler_bytes(s: Seq<u8>) -> bool {
    s.len() > 0 && valid_utf8(s)
}

/// `std::str::from_utf8` followed by taking ownership of the text: a text comes
/// back exactly where the bytes are UTF-8, and its bytes are the bytes given.
#[verifier::external_body]
fn utf8_text(bytes: &[u8]) -> (r: Option<String>)
    ensures
        r is Some <==> valid_utf8(bytes@),
        r is Some ==> encode_utf8(r->Some_0@) == bytes@,
{
    std::str::from_utf8(bytes).ok().map(String::from)
}

/// A text as `std` shows it for debugging: in quotes, with escapes.
pub uninterp spec fn shown_text(text: Seq<char>) -> String;

/// `std`'s `Debug` form of a `str`, by `format!`: a function of the text alone.
/// Which characters it escapes, and how, is not stated.
#[verifier::external_body]
fn show_text(text: &str) -> (r: String)
    ensures
        r == shown_text(text@),
{
    format!("{text:?}")
}

/// A handler id as it is shown in a message.
pub open spec fn shown_id(id: Seq<u8>) -> String {
    shown_text(decode_utf8(id))
}

impl HandlerId {
    #[verifier::type_invariant]
    pub closed spec fn not_empty(self) -> bool {
        handler_bytes(encode_utf8(self.text@))
    }

    /// The id as it is shown in a message.
    pub fn shown(&self) -> (r: String)
        ensures
            r == shown_id(self@),
    {
        proof {
            vstd::utf8::encode_utf8_decode_utf8(self.text@);
        }
        show_text(self.text.as_str())
    }

    /// The id with this text, unless the text is empty.
    pub fn try_new(text: String) -> (r: Option<HandlerId>)
        ensures
            r is Some <==> encode_utf8(text@).len() > 0,
            r is Some ==> r->Some_0@ == encode_utf8(text@),
    {
        proof {
            vstd::utf8::encode_utf8_valid_utf8(text@);
        }
        if text.as_str().as_bytes().len() > 0 {
            Some(HandlerId { text })
        } else {
            None
        }
    }

    /// The id with these bytes: `Err(true)` where they are not UTF-8,
    /// `Err(false)` where they are empty.
    pub(crate) fn from_wire(bytes: &[u8]) -> (r: Result<HandlerId, bool>)
        ensures
            match r {
                Ok(id) => handler_bytes(bytes@) && id@ == bytes@,
                Err(true) => !valid_utf8(bytes@),
                Err(false) => valid_utf8(bytes@) && bytes@.len() == 0,
            },
    {
        match utf8_text(bytes) {
            None => Err(true),
            Some(text) => if bytes.len() == 0 {
                Err(false)
            } else {
                Ok(HandlerId { text })
            },
        }
    }

    /// The text of the id.
    pub fn as_str(&self) -> (r: &str)
        ensures
            encode_utf8(r@) == self@,
    {
        self.text.as_str()
    }

    /// The bytes of the id.
    pub fn as_bytes(&self) -> (r: &[u8])
        ensures
            r@ == self@,
            handler_bytes(self@),
    {
        proof {
            use_type_invariant(self);
        }
        self.text.as_str().as_bytes()
    }

    /// The number of bytes of the id.
    pub fn byte_len(&self) -> (r: usize)
        ensures
            r == self@.len(),
    {
        self.text.as_str().as_bytes().len()
    }

    /// Another id with the same text.
    pub fn duplicate(&self) -> (r: HandlerId)
        ensures
            r@ == self@,
    {
        proof {
            use_type_invariant(self);
        }
        HandlerId { text: self.text.clone() }
    }

    /// Whether both ids have the same text.
    pub fn same(&self, other: &HandlerId) -> (r: bool)
        ensures
            r == (self@ == other@),
    {
        proof {
            vstd::utf8::encode_utf8_decode_utf8(self.text@);
            vstd::utf8::encode_utf8_decode_utf8(other.text@);
        }
        self.text == other.text
    }
}

/// Whether two byte vectors hold the same bytes.
pub fn same_bytes(a: &[u8], b: &[u8]) -> (r: bool)
    ensures
        r == (a@ == b@),
{
    if a.len() != b.len() {
        return false;
    }
    let mut i: usize = 0;
    while i < a.len()
        invariant
            i <= a@.len(),
            a@.len() == b@.len(),
            forall|j: int| 0 <= j < i ==> a@[j] == b@[j],
        decreases a@.len() - i,
    {
        if a[i] != b[i] {
            return false;
        }
        i += 1;
    }
    assert(a@ =~= b@);
    true
}

/// Another vector with the same bytes.
pub fn copy_bytes(bytes: &[u8]) -> (r: Vec<u8>)
    ensures
        r@ == bytes@,
{
    let mut out: Vec<u8> = Vec::with_capacity(bytes.len());
    out.extend_from_slice(bytes);
    assert(out@ =~= bytes@);
    out
}

} // verus!
