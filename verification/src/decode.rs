//! Reading the wire form of a checkpoint under a bounded budget.
//!
//! Each `p_` function says what reading one value at a cursor gives: the value
//! and the cursor behind it, or the error. Each `decode_` function computes it.
use crate::audience::{AudienceCoverage, CoverageView, RecordWitness, WitnessLifecycle};
use crate::checkpoint::{
    opt_bytes, opt_token, recent_view, CertifiedHistoricalCoverage, CheckpointView,
    HybridCheckpointV5, HybridSource, HybridTokenKind, IntentView, LifecycleIntent, RecentView,
    SourcePosition, SourceView, StoredCommittedToken, StoredRecentInput, TokenView,
};
use crate::error::SubscriberError;
use crate::model::{
    copy_bytes, BlockRef, HandlerId, InputRef, ReactiveInputIdentity, ReactiveInputKind,
};
use crate::owners::{bytes_before, bytes_lt, OwnerEntry, OwnerMap};
use crate::rlp::{
    array_decode, bool_decode, header_decode, item_decode, read_array, read_bool, read_header,
    read_item, read_u64, read_u8, uint_decode,
};
use crate::words::{B256, Epoch};
use vstd::prelude::*;
use vstd::slice::slice_subrange;
use vstd::utf8::valid_utf8;

verus! {

/// The longest checkpoint payload, in bytes.
pub const MAX_CHECKPOINT_PAYLOAD_BYTES: usize = 16_777_216;

/// The most recent inputs that a checkpoint can hold.
pub const MAX_RECENT_INPUTS: usize = 65_536;

/// The most canonical blocks that one history in a checkpoint can hold.
pub const MAX_CANONICAL_HISTORY: usize = 65_536;

/// The most owner entries that a checkpoint can hold, over all its owner maps.
pub const MAX_OWNER_ENTRIES: usize = 262_144;

/// The longest handler id, in bytes, that a checkpoint can hold.
pub const MAX_HANDLER_ID_BYTES: usize = 4_096;

/// The most nodes that reading a checkpoint may visit.
pub const MAX_DECODE_NODES: usize = 2_097_152;

/// The most heap bytes that reading a checkpoint may claim.
pub const MAX_DECODE_HEAP_BYTES: usize = 67_108_864;

/// What reading has used up so far.
pub struct Budget {
    pub nodes: nat,
    pub heap: nat,
    pub owners: nat,
}

impl Budget {
    /// The budget after some more has been used up.
    pub open spec fn plus(self, nodes: nat, heap: nat, owners: nat) -> Budget {
        Budget {
            nodes: self.nodes + nodes,
            heap: self.heap + heap,
            owners: self.owners + owners,
        }
    }

    /// Whether no limit is exceeded.
    pub open spec fn within(self) -> bool {
        self.nodes <= MAX_DECODE_NODES && self.heap <= MAX_DECODE_HEAP_BYTES && self.owners
            <= MAX_OWNER_ENTRIES
    }
}

/// The budget after a claim that it cannot cover: it stays charged, unless the
/// charge cannot be counted.
pub open spec fn overdrawn(b: Budget, nodes: nat, heap: nat, owners: nat) -> Budget {
    let n = b.plus(nodes, heap, owners);
    if n.nodes <= usize::MAX && n.heap <= usize::MAX && n.owners <= usize::MAX {
        n
    } else {
        b
    }
}

/// Using up `count` nodes.
pub open spec fn claim_nodes(b: Budget, count: nat) -> Result<Budget, SubscriberError> {
    if b.nodes + count > usize::MAX {
        Err(SubscriberError::Provider("hybrid checkpoint decode-node count overflow"))
    } else if b.nodes + count > MAX_DECODE_NODES {
        Err(SubscriberError::Provider("hybrid checkpoint exceeds its decode-node budget"))
    } else {
        Ok(b.plus(count, 0, 0))
    }
}

/// Using up `bytes` heap bytes.
pub open spec fn claim_heap(b: Budget, bytes: nat) -> Result<Budget, SubscriberError> {
    if b.heap + bytes > usize::MAX {
        Err(SubscriberError::Provider("hybrid checkpoint decoded heap accounting overflow"))
    } else if b.heap + bytes > MAX_DECODE_HEAP_BYTES {
        Err(SubscriberError::Provider("hybrid checkpoint exceeds its decoded heap budget"))
    } else {
        Ok(b.plus(0, bytes, 0))
    }
}

/// Using up the heap bytes of `count` items of `size` bytes.
pub open spec fn claim_items(b: Budget, size: nat, count: nat) -> Result<Budget, SubscriberError> {
    if size * count > usize::MAX {
        Err(SubscriberError::Provider("hybrid checkpoint decoded heap accounting overflow"))
    } else {
        claim_heap(b, size * count)
    }
}

/// Using up `count` owner entries.
pub open spec fn claim_owners(b: Budget, count: nat) -> Result<Budget, SubscriberError> {
    if b.owners + count > usize::MAX {
        Err(SubscriberError::Provider("hybrid checkpoint owner count overflow"))
    } else if b.owners + count > MAX_OWNER_ENTRIES {
        Err(SubscriberError::Provider("hybrid checkpoint exceeds its owner-entry budget"))
    } else {
        Ok(b.plus(0, 0, count))
    }
}

/// The heap bytes that `count` owner entries of `size` bytes are charged:
/// the entries and four links for each of them.
pub open spec fn owner_heap(size: nat, count: nat) -> nat {
    let links = vstd::layout::size_of::<[usize; 4]>();
    let each = if size + links > usize::MAX {
        usize::MAX as nat
    } else {
        size + links
    };
    if each * count > usize::MAX {
        usize::MAX as nat
    } else {
        each * count
    }
}

/// What has been used up so far.
#[derive(Debug, PartialEq, Eq)]
pub struct DecodeBudget {
    pub nodes: usize,
    pub heap_bytes: usize,
    pub owner_entries: usize,
}

impl View for DecodeBudget {
    type V = Budget;

    open spec fn view(&self) -> Budget {
        Budget {
            nodes: self.nodes as nat,
            heap: self.heap_bytes as nat,
            owners: self.owner_entries as nat,
        }
    }
}

/// A budget of which nothing is used up.
pub open spec fn no_budget() -> Budget {
    Budget { nodes: 0, heap: 0, owners: 0 }
}

impl DecodeBudget {
    /// A budget of which nothing is used up.
    pub fn new() -> (r: DecodeBudget)
        ensures
            r@ == no_budget(),
    {
        DecodeBudget { nodes: 0, heap_bytes: 0, owner_entries: 0 }
    }

    /// Uses up `count` nodes.
    pub fn claim_nodes(&mut self, count: usize) -> (r: Result<(), SubscriberError>)
        ensures
            match r {
                Ok(_) => claim_nodes(old(self)@, count as nat) == Ok::<_, SubscriberError>(
                    final(self)@,
                ),
                Err(e) => claim_nodes(old(self)@, count as nat) == Err::<Budget, _>(e)
                    && final(self)@ == overdrawn(old(self)@, count as nat, 0, 0),
            },
    {
        match self.nodes.checked_add(count) {
            None => Err(SubscriberError::Provider("hybrid checkpoint decode-node count overflow")),
            Some(nodes) => {
                self.nodes = nodes;
                if nodes > MAX_DECODE_NODES {
                    return Err(
                        SubscriberError::Provider(
                            "hybrid checkpoint exceeds its decode-node budget",
                        ),
                    );
                }
                Ok(())
            },
        }
    }

    /// Uses up `bytes` heap bytes.
    pub fn claim_heap_bytes(&mut self, bytes: usize) -> (r: Result<(), SubscriberError>)
        ensures
            match r {
                Ok(_) => claim_heap(old(self)@, bytes as nat) == Ok::<_, SubscriberError>(
                    final(self)@,
                ),
                Err(e) => claim_heap(old(self)@, bytes as nat) == Err::<Budget, _>(e)
                    && final(self)@ == overdrawn(old(self)@, 0, bytes as nat, 0),
            },
    {
        match self.heap_bytes.checked_add(bytes) {
            None => Err(
                SubscriberError::Provider("hybrid checkpoint decoded heap accounting overflow"),
            ),
            Some(heap_bytes) => {
                self.heap_bytes = heap_bytes;
                if heap_bytes > MAX_DECODE_HEAP_BYTES {
                    return Err(
                        SubscriberError::Provider(
                            "hybrid checkpoint exceeds its decoded heap budget",
                        ),
                    );
                }
                Ok(())
            },
        }
    }

    /// Uses up the heap bytes of `count` values of type `T`.
    pub fn claim_heap<T>(&mut self, count: usize) -> (r: Result<(), SubscriberError>)
        ensures
            match r {
                Ok(_) => claim_items(old(self)@, vstd::layout::size_of::<T>(), count as nat) == Ok::<
                    _,
                    SubscriberError,
                >(final(self)@),
                Err(e) => claim_items(old(self)@, vstd::layout::size_of::<T>(), count as nat)
                    == Err::<Budget, _>(e) && final(self)@ == overdrawn(
                    old(self)@,
                    0,
                    vstd::layout::size_of::<T>() * count as nat,
                    0,
                ),
            },
    {
        match core::mem::size_of::<T>().checked_mul(count) {
            None => Err(
                SubscriberError::Provider("hybrid checkpoint decoded heap accounting overflow"),
            ),
            Some(bytes) => self.claim_heap_bytes(bytes),
        }
    }

    /// Uses up `count` owner entries.
    pub fn claim_owners(&mut self, count: usize) -> (r: Result<(), SubscriberError>)
        ensures
            match r {
                Ok(_) => claim_owners(old(self)@, count as nat) == Ok::<_, SubscriberError>(
                    final(self)@,
                ),
                Err(e) => claim_owners(old(self)@, count as nat) == Err::<Budget, _>(e)
                    && final(self)@ == overdrawn(old(self)@, 0, 0, count as nat),
            },
    {
        match self.owner_entries.checked_add(count) {
            None => Err(SubscriberError::Provider("hybrid checkpoint owner count overflow")),
            Some(owner_entries) => {
                self.owner_entries = owner_entries;
                if owner_entries > MAX_OWNER_ENTRIES {
                    return Err(
                        SubscriberError::Provider(
                            "hybrid checkpoint exceeds its owner-entry budget",
                        ),
                    );
                }
                Ok(())
            },
        }
    }
}

/// The heap bytes that `count` owner entries with values of type `V` are
/// charged.
pub(crate) fn owner_heap_bytes<V>(count: usize) -> (r: usize)
    ensures
        r == owner_heap(vstd::layout::size_of::<OwnerEntry<V>>(), count as nat),
{
    let each: usize = core::mem::size_of::<OwnerEntry<V>>().saturating_add(
        core::mem::size_of::<[usize; 4]>(),
    );
    match each.checked_mul(count) {
        Some(bytes) => bytes,
        None => usize::MAX,
    }
}

/// Where reading stands: the bytes left and what has been used up.
pub struct Cursor {
    pub s: Seq<u8>,
    pub b: Budget,
}

/// What comes of reading a `T`.
pub type Parsed<T> = Result<(T, Cursor), SubscriberError>;

/// Whether `r`, with the budget left at `b`, is what `p` says.
pub open spec fn agrees<T>(
    r: Result<(T, &[u8]), SubscriberError>,
    p: Parsed<T>,
    b: Budget,
) -> bool {
    match r {
        Ok((v, rest)) => p == Ok::<_, SubscriberError>((v, Cursor { s: rest@, b })),
        Err(e) => p == Err::<(T, Cursor), _>(e),
    }
}

/// Whether the view of `r`, with the budget left at `b`, is what `p` says.
pub open spec fn agrees_view<T: View>(
    r: Result<(T, &[u8]), SubscriberError>,
    p: Parsed<T::V>,
    b: Budget,
) -> bool {
    match r {
        Ok((v, rest)) => p == Ok::<_, SubscriberError>((v@, Cursor { s: rest@, b })),
        Err(e) => p == Err::<(T::V, Cursor), _>(e),
    }
}

// ---------------------------------------------------------------------------
// Single items
// ---------------------------------------------------------------------------

/// Entering a list: its payload, and the bytes behind it.
pub open spec fn p_list(s: Seq<u8>, context: &'static str) -> Result<
    (Seq<u8>, Seq<u8>),
    SubscriberError,
> {
    match item_decode(s, true) {
        Ok(parts) => Ok(parts),
        Err(error) => Err(SubscriberError::Rlp { context, error }),
    }
}

fn take_list<'a>(input: &'a [u8], context: &'static str) -> (r: Result<
    (&'a [u8], &'a [u8]),
    SubscriberError,
>)
    ensures
        match r {
            Ok((payload, rest)) => p_list(input@, context) == Ok::<_, SubscriberError>(
                (payload@, rest@),
            ),
            Err(e) => p_list(input@, context) == Err::<(Seq<u8>, Seq<u8>), _>(e),
        },
{
    match read_item(input, true) {
        Ok(parts) => Ok(parts),
        Err(error) => Err(SubscriberError::Rlp { context, error }),
    }
}

/// Leaving a list, of which nothing may be left, to the bytes behind it.
pub open spec fn p_finish(c: Cursor, context: &'static str, rest: Seq<u8>) -> Result<
    Cursor,
    SubscriberError,
> {
    if c.s.len() == 0 {
        Ok(Cursor { s: rest, b: c.b })
    } else {
        Err(SubscriberError::TrailingFields { context })
    }
}

fn finish_list(input: &[u8], context: &'static str) -> (r: Result<(), SubscriberError>)
    ensures
        match r {
            Ok(_) => input@.len() == 0,
            Err(e) => input@.len() > 0 && e == (SubscriberError::TrailingFields { context }),
        },
{
    if input.len() == 0 {
        Ok(())
    } else {
        Err(SubscriberError::TrailingFields { context })
    }
}

/// Counting the items of a list payload, behind `count` that were counted.
pub open spec fn counted_items(
    s: Seq<u8>,
    max: usize,
    context: &'static str,
    count: nat,
) -> Result<nat, SubscriberError>
    decreases s.len(),
{
    if s.len() == 0 {
        Ok(count)
    } else if count + 1 > max {
        Err(SubscriberError::TooManyEntries { context, max })
    } else {
        match header_decode(s) {
            Err(error) => Err(SubscriberError::Rlp { context, error }),
            Ok(h) => counted_items(
                s.skip((h.consumed + h.payload) as int),
                max,
                context,
                count + 1,
            ),
        }
    }
}

/// Counts the items of a list payload, up to a limit.
pub fn count_items(payload: &[u8], max: usize, context: &'static str) -> (r: Result<
    usize,
    SubscriberError,
>)
    ensures
        match r {
            Ok(n) => counted_items(payload@, max, context, 0) == Ok::<_, SubscriberError>(n as nat),
            Err(e) => counted_items(payload@, max, context, 0) == Err::<nat, _>(e),
        },
{
    let mut count: usize = 0;
    let mut left: &[u8] = payload;
    while left.len() > 0
        invariant
            count <= max,
            counted_items(payload@, max, context, 0) == counted_items(
                left@,
                max,
                context,
                count as nat,
            ),
        decreases left@.len(),
    {
        if count >= max {
            return Err(SubscriberError::TooManyEntries { context, max });
        }
        count += 1;
        match read_header(left) {
            Err(error) => {
                return Err(SubscriberError::Rlp { context, error });
            },
            Ok((_, length, rest)) => {
                let ghost before = left@;
                let ghost h = header_decode(before)->Ok_0;
                assert(h.consumed + h.payload >= 1);
                assert(h.consumed + h.payload <= before.len());
                left = slice_subrange(rest, length, rest.len());
                assert(left@ =~= before.skip((h.consumed + h.payload) as int));
            },
        }
    }
    Ok(count)
}

pub open spec fn p_u64(c: Cursor, context: &'static str) -> Parsed<u64> {
    match uint_decode(c.s, 8) {
        Ok((x, rest)) => Ok((x as u64, Cursor { s: rest, b: c.b })),
        Err(error) => Err(SubscriberError::Rlp { context, error }),
    }
}

fn decode_u64<'a>(input: &'a [u8], context: &'static str) -> (r: Result<
    (u64, &'a [u8]),
    SubscriberError,
>)
    ensures
        forall|b: Budget| agrees(r, #[trigger] p_u64(Cursor { s: input@, b }, context), b),
{
    match read_u64(input) {
        Ok((x, rest)) => Ok((x, rest)),
        Err(error) => Err(SubscriberError::Rlp { context, error }),
    }
}

pub open spec fn p_u8(c: Cursor, context: &'static str) -> Parsed<u8> {
    match uint_decode(c.s, 1) {
        Ok((x, rest)) => Ok((x as u8, Cursor { s: rest, b: c.b })),
        Err(error) => Err(SubscriberError::Rlp { context, error }),
    }
}

fn decode_u8<'a>(input: &'a [u8], context: &'static str) -> (r: Result<
    (u8, &'a [u8]),
    SubscriberError,
>)
    ensures
        forall|b: Budget| agrees(r, #[trigger] p_u8(Cursor { s: input@, b }, context), b),
{
    match read_u8(input) {
        Ok((x, rest)) => Ok((x, rest)),
        Err(error) => Err(SubscriberError::Rlp { context, error }),
    }
}

pub open spec fn p_bool(c: Cursor, context: &'static str) -> Parsed<bool> {
    match bool_decode(c.s) {
        Ok((x, rest)) => Ok((x, Cursor { s: rest, b: c.b })),
        Err(error) => Err(SubscriberError::Rlp { context, error }),
    }
}

fn decode_bool<'a>(input: &'a [u8], context: &'static str) -> (r: Result<
    (bool, &'a [u8]),
    SubscriberError,
>)
    ensures
        forall|b: Budget| agrees(r, #[trigger] p_bool(Cursor { s: input@, b }, context), b),
{
    match read_bool(input) {
        Ok((x, rest)) => Ok((x, rest)),
        Err(error) => Err(SubscriberError::Rlp { context, error }),
    }
}

pub open spec fn p_hash(c: Cursor, context: &'static str) -> Parsed<B256> {
    match array_decode(c.s, 32) {
        Ok((x, rest)) => Ok((B256::of_bytes(x), Cursor { s: rest, b: c.b })),
        Err(error) => Err(SubscriberError::Rlp { context, error }),
    }
}

fn decode_hash<'a>(input: &'a [u8], context: &'static str) -> (r: Result<
    (B256, &'a [u8]),
    SubscriberError,
>)
    ensures
        forall|b: Budget| agrees(r, #[trigger] p_hash(Cursor { s: input@, b }, context), b),
{
    match read_array::<32>(input) {
        Ok((x, rest)) => Ok((B256::from_slice(x.as_slice()), rest)),
        Err(error) => Err(SubscriberError::Rlp { context, error }),
    }
}

pub open spec fn p_epoch(c: Cursor, context: &'static str) -> Parsed<Epoch> {
    match array_decode(c.s, 16) {
        Ok((x, rest)) => Ok((Epoch::of_bytes(x), Cursor { s: rest, b: c.b })),
        Err(error) => Err(SubscriberError::Rlp { context, error }),
    }
}

fn decode_epoch<'a>(input: &'a [u8], context: &'static str) -> (r: Result<
    (Epoch, &'a [u8]),
    SubscriberError,
>)
    ensures
        forall|b: Budget| agrees(r, #[trigger] p_epoch(Cursor { s: input@, b }, context), b),
{
    match read_array::<16>(input) {
        Ok((x, rest)) => Ok((Epoch::from_slice(x.as_slice()), rest)),
        Err(error) => Err(SubscriberError::Rlp { context, error }),
    }
}

pub open spec fn p_bytes(c: Cursor, max: usize, context: &'static str) -> Parsed<Seq<u8>> {
    match item_decode(c.s, false) {
        Err(error) => Err(SubscriberError::Rlp { context, error }),
        Ok((bytes, rest)) => if bytes.len() > max {
            Err(SubscriberError::TooManyBytes { context, max })
        } else {
            match claim_nodes(c.b, 1) {
                Err(e) => Err(e),
                Ok(b) => match claim_heap(b, bytes.len()) {
                    Err(e) => Err(e),
                    Ok(b) => Ok((bytes, Cursor { s: rest, b })),
                },
            }
        },
    }
}

fn decode_bytes<'a>(
    input: &'a [u8],
    max: usize,
    context: &'static str,
    budget: &mut DecodeBudget,
) -> (r: Result<(Vec<u8>, &'a [u8]), SubscriberError>)
    ensures
        agrees_view(
            r,
            p_bytes(Cursor { s: input@, b: old(budget)@ }, max, context),
            final(budget)@,
        ),
{
    match read_item(input, false) {
        Err(error) => Err(SubscriberError::Rlp { context, error }),
        Ok((bytes, rest)) => {
            if bytes.len() > max {
                return Err(SubscriberError::TooManyBytes { context, max });
            }
            budget.claim_nodes(1)?;
            budget.claim_heap_bytes(bytes.len())?;
            Ok((copy_bytes(bytes), rest))
        },
    }
}

pub open spec fn p_handler(c: Cursor, context: &'static str) -> Parsed<Seq<u8>> {
    match item_decode(c.s, false) {
        Err(error) => Err(SubscriberError::Rlp { context, error }),
        Ok((bytes, rest)) => if bytes.len() > MAX_HANDLER_ID_BYTES {
            Err(SubscriberError::TooManyBytes { context, max: MAX_HANDLER_ID_BYTES })
        } else if !valid_utf8(bytes) {
            Err(SubscriberError::NotUtf8 { context })
        } else {
            match claim_nodes(c.b, 1) {
                Err(e) => Err(e),
                Ok(b) => match claim_heap(b, bytes.len()) {
                    Err(e) => Err(e),
                    Ok(b) => if bytes.len() == 0 {
                        Err(SubscriberError::EmptyHandlerId { context })
                    } else {
                        Ok((bytes, Cursor { s: rest, b }))
                    },
                },
            }
        },
    }
}

fn decode_handler_id<'a>(
    input: &'a [u8],
    context: &'static str,
    budget: &mut DecodeBudget,
) -> (r: Result<(HandlerId, &'a [u8]), SubscriberError>)
    ensures
        agrees_view(
            r,
            p_handler(Cursor { s: input@, b: old(budget)@ }, context),
            final(budget)@,
        ),
{
    match read_item(input, false) {
        Err(error) => Err(SubscriberError::Rlp { context, error }),
        Ok((bytes, rest)) => {
            if bytes.len() > MAX_HANDLER_ID_BYTES {
                return Err(SubscriberError::TooManyBytes { context, max: MAX_HANDLER_ID_BYTES });
            }
            match HandlerId::from_wire(bytes) {
                Err(true) => Err(SubscriberError::NotUtf8 { context }),
                Err(false) => {
                    budget.claim_nodes(1)?;
                    budget.claim_heap_bytes(bytes.len())?;
                    Err(SubscriberError::EmptyHandlerId { context })
                },
                Ok(id) => {
                    budget.claim_nodes(1)?;
                    budget.claim_heap_bytes(bytes.len())?;
                    Ok((id, rest))
                },
            }
        },
    }
}

#[verifier::opaque]
pub open spec fn p_opt_u64(c: Cursor, context: &'static str) -> Parsed<Option<u64>> {
    match p_list(c.s, context) {
        Err(e) => Err(e),
        Ok((payload, rest)) => match claim_nodes(c.b, 1) {
            Err(e) => Err(e),
            Ok(b) => if payload.len() == 0 {
                Ok((None, Cursor { s: rest, b }))
            } else {
                match p_u64(Cursor { s: payload, b }, context) {
                    Err(e) => Err(e),
                    Ok((x, c)) => match p_finish(c, context, rest) {
                        Err(e) => Err(e),
                        Ok(c) => Ok((Some(x), c)),
                    },
                }
            },
        },
    }
}

fn decode_opt_u64<'a>(
    input: &'a [u8],
    context: &'static str,
    budget: &mut DecodeBudget,
) -> (r: Result<(Option<u64>, &'a [u8]), SubscriberError>)
    ensures
        agrees(
            r,
            p_opt_u64(Cursor { s: input@, b: old(budget)@ }, context),
            final(budget)@,
        ),
{
    proof {
        reveal(p_opt_u64);
    }
    let (payload, rest) = take_list(input, context)?;
    budget.claim_nodes(1)?;
    if payload.len() == 0 {
        return Ok((None, rest));
    }
    let (value, payload) = decode_u64(payload, context)?;
    finish_list(payload, context)?;
    Ok((Some(value), rest))
}

#[verifier::opaque]
pub open spec fn p_opt_hash(c: Cursor, context: &'static str) -> Parsed<Option<B256>> {
    match p_list(c.s, context) {
        Err(e) => Err(e),
        Ok((payload, rest)) => match claim_nodes(c.b, 1) {
            Err(e) => Err(e),
            Ok(b) => if payload.len() == 0 {
                Ok((None, Cursor { s: rest, b }))
            } else {
                match p_hash(Cursor { s: payload, b }, context) {
                    Err(e) => Err(e),
                    Ok((x, c)) => match p_finish(c, context, rest) {
                        Err(e) => Err(e),
                        Ok(c) => Ok((Some(x), c)),
                    },
                }
            },
        },
    }
}

fn decode_opt_hash<'a>(
    input: &'a [u8],
    context: &'static str,
    budget: &mut DecodeBudget,
) -> (r: Result<(Option<B256>, &'a [u8]), SubscriberError>)
    ensures
        agrees(
            r,
            p_opt_hash(Cursor { s: input@, b: old(budget)@ }, context),
            final(budget)@,
        ),
{
    proof {
        reveal(p_opt_hash);
    }
    let (payload, rest) = take_list(input, context)?;
    budget.claim_nodes(1)?;
    if payload.len() == 0 {
        return Ok((None, rest));
    }
    let (value, payload) = decode_hash(payload, context)?;
    finish_list(payload, context)?;
    Ok((Some(value), rest))
}

#[verifier::opaque]
pub open spec fn p_opt_bytes(c: Cursor, context: &'static str) -> Parsed<Option<Seq<u8>>> {
    match p_list(c.s, context) {
        Err(e) => Err(e),
        Ok((payload, rest)) => match claim_nodes(c.b, 1) {
            Err(e) => Err(e),
            Ok(b) => if payload.len() == 0 {
                Ok((None, Cursor { s: rest, b }))
            } else {
                match p_bytes(Cursor { s: payload, b }, MAX_CHECKPOINT_PAYLOAD_BYTES, context) {
                    Err(e) => Err(e),
                    Ok((x, c)) => match p_finish(c, context, rest) {
                        Err(e) => Err(e),
                        Ok(c) => Ok((Some(x), c)),
                    },
                }
            },
        },
    }
}

fn decode_opt_bytes<'a>(
    input: &'a [u8],
    context: &'static str,
    budget: &mut DecodeBudget,
) -> (r: Result<(Option<Vec<u8>>, &'a [u8]), SubscriberError>)
    ensures
        match r {
            Ok((v, rest)) => p_opt_bytes(Cursor { s: input@, b: old(budget)@ }, context)
                == Ok::<_, SubscriberError>((opt_bytes(v), Cursor { s: rest@, b: final(budget)@ })),
            Err(e) => p_opt_bytes(Cursor { s: input@, b: old(budget)@ }, context) == Err::<
                (Option<Seq<u8>>, Cursor),
                _,
            >(e),
        },
{
    proof {
        reveal(p_opt_bytes);
    }
    let (payload, rest) = take_list(input, context)?;
    budget.claim_nodes(1)?;
    if payload.len() == 0 {
        return Ok((None, rest));
    }
    let (value, payload) = decode_bytes(payload, MAX_CHECKPOINT_PAYLOAD_BYTES, context, budget)?;
    finish_list(payload, context)?;
    Ok((Some(value), rest))
}

#[verifier::opaque]
pub open spec fn p_block(c: Cursor) -> Parsed<BlockRef> {
    match p_list(c.s, "block reference") { Err(e) => Err(e), Ok((payload, rest)) =>
    match claim_nodes(c.b, 1) { Err(e) => Err(e), Ok(b) => { let c = Cursor { s: payload, b };
    match p_u64(c, "block number") { Err(e) => Err(e), Ok((number, c)) =>
    match p_hash(c, "block hash") { Err(e) => Err(e), Ok((hash, c)) =>
    match p_opt_hash(c, "block parent hash") { Err(e) => Err(e), Ok((parent_hash, c)) =>
    match p_opt_u64(c, "block timestamp") { Err(e) => Err(e), Ok((timestamp, c)) =>
    match p_finish(c, "block reference", rest) { Err(e) => Err(e), Ok(c) =>
    Ok((BlockRef { number, hash, parent_hash, timestamp }, c)) } } } } } } } }
}

fn decode_block<'a>(input: &'a [u8], budget: &mut DecodeBudget) -> (r: Result<
    (BlockRef, &'a [u8]),
    SubscriberError,
>)
    ensures
        agrees(r, p_block(Cursor { s: input@, b: old(budget)@ }), final(budget)@),
{
    proof {
        reveal(p_block);
    }
    let (payload, rest) = take_list(input, "block reference")?;
    budget.claim_nodes(1)?;
    let (number, payload) = decode_u64(payload, "block number")?;
    let (hash, payload) = decode_hash(payload, "block hash")?;
    let (parent_hash, payload) = decode_opt_hash(payload, "block parent hash", budget)?;
    let (timestamp, payload) = decode_opt_u64(payload, "block timestamp", budget)?;
    finish_list(payload, "block reference")?;
    Ok((BlockRef { number, hash, parent_hash, timestamp }, rest))
}

#[verifier::opaque]
pub open spec fn p_opt_block(c: Cursor, context: &'static str) -> Parsed<Option<BlockRef>> {
    match p_list(c.s, context) {
        Err(e) => Err(e),
        Ok((payload, rest)) => match claim_nodes(c.b, 1) {
            Err(e) => Err(e),
            Ok(b) => if payload.len() == 0 {
                Ok((None, Cursor { s: rest, b }))
            } else {
                match p_block(Cursor { s: payload, b }) {
                    Err(e) => Err(e),
                    Ok((x, c)) => match p_finish(c, context, rest) {
                        Err(e) => Err(e),
                        Ok(c) => Ok((Some(x), c)),
                    },
                }
            },
        },
    }
}

fn decode_opt_block<'a>(
    input: &'a [u8],
    context: &'static str,
    budget: &mut DecodeBudget,
) -> (r: Result<(Option<BlockRef>, &'a [u8]), SubscriberError>)
    ensures
        agrees(
            r,
            p_opt_block(Cursor { s: input@, b: old(budget)@ }, context),
            final(budget)@,
        ),
{
    proof {
        reveal(p_opt_block);
    }
    let (payload, rest) = take_list(input, context)?;
    budget.claim_nodes(1)?;
    if payload.len() == 0 {
        return Ok((None, rest));
    }
    let (value, payload) = decode_block(payload, budget)?;
    finish_list(payload, context)?;
    Ok((Some(value), rest))
}

/// Items one behind the other, up to the end.
pub open spec fn p_block_items(c: Cursor) -> Parsed<Seq<BlockRef>>
    decreases c.s.len(),
{
    if c.s.len() == 0 {
        Ok((Seq::empty(), c))
    } else {
        match p_block(c) {
            Err(e) => Err(e),
            Ok((x, next)) => if next.s.len() < c.s.len() {
                match p_block_items(next) {
                    Err(e) => Err(e),
                    Ok((xs, end)) => Ok((seq![x] + xs, end)),
                }
            } else {
                arbitrary()
            },
        }
    }
}

#[verifier::opaque]
pub open spec fn p_blocks(c: Cursor, context: &'static str) -> Parsed<Seq<BlockRef>> {
    match p_list(c.s, context) {
        Err(e) => Err(e),
        Ok((payload, rest)) => match counted_items(payload, MAX_CANONICAL_HISTORY, context, 0) {
            Err(e) => Err(e),
            Ok(count) => match claim_nodes(c.b, count) {
                Err(e) => Err(e),
                Ok(b) => match claim_items(b, vstd::layout::size_of::<BlockRef>(), count) {
                    Err(e) => Err(e),
                    Ok(b) => match p_block_items(Cursor { s: payload, b }) {
                        Err(e) => Err(e),
                        Ok((xs, end)) => Ok((xs, Cursor { s: rest, b: end.b })),
                    },
                },
            },
        },
    }
}

fn decode_blocks<'a>(
    input: &'a [u8],
    context: &'static str,
    budget: &mut DecodeBudget,
) -> (r: Result<(Vec<BlockRef>, &'a [u8]), SubscriberError>)
    ensures
        match r {
            Ok((v, rest)) => p_blocks(Cursor { s: input@, b: old(budget)@ }, context) == Ok::<
                _,
                SubscriberError,
            >((v@, Cursor { s: rest@, b: final(budget)@ })),
            Err(e) => p_blocks(Cursor { s: input@, b: old(budget)@ }, context) == Err::<
                (Seq<BlockRef>, Cursor),
                _,
            >(e),
        },
{
    proof {
        reveal(p_blocks);
    }
    let (payload, rest) = take_list(input, context)?;
    let count: usize = count_items(payload, MAX_CANONICAL_HISTORY, context)?;
    budget.claim_nodes(count)?;
    budget.claim_heap::<BlockRef>(count)?;
    let values: Vec<BlockRef> = decode_block_items(payload, budget)?;
    Ok((values, rest))
}

fn decode_block_items(payload: &[u8], budget: &mut DecodeBudget) -> (r: Result<
    Vec<BlockRef>,
    SubscriberError,
>)
    ensures
        match r {
            Ok(v) => p_block_items(Cursor { s: payload@, b: old(budget)@ }) is Ok
                && p_block_items(Cursor { s: payload@, b: old(budget)@ })->Ok_0.0 == v@
                && p_block_items(Cursor { s: payload@, b: old(budget)@ })->Ok_0.1.b == final(budget)@,
            Err(e) => p_block_items(Cursor { s: payload@, b: old(budget)@ }) == Err::<
                (Seq<BlockRef>, Cursor),
                _,
            >(e),
        },
{
    let ghost start = Cursor { s: payload@, b: budget@ };
    let mut values: Vec<BlockRef> = Vec::new();
    let mut left: &[u8] = payload;
    proof {
        if let Ok((xs, _)) = p_block_items(start) {
            assert(values@ + xs =~= xs);
        }
    }
    while left.len() > 0
        invariant
            start == (Cursor { s: payload@, b: old(budget)@ }),
            match p_block_items(Cursor { s: left@, b: budget@ }) {
                Ok((xs, end)) => p_block_items(start) == Ok::<_, SubscriberError>(
                    (values@ + xs, end),
                ),
                Err(e) => p_block_items(start) == Err::<(Seq<BlockRef>, Cursor), _>(e),
            },
        decreases left@.len(),
    {
        let ghost here = Cursor { s: left@, b: budget@ };
        let ghost before = values@;
        let (value, next) = decode_block(left, budget)?;
        proof {
            lemma_block_shrinks(here);
        }
        values.push(value);
        left = next;
        proof {
            let x = p_block(here)->Ok_0.0;
            assert(values@ =~= before.push(x));
            if let Ok((xs, _)) = p_block_items(Cursor { s: left@, b: budget@ }) {
                assert(before + (seq![x] + xs) =~= values@ + xs);
            }
        }
    }
    assert(values@ + Seq::<BlockRef>::empty() =~= values@);
    Ok(values)
}

/// Reading an item moves on.
pub proof fn lemma_block_shrinks(c: Cursor)
    ensures
        match p_block(c) {
            Ok((_, next)) => next.s.len() < c.s.len(),
            Err(_) => true,
        },
{
    reveal(item_decode);
    reveal(p_block);
}

/// Counting never goes beyond the most that is allowed.
pub proof fn lemma_count_bound(s: Seq<u8>, max: usize, context: &'static str, count: nat)
    requires
        count <= max,
    ensures
        match counted_items(s, max, context, count) {
            Ok(n) => n <= max,
            Err(_) => true,
        },
    decreases s.len(),
{
    if s.len() > 0 && count + 1 <= max {
        if let Ok(h) = header_decode(s) {
            lemma_count_bound(s.skip((h.consumed + h.payload) as int), max, context, count + 1);
        }
    }
}

/// Owner entries one behind the other, up to the end, behind `prior`.
pub open spec fn p_generations_items(
    c: Cursor,
    prior: Option<Seq<u8>>,
) -> Parsed<Seq<(Seq<u8>, u64)>>
    decreases c.s.len(),
{
    if c.s.len() == 0 {
        Ok((Seq::empty(), c))
    } else {
        match p_generations_entry(c, prior) {
            Err(e) => Err(e),
            Ok((x, next)) => if next.s.len() < c.s.len() {
                match p_generations_items(next, Some(x.0)) {
                    Err(e) => Err(e),
                    Ok((xs, end)) => Ok((seq![x] + xs, end)),
                }
            } else {
                arbitrary()
            },
        }
    }
}

/// One owner entry, whose id must come behind `prior`.
#[verifier::opaque]
pub open spec fn p_generations_entry(c: Cursor, prior: Option<Seq<u8>>) -> Parsed<(Seq<u8>, u64)> {
    match p_list(c.s, "owner generations") {
        Err(e) => Err(e),
        Ok((payload, rest)) => match claim_nodes(c.b, 1) {
            Err(e) => Err(e),
            Ok(b) => match p_handler(Cursor { s: payload, b }, "handler id") {
                Err(e) => Err(e),
                Ok((owner, c)) => if prior is Some && !bytes_lt(prior->Some_0, owner) {
                    Err(SubscriberError::UnsortedOwners { context: "owner generations" })
                } else {
                    match p_u64(c, "owner generation") {
                        Err(e) => Err(e),
                        Ok((value, c)) => match p_finish(c, "owner generations", rest) {
                            Err(e) => Err(e),
                            Ok(c) => Ok(((owner, value), c)),
                        },
                    }
                },
            },
        },
    }
}

#[verifier::opaque]
pub open spec fn p_generations(c: Cursor) -> Parsed<Seq<(Seq<u8>, u64)>> {
    match p_list(c.s, "owner generations") {
        Err(e) => Err(e),
        Ok((payload, rest)) => match counted_items(payload, MAX_OWNER_ENTRIES, "owner generations", 0) {
            Err(e) => Err(e),
            Ok(count) => match claim_nodes(c.b, count + 1) {
                Err(e) => Err(e),
                Ok(b) => match claim_owners(b, count) {
                    Err(e) => Err(e),
                    Ok(b) => match claim_heap(
                        b,
                        owner_heap(vstd::layout::size_of::<OwnerEntry<u64>>(), count),
                    ) {
                        Err(e) => Err(e),
                        Ok(b) => match p_generations_items(Cursor { s: payload, b }, None) {
                            Err(e) => Err(e),
                            Ok((xs, end)) => Ok((xs, Cursor { s: rest, b: end.b })),
                        },
                    },
                },
            },
        },
    }
}

/// Reading an entry moves on.
pub proof fn lemma_generations_shrinks(c: Cursor, prior: Option<Seq<u8>>)
    ensures
        match p_generations_entry(c, prior) {
            Ok((_, next)) => next.s.len() < c.s.len(),
            Err(_) => true,
        },
{
    reveal(item_decode);
    reveal(p_generations_entry);
}

/// Counting never goes beyond the most that is allowed.
proof fn lemma_generations_count(payload: Seq<u8>)
    ensures
        match counted_items(payload, MAX_OWNER_ENTRIES, "owner generations", 0) {
            Ok(n) => n <= MAX_OWNER_ENTRIES,
            Err(_) => true,
        },
{
    lemma_count_bound(payload, MAX_OWNER_ENTRIES, "owner generations", 0);
}

fn decode_generations<'a>(input: &'a [u8], budget: &mut DecodeBudget) -> (r: Result<
    (OwnerMap<u64>, &'a [u8]),
    SubscriberError,
>)
    ensures
        agrees_view(r, p_generations(Cursor { s: input@, b: old(budget)@ }), final(budget)@),
{
    proof {
        reveal(p_generations);
    }
    let (payload, rest) = take_list(input, "owner generations")?;
    let count: usize = count_items(payload, MAX_OWNER_ENTRIES, "owner generations")?;
    proof {
        lemma_generations_count(payload@);
    }
    budget.claim_nodes(count + 1)?;
    budget.claim_owners(count)?;
    budget.claim_heap_bytes(owner_heap_bytes::<u64>(count))?;
    let values: OwnerMap<u64> = decode_generations_items(payload, budget)?;
    Ok((values, rest))
}

/// Reads one owner entry, whose id must come behind `prior`.
fn decode_generations_entry<'a>(
    input: &'a [u8],
    prior: Option<&HandlerId>,
    budget: &mut DecodeBudget,
) -> (r: Result<(OwnerEntry<u64>, &'a [u8]), SubscriberError>)
    ensures
        agrees_view(
            r,
            p_generations_entry(
                Cursor { s: input@, b: old(budget)@ },
                match prior {
                    Some(id) => Some(id@),
                    None => None,
                },
            ),
            final(budget)@,
        ),
{
    proof {
        reveal(p_generations_entry);
    }
    let (entry, rest) = take_list(input, "owner generations")?;
    budget.claim_nodes(1)?;
    let (owner, entry) = decode_handler_id(entry, "handler id", budget)?;
    if let Some(last) = prior {
        if !bytes_before(last.as_bytes(), owner.as_bytes()) {
            return Err(SubscriberError::UnsortedOwners { context: "owner generations" });
        }
    }
    let (value, entry) = decode_u64(entry, "owner generation")?;
    finish_list(entry, "owner generations")?;
    Ok((OwnerEntry { owner, value }, rest))
}

fn decode_generations_items(payload: &[u8], budget: &mut DecodeBudget) -> (r: Result<
    OwnerMap<u64>,
    SubscriberError,
>)
    ensures
        match r {
            Ok(v) => p_generations_items(Cursor { s: payload@, b: old(budget)@ }, None) is Ok
                && p_generations_items(Cursor { s: payload@, b: old(budget)@ }, None)->Ok_0.0 == v@
                && p_generations_items(Cursor { s: payload@, b: old(budget)@ }, None)->Ok_0.1.b
                == final(budget)@,
            Err(e) => p_generations_items(Cursor { s: payload@, b: old(budget)@ }, None) == Err::<
                (Seq<(Seq<u8>, u64)>, Cursor),
                _,
            >(e),
        },
{
    let ghost start = Cursor { s: payload@, b: budget@ };
    let mut values: OwnerMap<u64> = OwnerMap::new();
    let mut left: &[u8] = payload;
    proof {
        if let Ok((xs, _)) = p_generations_items(start, None) {
            assert(values@ + xs =~= xs);
        }
    }
    while left.len() > 0
        invariant
            start == (Cursor { s: payload@, b: old(budget)@ }),
            match p_generations_items(
                Cursor { s: left@, b: budget@ },
                if values@.len() == 0 {
                    None
                } else {
                    Some(values@.last().0)
                },
            ) {
                Ok((xs, end)) => p_generations_items(start, None) == Ok::<_, SubscriberError>(
                    (values@ + xs, end),
                ),
                Err(e) => p_generations_items(start, None) == Err::<
                    (Seq<(Seq<u8>, u64)>, Cursor),
                    _,
                >(e),
            },
        decreases left@.len(),
    {
        let ghost here = Cursor { s: left@, b: budget@ };
        let ghost before = values@;
        let known: usize = values.len();
        let prior: Option<&HandlerId> = if known > 0 {
            Some(values.owner_at(known - 1))
        } else {
            None
        };
        let ghost last: Option<Seq<u8>> = if before.len() == 0 {
            None
        } else {
            Some(before.last().0)
        };
        let (entry, next) = decode_generations_entry(left, prior, budget)?;
        let ghost x = entry@;
        proof {
            assert(p_generations_entry(here, last)->Ok_0.0 == x);
            lemma_generations_shrinks(here, last);
            lemma_generations_ascends(here, last);
        }
        let OwnerEntry { owner, value } = entry;
        values.push_last(owner, value);
        left = next;
        proof {
            assert(values@.last() == x);
            if let Ok((xs, _)) = p_generations_items(Cursor { s: left@, b: budget@ }, Some(x.0)) {
                assert(before + (seq![x] + xs) =~= values@ + xs);
            }
        }
    }
    assert(values@ + Seq::<(Seq<u8>, u64)>::empty() =~= values@);
    Ok(values)
}

/// An entry that was read comes behind the one before it.
proof fn lemma_generations_ascends(c: Cursor, prior: Option<Seq<u8>>)
    ensures
        match p_generations_entry(c, prior) {
            Ok((x, _)) => prior is Some ==> bytes_lt(prior->Some_0, x.0),
            Err(_) => true,
        },
{
    reveal(p_generations_entry);
}

/// Owner entries one behind the other, up to the end, behind `prior`.
pub open spec fn p_digests_items(
    c: Cursor,
    prior: Option<Seq<u8>>,
) -> Parsed<Seq<(Seq<u8>, B256)>>
    decreases c.s.len(),
{
    if c.s.len() == 0 {
        Ok((Seq::empty(), c))
    } else {
        match p_digests_entry(c, prior) {
            Err(e) => Err(e),
            Ok((x, next)) => if next.s.len() < c.s.len() {
                match p_digests_items(next, Some(x.0)) {
                    Err(e) => Err(e),
                    Ok((xs, end)) => Ok((seq![x] + xs, end)),
                }
            } else {
                arbitrary()
            },
        }
    }
}

/// One owner entry, whose id must come behind `prior`.
#[verifier::opaque]
pub open spec fn p_digests_entry(c: Cursor, prior: Option<Seq<u8>>) -> Parsed<(Seq<u8>, B256)> {
    match p_list(c.s, "lifecycle owner fingerprints") {
        Err(e) => Err(e),
        Ok((payload, rest)) => match claim_nodes(c.b, 1) {
            Err(e) => Err(e),
            Ok(b) => match p_handler(Cursor { s: payload, b }, "handler id") {
                Err(e) => Err(e),
                Ok((owner, c)) => if prior is Some && !bytes_lt(prior->Some_0, owner) {
                    Err(SubscriberError::UnsortedOwners { context: "lifecycle owner fingerprints" })
                } else {
                    match p_hash(c, "lifecycle owner fingerprint") {
                        Err(e) => Err(e),
                        Ok((value, c)) => match p_finish(c, "lifecycle owner fingerprints", rest) {
                            Err(e) => Err(e),
                            Ok(c) => Ok(((owner, value), c)),
                        },
                    }
                },
            },
        },
    }
}

#[verifier::opaque]
pub open spec fn p_digests(c: Cursor) -> Parsed<Seq<(Seq<u8>, B256)>> {
    match p_list(c.s, "lifecycle owner fingerprints") {
        Err(e) => Err(e),
        Ok((payload, rest)) => match counted_items(payload, MAX_OWNER_ENTRIES, "lifecycle owner fingerprints", 0) {
            Err(e) => Err(e),
            Ok(count) => match claim_nodes(c.b, count + 1) {
                Err(e) => Err(e),
                Ok(b) => match claim_owners(b, count) {
                    Err(e) => Err(e),
                    Ok(b) => match claim_heap(
                        b,
                        owner_heap(vstd::layout::size_of::<OwnerEntry<B256>>(), count),
                    ) {
                        Err(e) => Err(e),
                        Ok(b) => match p_digests_items(Cursor { s: payload, b }, None) {
                            Err(e) => Err(e),
                            Ok((xs, end)) => Ok((xs, Cursor { s: rest, b: end.b })),
                        },
                    },
                },
            },
        },
    }
}

/// Reading an entry moves on.
pub proof fn lemma_digests_shrinks(c: Cursor, prior: Option<Seq<u8>>)
    ensures
        match p_digests_entry(c, prior) {
            Ok((_, next)) => next.s.len() < c.s.len(),
            Err(_) => true,
        },
{
    reveal(item_decode);
    reveal(p_digests_entry);
}

/// Counting never goes beyond the most that is allowed.
proof fn lemma_digests_count(payload: Seq<u8>)
    ensures
        match counted_items(payload, MAX_OWNER_ENTRIES, "lifecycle owner fingerprints", 0) {
            Ok(n) => n <= MAX_OWNER_ENTRIES,
            Err(_) => true,
        },
{
    lemma_count_bound(payload, MAX_OWNER_ENTRIES, "lifecycle owner fingerprints", 0);
}

fn decode_digests<'a>(input: &'a [u8], budget: &mut DecodeBudget) -> (r: Result<
    (OwnerMap<B256>, &'a [u8]),
    SubscriberError,
>)
    ensures
        agrees_view(r, p_digests(Cursor { s: input@, b: old(budget)@ }), final(budget)@),
{
    proof {
        reveal(p_digests);
    }
    let (payload, rest) = take_list(input, "lifecycle owner fingerprints")?;
    let count: usize = count_items(payload, MAX_OWNER_ENTRIES, "lifecycle owner fingerprints")?;
    proof {
        lemma_digests_count(payload@);
    }
    budget.claim_nodes(count + 1)?;
    budget.claim_owners(count)?;
    budget.claim_heap_bytes(owner_heap_bytes::<B256>(count))?;
    let values: OwnerMap<B256> = decode_digests_items(payload, budget)?;
    Ok((values, rest))
}

/// Reads one owner entry, whose id must come behind `prior`.
fn decode_digests_entry<'a>(
    input: &'a [u8],
    prior: Option<&HandlerId>,
    budget: &mut DecodeBudget,
) -> (r: Result<(OwnerEntry<B256>, &'a [u8]), SubscriberError>)
    ensures
        agrees_view(
            r,
            p_digests_entry(
                Cursor { s: input@, b: old(budget)@ },
                match prior {
                    Some(id) => Some(id@),
                    None => None,
                },
            ),
            final(budget)@,
        ),
{
    proof {
        reveal(p_digests_entry);
    }
    let (entry, rest) = take_list(input, "lifecycle owner fingerprints")?;
    budget.claim_nodes(1)?;
    let (owner, entry) = decode_handler_id(entry, "handler id", budget)?;
    if let Some(last) = prior {
        if !bytes_before(last.as_bytes(), owner.as_bytes()) {
            return Err(SubscriberError::UnsortedOwners { context: "lifecycle owner fingerprints" });
        }
    }
    let (value, entry) = decode_hash(entry, "lifecycle owner fingerprint")?;
    finish_list(entry, "lifecycle owner fingerprints")?;
    Ok((OwnerEntry { owner, value }, rest))
}

fn decode_digests_items(payload: &[u8], budget: &mut DecodeBudget) -> (r: Result<
    OwnerMap<B256>,
    SubscriberError,
>)
    ensures
        match r {
            Ok(v) => p_digests_items(Cursor { s: payload@, b: old(budget)@ }, None) is Ok
                && p_digests_items(Cursor { s: payload@, b: old(budget)@ }, None)->Ok_0.0 == v@
                && p_digests_items(Cursor { s: payload@, b: old(budget)@ }, None)->Ok_0.1.b
                == final(budget)@,
            Err(e) => p_digests_items(Cursor { s: payload@, b: old(budget)@ }, None) == Err::<
                (Seq<(Seq<u8>, B256)>, Cursor),
                _,
            >(e),
        },
{
    let ghost start = Cursor { s: payload@, b: budget@ };
    let mut values: OwnerMap<B256> = OwnerMap::new();
    let mut left: &[u8] = payload;
    proof {
        if let Ok((xs, _)) = p_digests_items(start, None) {
            assert(values@ + xs =~= xs);
        }
    }
    while left.len() > 0
        invariant
            start == (Cursor { s: payload@, b: old(budget)@ }),
            match p_digests_items(
                Cursor { s: left@, b: budget@ },
                if values@.len() == 0 {
                    None
                } else {
                    Some(values@.last().0)
                },
            ) {
                Ok((xs, end)) => p_digests_items(start, None) == Ok::<_, SubscriberError>(
                    (values@ + xs, end),
                ),
                Err(e) => p_digests_items(start, None) == Err::<
                    (Seq<(Seq<u8>, B256)>, Cursor),
                    _,
                >(e),
            },
        decreases left@.len(),
    {
        let ghost here = Cursor { s: left@, b: budget@ };
        let ghost before = values@;
        let known: usize = values.len();
        let prior: Option<&HandlerId> = if known > 0 {
            Some(values.owner_at(known - 1))
        } else {
            None
        };
        let ghost last: Option<Seq<u8>> = if before.len() == 0 {
            None
        } else {
            Some(before.last().0)
        };
        let (entry, next) = decode_digests_entry(left, prior, budget)?;
        let ghost x = entry@;
        proof {
            assert(p_digests_entry(here, last)->Ok_0.0 == x);
            lemma_digests_shrinks(here, last);
            lemma_digests_ascends(here, last);
        }
        let OwnerEntry { owner, value } = entry;
        values.push_last(owner, value);
        left = next;
        proof {
            assert(values@.last() == x);
            if let Ok((xs, _)) = p_digests_items(Cursor { s: left@, b: budget@ }, Some(x.0)) {
                assert(before + (seq![x] + xs) =~= values@ + xs);
            }
        }
    }
    assert(values@ + Seq::<(Seq<u8>, B256)>::empty() =~= values@);
    Ok(values)
}

/// An entry that was read comes behind the one before it.
proof fn lemma_digests_ascends(c: Cursor, prior: Option<Seq<u8>>)
    ensures
        match p_digests_entry(c, prior) {
            Ok((x, _)) => prior is Some ==> bytes_lt(prior->Some_0, x.0),
            Err(_) => true,
        },
{
    reveal(p_digests_entry);
}

#[verifier::opaque]
pub open spec fn p_input_ref(c: Cursor) -> Parsed<InputRef> {
    match p_list(c.s, "input reference") { Err(e) => Err(e), Ok((payload, rest)) =>
    match claim_nodes(c.b, 1) { Err(e) => Err(e), Ok(b) =>
    match p_u8(Cursor { s: payload, b }, "input-reference tag") { Err(e) => Err(e), Ok((tag, c)) =>
    match p_input_body(c, tag) { Err(e) => Err(e), Ok((x, c)) =>
    match p_finish(c, "input reference", rest) { Err(e) => Err(e), Ok(c) =>
    Ok((x, c)) } } } } }
}

/// The fields behind the tag of an input reference.
#[verifier::opaque]
pub open spec fn p_input_body(c: Cursor, tag: u8) -> Parsed<InputRef> {
    if tag == 1 {
        match p_opt_u64(c, "log chain id") { Err(e) => Err(e), Ok((chain_id, c)) =>
        match p_hash(c, "log block hash") { Err(e) => Err(e), Ok((block_hash, c)) =>
        match p_hash(c, "log transaction hash") { Err(e) => Err(e), Ok((transaction_hash, c)) =>
        match p_u64(c, "log index") { Err(e) => Err(e), Ok((log_index, c)) =>
        Ok((InputRef::Log { chain_id, block_hash, transaction_hash, log_index }, c)) } } } }
    } else if tag == 2 {
        match p_opt_u64(c, "pending transaction chain id") { Err(e) => Err(e), Ok((chain_id, c)) =>
        match p_hash(c, "pending transaction hash") { Err(e) => Err(e), Ok((hash, c)) =>
        Ok((InputRef::PendingTx { chain_id, hash }, c)) } }
    } else if tag == 3 {
        match p_opt_u64(c, "block input chain id") { Err(e) => Err(e), Ok((chain_id, c)) =>
        match p_hash(c, "block input hash") { Err(e) => Err(e), Ok((hash, c)) =>
        match p_u64(c, "block input number") { Err(e) => Err(e), Ok((number, c)) =>
        Ok((InputRef::Block { chain_id, hash, number }, c)) } } }
    } else {
        Err(SubscriberError::UnknownTag { what: "input-reference tag", tag })
    }
}

fn decode_input_ref<'a>(input: &'a [u8], budget: &mut DecodeBudget) -> (r: Result<
    (InputRef, &'a [u8]),
    SubscriberError,
>)
    ensures
        agrees(r, p_input_ref(Cursor { s: input@, b: old(budget)@ }), final(budget)@),
{
    proof {
        reveal(p_input_ref);
    }
    let (payload, rest) = take_list(input, "input reference")?;
    budget.claim_nodes(1)?;
    let (tag, payload) = decode_u8(payload, "input-reference tag")?;
    let (value, payload) = decode_input_body(payload, tag, budget)?;
    finish_list(payload, "input reference")?;
    Ok((value, rest))
}

fn decode_input_body<'a>(payload: &'a [u8], tag: u8, budget: &mut DecodeBudget) -> (r: Result<
    (InputRef, &'a [u8]),
    SubscriberError,
>)
    ensures
        agrees(r, p_input_body(Cursor { s: payload@, b: old(budget)@ }, tag), final(budget)@),
{
    proof {
        reveal(p_input_body);
    }
    match tag {
        1 => {
            let (chain_id, payload) = decode_opt_u64(payload, "log chain id", budget)?;
            let (block_hash, payload) = decode_hash(payload, "log block hash")?;
            let (transaction_hash, payload) = decode_hash(payload, "log transaction hash")?;
            let (log_index, payload) = decode_u64(payload, "log index")?;
            Ok((InputRef::Log { chain_id, block_hash, transaction_hash, log_index }, payload))
        },
        2 => {
            let (chain_id, payload) = decode_opt_u64(
                payload,
                "pending transaction chain id",
                budget,
            )?;
            let (hash, payload) = decode_hash(payload, "pending transaction hash")?;
            Ok((InputRef::PendingTx { chain_id, hash }, payload))
        },
        3 => {
            let (chain_id, payload) = decode_opt_u64(payload, "block input chain id", budget)?;
            let (hash, payload) = decode_hash(payload, "block input hash")?;
            let (number, payload) = decode_u64(payload, "block input number")?;
            Ok((InputRef::Block { chain_id, hash, number }, payload))
        },
        _ => Err(SubscriberError::UnknownTag { what: "input-reference tag", tag }),
    }
}

/// What a tag stands for.
pub open spec fn kind_of(tag: u8) -> Option<ReactiveInputKind> {
    if tag == 1 {
        Some(ReactiveInputKind::CanonicalLog)
    } else if tag == 2 {
        Some(ReactiveInputKind::ReorgSignalLog)
    } else if tag == 3 {
        Some(ReactiveInputKind::BlockHeader)
    } else if tag == 4 {
        Some(ReactiveInputKind::FullBlock)
    } else if tag == 5 {
        Some(ReactiveInputKind::PendingTxHash)
    } else if tag == 6 {
        Some(ReactiveInputKind::PendingTx)
    } else {
        None
    }
}

pub open spec fn p_kind(c: Cursor) -> Parsed<ReactiveInputKind> {
    match p_u8(c, "reactive-input kind") {
        Err(e) => Err(e),
        Ok((tag, c)) => match kind_of(tag) {
            Some(x) => Ok((x, c)),
            None => Err(SubscriberError::UnknownTag { what: "reactive-input kind", tag }),
        },
    }
}

fn decode_kind<'a>(input: &'a [u8]) -> (r: Result<(ReactiveInputKind, &'a [u8]), SubscriberError>)
    ensures
        forall|b: Budget| agrees(r, #[trigger] p_kind(Cursor { s: input@, b }), b),
{
    let (tag, rest) = match decode_u8(input, "reactive-input kind") {
        Ok(parts) => parts,
        Err(e) => {
            assert forall|b: Budget| #[trigger] p_kind(Cursor { s: input@, b }) == Err::<
                (ReactiveInputKind, Cursor),
                _,
            >(e) by {
                assert(p_u8(Cursor { s: input@, b }, "reactive-input kind") is Err);
            }
            return Err(e);
        },
    };
    let r: Result<(ReactiveInputKind, &'a [u8]), SubscriberError> = match tag {
        1 => Ok((ReactiveInputKind::CanonicalLog, rest)),
        2 => Ok((ReactiveInputKind::ReorgSignalLog, rest)),
        3 => Ok((ReactiveInputKind::BlockHeader, rest)),
        4 => Ok((ReactiveInputKind::FullBlock, rest)),
        5 => Ok((ReactiveInputKind::PendingTxHash, rest)),
        6 => Ok((ReactiveInputKind::PendingTx, rest)),
        _ => Err(SubscriberError::UnknownTag { what: "reactive-input kind", tag }),
    };
    assert forall|b: Budget| agrees(r, #[trigger] p_kind(Cursor { s: input@, b }), b) by {
        assert(p_u8(Cursor { s: input@, b }, "reactive-input kind") is Ok);
    }
    r
}

/// What a tag stands for.
pub open spec fn lifecycle_of(tag: u8) -> Option<WitnessLifecycle> {
    if tag == 1 {
        Some(WitnessLifecycle::Included)
    } else if tag == 2 {
        Some(WitnessLifecycle::Safe)
    } else if tag == 3 {
        Some(WitnessLifecycle::Finalized)
    } else if tag == 4 {
        Some(WitnessLifecycle::Reorg)
    } else if tag == 5 {
        Some(WitnessLifecycle::Pending)
    } else {
        None
    }
}

pub open spec fn p_lifecycle(c: Cursor) -> Parsed<WitnessLifecycle> {
    match p_u8(c, "record-witness lifecycle") {
        Err(e) => Err(e),
        Ok((tag, c)) => match lifecycle_of(tag) {
            Some(x) => Ok((x, c)),
            None => Err(SubscriberError::UnknownTag { what: "record-witness lifecycle", tag }),
        },
    }
}

fn decode_lifecycle<'a>(input: &'a [u8]) -> (r: Result<(WitnessLifecycle, &'a [u8]), SubscriberError>)
    ensures
        forall|b: Budget| agrees(r, #[trigger] p_lifecycle(Cursor { s: input@, b }), b),
{
    let (tag, rest) = match decode_u8(input, "record-witness lifecycle") {
        Ok(parts) => parts,
        Err(e) => {
            assert forall|b: Budget| #[trigger] p_lifecycle(Cursor { s: input@, b }) == Err::<
                (WitnessLifecycle, Cursor),
                _,
            >(e) by {
                assert(p_u8(Cursor { s: input@, b }, "record-witness lifecycle") is Err);
            }
            return Err(e);
        },
    };
    let r: Result<(WitnessLifecycle, &'a [u8]), SubscriberError> = match tag {
        1 => Ok((WitnessLifecycle::Included, rest)),
        2 => Ok((WitnessLifecycle::Safe, rest)),
        3 => Ok((WitnessLifecycle::Finalized, rest)),
        4 => Ok((WitnessLifecycle::Reorg, rest)),
        5 => Ok((WitnessLifecycle::Pending, rest)),
        _ => Err(SubscriberError::UnknownTag { what: "record-witness lifecycle", tag }),
    };
    assert forall|b: Budget| agrees(r, #[trigger] p_lifecycle(Cursor { s: input@, b }), b) by {
        assert(p_u8(Cursor { s: input@, b }, "record-witness lifecycle") is Ok);
    }
    r
}

/// What a tag stands for.
pub open spec fn source_tag_of(tag: u8) -> Option<HybridSource> {
    if tag == 1 {
        Some(HybridSource::Historical)
    } else if tag == 2 {
        Some(HybridSource::Live)
    } else {
        None
    }
}

pub open spec fn p_source_tag(c: Cursor) -> Parsed<HybridSource> {
    match p_u8(c, "hybrid source") {
        Err(e) => Err(e),
        Ok((tag, c)) => match source_tag_of(tag) {
            Some(x) => Ok((x, c)),
            None => Err(SubscriberError::UnknownTag { what: "source tag", tag }),
        },
    }
}

fn decode_source_tag<'a>(input: &'a [u8]) -> (r: Result<(HybridSource, &'a [u8]), SubscriberError>)
    ensures
        forall|b: Budget| agrees(r, #[trigger] p_source_tag(Cursor { s: input@, b }), b),
{
    let (tag, rest) = match decode_u8(input, "hybrid source") {
        Ok(parts) => parts,
        Err(e) => {
            assert forall|b: Budget| #[trigger] p_source_tag(Cursor { s: input@, b }) == Err::<
                (HybridSource, Cursor),
                _,
            >(e) by {
                assert(p_u8(Cursor { s: input@, b }, "hybrid source") is Err);
            }
            return Err(e);
        },
    };
    let r: Result<(HybridSource, &'a [u8]), SubscriberError> = match tag {
        1 => Ok((HybridSource::Historical, rest)),
        2 => Ok((HybridSource::Live, rest)),
        _ => Err(SubscriberError::UnknownTag { what: "source tag", tag }),
    };
    assert forall|b: Budget| agrees(r, #[trigger] p_source_tag(Cursor { s: input@, b }), b) by {
        assert(p_u8(Cursor { s: input@, b }, "hybrid source") is Ok);
    }
    r
}

/// What a tag stands for.
pub open spec fn token_kind_of(tag: u8) -> Option<HybridTokenKind> {
    if tag == 1 {
        Some(HybridTokenKind::Forwarded)
    } else if tag == 2 {
        Some(HybridTokenKind::Synthetic)
    } else {
        None
    }
}

pub open spec fn p_token_kind(c: Cursor) -> Parsed<HybridTokenKind> {
    match p_u8(c, "hybrid token kind") {
        Err(e) => Err(e),
        Ok((tag, c)) => match token_kind_of(tag) {
            Some(x) => Ok((x, c)),
            None => Err(SubscriberError::UnknownTag { what: "token-kind tag", tag }),
        },
    }
}

fn decode_token_kind<'a>(input: &'a [u8]) -> (r: Result<(HybridTokenKind, &'a [u8]), SubscriberError>)
    ensures
        forall|b: Budget| agrees(r, #[trigger] p_token_kind(Cursor { s: input@, b }), b),
{
    let (tag, rest) = match decode_u8(input, "hybrid token kind") {
        Ok(parts) => parts,
        Err(e) => {
            assert forall|b: Budget| #[trigger] p_token_kind(Cursor { s: input@, b }) == Err::<
                (HybridTokenKind, Cursor),
                _,
            >(e) by {
                assert(p_u8(Cursor { s: input@, b }, "hybrid token kind") is Err);
            }
            return Err(e);
        },
    };
    let r: Result<(HybridTokenKind, &'a [u8]), SubscriberError> = match tag {
        1 => Ok((HybridTokenKind::Forwarded, rest)),
        2 => Ok((HybridTokenKind::Synthetic, rest)),
        _ => Err(SubscriberError::UnknownTag { what: "token-kind tag", tag }),
    };
    assert forall|b: Budget| agrees(r, #[trigger] p_token_kind(Cursor { s: input@, b }), b) by {
        assert(p_u8(Cursor { s: input@, b }, "hybrid token kind") is Ok);
    }
    r
}

#[verifier::opaque]
pub open spec fn p_identity(c: Cursor) -> Parsed<ReactiveInputIdentity> {
    match p_list(c.s, "reactive-input identity") { Err(e) => Err(e), Ok((payload, rest)) =>
    match claim_nodes(c.b, 1) { Err(e) => Err(e), Ok(b) => { let c = Cursor { s: payload, b };
    match p_input_ref(c) { Err(e) => Err(e), Ok((input_ref, c)) =>
    match p_kind(c) { Err(e) => Err(e), Ok((kind, c)) =>
    match p_finish(c, "reactive-input identity", rest) { Err(e) => Err(e), Ok(c) =>
    if (ReactiveInputIdentity { input_ref, kind }).compatible() { Ok((ReactiveInputIdentity { input_ref, kind }, c)) } else { Err(SubscriberError::IncompatibleIdentity) } } } } } } }
}

fn decode_identity<'a>(input: &'a [u8], budget: &mut DecodeBudget) -> (r: Result<
    (ReactiveInputIdentity, &'a [u8]),
    SubscriberError,
>)
    ensures
        agrees(r, p_identity(Cursor { s: input@, b: old(budget)@ }), final(budget)@),
{
    proof {
        reveal(p_identity);
    }
    let (payload, rest) = take_list(input, "reactive-input identity")?;
    budget.claim_nodes(1)?;
    let (input_ref, payload) = decode_input_ref(payload, budget)?;
    let (kind, payload) = decode_kind(payload)?;
    finish_list(payload, "reactive-input identity")?;
    match ReactiveInputIdentity::try_from_parts(input_ref, kind) {
        Some(identity) => Ok((identity, rest)),
        None => Err(SubscriberError::IncompatibleIdentity),
    }
}

#[verifier::opaque]
pub open spec fn p_witness(c: Cursor) -> Parsed<RecordWitness> {
    match p_list(c.s, "record witness") { Err(e) => Err(e), Ok((payload, rest)) =>
    match claim_nodes(c.b, 1) { Err(e) => Err(e), Ok(b) => { let c = Cursor { s: payload, b };
    match p_hash(c, "record payload digest") { Err(e) => Err(e), Ok((payload_digest, c)) =>
    match p_u64(c, "record witness chain id") { Err(e) => Err(e), Ok((chain_id, c)) =>
    match p_lifecycle(c) { Err(e) => Err(e), Ok((lifecycle, c)) =>
    match p_opt_block(c, "record witness block") { Err(e) => Err(e), Ok((block, c)) =>
    match p_opt_u64(c, "record transaction index") { Err(e) => Err(e), Ok((transaction_index, c)) =>
    match p_opt_u64(c, "record log index") { Err(e) => Err(e), Ok((log_index, c)) =>
    match p_opt_u64(c, "record log block timestamp") { Err(e) => Err(e), Ok((log_block_timestamp, c)) =>
    match p_finish(c, "record witness", rest) { Err(e) => Err(e), Ok(c) =>
    Ok((RecordWitness { payload_digest, chain_id, lifecycle, block, transaction_index, log_index, log_block_timestamp }, c)) } } } } } } } } } } }
}

fn decode_witness<'a>(input: &'a [u8], budget: &mut DecodeBudget) -> (r: Result<
    (RecordWitness, &'a [u8]),
    SubscriberError,
>)
    ensures
        agrees(r, p_witness(Cursor { s: input@, b: old(budget)@ }), final(budget)@),
{
    proof {
        reveal(p_witness);
    }
    let (payload, rest) = take_list(input, "record witness")?;
    budget.claim_nodes(1)?;
    let (payload_digest, payload) = decode_hash(payload, "record payload digest")?;
    let (chain_id, payload) = decode_u64(payload, "record witness chain id")?;
    let (lifecycle, payload) = decode_lifecycle(payload)?;
    let (block, payload) = decode_opt_block(payload, "record witness block", budget)?;
    let (transaction_index, payload) = decode_opt_u64(payload, "record transaction index", budget)?;
    let (log_index, payload) = decode_opt_u64(payload, "record log index", budget)?;
    let (log_block_timestamp, payload) = decode_opt_u64(payload, "record log block timestamp", budget)?;
    finish_list(payload, "record witness")?;
    Ok((RecordWitness { payload_digest, chain_id, lifecycle, block, transaction_index, log_index, log_block_timestamp }, rest))
}

#[verifier::opaque]
pub open spec fn p_opt_witness(c: Cursor, context: &'static str) -> Parsed<Option<RecordWitness>> {
    match p_list(c.s, context) {
        Err(e) => Err(e),
        Ok((payload, rest)) => match claim_nodes(c.b, 1) {
            Err(e) => Err(e),
            Ok(b) => if payload.len() == 0 {
                Ok((None, Cursor { s: rest, b }))
            } else {
                match p_witness(Cursor { s: payload, b }) {
                    Err(e) => Err(e),
                    Ok((x, c)) => match p_finish(c, context, rest) {
                        Err(e) => Err(e),
                        Ok(c) => Ok((Some(x), c)),
                    },
                }
            },
        },
    }
}

fn decode_opt_witness<'a>(
    input: &'a [u8],
    context: &'static str,
    budget: &mut DecodeBudget,
) -> (r: Result<(Option<RecordWitness>, &'a [u8]), SubscriberError>)
    ensures
        agrees(
            r,
            p_opt_witness(Cursor { s: input@, b: old(budget)@ }, context),
            final(budget)@,
        ),
{
    proof {
        reveal(p_opt_witness);
    }
    let (payload, rest) = take_list(input, context)?;
    budget.claim_nodes(1)?;
    if payload.len() == 0 {
        return Ok((None, rest));
    }
    let (value, payload) = decode_witness(payload, budget)?;
    finish_list(payload, context)?;
    Ok((Some(value), rest))
}

#[verifier::opaque]
pub open spec fn p_coverage(c: Cursor) -> Parsed<CoverageView> {
    match p_list(c.s, "audience coverage") { Err(e) => Err(e), Ok((payload, rest)) =>
    match claim_nodes(c.b, 1) { Err(e) => Err(e), Ok(b) => { let c = Cursor { s: payload, b };
    match p_bool(c, "base audience coverage") { Err(e) => Err(e), Ok((base, c)) =>
    match p_generations(c) { Err(e) => Err(e), Ok((owners, c)) =>
    match p_opt_block(c, "audience coverage block") { Err(e) => Err(e), Ok((block, c)) =>
    match p_opt_witness(c, "audience coverage witness") { Err(e) => Err(e), Ok((witness, c)) =>
    match p_finish(c, "audience coverage", rest) { Err(e) => Err(e), Ok(c) =>
    Ok((CoverageView { base, owners, block, witness }, c)) } } } } } } } }
}

fn decode_coverage<'a>(input: &'a [u8], budget: &mut DecodeBudget) -> (r: Result<
    (AudienceCoverage, &'a [u8]),
    SubscriberError,
>)
    ensures
        agrees_view(r, p_coverage(Cursor { s: input@, b: old(budget)@ }), final(budget)@),
{
    proof {
        reveal(p_coverage);
    }
    let (payload, rest) = take_list(input, "audience coverage")?;
    budget.claim_nodes(1)?;
    let (base, payload) = decode_bool(payload, "base audience coverage")?;
    let (owners, payload) = decode_generations(payload, budget)?;
    let (block, payload) = decode_opt_block(payload, "audience coverage block", budget)?;
    let (witness, payload) = decode_opt_witness(payload, "audience coverage witness", budget)?;
    finish_list(payload, "audience coverage")?;
    Ok((AudienceCoverage { base, owners, block, witness }, rest))
}

#[verifier::opaque]
pub open spec fn p_recent(c: Cursor) -> Parsed<RecentView> {
    match p_list(c.s, "recent input") { Err(e) => Err(e), Ok((payload, rest)) =>
    match claim_nodes(c.b, 1) { Err(e) => Err(e), Ok(b) => { let c = Cursor { s: payload, b };
    match p_identity(c) { Err(e) => Err(e), Ok((identity, c)) =>
    match p_coverage(c) { Err(e) => Err(e), Ok((coverage, c)) =>
    match p_finish(c, "recent input", rest) { Err(e) => Err(e), Ok(c) =>
    Ok((RecentView { identity, coverage }, c)) } } } } } }
}

fn decode_recent<'a>(input: &'a [u8], budget: &mut DecodeBudget) -> (r: Result<
    (StoredRecentInput, &'a [u8]),
    SubscriberError,
>)
    ensures
        agrees_view(r, p_recent(Cursor { s: input@, b: old(budget)@ }), final(budget)@),
{
    proof {
        reveal(p_recent);
    }
    let (payload, rest) = take_list(input, "recent input")?;
    budget.claim_nodes(1)?;
    let (identity, payload) = decode_identity(payload, budget)?;
    let (coverage, payload) = decode_coverage(payload, budget)?;
    finish_list(payload, "recent input")?;
    Ok((StoredRecentInput { identity, coverage }, rest))
}

/// Items one behind the other, up to the end.
pub open spec fn p_recent_items(c: Cursor) -> Parsed<Seq<RecentView>>
    decreases c.s.len(),
{
    if c.s.len() == 0 {
        Ok((Seq::empty(), c))
    } else {
        match p_recent(c) {
            Err(e) => Err(e),
            Ok((x, next)) => if next.s.len() < c.s.len() {
                match p_recent_items(next) {
                    Err(e) => Err(e),
                    Ok((xs, end)) => Ok((seq![x] + xs, end)),
                }
            } else {
                arbitrary()
            },
        }
    }
}

#[verifier::opaque]
pub open spec fn p_recents(c: Cursor, context: &'static str) -> Parsed<Seq<RecentView>> {
    match p_list(c.s, context) {
        Err(e) => Err(e),
        Ok((payload, rest)) => match counted_items(payload, MAX_RECENT_INPUTS, context, 0) {
            Err(e) => Err(e),
            Ok(count) => match claim_nodes(c.b, count) {
                Err(e) => Err(e),
                Ok(b) => match claim_items(b, vstd::layout::size_of::<StoredRecentInput>(), count) {
                    Err(e) => Err(e),
                    Ok(b) => match p_recent_items(Cursor { s: payload, b }) {
                        Err(e) => Err(e),
                        Ok((xs, end)) => Ok((xs, Cursor { s: rest, b: end.b })),
                    },
                },
            },
        },
    }
}

fn decode_recents<'a>(
    input: &'a [u8],
    context: &'static str,
    budget: &mut DecodeBudget,
) -> (r: Result<(Vec<StoredRecentInput>, &'a [u8]), SubscriberError>)
    ensures
        match r {
            Ok((v, rest)) => p_recents(Cursor { s: input@, b: old(budget)@ }, context) == Ok::<
                _,
                SubscriberError,
            >((recent_view(v@), Cursor { s: rest@, b: final(budget)@ })),
            Err(e) => p_recents(Cursor { s: input@, b: old(budget)@ }, context) == Err::<
                (Seq<RecentView>, Cursor),
                _,
            >(e),
        },
{
    proof {
        reveal(p_recents);
    }
    let (payload, rest) = take_list(input, context)?;
    let count: usize = count_items(payload, MAX_RECENT_INPUTS, context)?;
    budget.claim_nodes(count)?;
    budget.claim_heap::<StoredRecentInput>(count)?;
    let values: Vec<StoredRecentInput> = decode_recent_items(payload, budget)?;
    Ok((values, rest))
}

fn decode_recent_items(payload: &[u8], budget: &mut DecodeBudget) -> (r: Result<
    Vec<StoredRecentInput>,
    SubscriberError,
>)
    ensures
        match r {
            Ok(v) => p_recent_items(Cursor { s: payload@, b: old(budget)@ }) is Ok
                && p_recent_items(Cursor { s: payload@, b: old(budget)@ })->Ok_0.0 == recent_view(v@)
                && p_recent_items(Cursor { s: payload@, b: old(budget)@ })->Ok_0.1.b == final(budget)@,
            Err(e) => p_recent_items(Cursor { s: payload@, b: old(budget)@ }) == Err::<
                (Seq<RecentView>, Cursor),
                _,
            >(e),
        },
{
    let ghost start = Cursor { s: payload@, b: budget@ };
    let mut values: Vec<StoredRecentInput> = Vec::new();
    let mut left: &[u8] = payload;
    proof {
        if let Ok((xs, _)) = p_recent_items(start) {
            assert(recent_view(values@) + xs =~= xs);
        }
    }
    while left.len() > 0
        invariant
            start == (Cursor { s: payload@, b: old(budget)@ }),
            match p_recent_items(Cursor { s: left@, b: budget@ }) {
                Ok((xs, end)) => p_recent_items(start) == Ok::<_, SubscriberError>(
                    (recent_view(values@) + xs, end),
                ),
                Err(e) => p_recent_items(start) == Err::<(Seq<RecentView>, Cursor), _>(e),
            },
        decreases left@.len(),
    {
        let ghost here = Cursor { s: left@, b: budget@ };
        let ghost before = recent_view(values@);
        let (value, next) = decode_recent(left, budget)?;
        proof {
            lemma_recent_shrinks(here);
        }
        values.push(value);
        left = next;
        proof {
            let x = p_recent(here)->Ok_0.0;
            assert(recent_view(values@) =~= before.push(x));
            if let Ok((xs, _)) = p_recent_items(Cursor { s: left@, b: budget@ }) {
                assert(before + (seq![x] + xs) =~= recent_view(values@) + xs);
            }
        }
    }
    assert(recent_view(values@) + Seq::<RecentView>::empty() =~= recent_view(values@));
    Ok(values)
}

/// Reading an item moves on.
pub proof fn lemma_recent_shrinks(c: Cursor)
    ensures
        match p_recent(c) {
            Ok((_, next)) => next.s.len() < c.s.len(),
            Err(_) => true,
        },
{
    reveal(item_decode);
    reveal(p_recent);
}

#[verifier::opaque]
pub open spec fn p_source(c: Cursor) -> Parsed<SourceView> {
    match p_list(c.s, "source position") { Err(e) => Err(e), Ok((payload, rest)) =>
    match claim_nodes(c.b, 1) { Err(e) => Err(e), Ok(b) => { let c = Cursor { s: payload, b };
    match p_opt_bytes(c, "source delivery token") { Err(e) => Err(e), Ok((delivery_token, c)) =>
    match p_opt_bytes(c, "child subscriber checkpoint") { Err(e) => Err(e), Ok((checkpoint, c)) =>
    match p_opt_block(c, "source coverage head") { Err(e) => Err(e), Ok((coverage_head, c)) =>
    match p_blocks(c, "source canonical history") { Err(e) => Err(e), Ok((canonical_history, c)) =>
    match p_opt_hash(c, "source delivery digest") { Err(e) => Err(e), Ok((delivery_digest, c)) =>
    match p_finish(c, "source position", rest) { Err(e) => Err(e), Ok(c) =>
    Ok((SourceView { delivery_token, checkpoint, coverage_head, canonical_history, delivery_digest }, c)) } } } } } } } } }
}

fn decode_source<'a>(input: &'a [u8], budget: &mut DecodeBudget) -> (r: Result<
    (SourcePosition, &'a [u8]),
    SubscriberError,
>)
    ensures
        agrees_view(r, p_source(Cursor { s: input@, b: old(budget)@ }), final(budget)@),
{
    proof {
        reveal(p_source);
    }
    let (payload, rest) = take_list(input, "source position")?;
    budget.claim_nodes(1)?;
    let (delivery_token, payload) = decode_opt_bytes(payload, "source delivery token", budget)?;
    let (checkpoint, payload) = decode_opt_bytes(payload, "child subscriber checkpoint", budget)?;
    let (coverage_head, payload) = decode_opt_block(payload, "source coverage head", budget)?;
    let (canonical_history, payload) = decode_blocks(payload, "source canonical history", budget)?;
    let (delivery_digest, payload) = decode_opt_hash(payload, "source delivery digest", budget)?;
    finish_list(payload, "source position")?;
    Ok((SourcePosition { delivery_token, checkpoint, coverage_head, canonical_history, delivery_digest }, rest))
}

#[verifier::opaque]
pub open spec fn p_token(c: Cursor) -> Parsed<TokenView> {
    match p_list(c.s, "committed token") { Err(e) => Err(e), Ok((payload, rest)) =>
    match claim_nodes(c.b, 1) { Err(e) => Err(e), Ok(b) => { let c = Cursor { s: payload, b };
    match p_source_tag(c) { Err(e) => Err(e), Ok((source, c)) =>
    match p_token_kind(c) { Err(e) => Err(e), Ok((kind, c)) =>
    match p_bytes(c, MAX_CHECKPOINT_PAYLOAD_BYTES, "committed token payload") { Err(e) => Err(e), Ok((inner, c)) =>
    match p_finish(c, "committed token", rest) { Err(e) => Err(e), Ok(c) =>
    Ok((TokenView { source, kind, inner }, c)) } } } } } } }
}

fn decode_token<'a>(input: &'a [u8], budget: &mut DecodeBudget) -> (r: Result<
    (StoredCommittedToken, &'a [u8]),
    SubscriberError,
>)
    ensures
        agrees_view(r, p_token(Cursor { s: input@, b: old(budget)@ }), final(budget)@),
{
    proof {
        reveal(p_token);
    }
    let (payload, rest) = take_list(input, "committed token")?;
    budget.claim_nodes(1)?;
    let (source, payload) = decode_source_tag(payload)?;
    let (kind, payload) = decode_token_kind(payload)?;
    let (inner, payload) = decode_bytes(payload, MAX_CHECKPOINT_PAYLOAD_BYTES, "committed token payload", budget)?;
    finish_list(payload, "committed token")?;
    Ok((StoredCommittedToken { source, kind, inner }, rest))
}

#[verifier::opaque]
pub open spec fn p_opt_token(c: Cursor, context: &'static str) -> Parsed<Option<TokenView>> {
    match p_list(c.s, context) {
        Err(e) => Err(e),
        Ok((payload, rest)) => match claim_nodes(c.b, 1) {
            Err(e) => Err(e),
            Ok(b) => if payload.len() == 0 {
                Ok((None, Cursor { s: rest, b }))
            } else {
                match p_token(Cursor { s: payload, b }) {
                    Err(e) => Err(e),
                    Ok((x, c)) => match p_finish(c, context, rest) {
                        Err(e) => Err(e),
                        Ok(c) => Ok((Some(x), c)),
                    },
                }
            },
        },
    }
}

fn decode_opt_token<'a>(
    input: &'a [u8],
    context: &'static str,
    budget: &mut DecodeBudget,
) -> (r: Result<(Option<StoredCommittedToken>, &'a [u8]), SubscriberError>)
    ensures
        match r {
            Ok((v, rest)) => p_opt_token(Cursor { s: input@, b: old(budget)@ }, context)
                == Ok::<_, SubscriberError>((opt_token(v), Cursor { s: rest@, b: final(budget)@ })),
            Err(e) => p_opt_token(Cursor { s: input@, b: old(budget)@ }, context) == Err::<
                (Option<TokenView>, Cursor),
                _,
            >(e),
        },
{
    proof {
        reveal(p_opt_token);
    }
    let (payload, rest) = take_list(input, context)?;
    budget.claim_nodes(1)?;
    if payload.len() == 0 {
        return Ok((None, rest));
    }
    let (value, payload) = decode_token(payload, budget)?;
    finish_list(payload, context)?;
    Ok((Some(value), rest))
}

#[verifier::opaque]
pub open spec fn p_intent(c: Cursor) -> Parsed<IntentView> {
    match p_list(c.s, "lifecycle intent") { Err(e) => Err(e), Ok((payload, rest)) =>
    match claim_nodes(c.b, 1) { Err(e) => Err(e), Ok(b) => { let c = Cursor { s: payload, b };
    match p_hash(c, "base lifecycle fingerprint") { Err(e) => Err(e), Ok((base, c)) =>
    match p_digests(c) { Err(e) => Err(e), Ok((owners, c)) =>
    match p_finish(c, "lifecycle intent", rest) { Err(e) => Err(e), Ok(c) =>
    Ok((IntentView { base, owners }, c)) } } } } } }
}

fn decode_intent<'a>(input: &'a [u8], budget: &mut DecodeBudget) -> (r: Result<
    (LifecycleIntent, &'a [u8]),
    SubscriberError,
>)
    ensures
        agrees_view(r, p_intent(Cursor { s: input@, b: old(budget)@ }), final(budget)@),
{
    proof {
        reveal(p_intent);
    }
    let (payload, rest) = take_list(input, "lifecycle intent")?;
    budget.claim_nodes(1)?;
    let (base, payload) = decode_hash(payload, "base lifecycle fingerprint")?;
    let (owners, payload) = decode_digests(payload, budget)?;
    finish_list(payload, "lifecycle intent")?;
    Ok((LifecycleIntent { base, owners }, rest))
}

#[verifier::opaque]
pub open spec fn p_certified(c: Cursor) -> Parsed<CertifiedHistoricalCoverage> {
    match p_list(c.s, "certified historical coverage") { Err(e) => Err(e), Ok((payload, rest)) =>
    match claim_nodes(c.b, 1) { Err(e) => Err(e), Ok(b) => { let c = Cursor { s: payload, b };
    match p_u64(c, "certified historical lifecycle generation") { Err(e) => Err(e), Ok((lifecycle_generation, c)) =>
    match p_block(c) { Err(e) => Err(e), Ok((through, c)) =>
    match p_finish(c, "certified historical coverage", rest) { Err(e) => Err(e), Ok(c) =>
    Ok((CertifiedHistoricalCoverage { lifecycle_generation, through }, c)) } } } } } }
}

fn decode_certified<'a>(input: &'a [u8], budget: &mut DecodeBudget) -> (r: Result<
    (CertifiedHistoricalCoverage, &'a [u8]),
    SubscriberError,
>)
    ensures
        agrees(r, p_certified(Cursor { s: input@, b: old(budget)@ }), final(budget)@),
{
    proof {
        reveal(p_certified);
    }
    let (payload, rest) = take_list(input, "certified historical coverage")?;
    budget.claim_nodes(1)?;
    let (lifecycle_generation, payload) = decode_u64(payload, "certified historical lifecycle generation")?;
    let (through, payload) = decode_block(payload, budget)?;
    finish_list(payload, "certified historical coverage")?;
    Ok((CertifiedHistoricalCoverage { lifecycle_generation, through }, rest))
}

#[verifier::opaque]
pub open spec fn p_opt_certified(c: Cursor, context: &'static str) -> Parsed<Option<CertifiedHistoricalCoverage>> {
    match p_list(c.s, context) {
        Err(e) => Err(e),
        Ok((payload, rest)) => match claim_nodes(c.b, 1) {
            Err(e) => Err(e),
            Ok(b) => if payload.len() == 0 {
                Ok((None, Cursor { s: rest, b }))
            } else {
                match p_certified(Cursor { s: payload, b }) {
                    Err(e) => Err(e),
                    Ok((x, c)) => match p_finish(c, context, rest) {
                        Err(e) => Err(e),
                        Ok(c) => Ok((Some(x), c)),
                    },
                }
            },
        },
    }
}

fn decode_opt_certified<'a>(
    input: &'a [u8],
    context: &'static str,
    budget: &mut DecodeBudget,
) -> (r: Result<(Option<CertifiedHistoricalCoverage>, &'a [u8]), SubscriberError>)
    ensures
        agrees(
            r,
            p_opt_certified(Cursor { s: input@, b: old(budget)@ }, context),
            final(budget)@,
        ),
{
    proof {
        reveal(p_opt_certified);
    }
    let (payload, rest) = take_list(input, context)?;
    budget.claim_nodes(1)?;
    if payload.len() == 0 {
        return Ok((None, rest));
    }
    let (value, payload) = decode_certified(payload, budget)?;
    finish_list(payload, context)?;
    Ok((Some(value), rest))
}

/// The four fixed-width fields of a checkpoint.
pub struct HeadFields {
    pub chain_id: u64,
    pub epoch: Epoch,
    pub next_synthetic_token: u64,
    pub lifecycle_generation: u64,
}

#[verifier::opaque]
pub open spec fn p_head(c: Cursor) -> Parsed<HeadFields> {
    match p_u64(c, "chain id") { Err(e) => Err(e), Ok((chain_id, c)) =>
    match p_epoch(c, "epoch") { Err(e) => Err(e), Ok((epoch, c)) =>
    match p_u64(c, "next synthetic token") { Err(e) => Err(e), Ok((next_synthetic_token, c)) =>
    match p_u64(c, "lifecycle generation") { Err(e) => Err(e), Ok((lifecycle_generation, c)) =>
    Ok((HeadFields { chain_id, epoch, next_synthetic_token, lifecycle_generation }, c)) } } } }
}

fn decode_head<'a>(payload: &'a [u8]) -> (r: Result<(HeadFields, &'a [u8]), SubscriberError>)
    ensures
        forall|b: Budget| agrees(r, #[trigger] p_head(Cursor { s: payload@, b }), b),
{
    proof {
        reveal(p_head);
    }
    let (chain_id, payload) = decode_u64(payload, "chain id")?;
    let (epoch, payload) = decode_epoch(payload, "epoch")?;
    let (next_synthetic_token, payload) = decode_u64(payload, "next synthetic token")?;
    let (lifecycle_generation, payload) = decode_u64(payload, "lifecycle generation")?;
    Ok((HeadFields { chain_id, epoch, next_synthetic_token, lifecycle_generation }, payload))
}

/// The fields of a checkpoint from the owner generations to the canonical
/// history.
pub struct BodyFields {
    pub owner_generations: Seq<(Seq<u8>, u64)>,
    pub lifecycle_intent: IntentView,
    pub recent_inputs: Seq<RecentView>,
    pub canonical_history: Seq<BlockRef>,
}

#[verifier::opaque]
pub open spec fn p_body(c: Cursor) -> Parsed<BodyFields> {
    match p_generations(c) { Err(e) => Err(e), Ok((owner_generations, c)) =>
    match p_intent(c) { Err(e) => Err(e), Ok((lifecycle_intent, c)) =>
    match p_recents(c, "recent inputs") { Err(e) => Err(e), Ok((recent_inputs, c)) =>
    match p_blocks(c, "coordinator canonical history") { Err(e) => Err(e), Ok((canonical_history, c)) =>
    Ok((BodyFields { owner_generations, lifecycle_intent, recent_inputs, canonical_history }, c)) } } } }
}

/// The last fields of a checkpoint, from the coverage head on.
pub struct TailFields {
    pub coverage_head: Option<BlockRef>,
    pub safe_head: Option<BlockRef>,
    pub finalized_head: Option<BlockRef>,
    pub certified_historical: Option<CertifiedHistoricalCoverage>,
    pub historical_position: SourceView,
    pub live_position: SourceView,
    pub last_committed_token: Option<TokenView>,
}

#[verifier::opaque]
pub open spec fn p_tail(c: Cursor) -> Parsed<TailFields> {
    match p_opt_block(c, "coverage head") { Err(e) => Err(e), Ok((coverage_head, c)) =>
    match p_opt_block(c, "safe head") { Err(e) => Err(e), Ok((safe_head, c)) =>
    match p_opt_block(c, "finalized head") { Err(e) => Err(e), Ok((finalized_head, c)) =>
    match p_opt_certified(c, "certified historical coverage") { Err(e) => Err(e), Ok((certified_historical, c)) =>
    match p_source(c) { Err(e) => Err(e), Ok((historical_position, c)) =>
    match p_source(c) { Err(e) => Err(e), Ok((live_position, c)) =>
    match p_opt_token(c, "last committed token") { Err(e) => Err(e), Ok((last_committed_token, c)) =>
    Ok((TailFields { coverage_head, safe_head, finalized_head, certified_historical, historical_position, live_position, last_committed_token }, c)) } } } } } } }
}

/// A checkpoint put together from its fields.
pub open spec fn checkpoint_of(h: HeadFields, m: BodyFields, t: TailFields) -> CheckpointView {
    CheckpointView {
        chain_id: h.chain_id,
        epoch: h.epoch,
        next_synthetic_token: h.next_synthetic_token,
        lifecycle_generation: h.lifecycle_generation,
        owner_generations: m.owner_generations,
        lifecycle_intent: m.lifecycle_intent,
        recent_inputs: m.recent_inputs,
        canonical_history: m.canonical_history,
        coverage_head: t.coverage_head,
        safe_head: t.safe_head,
        finalized_head: t.finalized_head,
        certified_historical: t.certified_historical,
        historical_position: t.historical_position,
        live_position: t.live_position,
        last_committed_token: t.last_committed_token,
    }
}

/// What reading a whole checkpoint payload gives.
pub open spec fn p_checkpoint(c: Cursor) -> Parsed<CheckpointView> {
    match p_list(c.s, "v5 payload") { Err(e) => Err(e), Ok((payload, rest)) =>
    match claim_nodes(c.b, 1) { Err(e) => Err(e), Ok(b) =>
    match p_head(Cursor { s: payload, b }) { Err(e) => Err(e), Ok((head, c)) =>
    match p_body(c) { Err(e) => Err(e), Ok((body, c)) =>
    match p_tail(c) { Err(e) => Err(e), Ok((tail, c)) =>
    match p_finish(c, "v5 payload", rest) { Err(e) => Err(e), Ok(c) =>
    Ok((checkpoint_of(head, body, tail), c)) } } } } } }
}

/// Reads a checkpoint payload at the front of `input`.
pub(crate) fn decode_checkpoint_payload<'a>(input: &'a [u8], budget: &mut DecodeBudget) -> (r: Result<
    (HybridCheckpointV5, &'a [u8]),
    SubscriberError,
>)
    ensures
        agrees_view(r, p_checkpoint(Cursor { s: input@, b: old(budget)@ }), final(budget)@),
{
    proof {
        reveal(p_body);
        reveal(p_tail);
    }
    let (payload, rest) = take_list(input, "v5 payload")?;
    budget.claim_nodes(1)?;
    let ghost c0 = Cursor { s: payload@, b: budget@ };
    let (head, payload) = match decode_head(payload) {
        Ok(parts) => parts,
        Err(e) => {
            assert(p_head(c0) is Err);
            return Err(e);
        },
    };
    let ghost c1 = Cursor { s: payload@, b: budget@ };
    assert(p_head(c0) == Ok::<_, SubscriberError>((head, c1)));
    let (owner_generations, payload) = decode_generations(payload, budget)?;
    let (lifecycle_intent, payload) = decode_intent(payload, budget)?;
    let (recent_inputs, payload) = decode_recents(payload, "recent inputs", budget)?;
    let (canonical_history, payload) = decode_blocks(
        payload,
        "coordinator canonical history",
        budget,
    )?;
    let ghost c2 = Cursor { s: payload@, b: budget@ };
    let ghost body = BodyFields {
        owner_generations: owner_generations@,
        lifecycle_intent: lifecycle_intent@,
        recent_inputs: recent_view(recent_inputs@),
        canonical_history: canonical_history@,
    };
    assert(p_body(c1) == Ok::<_, SubscriberError>((body, c2)));
    let (coverage_head, payload) = decode_opt_block(payload, "coverage head", budget)?;
    let (safe_head, payload) = decode_opt_block(payload, "safe head", budget)?;
    let (finalized_head, payload) = decode_opt_block(payload, "finalized head", budget)?;
    let (certified_historical, payload) = decode_opt_certified(
        payload,
        "certified historical coverage",
        budget,
    )?;
    let (historical_position, payload) = decode_source(payload, budget)?;
    let (live_position, payload) = decode_source(payload, budget)?;
    let (last_committed_token, payload) = decode_opt_token(
        payload,
        "last committed token",
        budget,
    )?;
    finish_list(payload, "v5 payload")?;
    Ok(
        (
            HybridCheckpointV5 {
                chain_id: head.chain_id,
                epoch: head.epoch,
                next_synthetic_token: head.next_synthetic_token,
                lifecycle_generation: head.lifecycle_generation,
                owner_generations,
                lifecycle_intent,
                recent_inputs,
                canonical_history,
                coverage_head,
                safe_head,
                finalized_head,
                certified_historical,
                historical_position,
                live_position,
                last_committed_token,
            },
            rest,
        ),
    )
}

} // verus!
