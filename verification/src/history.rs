//! Canonical blocks retained of a chain, and what moves them.
use crate::checkpoint::{copy_blocks, SourcePosition, SourceView};
use crate::error::SubscriberError;
use crate::model::{compatible_block_ref, merged_block, BlockRef};
use crate::validate::{block_at, conflict, find_block, find_index, index_of, lemma_index_of};
use vstd::prelude::*;

verus! {

/// One step of the canonical chain.
#[derive(Clone, Copy, Debug, PartialEq, Eq, Structural)]
pub enum CanonicalMutation {
    /// Everything above this block is gone.
    Rewind(BlockRef),
    /// Nothing retained holds any more.
    Reset,
    /// This block is canonical.
    Advance(BlockRef),
}

/// Retained blocks and the head up to which they cover the chain.
pub struct Trail {
    pub history: Seq<BlockRef>,
    pub head: Option<BlockRef>,
}

/// The newest `capacity` items.
pub open spec fn newest<T>(s: Seq<T>, capacity: nat) -> Seq<T> {
    if s.len() > capacity {
        s.skip(s.len() - capacity)
    } else {
        s
    }
}

/// Drops the oldest items until at most `capacity` are left.
pub fn truncate_front_to<T>(values: &mut Vec<T>, capacity: usize)
    ensures
        final(values)@ == newest(old(values)@, capacity as nat),
{
    if values.len() > capacity {
        let excess: usize = values.len() - capacity;
        let mut kept: Vec<T> = values.split_off(excess);
        std::mem::swap(values, &mut kept);
        assert(values@ =~= old(values)@.skip(excess as int));
    }
}

/// `b` put behind every block of `s` that is not higher.
pub open spec fn insert_block(s: Seq<BlockRef>, b: BlockRef) -> Seq<BlockRef>
    decreases s.len(),
{
    if s.len() == 0 || s.last().number <= b.number {
        s.push(b)
    } else {
        insert_block(s.drop_last(), b).push(s.last())
    }
}

/// The blocks of `s` by height; blocks of one height keep their order.
pub open spec fn by_height(s: Seq<BlockRef>) -> Seq<BlockRef>
    decreases s.len(),
{
    if s.len() == 0 {
        s
    } else {
        insert_block(by_height(s.drop_last()), s.last())
    }
}

fn insert_by_height(blocks: &mut Vec<BlockRef>, block: BlockRef)
    ensures
        final(blocks)@ == insert_block(old(blocks)@, block),
{
    let ghost all = blocks@;
    let mut at: usize = blocks.len();
    assert(all.take(at as int) =~= all);
    assert(insert_block(all, block) + all.skip(at as int) =~= insert_block(all, block));
    while at > 0
        invariant
            at <= blocks@.len(),
            blocks@ == all,
            all == old(blocks)@,
            insert_block(all, block) == insert_block(all.take(at as int), block) + all.skip(
                at as int,
            ),
        decreases at,
    {
        let ghost front = all.take(at as int);
        assert(front.last() == all[at - 1]);
        if blocks[at - 1].number <= block.number {
            blocks.insert(at, block);
            assert(blocks@ =~= front.push(block) + all.skip(at as int));
            return;
        }
        proof {
            assert(front.drop_last() =~= all.take(at - 1));
            assert(insert_block(front, block) + all.skip(at as int) =~= insert_block(
                all.take(at - 1),
                block,
            ) + all.skip(at - 1));
        }
        at -= 1;
    }
    blocks.insert(0, block);
    assert(blocks@ =~= all.take(0).push(block) + all.skip(0));
}

/// Orders blocks by height; blocks of one height keep their order.
pub fn sort_by_height(blocks: &mut Vec<BlockRef>)
    ensures
        final(blocks)@ == by_height(old(blocks)@),
{
    let ghost all = blocks@;
    let mut out: Vec<BlockRef> = Vec::with_capacity(blocks.len());
    let mut i: usize = 0;
    assert(all.take(0) =~= Seq::<BlockRef>::empty());
    while i < blocks.len()
        invariant
            i <= blocks@.len(),
            blocks@ == all,
            out@ == by_height(all.take(i as int)),
        decreases blocks@.len() - i,
    {
        proof {
            let next = all.take(i + 1);
            assert(next.drop_last() =~= all.take(i as int));
            assert(next.last() == all[i as int]);
        }
        insert_by_height(&mut out, blocks[i]);
        i += 1;
    }
    assert(all.take(i as int) =~= all);
    *blocks = out;
}

/// Whether blocks ascend strictly.
pub open spec fn ascending(s: Seq<BlockRef>) -> bool {
    forall|i: int, j: int|
        0 <= i < j < s.len() ==> (#[trigger] s[i]).number < (#[trigger] s[j]).number
}

/// Ordering blocks that ascend changes nothing.
pub proof fn lemma_by_height_ascending(s: Seq<BlockRef>)
    requires
        ascending(s),
    ensures
        by_height(s) == s,
    decreases s.len(),
{
    if s.len() > 0 {
        let front = s.drop_last();
        assert(ascending(front)) by {
            assert forall|i: int, j: int| 0 <= i < j < front.len() implies (
            #[trigger] front[i]).number < (#[trigger] front[j]).number by {
                assert(front[i] == s[i] && front[j] == s[j]);
            }
        }
        lemma_by_height_ascending(front);
        if front.len() > 0 {
            assert(front.last() == s[s.len() - 2]);
            assert(s[s.len() - 2].number < s[s.len() - 1].number);
        }
        assert(front.push(s.last()) =~= s);
    }
}

/// The blocks of `s` that are not above `number`.
pub open spec fn up_to(s: Seq<BlockRef>, number: u64) -> Seq<BlockRef>
    decreases s.len(),
{
    if s.len() == 0 {
        s
    } else if s.last().number <= number {
        up_to(s.drop_last(), number).push(s.last())
    } else {
        up_to(s.drop_last(), number)
    }
}

fn retain_up_to(blocks: &[BlockRef], number: u64) -> (r: Vec<BlockRef>)
    ensures
        r@ == up_to(blocks@, number),
{
    let ghost all = blocks@;
    let mut out: Vec<BlockRef> = Vec::new();
    let mut i: usize = 0;
    assert(all.take(0) =~= Seq::<BlockRef>::empty());
    while i < blocks.len()
        invariant
            i <= blocks@.len(),
            blocks@ == all,
            out@ == up_to(all.take(i as int), number),
        decreases blocks@.len() - i,
    {
        proof {
            let next = all.take(i + 1);
            assert(next.drop_last() =~= all.take(i as int));
            assert(next.last() == all[i as int]);
        }
        if blocks[i].number <= number {
            out.push(blocks[i]);
        }
        i += 1;
    }
    assert(all.take(i as int) =~= all);
    out
}

/// What rewinding to `ancestor` does.
pub open spec fn rewound(t: Trail, ancestor: BlockRef) -> Result<Trail, SubscriberError> {
    let known = block_at(t.history, ancestor.number);
    if t.head is Some && known is None && (t.history.len() == 0 || t.history[0].number
        > ancestor.number) {
        Err(SubscriberError::AncestorTooOld { number: ancestor.number })
    } else if conflict(known, ancestor) is Some {
        Err(SubscriberError::AncestorMismatch { number: ancestor.number })
    } else if t.head is Some && ancestor.number > t.head->Some_0.number {
        Err(
            SubscriberError::Provider("hybrid reorg ancestor is ahead of committed coverage"),
        )
    } else {
        let kept = up_to(t.history, ancestor.number);
        let joined = if kept.len() > 0 && kept.last().number == ancestor.number {
            match merged_block(kept.last(), ancestor) {
                Err(e) => Err(e),
                Ok(m) => Ok(kept.drop_last().push(m)),
            }
        } else {
            Ok(kept.push(ancestor))
        };
        match joined {
            Err(e) => Err(e),
            Ok(history) => if t.head is Some && t.head->Some_0.number == ancestor.number {
                match merged_block(t.head->Some_0, ancestor) {
                    Err(e) => Err(e),
                    Ok(m) => Ok(Trail { history, head: Some(m) }),
                }
            } else {
                Ok(Trail { history, head: Some(ancestor) })
            },
        }
    }
}

/// `history` with the block at the height of `block` joined with it, where
/// there is one.
pub open spec fn enriched(history: Seq<BlockRef>, block: BlockRef) -> Result<
    Seq<BlockRef>,
    SubscriberError,
> {
    let i = index_of(history, block.number, 0);
    if i < history.len() {
        match merged_block(history[i], block) {
            Err(e) => Err(e),
            Ok(m) => Ok(history.update(i, m)),
        }
    } else {
        Ok(history)
    }
}

/// What finding `block` canonical does.
pub open spec fn advanced(t: Trail, block: BlockRef) -> Result<Trail, SubscriberError> {
    if t.head is Some && block.number < t.head->Some_0.number {
        if block_at(t.history, block.number) is None {
            Err(SubscriberError::OutsideHistory { number: block.number })
        } else {
            match enriched(t.history, block) {
                Err(e) => Err(e),
                Ok(history) => Ok(Trail { history, head: t.head }),
            }
        }
    } else if t.head is Some && block.number == t.head->Some_0.number {
        match merged_block(t.head->Some_0, block) {
            Err(e) => Err(e),
            Ok(m) => match enriched(t.history, m) {
                Err(e) => Err(e),
                Ok(history) => Ok(Trail { history, head: Some(m) }),
            },
        }
    } else if t.head is Some && block.number == t.head->Some_0.number + 1
        && block.parent_hash is Some && block.parent_hash->Some_0 != t.head->Some_0.hash {
        Err(SubscriberError::ParentMismatch { number: block.number })
    } else if block_at(t.history, block.number) is Some {
        match enriched(t.history, block) {
            Err(e) => Err(e),
            Ok(history) => Ok(Trail { history, head: Some(block) }),
        }
    } else {
        Ok(Trail { history: by_height(t.history.push(block)), head: Some(block) })
    }
}

/// What one mutation does, with at most `capacity` blocks retained after it.
///
/// A block at or below the head only completes what is known of it.
pub open spec fn moved(t: Trail, mutation: CanonicalMutation, capacity: nat) -> Result<
    Trail,
    SubscriberError,
> {
    match mutation {
        CanonicalMutation::Reset => Ok(Trail { history: Seq::empty(), head: None }),
        CanonicalMutation::Rewind(ancestor) => match rewound(t, ancestor) {
            Err(e) => Err(e),
            Ok(n) => Ok(Trail { history: newest(n.history, capacity), head: n.head }),
        },
        CanonicalMutation::Advance(block) => match advanced(t, block) {
            Err(e) => Err(e),
            Ok(n) => if t.head is Some && block.number <= t.head->Some_0.number {
                Ok(n)
            } else {
                Ok(Trail { history: newest(n.history, capacity), head: n.head })
            },
        },
    }
}

/// What the mutations from `from` on do, one after the other.
pub open spec fn moved_all(
    t: Trail,
    mutations: Seq<CanonicalMutation>,
    from: int,
    capacity: nat,
) -> Result<Trail, SubscriberError>
    decreases mutations.len() - from,
{
    if from < 0 || from >= mutations.len() {
        Ok(t)
    } else {
        match moved(t, mutations[from], capacity) {
            Err(e) => Err(e),
            Ok(n) => moved_all(n, mutations, from + 1, capacity),
        }
    }
}

/// Joins the block of `history` at the height of `block` with it, where there
/// is one.
fn enrich(history: &mut Vec<BlockRef>, block: &BlockRef) -> (r: Result<(), SubscriberError>)
    ensures
        match r {
            Ok(_) => enriched(old(history)@, *block) == Ok::<_, SubscriberError>(final(history)@),
            Err(e) => enriched(old(history)@, *block) == Err::<Seq<BlockRef>, _>(e),
        },
{
    let i: usize = find_index(history.as_slice(), block.number);
    if i < history.len() {
        let merged: BlockRef = compatible_block_ref(&history[i], block)?;
        history[i] = merged;
    }
    Ok(())
}

fn rewind(history: &mut Vec<BlockRef>, head: &mut Option<BlockRef>, ancestor: &BlockRef) -> (r:
    Result<(), SubscriberError>)
    ensures
        match r {
            Ok(_) => rewound(Trail { history: old(history)@, head: *old(head) }, *ancestor) == Ok::<
                _,
                SubscriberError,
            >(Trail { history: final(history)@, head: *final(head) }),
            Err(e) => rewound(Trail { history: old(history)@, head: *old(head) }, *ancestor)
                == Err::<Trail, _>(e),
        },
{
    let known: Option<BlockRef> = find_block(history.as_slice(), ancestor.number);
    if head.is_some() && known.is_none() && (history.len() == 0 || history[0].number
        > ancestor.number) {
        return Err(SubscriberError::AncestorTooOld { number: ancestor.number });
    }
    if let Some(block) = &known {
        if compatible_block_ref(block, ancestor).is_err() {
            return Err(SubscriberError::AncestorMismatch { number: ancestor.number });
        }
    }
    if let Some(top) = &*head {
        if ancestor.number > top.number {
            return Err(
                SubscriberError::Provider("hybrid reorg ancestor is ahead of committed coverage"),
            );
        }
    }
    let mut kept: Vec<BlockRef> = retain_up_to(history.as_slice(), ancestor.number);
    let count: usize = kept.len();
    let ghost all = kept@;
    if count > 0 && kept[count - 1].number == ancestor.number {
        let merged: BlockRef = compatible_block_ref(&kept[count - 1], ancestor)?;
        kept[count - 1] = merged;
        assert(kept@ =~= all.drop_last().push(merged));
    } else {
        kept.push(*ancestor);
    }
    let next: BlockRef = match &*head {
        Some(top) => if top.number == ancestor.number {
            compatible_block_ref(top, ancestor)?
        } else {
            *ancestor
        },
        None => *ancestor,
    };
    *history = kept;
    *head = Some(next);
    Ok(())
}

fn advance(history: &mut Vec<BlockRef>, head: &mut Option<BlockRef>, block: &BlockRef) -> (r: Result<
    (),
    SubscriberError,
>)
    ensures
        match r {
            Ok(_) => advanced(Trail { history: old(history)@, head: *old(head) }, *block) == Ok::<
                _,
                SubscriberError,
            >(Trail { history: final(history)@, head: *final(head) }),
            Err(e) => advanced(Trail { history: old(history)@, head: *old(head) }, *block) == Err::<
                Trail,
                _,
            >(e),
        },
{
    if let Some(top) = *head {
        if block.number < top.number {
            if find_block(history.as_slice(), block.number).is_none() {
                return Err(SubscriberError::OutsideHistory { number: block.number });
            }
            return enrich(history, block);
        }
        if block.number == top.number {
            let merged: BlockRef = compatible_block_ref(&top, block)?;
            enrich(history, &merged)?;
            *head = Some(merged);
            return Ok(());
        }
        if block.number - 1 == top.number {
            if let Some(parent) = block.parent_hash {
                if parent != top.hash {
                    return Err(SubscriberError::ParentMismatch { number: block.number });
                }
            }
        }
    }
    if find_block(history.as_slice(), block.number).is_some() {
        enrich(history, block)?;
    } else {
        history.push(*block);
        sort_by_height(history);
    }
    *head = Some(*block);
    Ok(())
}

/// Applies mutations one after the other, retaining at most `capacity` blocks
/// after each that moves the head. Where one is refused, nothing changes.
pub fn apply_canonical_mutations_to(
    history: &mut Vec<BlockRef>,
    coverage_head: &mut Option<BlockRef>,
    mutations: &[CanonicalMutation],
    capacity: usize,
) -> (r: Result<(), SubscriberError>)
    ensures
        match r {
            Ok(_) => moved_all(
                Trail { history: old(history)@, head: *old(coverage_head) },
                mutations@,
                0,
                capacity as nat,
            ) == Ok::<_, SubscriberError>(
                Trail { history: final(history)@, head: *final(coverage_head) },
            ),
            Err(e) => moved_all(
                Trail { history: old(history)@, head: *old(coverage_head) },
                mutations@,
                0,
                capacity as nat,
            ) == Err::<Trail, _>(e) && *final(history) == *old(history) && *final(coverage_head)
                == *old(coverage_head),
        },
{
    let ghost start = Trail { history: history@, head: *coverage_head };
    let mut blocks: Vec<BlockRef> = copy_blocks(history.as_slice());
    let mut head: Option<BlockRef> = *coverage_head;
    let mut i: usize = 0;
    while i < mutations.len()
        invariant
            i <= mutations@.len(),
            *history == *old(history),
            *coverage_head == *old(coverage_head),
            start == (Trail { history: old(history)@, head: *old(coverage_head) }),
            moved_all(start, mutations@, 0, capacity as nat) == moved_all(
                Trail { history: blocks@, head },
                mutations@,
                i as int,
                capacity as nat,
            ),
        decreases mutations@.len() - i,
    {
        match &mutations[i] {
            CanonicalMutation::Reset => {
                blocks.clear();
                head = None;
            },
            CanonicalMutation::Rewind(ancestor) => {
                rewind(&mut blocks, &mut head, ancestor)?;
                truncate_front_to(&mut blocks, capacity);
            },
            CanonicalMutation::Advance(block) => {
                let below: bool = match &head {
                    Some(top) => block.number <= top.number,
                    None => false,
                };
                advance(&mut blocks, &mut head, block)?;
                if !below {
                    truncate_front_to(&mut blocks, capacity);
                }
            },
        }
        i += 1;
    }
    *history = blocks;
    *coverage_head = head;
    Ok(())
}

// ---------------------------------------------------------------------------
// What every mutation keeps
// ---------------------------------------------------------------------------

/// What a trail is: its blocks ascend, there are at most `capacity` of them,
/// and the last one is the head.
pub open spec fn trail_ok(t: Trail, capacity: nat) -> bool {
    ascending(t.history) && t.history.len() <= capacity && (t.head is None ==> t.history.len() == 0)
        && (t.head is Some ==> t.history.len() > 0 && t.history.last().number
        == t.head->Some_0.number && t.history.last().hash == t.head->Some_0.hash)
}

pub proof fn lemma_up_to(s: Seq<BlockRef>, number: u64)
    requires
        ascending(s),
    ensures
        ascending(up_to(s, number)),
        up_to(s, number).len() <= s.len(),
        forall|i: int| 0 <= i < up_to(s, number).len() ==> (#[trigger] up_to(s, number)[i]).number
            <= number && s.contains(up_to(s, number)[i]),
    decreases s.len(),
{
    if s.len() > 0 {
        let front = s.drop_last();
        assert(ascending(front)) by {
            assert forall|i: int, j: int| 0 <= i < j < front.len() implies (
            #[trigger] front[i]).number < (#[trigger] front[j]).number by {
                assert(front[i] == s[i] && front[j] == s[j]);
            }
        }
        lemma_up_to(front, number);
        let kept = up_to(front, number);
        let out = up_to(s, number);
        assert forall|i: int| 0 <= i < kept.len() implies s.contains(#[trigger] kept[i])
            && kept[i].number < s.last().number by {
            let k = choose|k: int| 0 <= k < front.len() && front[k] == kept[i];
            assert(s[k] == kept[i]);
            assert(s[k].number < s[s.len() - 1].number);
        }
        assert forall|i: int| 0 <= i < out.len() implies (#[trigger] out[i]).number <= number
            && s.contains(out[i]) by {
            if i < kept.len() {
                assert(out[i] == kept[i]);
            } else {
                assert(s[s.len() - 1] == out[i]);
            }
        }
        assert forall|i: int, j: int| 0 <= i < j < out.len() implies (#[trigger] out[i]).number < (
        #[trigger] out[j]).number by {
            assert(out[i] == kept[i]);
            if j < kept.len() {
                assert(out[j] == kept[j]);
            }
        }
    }
}

pub proof fn lemma_newest_ascending(s: Seq<BlockRef>, capacity: nat)
    requires
        ascending(s),
        capacity > 0,
    ensures
        ascending(newest(s, capacity)),
        newest(s, capacity).len() <= capacity,
        s.len() > 0 ==> newest(s, capacity).len() > 0 && newest(s, capacity).last() == s.last(),
{
    let n = newest(s, capacity);
    if s.len() > capacity {
        let d = s.len() - capacity;
        assert forall|i: int, j: int| 0 <= i < j < n.len() implies (#[trigger] n[i]).number < (
        #[trigger] n[j]).number by {
            assert(n[i] == s[i + d] && n[j] == s[j + d]);
        }
    }
}

proof fn lemma_enriched(s: Seq<BlockRef>, block: BlockRef)
    requires
        ascending(s),
    ensures
        match enriched(s, block) {
            Ok(n) => ascending(n) && n.len() == s.len() && forall|i: int|
                0 <= i < s.len() ==> (#[trigger] n[i]).number == s[i].number && n[i].hash
                    == s[i].hash,
            Err(_) => true,
        },
{
    lemma_index_of(s, block.number, 0);
    if let Ok(n) = enriched(s, block) {
        assert forall|i: int, j: int| 0 <= i < j < n.len() implies (#[trigger] n[i]).number < (
        #[trigger] n[j]).number by {
            assert(s[i].number < s[j].number);
        }
    }
}

proof fn lemma_rewound_ok(t: Trail, ancestor: BlockRef, capacity: nat)
    requires
        trail_ok(t, capacity),
        capacity > 0,
    ensures
        match rewound(t, ancestor) {
            Ok(n) => trail_ok(
                Trail { history: newest(n.history, capacity), head: n.head },
                capacity,
            ) && n.head->Some_0.number == ancestor.number,
            Err(_) => true,
        },
{
    if let Ok(n) = rewound(t, ancestor) {
        let kept = up_to(t.history, ancestor.number);
        lemma_up_to(t.history, ancestor.number);
        let h = n.history;
        assert(ascending(h)) by {
            assert forall|i: int, j: int| 0 <= i < j < h.len() implies (#[trigger] h[i]).number < (
            #[trigger] h[j]).number by {
                if j < kept.len() {
                    assert(kept[i].number < kept[j].number);
                } else {
                    assert(h[i] == kept[i]);
                    if kept[i].number == ancestor.number {
                        if i < kept.len() - 1 {
                            assert(kept[i].number < kept[kept.len() - 1].number);
                        }
                    }
                }
            }
        }
        lemma_newest_ascending(h, capacity);
    }
}

proof fn lemma_advanced_ok(t: Trail, block: BlockRef, capacity: nat)
    requires
        trail_ok(t, capacity),
        capacity > 0,
    ensures
        match moved(t, CanonicalMutation::Advance(block), capacity) {
            Ok(n) => trail_ok(n, capacity) && n.head is Some && n.head->Some_0.number
                >= block.number && (t.head is Some ==> n.head->Some_0.number
                >= t.head->Some_0.number),
            Err(_) => true,
        },
{
    if let Ok(n) = advanced(t, block) {
        lemma_index_of(t.history, block.number, 0);
        lemma_enriched(t.history, block);
        if t.head is Some && block.number < t.head->Some_0.number {
        } else if t.head is Some && block.number == t.head->Some_0.number {
            let m = merged_block(t.head->Some_0, block)->Ok_0;
            lemma_enriched(t.history, m);
        } else {
            let i = index_of(t.history, block.number, 0);
            if i < t.history.len() {
                assert(t.history[i].number <= t.history[t.history.len() - 1].number);
                assert(false);
            }
            let h = t.history.push(block);
            assert(ascending(h)) by {
                assert forall|a: int, b: int| 0 <= a < b < h.len() implies (
                #[trigger] h[a]).number < (#[trigger] h[b]).number by {
                    if b == t.history.len() {
                        assert(t.history[a].number <= t.history[t.history.len() - 1].number);
                    }
                }
            }
            lemma_by_height_ascending(h);
            lemma_newest_ascending(h, capacity);
        }
    }
}

/// Every mutation that is accepted keeps the blocks ascending and bounded, and
/// the last one at the head.
pub proof fn law_mutations_keep_trail(
    t: Trail,
    mutations: Seq<CanonicalMutation>,
    from: int,
    capacity: nat,
)
    requires
        trail_ok(t, capacity),
        capacity > 0,
        0 <= from <= mutations.len(),
    ensures
        match moved_all(t, mutations, from, capacity) {
            Ok(n) => trail_ok(n, capacity),
            Err(_) => true,
        },
    decreases mutations.len() - from,
{
    if from < mutations.len() {
        match mutations[from] {
            CanonicalMutation::Reset => {},
            CanonicalMutation::Rewind(ancestor) => {
                lemma_rewound_ok(t, ancestor, capacity);
            },
            CanonicalMutation::Advance(block) => {
                lemma_advanced_ok(t, block, capacity);
            },
        }
        if let Ok(n) = moved(t, mutations[from], capacity) {
            law_mutations_keep_trail(n, mutations, from + 1, capacity);
        }
    }
}

/// Finding blocks canonical never lowers the head.
pub proof fn law_advances_never_lower_the_head(
    t: Trail,
    mutations: Seq<CanonicalMutation>,
    from: int,
    capacity: nat,
)
    requires
        trail_ok(t, capacity),
        capacity > 0,
        0 <= from <= mutations.len(),
        forall|i: int| 0 <= i < mutations.len() ==> #[trigger] mutations[i] is Advance,
    ensures
        match moved_all(t, mutations, from, capacity) {
            Ok(n) => t.head is Some ==> n.head is Some && n.head->Some_0.number
                >= t.head->Some_0.number,
            Err(_) => true,
        },
    decreases mutations.len() - from,
{
    if from < mutations.len() {
        assert(mutations[from] is Advance);
        lemma_advanced_ok(t, mutations[from]->Advance_0, capacity);
        if let Ok(n) = moved(t, mutations[from], capacity) {
            law_advances_never_lower_the_head(n, mutations, from + 1, capacity);
        }
    }
}

// ---------------------------------------------------------------------------
// Source positions under a reorganization
// ---------------------------------------------------------------------------

/// A position whose history holds `ancestor` where it must.
pub open spec fn seeded(source: SourceView, ancestor: BlockRef, capacity: nat) -> Result<
    SourceView,
    SubscriberError,
> {
    let next = if source.coverage_head is Some && source.coverage_head->Some_0.number
        > ancestor.number && block_at(source.canonical_history, ancestor.number) is None {
        newest(by_height(source.canonical_history.push(ancestor)), capacity)
    } else {
        source.canonical_history
    };
    match conflict(block_at(next, ancestor.number), ancestor) {
        Some(e) => Err(e),
        None => Ok(SourceView { canonical_history: next, ..source }),
    }
}

/// A position whose history holds each of `ancestors`, from `from` on, where it
/// must.
pub open spec fn seeded_all(
    source: SourceView,
    ancestors: Seq<BlockRef>,
    from: int,
    capacity: nat,
) -> Result<SourceView, SubscriberError>
    decreases ancestors.len() - from,
{
    if from < 0 || from >= ancestors.len() {
        Ok(source)
    } else {
        match seeded(source, ancestors[from], capacity) {
            Err(e) => Err(e),
            Ok(n) => seeded_all(n, ancestors, from + 1, capacity),
        }
    }
}

fn seed_ancestor(source: &mut SourcePosition, ancestor: &BlockRef, capacity: usize) -> (r: Result<
    (),
    SubscriberError,
>)
    ensures
        match r {
            Ok(_) => seeded(old(source)@, *ancestor, capacity as nat) == Ok::<_, SubscriberError>(
                final(source)@,
            ),
            Err(e) => seeded(old(source)@, *ancestor, capacity as nat) == Err::<SourceView, _>(e),
        },
{
    let above: bool = match &source.coverage_head {
        Some(head) => head.number > ancestor.number,
        None => false,
    };
    if above && find_block(source.canonical_history.as_slice(), ancestor.number).is_none() {
        source.canonical_history.push(*ancestor);
        sort_by_height(&mut source.canonical_history);
        truncate_front_to(&mut source.canonical_history, capacity);
    }
    if let Some(known) = find_block(source.canonical_history.as_slice(), ancestor.number) {
        compatible_block_ref(&known, ancestor)?;
    }
    Ok(())
}

/// Makes sure that the history of a position holds every ancestor below its
/// coverage that a reorganization goes back to.
pub fn seed_reorg_ancestors(source: &mut SourcePosition, ancestors: &[BlockRef], capacity: usize) -> (r:
    Result<(), SubscriberError>)
    ensures
        match r {
            Ok(_) => seeded_all(old(source)@, ancestors@, 0, capacity as nat) == Ok::<
                _,
                SubscriberError,
            >(final(source)@),
            Err(e) => seeded_all(old(source)@, ancestors@, 0, capacity as nat) == Err::<
                SourceView,
                _,
            >(e) && *final(source) == *old(source),
        },
{
    let mut next: SourcePosition = source.duplicate();
    let mut i: usize = 0;
    while i < ancestors.len()
        invariant
            i <= ancestors@.len(),
            *source == *old(source),
            seeded_all(source@, ancestors@, 0, capacity as nat) == seeded_all(
                next@,
                ancestors@,
                i as int,
                capacity as nat,
            ),
        decreases ancestors@.len() - i,
    {
        seed_ancestor(&mut next, &ancestors[i], capacity)?;
        i += 1;
    }
    *source = next;
    Ok(())
}

/// What going back to `ancestor` does to the position of the source that did
/// not report it: its coverage is rewound, and cursors above the ancestor are
/// forgotten.
pub open spec fn source_rewound(source: SourceView, ancestor: BlockRef, capacity: nat) -> Result<
    SourceView,
    SubscriberError,
> {
    if source.coverage_head is None || source.coverage_head->Some_0.number < ancestor.number {
        Ok(source)
    } else {
        match seeded(source, ancestor, capacity) {
            Err(e) => Err(e),
            Ok(s) => match moved(
                Trail { history: s.canonical_history, head: s.coverage_head },
                CanonicalMutation::Rewind(ancestor),
                capacity,
            ) {
                Err(e) => Err(e),
                Ok(t) => {
                    let r = SourceView {
                        canonical_history: t.history,
                        coverage_head: t.head,
                        ..s
                    };
                    if source.coverage_head->Some_0.number > ancestor.number {
                        Ok(
                            SourceView {
                                delivery_token: None,
                                checkpoint: None,
                                delivery_digest: None,
                                ..r
                            },
                        )
                    } else {
                        Ok(r)
                    }
                },
            },
        }
    }
}

/// What going back to each of `ancestors`, from `from` on, does.
pub open spec fn source_rewound_all(
    source: SourceView,
    ancestors: Seq<BlockRef>,
    from: int,
    capacity: nat,
) -> Result<SourceView, SubscriberError>
    decreases ancestors.len() - from,
{
    if from < 0 || from >= ancestors.len() {
        Ok(source)
    } else {
        match source_rewound(source, ancestors[from], capacity) {
            Err(e) => Err(e),
            Ok(n) => source_rewound_all(n, ancestors, from + 1, capacity),
        }
    }
}

fn rewind_source(source: &mut SourcePosition, ancestor: &BlockRef, capacity: usize) -> (r: Result<
    (),
    SubscriberError,
>)
    ensures
        match r {
            Ok(_) => source_rewound(old(source)@, *ancestor, capacity as nat) == Ok::<
                _,
                SubscriberError,
            >(final(source)@),
            Err(e) => source_rewound(old(source)@, *ancestor, capacity as nat) == Err::<
                SourceView,
                _,
            >(e),
        },
{
    let head_number: u64 = match &source.coverage_head {
        None => {
            return Ok(());
        },
        Some(head) => head.number,
    };
    if head_number < ancestor.number {
        return Ok(());
    }
    seed_ancestor(source, ancestor, capacity)?;
    rewind(&mut source.canonical_history, &mut source.coverage_head, ancestor)?;
    truncate_front_to(&mut source.canonical_history, capacity);
    if head_number > ancestor.number {
        source.delivery_token = None;
        source.checkpoint = None;
        source.delivery_digest = None;
    }
    Ok(())
}

/// Takes the position of the source that did not report a reorganization back
/// to each ancestor that it covers.
pub fn rewind_other_source(source: &mut SourcePosition, ancestors: &[BlockRef], capacity: usize) -> (r:
    Result<(), SubscriberError>)
    ensures
        match r {
            Ok(_) => source_rewound_all(old(source)@, ancestors@, 0, capacity as nat) == Ok::<
                _,
                SubscriberError,
            >(final(source)@),
            Err(e) => source_rewound_all(old(source)@, ancestors@, 0, capacity as nat) == Err::<
                SourceView,
                _,
            >(e) && *final(source) == *old(source),
        },
{
    let mut next: SourcePosition = source.duplicate();
    let mut i: usize = 0;
    while i < ancestors.len()
        invariant
            i <= ancestors@.len(),
            *source == *old(source),
            source_rewound_all(source@, ancestors@, 0, capacity as nat) == source_rewound_all(
                next@,
                ancestors@,
                i as int,
                capacity as nat,
            ),
        decreases ancestors@.len() - i,
    {
        rewind_source(&mut next, &ancestors[i], capacity)?;
        i += 1;
    }
    *source = next;
    Ok(())
}

} // verus!
