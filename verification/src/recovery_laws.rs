//! What is left out of a batch because it was delivered before, and what is not.
use crate::audience::DeliveryScope;
use crate::checkpoint::CheckpointView;
use crate::error::SubscriberError;
use crate::ingress::BufferedView;
use crate::model::BlockRef;
use crate::overlap::{
    ancestor_error, batch_drained, batch_recovered, controls_drained, controls_recovered,
    overlap_error, records_drained, records_recovered, witness_error,
};
use crate::records::{ChainStatus, ControlView, InputView, RecordView, RoutedView};
use crate::selection::{ascending, items_at, lemma_positions, positions};
use crate::validate::{block_at, lemma_index_of};
use vstd::prelude::*;

verus! {

// ---------------------------------------------------------------------------
// Blocks that must be retained
// ---------------------------------------------------------------------------

/// Whether two accounts of a block agree: the same height and hash, and nothing
/// that both know differs.
pub open spec fn agree(a: BlockRef, b: BlockRef) -> bool {
    &&& a.number == b.number
    &&& a.hash == b.hash
    &&& a.parent_hash is Some && b.parent_hash is Some ==> a.parent_hash == b.parent_hash
    &&& a.timestamp is Some && b.timestamp is Some ==> a.timestamp == b.timestamp
}

/// Whether no two blocks of a history are at one height.
pub open spec fn heights_differ(history: Seq<BlockRef>) -> bool {
    forall|i: int, j: int|
        0 <= i < j < history.len() ==> (#[trigger] history[i]).number != (
        #[trigger] history[j]).number
}

proof fn lemma_block_at(history: Seq<BlockRef>, number: u64)
    requires
        heights_differ(history),
    ensures
        block_at(history, number) is Some <==> exists|i: int|
            0 <= i < history.len() && (#[trigger] history[i]).number == number,
        forall|i: int|
            0 <= i < history.len() && (#[trigger] history[i]).number == number ==> block_at(
                history,
                number,
            ) == Some(history[i]),
{
    lemma_index_of(history, number, 0);
    assert forall|i: int| 0 <= i < history.len() && (#[trigger] history[i]).number
        == number implies block_at(history, number) == Some(history[i]) by {
        let at = crate::validate::index_of(history, number, 0);
        if at < i {
            assert(history[at].number != history[i].number);
        }
    }
}

/// Two accounts of a block can be joined exactly where they agree; what is then
/// known is what either knows.
pub proof fn law_accounts_join_where_they_agree(a: BlockRef, b: BlockRef)
    ensures
        crate::model::merged_block(a, b) is Ok <==> agree(a, b),
        agree(a, b) ==> {
            let m = crate::model::merged_block(a, b)->Ok_0;
            &&& m.number == a.number
            &&& m.hash == a.hash
            &&& m.parent_hash == (if a.parent_hash is Some {
                a.parent_hash
            } else {
                b.parent_hash
            })
            &&& m.timestamp == (if a.timestamp is Some {
                a.timestamp
            } else {
                b.timestamp
            })
        },
{
}

/// A block passes as one that was delivered before exactly where the retained
/// block at its height agrees with it; the head counts where the history has no
/// block at that height.
pub proof fn law_overlap_is_with_what_is_retained(c: CheckpointView, block: BlockRef)
    requires
        heights_differ(c.canonical_history),
    ensures
        overlap_error(c, block) is None <==> (exists|i: int|
            0 <= i < c.canonical_history.len() && agree(
                #[trigger] c.canonical_history[i],
                block,
            )) || (c.coverage_head is Some && agree(c.coverage_head->Some_0, block) && forall|i: int|
            0 <= i < c.canonical_history.len() ==> (#[trigger] c.canonical_history[i]).number
                != block.number),
        overlap_error(c, block) == Some(
            SubscriberError::OverlapOutside { number: block.number },
        ) <==> (c.coverage_head is None || c.coverage_head->Some_0.number != block.number)
            && forall|i: int|
            0 <= i < c.canonical_history.len() ==> (#[trigger] c.canonical_history[i]).number
                != block.number,
{
    lemma_block_at(c.canonical_history, block.number);
    let h = c.canonical_history;
    if block_at(h, block.number) is Some {
        let i = choose|i: int| 0 <= i < h.len() && (#[trigger] h[i]).number == block.number;
        assert(block_at(h, block.number) == Some(h[i]));
        law_accounts_join_where_they_agree(h[i], block);
        if exists|j: int| 0 <= j < h.len() && agree(#[trigger] h[j], block) {
            let j = choose|j: int| 0 <= j < h.len() && agree(#[trigger] h[j], block);
            assert(block_at(h, block.number) == Some(h[j]));
        }
    } else if c.coverage_head is Some {
        law_accounts_join_where_they_agree(c.coverage_head->Some_0, block);
    }
}

/// A recovery may go back to a retained block, whatever else is known of it, or
/// to a height between retained ones.
pub proof fn law_recovery_goes_back_within_the_history(c: CheckpointView, ancestor: BlockRef)
    requires
        heights_differ(c.canonical_history),
    ensures
        ancestor_error(c, ancestor) is None <==> {
            ||| exists|i: int|
                0 <= i < c.canonical_history.len() && (#[trigger] c.canonical_history[i]).number
                    == ancestor.number && c.canonical_history[i].hash == ancestor.hash
            ||| c.canonical_history.len() > 0 && c.canonical_history[0].number < ancestor.number
                && forall|i: int|
                0 <= i < c.canonical_history.len() ==> (#[trigger] c.canonical_history[i]).number
                    != ancestor.number
        },
{
    let h = c.canonical_history;
    lemma_block_at(h, ancestor.number);
    if block_at(h, ancestor.number) is Some {
        let i = choose|i: int| 0 <= i < h.len() && (#[trigger] h[i]).number == ancestor.number;
        assert(block_at(h, ancestor.number) == Some(h[i]));
        if exists|j: int|
            0 <= j < h.len() && (#[trigger] h[j]).number == ancestor.number && h[j].hash
                == ancestor.hash {
            let j = choose|j: int|
                0 <= j < h.len() && (#[trigger] h[j]).number == ancestor.number && h[j].hash
                    == ancestor.hash;
            assert(block_at(h, ancestor.number) == Some(h[j]));
        }
    }
}

// ---------------------------------------------------------------------------
// What controls and records speak of
// ---------------------------------------------------------------------------

/// Whether a control that covers a height covers one above `through`. A control
/// that covers no height always counts as new.
pub open spec fn covers_above(control: ControlView, through: u64) -> bool {
    match control {
        ControlView::CanonicalProgress(block) => block.number > through,
        ControlView::Barrier { block: Some(block), .. } => block.number > through,
        _ => true,
    }
}

/// The block that a control must share with what is retained, where it speaks of
/// a height up to `through`.
pub open spec fn shared_block(control: ControlView, through: u64) -> Option<BlockRef> {
    match control {
        ControlView::CanonicalProgress(block) => if block.number <= through {
            Some(block)
        } else {
            None
        },
        ControlView::Barrier { block: Some(block), .. } => if block.number <= through {
            Some(block)
        } else {
            None
        },
        ControlView::Safe(block) => if block.number <= through {
            Some(block)
        } else {
            None
        },
        ControlView::Finalized(block) => if block.number <= through {
            Some(block)
        } else {
            None
        },
        _ => None,
    }
}

/// The block that a record is in, where it is in one.
pub open spec fn block_of(record: RecordView) -> Option<BlockRef> {
    match record.context.chain_status {
        ChainStatus::Pending => None,
        ChainStatus::Included { block, .. } => Some(block),
        ChainStatus::Safe { block } => Some(block),
        ChainStatus::Finalized { block } => Some(block),
        ChainStatus::Reorged { .. } => None,
    }
}

/// Whether a record was delivered once everything up to `through` was: it
/// advances the chain, and is in a block up to there.
pub open spec fn delivered_through(r: RoutedView, through: u64) -> bool {
    &&& r.scope == DeliveryScope::Canonical || r.scope == DeliveryScope::CanonicalProgress
    &&& block_of(r.record) is Some
    &&& block_of(r.record)->Some_0.number <= through
}

/// The block that a record takes itself back from, where it does.
pub open spec fn taken_back_from(record: RecordView) -> Option<BlockRef> {
    match record.context.chain_status {
        ChainStatus::Reorged { dropped_from } => Some(dropped_from),
        _ => match record.input {
            InputView::Log(log) => if log.removed {
                record.context.block
            } else {
                None
            },
            _ => None,
        },
    }
}

/// Whether a record takes itself back from a block up to `through` that the
/// history does not hold: another branch replaced it there.
pub open spec fn replaced_through(c: CheckpointView, r: RoutedView, through: u64) -> bool {
    &&& r.scope == DeliveryScope::Canonical || r.scope == DeliveryScope::CanonicalProgress
    &&& taken_back_from(r.record) is Some
    &&& taken_back_from(r.record)->Some_0.number <= through
    &&& forall|i: int|
        0 <= i < c.canonical_history.len() ==> (#[trigger] c.canonical_history[i]).number
            != taken_back_from(r.record)->Some_0.number || c.canonical_history[i].hash
            != taken_back_from(r.record)->Some_0.hash
}

/// Whether a record may be left out as a repeat: its block, and its witness, are
/// those that are retained.
pub open spec fn repeats_truly(c: CheckpointView, record: RecordView) -> bool {
    (block_of(record) is Some ==> overlap_error(c, block_of(record)->Some_0) is None)
        && witness_error(c, record) is None
}

// ---------------------------------------------------------------------------
// Recovery
// ---------------------------------------------------------------------------

/// Where the gap begins for the control at position `i`: at the common ancestor
/// of the last reorganization before it, or where it began.
pub open spec fn gap_at(start: BlockRef, controls: Seq<ControlView>, i: int) -> BlockRef
    decreases i,
{
    if i <= 0 {
        start
    } else {
        match controls[i - 1] {
            ControlView::Reorg { common_ancestor, .. } => common_ancestor,
            _ => gap_at(start, controls, i - 1),
        }
    }
}

/// A control as it is handed on: a reorganization leaves the head as it is known
/// here.
pub open spec fn handed_on(c: CheckpointView, control: ControlView) -> ControlView {
    match control {
        ControlView::Reorg { common_ancestor, old_tip, new_tip } => ControlView::Reorg {
            common_ancestor,
            old_tip: match c.coverage_head {
                Some(head) => head,
                None => old_tip,
            },
            new_tip,
        },
        _ => control,
    }
}

/// Whether the control at position `i` can be true of what is retained.
pub open spec fn control_holds(c: CheckpointView, start: BlockRef, controls: Seq<ControlView>, i: int) -> bool {
    match controls[i] {
        ControlView::Reorg { common_ancestor, .. } => ancestor_error(c, common_ancestor) is None,
        _ => match shared_block(controls[i], gap_at(start, controls, i).number) {
            Some(block) => overlap_error(c, block) is None,
            None => true,
        },
    }
}

spec fn new_control(start: BlockRef, controls: Seq<ControlView>) -> spec_fn(int) -> bool {
    |i: int| covers_above(controls[i], gap_at(start, controls, i).number)
}

spec fn handed_on_at(c: CheckpointView, controls: Seq<ControlView>, at: Seq<int>) -> Seq<ControlView> {
    Seq::new(at.len(), |n: int| handed_on(c, controls[at[n]]))
}

proof fn lemma_controls_recovered(
    c: CheckpointView,
    start: BlockRef,
    controls: Seq<ControlView>,
    from: int,
)
    requires
        0 <= from <= controls.len(),
    ensures
        ({
            let keep = new_control(start, controls);
            let kept = handed_on_at(c, controls, positions(from as nat, keep));
            match controls_recovered(c, gap_at(start, controls, from), controls, from, kept) {
                Ok((next, all)) => {
                    &&& next == gap_at(start, controls, controls.len() as int)
                    &&& all == handed_on_at(c, controls, positions(controls.len(), keep))
                    &&& forall|i: int|
                        from <= i < controls.len() ==> control_holds(c, start, controls, i)
                },
                Err(_) => exists|i: int|
                    from <= i < controls.len() && !control_holds(c, start, controls, i),
            }
        }),
    decreases controls.len() - from,
{
    let keep = new_control(start, controls);
    let kept = handed_on_at(c, controls, positions(from as nat, keep));
    let here = gap_at(start, controls, from);
    if from < controls.len() {
        let control = controls[from];
        let now = positions((from + 1) as nat, keep);
        let next = handed_on_at(c, controls, now);
        assert(keep(from) == covers_above(control, here.number));
        assert(positions(((from + 1) - 1) as nat, keep) == positions(from as nat, keep));
        if keep(from) {
            assert(now == positions(from as nat, keep).push(from));
            assert(next =~= kept.push(handed_on(c, control)));
        } else {
            assert(now == positions(from as nat, keep));
            assert(next =~= kept);
        }
        lemma_controls_recovered(c, start, controls, from + 1);
        if control_holds(c, start, controls, from) {
            assert(controls_recovered(c, here, controls, from, kept) == controls_recovered(
                c,
                gap_at(start, controls, from + 1),
                controls,
                from + 1,
                next,
            ));
        }
    }
}

/// What a recovery hands on of the controls of a batch, and where the gap then
/// begins. A reorganization moves the gap to its common ancestor, for everything
/// behind it; with none the gap stays. Every control is handed on, in order, but
/// for progress and barriers up to where the gap begins. Nothing is handed on
/// where a control contradicts what is retained, and only there.
pub proof fn law_recovery_keeps_controls_above_the_gap(
    c: CheckpointView,
    start: BlockRef,
    b: BufferedView,
)
    ensures
        match controls_recovered(c, start, b.controls, 0, Seq::empty()) {
            Ok((anchor, kept)) => {
                &&& (forall|i: int| 0 <= i < b.controls.len() ==> !(#[trigger] b.controls[i] is Reorg))
                    ==> anchor == start
                &&& forall|i: int|
                    0 <= i < b.controls.len() && #[trigger] b.controls[i] is Reorg && (forall|j: int|
                        i < j < b.controls.len() ==> !(#[trigger] b.controls[j] is Reorg))
                        ==> anchor == b.controls[i]->common_ancestor
                &&& exists|at: Seq<int>|
                    {
                        &&& #[trigger] ascending(at, b.controls.len())
                        &&& forall|i: int| #[trigger]
                            at.contains(i) <==> 0 <= i < b.controls.len() && covers_above(
                                b.controls[i],
                                gap_at(start, b.controls, i).number,
                            )
                        &&& kept.len() == at.len()
                        &&& forall|n: int|
                            0 <= n < at.len() ==> #[trigger] kept[n] == handed_on(
                                c,
                                b.controls[at[n]],
                            )
                    }
                &&& forall|i: int|
                    0 <= i < b.controls.len() ==> control_holds(c, start, b.controls, i)
            },
            Err(_) => exists|i: int|
                0 <= i < b.controls.len() && !control_holds(c, start, b.controls, i),
        },
{
    let controls = b.controls;
    let keep = new_control(start, controls);
    lemma_controls_recovered(c, start, controls, 0);
    assert(handed_on_at(c, controls, positions(0, keep)) =~= Seq::<ControlView>::empty());
    lemma_positions(controls.len(), keep);
    lemma_gap(start, controls, controls.len() as int);
    if let Ok((anchor, kept)) = controls_recovered(c, start, controls, 0, Seq::empty()) {
        let at = positions(controls.len(), keep);
        assert forall|i: int| #[trigger] at.contains(i) <==> 0 <= i < controls.len()
            && covers_above(controls[i], gap_at(start, controls, i).number) by {
            assert(keep(i) == covers_above(controls[i], gap_at(start, controls, i).number));
        }
        assert(ascending(at, controls.len()));
    }
}

proof fn lemma_gap(start: BlockRef, controls: Seq<ControlView>, n: int)
    requires
        0 <= n <= controls.len(),
    ensures
        (forall|i: int| 0 <= i < n ==> !(#[trigger] controls[i] is Reorg)) ==> gap_at(
            start,
            controls,
            n,
        ) == start,
        forall|i: int|
            0 <= i < n && #[trigger] controls[i] is Reorg && (forall|j: int|
                i < j < n ==> !(#[trigger] controls[j] is Reorg)) ==> gap_at(start, controls, n)
                == controls[i]->common_ancestor,
    decreases n,
{
    if n > 0 {
        lemma_gap(start, controls, n - 1);
        assert forall|i: int|
            0 <= i < n && #[trigger] controls[i] is Reorg && (forall|j: int|
                i < j < n ==> !(#[trigger] controls[j] is Reorg)) implies gap_at(start, controls, n)
            == controls[i]->common_ancestor by {
            if i < n - 1 {
                assert(!(controls[n - 1] is Reorg));
            }
        }
        if forall|i: int| 0 <= i < n ==> !(#[trigger] controls[i] is Reorg) {
            assert(!(controls[n - 1] is Reorg));
        }
    }
}

spec fn new_record(records: Seq<RoutedView>, through: u64) -> spec_fn(int) -> bool {
    |i: int| !delivered_through(records[i], through)
}

proof fn lemma_records_recovered(
    c: CheckpointView,
    anchor: BlockRef,
    records: Seq<RoutedView>,
    from: int,
)
    requires
        0 <= from <= records.len(),
    ensures
        ({
            let keep = new_record(records, anchor.number);
            let kept = items_at(records, positions(from as nat, keep));
            match records_recovered(c, anchor, records, from, kept) {
                Ok(all) => all == items_at(records, positions(records.len(), keep)) && forall|i: int|
                    from <= i < records.len() && !keep(i) ==> repeats_truly(
                        c,
                        (#[trigger] records[i]).record,
                    ),
                Err(_) => exists|i: int|
                    from <= i < records.len() && !keep(i) && !repeats_truly(
                        c,
                        (#[trigger] records[i]).record,
                    ),
            }
        }),
    decreases records.len() - from,
{
    let keep = new_record(records, anchor.number);
    let kept = items_at(records, positions(from as nat, keep));
    if from < records.len() {
        let now = positions((from + 1) as nat, keep);
        let next = items_at(records, now);
        assert(keep(from) == !delivered_through(records[from], anchor.number));
        assert(positions(((from + 1) - 1) as nat, keep) == positions(from as nat, keep));
        if keep(from) {
            assert(now == positions(from as nat, keep).push(from));
            assert(next =~= kept.push(records[from]));
        } else {
            assert(now == positions(from as nat, keep));
            assert(next =~= kept);
        }
        lemma_records_recovered(c, anchor, records, from + 1);
    }
}

/// What a recovery hands on of the records of a batch: all of them, in order,
/// but for those that advance the chain in a block up to where the gap begins.
/// Nothing is handed on where one of those is not what was delivered, and only
/// there.
pub proof fn law_recovery_keeps_records_above_the_gap(
    c: CheckpointView,
    anchor: BlockRef,
    records: Seq<RoutedView>,
)
    ensures
        match records_recovered(c, anchor, records, 0, Seq::empty()) {
            Ok(kept) => {
                &&& exists|at: Seq<int>|
                    {
                        &&& #[trigger] ascending(at, records.len())
                        &&& forall|i: int| #[trigger]
                            at.contains(i) <==> 0 <= i < records.len() && !delivered_through(
                                records[i],
                                anchor.number,
                            )
                        &&& kept == items_at(records, at)
                    }
                &&& forall|i: int|
                    0 <= i < records.len() && delivered_through(
                        #[trigger] records[i],
                        anchor.number,
                    ) ==> repeats_truly(c, records[i].record)
            },
            Err(_) => exists|i: int|
                0 <= i < records.len() && delivered_through(#[trigger] records[i], anchor.number)
                    && !repeats_truly(c, records[i].record),
        },
{
    let keep = new_record(records, anchor.number);
    lemma_records_recovered(c, anchor, records, 0);
    assert(items_at(records, positions(0, keep)) =~= Seq::<RoutedView>::empty());
    lemma_positions(records.len(), keep);
    let at = positions(records.len(), keep);
    assert(ascending(at, records.len()));
    assert forall|i: int| #[trigger] at.contains(i) <==> 0 <= i < records.len()
        && !delivered_through(records[i], anchor.number) by {
        assert(keep(i) == !delivered_through(records[i], anchor.number));
    }
    assert forall|i: int| 0 <= i < records.len() implies keep(i) == !delivered_through(
        #[trigger] records[i],
        anchor.number,
    ) by {}
}

/// Recovering a batch changes its controls and records and nothing else. Its
/// records are held against the gap as its controls leave it. Without a gap
/// nothing is changed at all.
pub proof fn law_recovery_changes_nothing_else(
    c: CheckpointView,
    anchor: Option<BlockRef>,
    b: BufferedView,
)
    ensures
        anchor is None ==> batch_recovered(c, anchor, b) == Ok::<_, SubscriberError>((anchor, b)),
        match batch_recovered(c, anchor, b) {
            Ok((next, r)) => {
                &&& r == (BufferedView { controls: r.controls, records: r.records, ..b })
                &&& anchor is Some ==> next is Some && controls_recovered(
                    c,
                    anchor->Some_0,
                    b.controls,
                    0,
                    Seq::empty(),
                ) == Ok::<_, SubscriberError>((next->Some_0, r.controls)) && records_recovered(
                    c,
                    next->Some_0,
                    b.records,
                    0,
                    Seq::empty(),
                ) == Ok::<_, SubscriberError>(r.records)
            },
            Err(e) => anchor is Some && match controls_recovered(
                c,
                anchor->Some_0,
                b.controls,
                0,
                Seq::empty(),
            ) {
                Err(x) => e == x,
                Ok((next, _)) => records_recovered(c, next, b.records, 0, Seq::empty()) == Err::<
                    Seq<RoutedView>,
                    _,
                >(e),
            },
        },
{
}

// ---------------------------------------------------------------------------
// Draining
// ---------------------------------------------------------------------------

/// Whether a control of a buffered batch says something new once everything up
/// to `through` was delivered: progress and barriers above it, what is safe or
/// final, and a reorganization of blocks above it alone.
pub open spec fn new_beyond(control: ControlView, through: u64) -> bool {
    match control {
        ControlView::Reorg { common_ancestor, old_tip, .. } => common_ancestor.number >= through
            && old_tip.number > through,
        _ => covers_above(control, through),
    }
}

/// Whether a control of a buffered batch can be true of what is retained.
pub open spec fn drained_control_holds(c: CheckpointView, control: ControlView, through: u64) -> bool {
    match shared_block(control, through) {
        Some(block) => overlap_error(c, block) is None,
        None => true,
    }
}

spec fn undrained_control(controls: Seq<ControlView>, through: u64) -> spec_fn(int) -> bool {
    |i: int| new_beyond(controls[i], through)
}

proof fn lemma_controls_drained(
    c: CheckpointView,
    through: u64,
    controls: Seq<ControlView>,
    from: int,
)
    requires
        0 <= from <= controls.len(),
    ensures
        ({
            let keep = undrained_control(controls, through);
            let kept = items_at(controls, positions(from as nat, keep));
            match controls_drained(c, through, controls, from, kept) {
                Ok(all) => all == items_at(controls, positions(controls.len(), keep)) && forall|
                    i: int,
                |
                    from <= i < controls.len() ==> drained_control_holds(
                        c,
                        #[trigger] controls[i],
                        through,
                    ),
                Err(_) => exists|i: int|
                    from <= i < controls.len() && !drained_control_holds(
                        c,
                        #[trigger] controls[i],
                        through,
                    ),
            }
        }),
    decreases controls.len() - from,
{
    let keep = undrained_control(controls, through);
    let kept = items_at(controls, positions(from as nat, keep));
    if from < controls.len() {
        let now = positions((from + 1) as nat, keep);
        let next = items_at(controls, now);
        assert(keep(from) == new_beyond(controls[from], through));
        assert(positions(((from + 1) - 1) as nat, keep) == positions(from as nat, keep));
        if keep(from) {
            assert(now == positions(from as nat, keep).push(from));
            assert(next =~= kept.push(controls[from]));
        } else {
            assert(now == positions(from as nat, keep));
            assert(next =~= kept);
        }
        lemma_controls_drained(c, through, controls, from + 1);
    }
}

/// What is left of the controls of a buffered batch once everything up to
/// `through` was delivered: in order, everything that says something new. Only
/// progress and barriers up to there are left out, which must agree with what is
/// retained, and reorganizations that reach back behind it.
pub proof fn law_draining_keeps_controls_beyond(
    c: CheckpointView,
    through: u64,
    controls: Seq<ControlView>,
)
    ensures
        match controls_drained(c, through, controls, 0, Seq::empty()) {
            Ok(kept) => {
                &&& exists|at: Seq<int>|
                    {
                        &&& #[trigger] ascending(at, controls.len())
                        &&& forall|i: int| #[trigger]
                            at.contains(i) <==> 0 <= i < controls.len() && new_beyond(
                                controls[i],
                                through,
                            )
                        &&& kept == items_at(controls, at)
                    }
                &&& forall|i: int|
                    0 <= i < controls.len() ==> drained_control_holds(
                        c,
                        #[trigger] controls[i],
                        through,
                    )
            },
            Err(_) => exists|i: int|
                0 <= i < controls.len() && !drained_control_holds(
                    c,
                    #[trigger] controls[i],
                    through,
                ),
        },
{
    let keep = undrained_control(controls, through);
    lemma_controls_drained(c, through, controls, 0);
    assert(items_at(controls, positions(0, keep)) =~= Seq::<ControlView>::empty());
    lemma_positions(controls.len(), keep);
    let at = positions(controls.len(), keep);
    assert(ascending(at, controls.len()));
    assert forall|i: int| #[trigger] at.contains(i) <==> 0 <= i < controls.len() && new_beyond(
        controls[i],
        through,
    ) by {
        assert(keep(i) == new_beyond(controls[i], through));
    }
}

spec fn undrained_record(c: CheckpointView, records: Seq<RoutedView>, through: u64) -> spec_fn(int) -> bool {
    |i: int|
        !delivered_through(records[i], through) && !replaced_through(c, records[i], through)
}

proof fn lemma_drop_resolved(c: CheckpointView, r: RoutedView, through: u64)
    ensures
        crate::overlap::drop_resolved(c, r, through) <==> replaced_through(c, r, through),
{
    let d = taken_back_from(r.record);
    assert(crate::records::dropped_block(r.record) == d);
    if d is Some {
        let h = c.canonical_history;
        if crate::overlap::retains(h, d->Some_0) {
            let i = choose|i: int|
                0 <= i < h.len() && (#[trigger] h[i]).number == d->Some_0.number && h[i].hash
                    == d->Some_0.hash;
            assert(h[i].number == d->Some_0.number);
        }
    }
}

proof fn lemma_records_drained(
    c: CheckpointView,
    through: u64,
    records: Seq<RoutedView>,
    from: int,
)
    requires
        0 <= from <= records.len(),
    ensures
        ({
            let keep = undrained_record(c, records, through);
            let kept = items_at(records, positions(from as nat, keep));
            match records_drained(c, through, records, from, kept) {
                Ok(all) => all == items_at(records, positions(records.len(), keep)) && forall|i: int|
                    from <= i < records.len() && delivered_through(#[trigger] records[i], through)
                        ==> repeats_truly(c, records[i].record),
                Err(_) => exists|i: int|
                    from <= i < records.len() && delivered_through(#[trigger] records[i], through)
                        && !repeats_truly(c, records[i].record),
            }
        }),
    decreases records.len() - from,
{
    let keep = undrained_record(c, records, through);
    let kept = items_at(records, positions(from as nat, keep));
    if from < records.len() {
        let now = positions((from + 1) as nat, keep);
        let next = items_at(records, now);
        lemma_drop_resolved(c, records[from], through);
        assert(keep(from) == (!delivered_through(records[from], through) && !replaced_through(
            c,
            records[from],
            through,
        )));
        assert(positions(((from + 1) - 1) as nat, keep) == positions(from as nat, keep));
        if keep(from) {
            assert(now == positions(from as nat, keep).push(from));
            assert(next =~= kept.push(records[from]));
        } else {
            assert(now == positions(from as nat, keep));
            assert(next =~= kept);
        }
        lemma_records_drained(c, through, records, from + 1);
    }
}

/// What is left of the records of a buffered batch once everything up to
/// `through` was delivered: in order, all but those that are in a block up to
/// there, which must be what was delivered, and those that take back a block up
/// to there which the history does not hold.
pub proof fn law_draining_keeps_records_beyond(
    c: CheckpointView,
    through: u64,
    records: Seq<RoutedView>,
)
    ensures
        match records_drained(c, through, records, 0, Seq::empty()) {
            Ok(kept) => {
                &&& exists|at: Seq<int>|
                    {
                        &&& #[trigger] ascending(at, records.len())
                        &&& forall|i: int| #[trigger]
                            at.contains(i) <==> 0 <= i < records.len() && !delivered_through(
                                records[i],
                                through,
                            ) && !replaced_through(c, records[i], through)
                        &&& kept == items_at(records, at)
                    }
                &&& forall|i: int|
                    0 <= i < records.len() && delivered_through(#[trigger] records[i], through)
                        ==> repeats_truly(c, records[i].record)
            },
            Err(_) => exists|i: int|
                0 <= i < records.len() && delivered_through(#[trigger] records[i], through)
                    && !repeats_truly(c, records[i].record),
        },
{
    let keep = undrained_record(c, records, through);
    lemma_records_drained(c, through, records, 0);
    assert(items_at(records, positions(0, keep)) =~= Seq::<RoutedView>::empty());
    lemma_positions(records.len(), keep);
    let at = positions(records.len(), keep);
    assert(ascending(at, records.len()));
    assert forall|i: int| #[trigger] at.contains(i) <==> 0 <= i < records.len()
        && !delivered_through(records[i], through) && !replaced_through(c, records[i], through) by {
        assert(keep(i) == (!delivered_through(records[i], through) && !replaced_through(
            c,
            records[i],
            through,
        )));
    }
}

/// Draining a batch changes its controls and records and nothing else. With no
/// height to drain through nothing is changed at all.
pub proof fn law_draining_changes_nothing_else(
    c: CheckpointView,
    through: Option<u64>,
    b: BufferedView,
)
    ensures
        through is None ==> batch_drained(c, through, b) == Ok::<_, SubscriberError>(b),
        match batch_drained(c, through, b) {
            Ok(r) => {
                &&& r == (BufferedView { controls: r.controls, records: r.records, ..b })
                &&& through is Some ==> controls_drained(
                    c,
                    through->Some_0,
                    b.controls,
                    0,
                    Seq::empty(),
                ) == Ok::<_, SubscriberError>(r.controls) && records_drained(
                    c,
                    through->Some_0,
                    b.records,
                    0,
                    Seq::empty(),
                ) == Ok::<_, SubscriberError>(r.records)
            },
            Err(e) => through is Some && match controls_drained(
                c,
                through->Some_0,
                b.controls,
                0,
                Seq::empty(),
            ) {
                Err(x) => e == x,
                Ok(_) => records_drained(c, through->Some_0, b.records, 0, Seq::empty()) == Err::<
                    Seq<RoutedView>,
                    _,
                >(e),
            },
        },
{
}

} // verus!
