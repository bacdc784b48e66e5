//! Taking back a change of what is subscribed.
//!
//! Both sources are told, the historical one first. Where both did it, a change
//! that may have missed events stops the coordinator for good, unless the
//! historical source fills the gap.
use crate::error::SubscriberError;
use crate::intent::{
    copy_interests, copy_owners, interests_view, owners_view, EXCLUSIVE_TOPOLOGY_ERROR,
    InterestView, OwnerInterests, OwnerInterestsView,
};
use crate::message::text;
use crate::model::{BlockRef, HandlerId};
use crate::owners::ids_view;
use crate::state::{
    healthy_error, poisoned_by, previous_view, restoring_error, CoordView, Coordinator,
    LiveRollback, PreviousOwner, RollbackView,
};
use crate::steps::{ActionView, SourceAction};
use vstd::prelude::*;

verus! {

/// The owners that were registered, with their interests.
pub open spec fn to_register(each: Seq<(Seq<u8>, Option<Seq<InterestView>>)>) -> Seq<
    OwnerInterestsView,
>
    decreases each.len(),
{
    if each.len() == 0 {
        Seq::empty()
    } else {
        let front = to_register(each.drop_last());
        match each.last().1 {
            Some(interests) => front.push((each.last().0, interests)),
            None => front,
        }
    }
}

/// The owners that were not registered.
pub open spec fn to_remove(each: Seq<(Seq<u8>, Option<Seq<InterestView>>)>) -> Seq<Seq<u8>>
    decreases each.len(),
{
    if each.len() == 0 {
        Seq::empty()
    } else {
        let front = to_remove(each.drop_last());
        match each.last().1 {
            Some(_) => front,
            None => front.push(each.last().0),
        }
    }
}

/// What a source is told that takes a bulk change back: to register the owners
/// that were registered, if there are any, then to remove the others one by one.
pub open spec fn bulk_actions(upsert: Seq<OwnerInterestsView>, remove: Seq<Seq<u8>>) -> Seq<
    ActionView,
> {
    let removals = Seq::new(remove.len(), |i: int| ActionView::Remove(remove[i]));
    if upsert.len() > 0 {
        seq![ActionView::Upsert(upsert)] + removals
    } else {
        removals
    }
}

/// What the live source is told, one after the other, to take a change back.
pub open spec fn live_actions(r: RollbackView) -> Seq<ActionView> {
    match r {
        RollbackView::Base { previous, .. } => seq![ActionView::Register(previous)],
        RollbackView::Topology { base, owners, .. } => seq![
            if base.len() > 0 && owners.len() > 0 {
                ActionView::Refuse(SubscriberError::InvalidConfig(EXCLUSIVE_TOPOLOGY_ERROR))
            } else if base.len() == 0 {
                ActionView::Replace(owners)
            } else {
                ActionView::Register(base)
            },
        ],
        RollbackView::Owner { owner, before, .. } => seq![
            match before {
                Some(interests) => ActionView::Add((owner, interests)),
                None => ActionView::Remove(owner),
            },
        ],
        RollbackView::Bulk { each, .. } => bulk_actions(to_register(each), to_remove(each)),
        RollbackView::Recovery { .. } => seq![
            ActionView::Refuse(
                SubscriberError::Provider(
                    "hybrid lifecycle recovery cannot be applied as a child topology mutation",
                ),
            ),
        ],
    }
}

/// Whether taking a change back leaves a gap that the historical source fills:
/// where it begins, if so.
pub open spec fn recovery_of(r: RollbackView) -> Option<BlockRef> {
    match r {
        RollbackView::Topology { base, owners, recovery_anchor, .. } => if base.len() == 0
            && owners.len() > 0 {
            recovery_anchor
        } else {
            None
        },
        _ => None,
    }
}

/// What the historical source is told, one after the other, to take a change
/// back.
pub open spec fn historical_actions(r: RollbackView) -> Seq<ActionView> {
    match r {
        RollbackView::Recovery { .. } => seq![
            ActionView::Refuse(
                SubscriberError::Provider("hybrid historical lifecycle recovery is already staged"),
            ),
        ],
        RollbackView::Topology { owners, .. } => match recovery_of(r) {
            Some(anchor) => seq![ActionView::ReplaceAfter(owners, anchor)],
            None => live_actions(r),
        },
        _ => live_actions(r),
    }
}

/// Actions over sequences.
pub open spec fn actions_view(s: Seq<SourceAction>) -> Seq<ActionView> {
    Seq::new(s.len(), |i: int| s[i]@)
}

/// What has happened last while a change is taken back.
#[derive(Clone, Copy, Debug, PartialEq, Eq, Structural)]
pub enum RollbackEvent {
    /// It is due.
    Due,
    /// The historical source was told, whatever came of it.
    HistoricalTried,
    /// The live source was told, whatever came of it.
    LiveTried,
}

/// What is to be done next while a change is taken back. A source does what it
/// is told one after the other, up to the first that fails.
#[derive(Debug, PartialEq, Eq)]
pub enum RollbackStep {
    /// Tell the historical source.
    RestoreHistorical(Vec<SourceAction>),
    /// Tell the live source.
    RestoreLive(Vec<SourceAction>),
    /// Both were told: hand over what came of it.
    Finish,
}

/// What is to be done next while a change is taken back, over sequences.
pub enum RollbackStepView {
    RestoreHistorical(Seq<ActionView>),
    RestoreLive(Seq<ActionView>),
    Finish,
}

impl View for RollbackStep {
    type V = RollbackStepView;

    open spec fn view(&self) -> RollbackStepView {
        match self {
            RollbackStep::RestoreHistorical(list) => RollbackStepView::RestoreHistorical(
                actions_view(list@),
            ),
            RollbackStep::RestoreLive(list) => RollbackStepView::RestoreLive(actions_view(list@)),
            RollbackStep::Finish => RollbackStepView::Finish,
        }
    }
}

/// What is to be done next while a change is taken back: the historical source
/// is told first, and the live one whatever came of that.
pub open spec fn undo_step(r: RollbackView, event: RollbackEvent) -> RollbackStepView {
    match event {
        RollbackEvent::Due => RollbackStepView::RestoreHistorical(historical_actions(r)),
        RollbackEvent::HistoricalTried => RollbackStepView::RestoreLive(live_actions(r)),
        RollbackEvent::LiveTried => RollbackStepView::Finish,
    }
}

/// Whether a change waits to be taken back, for a caller that changes base
/// interests or owners: none, where nothing does; or why it must wait.
pub open spec fn rollback_due(v: CoordView, owner_managed: bool) -> Result<
    Option<RollbackView>,
    SubscriberError,
> {
    match healthy_error(v) { Some(e) => Err(e), None =>
    match restoring_error(v) { Some(e) => Err(e), None =>
    match v.rollback {
        None => Ok(None),
        Some(r) => if owner_managed {
            if r is Recovery {
                Err(
                    SubscriberError::Provider(
                        "hybrid destructive lifecycle compensation is awaiting historical gap certification; poll the coordinator until it returns to Live before retrying registration",
                    ),
                )
            } else {
                Ok(Some(r))
            }
        } else if r is Base {
            Ok(Some(r))
        } else {
            Err(
                SubscriberError::Provider(
                    "hybrid owner lifecycle is pending; retry an owner lifecycle operation",
                ),
            )
        },
    } } }
}

fn split_previous(each: &Vec<PreviousOwner>) -> (r: (Vec<OwnerInterests>, Vec<HandlerId>))
    ensures
        owners_view(r.0@) == to_register(previous_view(each@)),
        ids_view(r.1@) == to_remove(previous_view(each@)),
{
    let ghost all = previous_view(each@);
    let mut upsert: Vec<OwnerInterests> = Vec::new();
    let mut remove: Vec<HandlerId> = Vec::new();
    let mut i: usize = 0;
    assert(all.take(0) =~= Seq::<(Seq<u8>, Option<Seq<InterestView>>)>::empty());
    assert(owners_view(upsert@) =~= Seq::<OwnerInterestsView>::empty());
    assert(ids_view(remove@) =~= Seq::<Seq<u8>>::empty());
    while i < each.len()
        invariant
            i <= each@.len(),
            all == previous_view(each@),
            owners_view(upsert@) == to_register(all.take(i as int)),
            ids_view(remove@) == to_remove(all.take(i as int)),
        decreases each@.len() - i,
    {
        let ghost u = upsert@;
        let ghost d = remove@;
        proof {
            let next = all.take(i + 1);
            assert(next.drop_last() =~= all.take(i as int));
            assert(next.last() == all[i as int]);
            assert(all[i as int] == each@[i as int]@);
        }
        match &each[i].previous {
            Some(interests) => {
                let entry = OwnerInterests {
                    owner: each[i].owner.duplicate(),
                    interests: copy_interests(interests),
                };
                let ghost last = entry@;
                upsert.push(entry);
                assert(owners_view(upsert@) =~= owners_view(u).push(last));
            },
            None => {
                let owner: HandlerId = each[i].owner.duplicate();
                let ghost last = owner@;
                remove.push(owner);
                assert(ids_view(remove@) =~= ids_view(d).push(last));
            },
        }
        i += 1;
    }
    assert(all.take(i as int) =~= all);
    (upsert, remove)
}

/// What a source is told that takes a bulk change back.
fn bulk_restoration(upsert: Vec<OwnerInterests>, remove: Vec<HandlerId>) -> (r: Vec<SourceAction>)
    ensures
        actions_view(r@) == bulk_actions(owners_view(upsert@), ids_view(remove@)),
{
    let ghost wanted = bulk_actions(owners_view(upsert@), ids_view(remove@));
    let ghost skipped: int = if upsert@.len() > 0 {
        1
    } else {
        0
    };
    let mut out: Vec<SourceAction> = Vec::new();
    assert(owners_view(upsert@).len() == upsert@.len());
    if upsert.len() > 0 {
        out.push(SourceAction::Upsert(upsert));
    }
    let mut i: usize = 0;
    while i < remove.len()
        invariant
            i <= remove@.len(),
            out@.len() == skipped + i,
            skipped == 0 || skipped == 1,
            wanted.len() == skipped + remove@.len(),
            forall|j: int|
                0 <= j < remove@.len() ==> #[trigger] wanted[skipped + j] == ActionView::Remove(
                    remove@[j]@,
                ),
            forall|j: int| 0 <= j < out@.len() ==> (#[trigger] out@[j])@ == wanted[j],
        decreases remove@.len() - i,
    {
        assert(wanted[skipped + i] == ActionView::Remove(remove@[i as int]@));
        out.push(SourceAction::Remove(remove[i].duplicate()));
        i += 1;
    }
    assert(actions_view(out@) =~= wanted);
    out
}

fn one_action(action: SourceAction) -> (r: Vec<SourceAction>)
    ensures
        actions_view(r@) == seq![action@],
{
    let mut out: Vec<SourceAction> = Vec::new();
    out.push(action);
    assert(actions_view(out@) =~= seq![action@]);
    out
}

impl LiveRollback {
    /// What the live source is told, one after the other, to take the change
    /// back.
    pub fn live_actions(&self) -> (r: Vec<SourceAction>)
        ensures
            actions_view(r@) == live_actions(self@),
    {
        let action: SourceAction = match self {
            LiveRollback::Base { previous, .. } => SourceAction::Register(copy_interests(previous)),
            LiveRollback::Topology { base, owners, .. } => {
                assert(interests_view(base@).len() == base@.len());
                assert(owners_view(owners@).len() == owners@.len());
                if base.len() > 0 && owners.len() > 0 {
                    SourceAction::Refuse(SubscriberError::InvalidConfig(EXCLUSIVE_TOPOLOGY_ERROR))
                } else if base.len() == 0 {
                    SourceAction::Replace(copy_owners(owners))
                } else {
                    SourceAction::Register(copy_interests(base))
                }
            },
            LiveRollback::Owner { owner, before, .. } => match before {
                Some(interests) => SourceAction::Add(
                    OwnerInterests {
                        owner: owner.duplicate(),
                        interests: copy_interests(interests),
                    },
                ),
                None => SourceAction::Remove(owner.duplicate()),
            },
            LiveRollback::Bulk { each, .. } => {
                let (upsert, remove) = split_previous(each);
                return bulk_restoration(upsert, remove);
            },
            LiveRollback::Recovery { .. } => SourceAction::Refuse(
                SubscriberError::Provider(
                    "hybrid lifecycle recovery cannot be applied as a child topology mutation",
                ),
            ),
        };
        one_action(action)
    }

    /// Where the gap begins that taking the change back leaves for the
    /// historical source to fill.
    fn recovery(&self) -> (r: Option<BlockRef>)
        ensures
            r == recovery_of(self@),
    {
        match self {
            LiveRollback::Topology { base, owners, recovery_anchor, .. } => {
                assert(interests_view(base@).len() == base@.len());
                assert(owners_view(owners@).len() == owners@.len());
                if base.len() == 0 && owners.len() > 0 {
                    *recovery_anchor
                } else {
                    None
                }
            },
            _ => None,
        }
    }

    /// What the historical source is told, one after the other, to take the
    /// change back.
    pub fn historical_actions(&self) -> (r: Vec<SourceAction>)
        ensures
            actions_view(r@) == historical_actions(self@),
    {
        match self {
            LiveRollback::Recovery { .. } => {
                return one_action(
                    SourceAction::Refuse(
                        SubscriberError::Provider(
                            "hybrid historical lifecycle recovery is already staged",
                        ),
                    ),
                );
            },
            LiveRollback::Topology { owners, .. } => {
                if let Some(anchor) = self.recovery() {
                    return one_action(SourceAction::ReplaceAfter(copy_owners(owners), anchor));
                }
            },
            _ => {},
        }
        self.live_actions()
    }
}

/// What came of a step, in words.
pub open spec fn described(result: Result<(), SubscriberError>) -> Seq<char> {
    match result {
        Ok(_) => "restored"@,
        Err(e) => text(e),
    }
}

/// What came of a step, in words.
pub fn result_description(result: &Result<(), SubscriberError>) -> (r: String)
    ensures
        r@ == described(*result),
{
    match result {
        Ok(_) => "restored".to_string(),
        Err(e) => e.message(),
    }
}

/// Whether `after` follows from `before` where taking back the change in `r`
/// gave these results at the two sources. Where it succeeded, a change that may
/// have missed events stops the coordinator for good, and one whose gap the
/// historical source can fill waits for that.
pub open spec fn rolled_back(
    before: CoordView,
    after: CoordView,
    r: RollbackView,
    historical: Result<(), SubscriberError>,
    live: Result<(), SubscriberError>,
    owner_managed: bool,
    result: Result<(), SubscriberError>,
) -> bool {
    if historical is Ok && live is Ok {
        if recovery_of(r) is Some {
            result == Err::<(), _>(
                SubscriberError::Provider(
                    "hybrid previous topology was restored after a destructive live reset; historical gap certification is required before Live",
                ),
            ) && after == (CoordView {
                rollback: Some(RollbackView::Recovery { anchor: recovery_of(r)->Some_0 }),
                ..before
            })
        } else if r.spec_gap_anchor() is Some {
            let gap = SubscriberError::LifecycleGap {
                scope: r.spec_gap_scope(),
                number: r.spec_gap_anchor()->Some_0.number,
            };
            poisoned_by(CoordView { rollback: None, ..before }, after, text(gap)) && result == Err::<
                (),
                _,
            >(SubscriberError::Poisoned { reason: after.poisoned->Some_0 })
        } else {
            result is Ok && after == (CoordView { rollback: None, ..before })
        }
    } else {
        after == before && match result {
            Err(SubscriberError::RollbackPending { label, first, second }) => {
                &&& label == (if owner_managed {
                    "hybrid lifecycle"
                } else {
                    "hybrid base lifecycle"
                })
                &&& first@ == described(historical)
                &&& second@ == described(live)
            },
            _ => false,
        }
    }
}

impl Coordinator {
    /// Whether a change waits to be taken back before another can be made.
    pub fn pending_rollback(&self, owner_managed: bool) -> (r: Result<bool, SubscriberError>)
        ensures
            match r {
                Err(e) => rollback_due(self@, owner_managed) == Err::<Option<RollbackView>, _>(e),
                Ok(due) => rollback_due(self@, owner_managed) == Ok::<_, SubscriberError>(
                    self@.rollback,
                ) && due == (self@.rollback is Some),
            },
    {
        self.ensure_healthy()?;
        self.ensure_no_pending_restore()?;
        match &self.rollback {
            None => Ok(false),
            Some(rollback) => {
                let recovery: bool = match rollback {
                    LiveRollback::Recovery { .. } => true,
                    _ => false,
                };
                let base: bool = match rollback {
                    LiveRollback::Base { .. } => true,
                    _ => false,
                };
                if owner_managed {
                    if recovery {
                        return Err(
                            SubscriberError::Provider(
                                "hybrid destructive lifecycle compensation is awaiting historical gap certification; poll the coordinator until it returns to Live before retrying registration",
                            ),
                        );
                    }
                } else if !base {
                    return Err(
                        SubscriberError::Provider(
                            "hybrid owner lifecycle is pending; retry an owner lifecycle operation",
                        ),
                    );
                }
                Ok(true)
            },
        }
    }

    /// Says what is to be done next while a change is taken back.
    pub fn rollback_step(&self, event: RollbackEvent) -> (r: RollbackStep)
        requires
            self@.rollback is Some,
        ensures
            r@ == undo_step(self@.rollback->Some_0, event),
    {
        if let Some(rollback) = &self.rollback {
            match event {
                RollbackEvent::Due => {
                    return RollbackStep::RestoreHistorical(rollback.historical_actions());
                },
                RollbackEvent::HistoricalTried => {
                    return RollbackStep::RestoreLive(rollback.live_actions());
                },
                RollbackEvent::LiveTried => {},
            }
        }
        RollbackStep::Finish
    }

    /// Takes note of what came of taking a change back at the two sources.
    pub fn finish_rollback(
        &mut self,
        historical: Result<(), SubscriberError>,
        live: Result<(), SubscriberError>,
        owner_managed: bool,
    ) -> (r: Result<(), SubscriberError>)
        requires
            old(self)@.rollback is Some,
            !(old(self)@.rollback->Some_0 is Recovery),
        ensures
            rolled_back(
                old(self)@,
                final(self)@,
                old(self)@.rollback->Some_0,
                historical,
                live,
                owner_managed,
                r,
            ),
    {
        if historical.is_err() || live.is_err() {
            return Err(
                SubscriberError::RollbackPending {
                    label: if owner_managed {
                        "hybrid lifecycle"
                    } else {
                        "hybrid base lifecycle"
                    },
                    first: result_description(&historical),
                    second: result_description(&live),
                },
            );
        }
        let recovery: Option<BlockRef>;
        let gap: Option<SubscriberError>;
        match &self.rollback {
            None => {
                return Ok(());
            },
            Some(rollback) => {
                recovery = rollback.recovery();
                gap = match rollback.gap_anchor() {
                    Some(anchor) => Some(
                        SubscriberError::LifecycleGap {
                            scope: rollback.gap_scope(),
                            number: anchor.number,
                        },
                    ),
                    None => None,
                };
            },
        }
        if let Some(anchor) = recovery {
            self.rollback = Some(LiveRollback::Recovery { anchor });
            return Err(
                SubscriberError::Provider(
                    "hybrid previous topology was restored after a destructive live reset; historical gap certification is required before Live",
                ),
            );
        }
        self.rollback = None;
        if let Some(gap) = gap {
            self.poison(&gap);
            return match &self.poisoned {
                Some(reason) => Err(SubscriberError::Poisoned { reason: reason.clone() }),
                None => Ok(()),
            };
        }
        Ok(())
    }
}

} // verus!
