//! What the two sources are told in the course of a change, and in which order.
//!
//! The live source is told first, so that its events are buffered before the
//! historical source commits to the change. Only when both have made it does the
//! coordinator take it over; where it fails behind the live source, it is taken
//! back.
use crate::checkpoint::HybridSource;
use crate::error::SubscriberError;
use crate::intent::{
    copy_interests, copy_owners, interests_view, owners_view, InterestView, OwnerInterests,
    OwnerInterestsView, PortableInterest,
};
use crate::lifecycle::{
    change_planned, ChangePlan, ChangePlanView, ChangeVerdicts, ChangeView, TopologyChange,
};
use crate::model::{BlockRef, HandlerId};
use crate::state::{chain_error, CoordView, Coordinator};
use crate::words::Epoch;
use vstd::prelude::*;

verus! {

// ---------------------------------------------------------------------------
// What a source is told
// ---------------------------------------------------------------------------

/// What a source is told to do. Where history is delivered again, the caller of
/// the change says from where on.
#[derive(Debug, PartialEq, Eq)]
pub enum SourceAction {
    /// Register these interests, of no owner, and nothing else.
    Register(Vec<PortableInterest>),
    /// Register these owners and no others.
    Replace(Vec<OwnerInterests>),
    /// Register these owners and no others, and deliver history again.
    ReplaceWithBackfill(Vec<OwnerInterests>),
    /// Register these owners and no others, from the block behind this one on.
    ReplaceAfter(Vec<OwnerInterests>, BlockRef),
    /// Register these owners besides the others.
    Upsert(Vec<OwnerInterests>),
    /// Register this owner besides the others.
    Add(OwnerInterests),
    /// Register this owner besides the others, and deliver history again.
    AddWithBackfill(OwnerInterests),
    /// Register this owner besides the others, from a retained block on.
    AddFrom(OwnerInterests, BlockRef),
    /// Remove this owner.
    Remove(HandlerId),
    /// Nothing can be done.
    Refuse(SubscriberError),
}

/// What a source is told to do, over sequences.
pub enum ActionView {
    Register(Seq<InterestView>),
    Replace(Seq<OwnerInterestsView>),
    ReplaceWithBackfill(Seq<OwnerInterestsView>),
    ReplaceAfter(Seq<OwnerInterestsView>, BlockRef),
    Upsert(Seq<OwnerInterestsView>),
    Add(OwnerInterestsView),
    AddWithBackfill(OwnerInterestsView),
    AddFrom(OwnerInterestsView, BlockRef),
    Remove(Seq<u8>),
    Refuse(SubscriberError),
}

impl View for SourceAction {
    type V = ActionView;

    open spec fn view(&self) -> ActionView {
        match self {
            SourceAction::Register(base) => ActionView::Register(interests_view(base@)),
            SourceAction::Replace(list) => ActionView::Replace(owners_view(list@)),
            SourceAction::ReplaceWithBackfill(list) => ActionView::ReplaceWithBackfill(
                owners_view(list@),
            ),
            SourceAction::ReplaceAfter(list, block) => ActionView::ReplaceAfter(
                owners_view(list@),
                *block,
            ),
            SourceAction::Upsert(list) => ActionView::Upsert(owners_view(list@)),
            SourceAction::Add(entry) => ActionView::Add(entry@),
            SourceAction::AddWithBackfill(entry) => ActionView::AddWithBackfill(entry@),
            SourceAction::AddFrom(entry, retained) => ActionView::AddFrom(entry@, *retained),
            SourceAction::Remove(owner) => ActionView::Remove(owner@),
            SourceAction::Refuse(e) => ActionView::Refuse(*e),
        }
    }
}

/// What a source is told that makes a change from now on.
pub open spec fn plain_action(change: ChangeView) -> ActionView {
    match change {
        ChangeView::Base(base) => ActionView::Register(base),
        ChangeView::Replace(list) => ActionView::Replace(list),
        ChangeView::ReplaceWithBackfill(list) => ActionView::Replace(list),
        ChangeView::Upsert(list) => ActionView::Upsert(list),
        ChangeView::Add(entry) => ActionView::Add(entry),
        ChangeView::AddWithBackfill(entry) => ActionView::Add(entry),
        ChangeView::AddFrom(entry, _) => ActionView::Add(entry),
        ChangeView::Remove(owner) => ActionView::Remove(owner),
    }
}

/// What a source is told that makes a change and delivers the history which the
/// change asks for.
pub open spec fn history_action(change: ChangeView) -> ActionView {
    match change {
        ChangeView::ReplaceWithBackfill(list) => ActionView::ReplaceWithBackfill(list),
        ChangeView::AddWithBackfill(entry) => ActionView::AddWithBackfill(entry),
        ChangeView::AddFrom(entry, retained) => ActionView::AddFrom(entry, retained),
        _ => plain_action(change),
    }
}

/// What the historical source is told: history is its work alone, and there is
/// none to deliver where nothing is subscribed.
pub open spec fn historical_form(p: ChangePlanView) -> ActionView {
    if p.next.active {
        history_action(p.change)
    } else {
        plain_action(p.change)
    }
}

impl TopologyChange {
    /// What a source is told that makes this change from now on.
    fn plain(&self) -> (r: SourceAction)
        ensures
            r@ == plain_action(self@),
    {
        match self {
            TopologyChange::Base(base) => SourceAction::Register(copy_interests(base)),
            TopologyChange::Replace(list) | TopologyChange::ReplaceWithBackfill(list) =>
                SourceAction::Replace(copy_owners(list)),
            TopologyChange::Upsert(list) => SourceAction::Upsert(copy_owners(list)),
            TopologyChange::Add(entry) | TopologyChange::AddWithBackfill(entry) => SourceAction::Add(
                entry.duplicate(),
            ),
            TopologyChange::AddFrom(entry, _) => SourceAction::Add(entry.duplicate()),
            TopologyChange::Remove(owner) => SourceAction::Remove(owner.duplicate()),
        }
    }

    /// What a source is told that makes this change and delivers the history
    /// which it asks for.
    fn with_history(&self) -> (r: SourceAction)
        ensures
            r@ == history_action(self@),
    {
        match self {
            TopologyChange::ReplaceWithBackfill(list) => SourceAction::ReplaceWithBackfill(
                copy_owners(list),
            ),
            TopologyChange::AddWithBackfill(entry) => SourceAction::AddWithBackfill(
                entry.duplicate(),
            ),
            TopologyChange::AddFrom(entry, retained) => SourceAction::AddFrom(
                entry.duplicate(),
                *retained,
            ),
            _ => self.plain(),
        }
    }
}

// ---------------------------------------------------------------------------
// The steps of a change
// ---------------------------------------------------------------------------

/// What has happened last in the course of a change.
#[derive(Debug, PartialEq, Eq)]
pub enum ChangeEvent {
    /// The change was planned.
    Planned,
    /// The live source made it, and is on this chain.
    LiveMade { chain: Option<u64> },
    /// The live source failed to make it.
    LiveFailed(SubscriberError),
    /// The historical source made it.
    HistoricalMade,
    /// The historical source failed to make it.
    HistoricalFailed(SubscriberError),
}

/// What is to be done next in the course of a change.
#[derive(Debug, PartialEq, Eq)]
pub enum ChangeStep {
    /// Tell the live source.
    MakeLive(SourceAction),
    /// Tell the historical source.
    MakeHistorical(SourceAction),
    /// Take the change back at both sources, then report what `change_failure`
    /// gives for this step and cause.
    TakeBack { step: &'static str, cause: SubscriberError },
    /// Report this. What the live source did is unknown: the change stays noted,
    /// and is taken back before the next one.
    Report(SubscriberError),
    /// Take the change over.
    Commit,
}

/// What is to be done next in the course of a change, over sequences.
pub enum ChangeStepView {
    MakeLive(ActionView),
    MakeHistorical(ActionView),
    TakeBack { step: &'static str, cause: SubscriberError },
    Report(SubscriberError),
    Commit,
}

impl View for ChangeStep {
    type V = ChangeStepView;

    open spec fn view(&self) -> ChangeStepView {
        match self {
            ChangeStep::MakeLive(action) => ChangeStepView::MakeLive(action@),
            ChangeStep::MakeHistorical(action) => ChangeStepView::MakeHistorical(action@),
            ChangeStep::TakeBack { step, cause } => ChangeStepView::TakeBack {
                step: *step,
                cause: *cause,
            },
            ChangeStep::Report(e) => ChangeStepView::Report(*e),
            ChangeStep::Commit => ChangeStepView::Commit,
        }
    }
}

/// What a historical source that failed to make a change is reported as.
pub open spec fn step_text(change: ChangeView) -> &'static str {
    match change {
        ChangeView::Base(_) => "historical registration failed",
        ChangeView::Replace(_) => "historical exact owner replacement failed",
        ChangeView::ReplaceWithBackfill(_) => "historical global owner replacement failed",
        ChangeView::Upsert(_) => "historical bulk owner registration failed",
        ChangeView::Add(_) => "historical owner registration failed",
        ChangeView::AddWithBackfill(_) => "historical owner registration failed",
        ChangeView::AddFrom(..) => "historical canonical owner registration failed",
        ChangeView::Remove(_) => "historical owner removal failed",
    }
}

/// The error that the live source earns once it has made a change: it must be on
/// the right chain, if anything is subscribed then.
pub open spec fn live_chain_error(p: ChangePlanView, v: CoordView, chain: Option<u64>) -> Option<
    SubscriberError,
> {
    if p.next.active {
        chain_error(v.durable.chain_id, HybridSource::Live, chain)
    } else {
        None
    }
}

/// What is to be done next in the course of a change, whatever happened last.
pub open spec fn step_after(p: ChangePlanView, v: CoordView, event: ChangeEvent) -> ChangeStepView {
    match event {
        ChangeEvent::Planned => ChangeStepView::MakeLive(plain_action(p.change)),
        ChangeEvent::LiveMade { chain } => match live_chain_error(p, v, chain) {
            Some(cause) => ChangeStepView::TakeBack { step: "live chain validation failed", cause },
            None => ChangeStepView::MakeHistorical(historical_form(p)),
        },
        ChangeEvent::LiveFailed(e) => ChangeStepView::Report(e),
        ChangeEvent::HistoricalMade => ChangeStepView::Commit,
        ChangeEvent::HistoricalFailed(cause) => ChangeStepView::TakeBack {
            step: step_text(p.change),
            cause,
        },
    }
}

impl ChangePlan {
    /// Says what is to be done next in the course of this change.
    pub fn change_step(&self, core: &Coordinator, event: ChangeEvent) -> (r: ChangeStep)
        ensures
            r@ == step_after(self@, core@, event),
    {
        match event {
            ChangeEvent::Planned => ChangeStep::MakeLive(self.change.plain()),
            ChangeEvent::LiveMade { chain } => {
                if self.next.active {
                    if let Err(cause) = core.ensure_source_chain(HybridSource::Live, chain) {
                        return ChangeStep::TakeBack {
                            step: "live chain validation failed",
                            cause,
                        };
                    }
                    ChangeStep::MakeHistorical(self.change.with_history())
                } else {
                    ChangeStep::MakeHistorical(self.change.plain())
                }
            },
            ChangeEvent::LiveFailed(e) => ChangeStep::Report(e),
            ChangeEvent::HistoricalMade => ChangeStep::Commit,
            ChangeEvent::HistoricalFailed(cause) => {
                let step: &'static str = match &self.change {
                    TopologyChange::Base(_) => "historical registration failed",
                    TopologyChange::Replace(_) => "historical exact owner replacement failed",
                    TopologyChange::ReplaceWithBackfill(_) =>
                        "historical global owner replacement failed",
                    TopologyChange::Upsert(_) => "historical bulk owner registration failed",
                    TopologyChange::Add(_) => "historical owner registration failed",
                    TopologyChange::AddWithBackfill(_) => "historical owner registration failed",
                    TopologyChange::AddFrom(..) => "historical canonical owner registration failed",
                    TopologyChange::Remove(_) => "historical owner removal failed",
                };
                ChangeStep::TakeBack { step, cause }
            },
        }
    }
}

/// The error to report for a change that failed at `step`: its cause, where it
/// could be taken back, and both otherwise.
pub open spec fn failure_of(
    step: &'static str,
    cause: SubscriberError,
    rollback: Result<(), SubscriberError>,
) -> SubscriberError {
    match rollback {
        Ok(_) => cause,
        Err(e) => SubscriberError::RollbackFailed {
            step,
            cause: Box::new(cause),
            rollback: Box::new(e),
        },
    }
}

/// The error to report for a change that failed at `step`, given what came of
/// taking it back.
pub fn change_failure(
    step: &'static str,
    cause: SubscriberError,
    rollback: Result<(), SubscriberError>,
) -> (r: SubscriberError)
    ensures
        r == failure_of(step, cause, rollback),
{
    match rollback {
        Ok(_) => cause,
        Err(e) => SubscriberError::RollbackFailed {
            step,
            cause: Box::new(cause),
            rollback: Box::new(e),
        },
    }
}

// ---------------------------------------------------------------------------
// Laws
// ---------------------------------------------------------------------------

/// The historical source is told of a change only once the live source has made
/// it, and the coordinator takes it over only once both have.
pub proof fn law_live_is_told_first(p: ChangePlanView, v: CoordView, event: ChangeEvent)
    ensures
        step_after(p, v, event) is MakeLive <==> event is Planned,
        step_after(p, v, event) is MakeHistorical ==> event is LiveMade,
        step_after(p, v, event) is Commit <==> event is HistoricalMade,
{
}

/// What happens where a step of a change is performed and the sources answer
/// like this; none where the step ends the change. The live source gives the
/// chain that it is on.
pub open spec fn answer(
    step: ChangeStepView,
    live: Result<Option<u64>, SubscriberError>,
    historical: Result<(), SubscriberError>,
) -> Option<ChangeEvent> {
    match step {
        ChangeStepView::MakeLive(_) => Some(
            match live {
                Ok(chain) => ChangeEvent::LiveMade { chain },
                Err(e) => ChangeEvent::LiveFailed(e),
            },
        ),
        ChangeStepView::MakeHistorical(_) => Some(
            match historical {
                Ok(_) => ChangeEvent::HistoricalMade,
                Err(e) => ChangeEvent::HistoricalFailed(e),
            },
        ),
        _ => None,
    }
}

/// How many sources may still be told behind an event.
pub open spec fn sources_left(event: ChangeEvent) -> nat {
    match event {
        ChangeEvent::Planned => 2,
        ChangeEvent::LiveMade { .. } => 1,
        _ => 0,
    }
}

/// The steps of a change from an event on, one after the other, where each is
/// performed and the sources answer like this.
pub open spec fn steps_from(
    p: ChangePlanView,
    v: CoordView,
    event: ChangeEvent,
    live: Result<Option<u64>, SubscriberError>,
    historical: Result<(), SubscriberError>,
) -> Seq<ChangeStepView>
    decreases sources_left(event),
{
    let step = step_after(p, v, event);
    match answer(step, live, historical) {
        Some(next) => if sources_left(next) < sources_left(event) {
            seq![step] + steps_from(p, v, next, live, historical)
        } else {
            seq![step]
        },
        None => seq![step],
    }
}

/// The steps that a request for a change leads to: none where it is refused or
/// asks for nothing.
pub open spec fn steps_of(
    v: CoordView,
    change: ChangeView,
    historical_chain: Option<u64>,
    verdicts: ChangeVerdicts,
    epoch: Epoch,
    live: Result<Option<u64>, SubscriberError>,
    historical: Result<(), SubscriberError>,
) -> Seq<ChangeStepView> {
    match change_planned(v, change, historical_chain, verdicts, epoch) {
        Ok(Some(plan)) => steps_from(plan, v, ChangeEvent::Planned, live, historical),
        _ => Seq::empty(),
    }
}

/// The steps of a planned change, as they follow from what the sources answer.
pub open spec fn course(
    p: ChangePlanView,
    v: CoordView,
    live: Result<Option<u64>, SubscriberError>,
    historical: Result<(), SubscriberError>,
) -> Seq<ChangeStepView> {
    let first = ChangeStepView::MakeLive(plain_action(p.change));
    let second = ChangeStepView::MakeHistorical(historical_form(p));
    match live {
        Err(e) => seq![first, ChangeStepView::Report(e)],
        Ok(chain) => match live_chain_error(p, v, chain) {
            Some(cause) => seq![
                first,
                ChangeStepView::TakeBack { step: "live chain validation failed", cause },
            ],
            None => match historical {
                Err(cause) => seq![
                    first,
                    second,
                    ChangeStepView::TakeBack { step: step_text(p.change), cause },
                ],
                Ok(_) => seq![first, second, ChangeStepView::Commit],
            },
        },
    }
}

proof fn lemma_course(
    p: ChangePlanView,
    v: CoordView,
    live: Result<Option<u64>, SubscriberError>,
    historical: Result<(), SubscriberError>,
)
    ensures
        steps_from(p, v, ChangeEvent::Planned, live, historical) == course(p, v, live, historical),
{
    let first = step_after(p, v, ChangeEvent::Planned);
    let made = answer(first, live, historical)->Some_0;
    let second = step_after(p, v, made);
    let rest = steps_from(p, v, made, live, historical);
    let all = steps_from(p, v, ChangeEvent::Planned, live, historical);
    assert(all == seq![first] + rest);
    if let Some(done) = answer(second, live, historical) {
        let last = step_after(p, v, done);
        assert(made is LiveMade);
        assert(steps_from(p, v, done, live, historical) == seq![last]);
        assert(rest == seq![second] + seq![last]);
        assert(all =~= seq![first, second, last]);
    } else {
        assert(rest == seq![second]);
        assert(all =~= seq![first, second]);
    }
}

proof fn lemma_plan_names_its_change(
    v: CoordView,
    change: ChangeView,
    historical_chain: Option<u64>,
    verdicts: ChangeVerdicts,
    epoch: Epoch,
)
    ensures
        match change_planned(v, change, historical_chain, verdicts, epoch) {
            Ok(Some(p)) => p.change == change,
            _ => true,
        },
{
}

/// The whole course of a change. A request that is refused, or that asks for
/// nothing, reaches no source. Any other is made at the live source, once, and
/// from now on; then, unless that failed or the live source turned out to be on
/// another chain, at the historical source, once, with the history that it asks
/// for; and then it is taken over. It is taken back where it failed behind the
/// live source.
pub proof fn law_change_tells_each_source_once(
    v: CoordView,
    change: ChangeView,
    historical_chain: Option<u64>,
    verdicts: ChangeVerdicts,
    epoch: Epoch,
    live: Result<Option<u64>, SubscriberError>,
    historical: Result<(), SubscriberError>,
)
    ensures
        match change_planned(v, change, historical_chain, verdicts, epoch) {
            Ok(Some(p)) => p.change == change && steps_of(
                v,
                change,
                historical_chain,
                verdicts,
                epoch,
                live,
                historical,
            ) == course(p, v, live, historical),
            _ => steps_of(v, change, historical_chain, verdicts, epoch, live, historical).len()
                == 0,
        },
{
    lemma_plan_names_its_change(v, change, historical_chain, verdicts, epoch);
    if let Ok(Some(p)) = change_planned(v, change, historical_chain, verdicts, epoch) {
        lemma_course(p, v, live, historical);
    }
}

} // verus!
