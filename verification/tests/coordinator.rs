//! The coordinator from the first subscription to live delivery, and its
//! refusals on the way.
use hybrid_events::audience::{DeliveryAudience, DeliveryScope};
use hybrid_events::capacity::ProbeVerdicts;
use hybrid_events::checkpoint::HybridTokenKind;
use hybrid_events::codec::decode_hybrid_checkpoint;
use hybrid_events::filter::{MergeOutcome, RecordMerger};
use hybrid_events::flow::{sequence_after, sequence_state, AckStep, NextStep};
use hybrid_events::ingress::{BufferedBatch, ReactiveInputBatch};
use hybrid_events::intent::{empty_interest_fingerprint, interest_fingerprint, OwnerInterests, PortableInterest};
use hybrid_events::lifecycle::{ChangePlan, ChangeVerdicts, TopologyChange};
use hybrid_events::model::{BlockRef, HandlerId, InputRef, ReactiveInputIdentity, ReactiveInputKind};
use hybrid_events::plan::{CanonicalOutcome, CanonicalPlan, SequenceMutation};
use hybrid_events::records::{
    ChainControl, ChainStatus, InputSource, LogBody, ReactiveContext, ReactiveInput, ReactiveInputRecord, RoutedRecord,
};
use hybrid_events::restore::{probe_sequences, PrepareStep, RestoreStep, RestoreVerdicts};
use hybrid_events::rollback::{result_description, RollbackEvent, RollbackStep};
use hybrid_events::state::{Coordinator, SubscriberResumePosition};
use hybrid_events::steps::{change_failure, ChangeEvent, ChangeStep, SourceAction};
use hybrid_events::subscriber::{
    combine_capabilities, epoch_of_digest, fresh_epoch, SourceProfile, SubscriberCapabilities,
};
use hybrid_events::token::wrap_token;
use hybrid_events::words::{Epoch, B256};
use hybrid_events::{HybridConfig, HybridPhase, HybridSource, HybridSubscriber, SubscriberError};

fn epoch(fill: u8) -> Epoch {
    Epoch::from_slice(&[fill; 16])
}

fn hash(fill: u8) -> B256 {
    B256::repeat_byte(fill)
}

fn id(name: &str) -> HandlerId {
    HandlerId::try_new(name.to_string()).expect("non-empty handler id")
}

fn fine_probe() -> ProbeVerdicts {
    ProbeVerdicts { before: Ok(()), after: Ok(()) }
}

fn fine_change() -> ChangeVerdicts {
    ChangeVerdicts { probe: fine_probe(), current: Ok(()) }
}

fn fine_restore() -> RestoreVerdicts {
    RestoreVerdicts { stored: Ok(()), candidate: Ok(()), probe: fine_probe() }
}

fn no_capabilities() -> SubscriberCapabilities {
    SubscriberCapabilities {
        historical_backfill: false,
        live: false,
        durable_replay: false,
        barriers: false,
        logs: false,
        pending_transaction_hashes: false,
        owner_scoped_delivery: false,
        dynamic_interests: false,
        explicit_reorgs: false,
        finality_updates: false,
        block_headers: false,
        full_blocks: false,
        pending_transactions: false,
    }
}

fn historical_profile() -> SourceProfile {
    let mut capabilities = no_capabilities();
    capabilities.historical_backfill = true;
    capabilities.durable_replay = true;
    capabilities.barriers = true;
    capabilities.logs = true;
    SourceProfile { chain_id: Some(1), capabilities }
}

fn live_profile() -> SourceProfile {
    let mut capabilities = no_capabilities();
    capabilities.live = true;
    capabilities.logs = true;
    SourceProfile { chain_id: None, capabilities }
}

fn started_with(config: HybridConfig) -> Coordinator {
    Coordinator::start(config, &historical_profile(), &live_profile(), epoch(1)).expect("start")
}

fn interest(fill: u8) -> PortableInterest {
    PortableInterest::Log { addresses: vec![vec![fill; 20]], topics: Vec::new() }
}

fn make_change(core: &mut Coordinator, change: TopologyChange) -> Result<bool, SubscriberError> {
    match core.plan_change(change, Some(1), &fine_change(), epoch(2))? {
        None => Ok(false),
        Some(plan) => {
            core.commit_change(plan, epoch(3));
            Ok(true)
        }
    }
}

/// A coordinator with one base interest, catching up.
fn subscribed() -> Coordinator {
    let mut core = started_with(HybridConfig::default());
    assert!(make_change(&mut core, TopologyChange::Base(vec![interest(0xaa)])).expect("subscribe"));
    core
}

fn block(number: u64) -> BlockRef {
    BlockRef {
        number,
        hash: hash(number as u8),
        parent_hash: Some(hash(number.wrapping_sub(1) as u8)),
        timestamp: Some(number * 12),
    }
}

fn log(at: u64, log_index: u64) -> ReactiveInputRecord {
    let block = block(at);
    let input_ref = InputRef::Log {
        chain_id: Some(1),
        block_hash: block.hash,
        transaction_hash: hash(0xc0),
        log_index,
    };
    ReactiveInputRecord {
        input: ReactiveInput::Log(LogBody {
            address: vec![0xaa; 20],
            topics: vec![hash(0xbb)],
            data: vec![1, 2, 3],
            block_hash: block.hash,
            block_number: block.number,
            transaction_hash: hash(0xc0),
            transaction_index: 0,
            log_index,
            removed: false,
            block_timestamp: None,
        }),
        context: ReactiveContext {
            chain_id: Some(1),
            source: InputSource::Backfill,
            chain_status: ChainStatus::Included { block, confirmations: 0 },
            block: Some(block),
            transaction_index: Some(0),
            log_index: Some(log_index),
        },
        identity: Ok(ReactiveInputIdentity::try_from_parts(input_ref, ReactiveInputKind::CanonicalLog)
            .expect("log identity")),
        payload_deduplicable: true,
    }
}

fn routed(record: ReactiveInputRecord) -> RoutedRecord {
    RoutedRecord { record, audience: DeliveryAudience::All, scope: DeliveryScope::Canonical }
}

/// A record that nobody has had, as it is handed out.
fn owed(record: ReactiveInputRecord) -> RoutedRecord {
    RoutedRecord {
        record,
        audience: DeliveryAudience::AllExcept(Vec::new()),
        scope: DeliveryScope::Canonical,
    }
}

fn batch(deliveries: Vec<RoutedRecord>, progress: Option<u64>, token: Option<&[u8]>) -> ReactiveInputBatch {
    ReactiveInputBatch {
        chain_id: Some(1),
        deliveries,
        chain_controls: progress
            .into_iter()
            .map(|number| ChainControl::CanonicalProgress(block(number)))
            .collect(),
        delivery_token: token.map(|token| token.to_vec()),
        subscriber_checkpoint: None,
        payload_commitment: None,
    }
}

/// What the canonical-sequence rules say where blocks simply follow.
fn follows(core: &Coordinator, batch: &BufferedBatch, numbers: &[u64]) -> CanonicalOutcome {
    let state = sequence_state(&core.durable);
    let mut history = state.history;
    let mut mutations = Vec::new();
    for number in numbers {
        history.push(block(*number));
        mutations.push(SequenceMutation::Canonical(block(*number)));
    }
    CanonicalOutcome::Accepted(CanonicalPlan {
        controls: batch.controls.iter().map(|control| control.duplicate()).collect(),
        safe_head: state.safe_head,
        finalized_head: state.finalized_head,
        coverage_head: history.last().copied(),
        history,
        mutations,
    })
}

fn separate(batch: &BufferedBatch) -> Vec<MergeOutcome> {
    batch.records.iter().map(|_| MergeOutcome::Separate).collect()
}

fn deliver_historical(
    core: &mut Coordinator,
    incoming: ReactiveInputBatch,
    numbers: &[u64],
) -> Result<Option<ReactiveInputBatch>, SubscriberError> {
    let admitted = core.admit_historical(incoming, Some(1))?;
    let outcome = follows(core, &admitted, numbers);
    let planned = core.plan_historical(admitted, outcome)?;
    let merges = separate(&planned);
    core.emit_historical(&planned, &merges, &Ok(()))
}

fn deliver_live(
    core: &mut Coordinator,
    incoming: ReactiveInputBatch,
    numbers: &[u64],
) -> Result<Option<ReactiveInputBatch>, SubscriberError> {
    let admitted = core.admit_live(incoming, Some(1))?;
    let outcome = follows(core, &admitted, numbers);
    let planned = core.plan_live(admitted, outcome)?;
    let merges = separate(&planned);
    core.emit_live(&planned, &merges, &Ok(()))
}

fn acknowledge(core: &mut Coordinator, output: &ReactiveInputBatch) -> AckStep {
    let token = output.delivery_token.as_ref().expect("token");
    let step = core.begin_acknowledgement(token).expect("acknowledge");
    if step != AckStep::Done {
        core.finish_acknowledgement().expect("commit");
    }
    step
}

/// A coordinator that delivers from the live source, covered up to 101.
fn live_at_101() -> Coordinator {
    let mut core = subscribed();
    core.buffer_live(batch(vec![routed(log(101, 1))], None, None), Some(1)).expect("buffer");
    let output = deliver_historical(&mut core, batch(vec![routed(log(100, 1))], None, Some(b"h1")), &[100])
        .expect("historical delivery")
        .expect("output");
    acknowledge(&mut core, &output);
    let drained = core.next_buffered_live().expect("drain").expect("one batch");
    let outcome = follows(&core, &drained, &[101]);
    let planned = core.plan_live(drained, outcome).expect("plan");
    let merges = separate(&planned);
    let output = core.emit_live(&planned, &merges, &Ok(())).expect("emit").expect("output");
    acknowledge(&mut core, &output);
    assert_eq!(core.phase, HybridPhase::Live);
    core
}

#[test]
fn the_live_source_takes_over_once_history_reaches_the_fence() {
    let mut core = subscribed();
    assert_eq!(core.phase, HybridPhase::CatchingUp);
    assert_eq!(core.next_step(epoch(9)).expect("step"), NextStep::PollBoth);

    core.buffer_live(batch(vec![routed(log(101, 1))], None, None), Some(1)).expect("buffer");
    assert_eq!(core.fence, Some(100));
    assert_eq!(core.live_buffer.len(), 1);
    assert_eq!(core.buffered_live_records, 1);
    assert!(core.buffered_live_bytes > 0);

    // A page below the fence does not end the catch-up.
    let output = deliver_historical(&mut core, batch(vec![routed(log(99, 1))], None, Some(b"h0")), &[99])
        .expect("page")
        .expect("output");
    assert_eq!(core.pending_cutover, None);
    let step = acknowledge(&mut core, &output);
    assert_eq!(step, AckStep::Forward { source: HybridSource::Historical, token: b"h0".to_vec() });
    assert_eq!(core.phase, HybridPhase::CatchingUp);
    assert_eq!(core.acknowledged_historical_through, Some(99));

    // The page at the fence does, once it is acknowledged.
    let output = deliver_historical(&mut core, batch(vec![routed(log(100, 1))], None, Some(b"h1")), &[100])
        .expect("page")
        .expect("output");
    assert_eq!(core.pending_cutover.as_ref().expect("cutover").through, 100);
    assert_eq!(core.phase, HybridPhase::CatchingUp);
    acknowledge(&mut core, &output);
    assert_eq!(core.phase, HybridPhase::DrainingLive);
    assert_eq!(core.drain_through, Some(100));
    assert_eq!(core.next_step(epoch(9)).expect("step"), NextStep::DrainLive);

    let drained = core.next_buffered_live().expect("drain").expect("one batch");
    assert_eq!(core.buffered_live_records, 0);
    assert_eq!(core.buffered_live_bytes, 0);
    let outcome = follows(&core, &drained, &[101]);
    let planned = core.plan_live(drained, outcome).expect("plan");
    let asked = sequence_after(&core.durable, HybridSource::Live, &planned);
    let merges = separate(&planned);
    let output = core.emit_live(&planned, &merges, &Ok(())).expect("emit").expect("output");
    assert_eq!(acknowledge(&mut core, &output), AckStep::Commit);
    assert_eq!(sequence_state(&core.durable), asked);
    assert_eq!(core.durable.coverage_head, Some(block(101)));
    assert_eq!(core.phase, HybridPhase::Live);
    assert_eq!(core.fence, None);
    assert_eq!(core.next_step(epoch(9)).expect("step"), NextStep::PollLive);
}

#[test]
fn an_acknowledged_page_ends_the_catch_up_when_the_fence_comes_late() {
    let mut core = subscribed();
    let output = deliver_historical(&mut core, batch(vec![routed(log(100, 1))], None, Some(b"h1")), &[100])
        .expect("page")
        .expect("output");
    acknowledge(&mut core, &output);
    assert_eq!(core.phase, HybridPhase::CatchingUp);
    core.buffer_live(batch(vec![routed(log(101, 1))], None, None), Some(1)).expect("buffer");
    assert_eq!(core.phase, HybridPhase::DrainingLive);
    assert_eq!(core.drain_through, Some(100));
    assert_eq!(core.acknowledged_historical_through, None);
}

#[test]
fn an_output_is_handed_out_until_it_is_acknowledged() {
    let mut core = subscribed();
    let output = deliver_historical(&mut core, batch(vec![routed(log(100, 1))], None, Some(b"h1")), &[100])
        .expect("page")
        .expect("output");
    for _ in 0..2 {
        match core.next_step(epoch(9)).expect("step") {
            NextStep::Deliver(again) => assert_eq!(again, output),
            other => panic!("expected the same output, got {other:?}"),
        }
    }
    assert_eq!(output.chain_id, Some(1));
    assert_eq!(output.deliveries, vec![owed(log(100, 1))]);
    assert_eq!(
        output.delivery_token,
        Some(wrap_token(epoch(3), HybridSource::Historical, HybridTokenKind::Forwarded, b"h1"))
    );

    // Its checkpoint is the state that the acknowledgement leads to.
    let promised = decode_hybrid_checkpoint(
        output.subscriber_checkpoint.as_ref().expect("checkpoint"),
        &Ok(()),
    )
    .expect("decode");
    acknowledge(&mut core, &output);
    assert_eq!(core.durable, promised);

    // A second acknowledgement asks for nothing.
    assert_eq!(acknowledge(&mut core, &output), AckStep::Done);
    let stranger = wrap_token(epoch(3), HybridSource::Live, HybridTokenKind::Forwarded, b"zz");
    assert_eq!(
        core.begin_acknowledgement(&stranger),
        Err(SubscriberError::Provider("hybrid acknowledgement does not match the in-flight delivery"))
    );
    let old = wrap_token(epoch(8), HybridSource::Historical, HybridTokenKind::Forwarded, b"h1");
    assert_eq!(
        core.begin_acknowledgement(&old),
        Err(SubscriberError::Provider("hybrid delivery token belongs to a different coordinator epoch"))
    );
    assert_eq!(
        core.begin_acknowledgement(b"short"),
        Err(SubscriberError::Provider("invalid hybrid delivery-token envelope"))
    );
}

#[test]
fn a_record_is_delivered_once_to_each_audience() {
    let mut core = live_at_101();
    // The same record from the live source is suppressed; there is no output.
    let output = deliver_live(&mut core, batch(vec![routed(log(101, 1))], None, None), &[]).expect("live");
    assert_eq!(output, None);
    // A new one beside it is delivered alone.
    let output = deliver_live(
        &mut core,
        batch(vec![routed(log(101, 1)), routed(log(102, 2))], None, None),
        &[102],
    )
    .expect("live")
    .expect("output");
    assert_eq!(output.deliveries, vec![owed(log(102, 2))]);
    assert_eq!(
        output.delivery_token,
        Some(wrap_token(
            core.durable.epoch,
            HybridSource::Live,
            HybridTokenKind::Synthetic,
            &(core.durable.next_synthetic_token - 1).to_be_bytes(),
        ))
    );
}

#[test]
fn records_with_one_identity_are_merged() {
    let mut core = live_at_101();
    let admitted = core
        .admit_live(batch(vec![routed(log(102, 2)), routed(log(102, 2))], None, None), Some(1))
        .expect("admit");
    let outcome = follows(&core, &admitted, &[102]);
    let planned = core.plan_live(admitted, outcome).expect("plan");

    let mut merger = RecordMerger::new();
    assert_eq!(merger.retained(&planned.records[0], 1), Ok(None));
    merger.admit_record(&planned.records[0], &MergeOutcome::Separate, 1).expect("first");
    assert_eq!(merger.retained(&planned.records[1], 1), Ok(Some(&log(102, 2))));

    let merges = vec![MergeOutcome::Separate, MergeOutcome::Merged(log(102, 2))];
    let output = core.emit_live(&planned, &merges, &Ok(())).expect("emit").expect("output");
    assert_eq!(output.deliveries.len(), 1);

    let mut core = live_at_101();
    let admitted = core
        .admit_live(batch(vec![routed(log(102, 2)), routed(log(102, 2))], None, None), Some(1))
        .expect("admit");
    let outcome = follows(&core, &admitted, &[102]);
    let planned = core.plan_live(admitted, outcome).expect("plan");
    let merges = vec![MergeOutcome::Separate, MergeOutcome::Refused("unequal bodies".to_string())];
    assert_eq!(
        core.emit_live(&planned, &merges, &Ok(())),
        Err(SubscriberError::Reported("unequal bodies".to_string()))
    );
    assert_eq!(core.phase, HybridPhase::Poisoned);
}

#[test]
fn a_full_live_buffer_stops_the_coordinator_for_good() {
    let mut config = HybridConfig::default();
    config.max_buffered_live_batches = 1;
    let mut core = started_with(config);
    make_change(&mut core, TopologyChange::Base(vec![interest(0xaa)])).expect("subscribe");
    core.buffer_live(batch(vec![routed(log(101, 1))], None, None), Some(1)).expect("buffer");
    let error = core
        .buffer_live(batch(vec![routed(log(102, 2))], None, None), Some(1))
        .expect_err("the buffer is full");
    assert!(matches!(
        error,
        SubscriberError::LiveBufferExceeded { batches: 2, max_batches: 1, records: 2, .. }
    ));
    assert_eq!(core.phase, HybridPhase::Poisoned);
    assert_eq!(core.poisoned, Some(error.message()));
    assert_eq!(core.live_buffer.len(), 1);

    let stopped = SubscriberError::Poisoned { reason: error.message() };
    assert_eq!(core.next_step(epoch(9)), Err(SubscriberError::Poisoned { reason: error.message() }));
    assert_eq!(
        core.begin_acknowledgement(b"any"),
        Err(SubscriberError::Poisoned { reason: error.message() })
    );
    assert_eq!(
        make_change(&mut core, TopologyChange::Base(Vec::new())),
        Err(SubscriberError::Poisoned { reason: error.message() })
    );
    assert_eq!(core.pending_rollback(true), Err(stopped));
}

#[test]
fn a_live_token_is_buffered_once_and_never_for_other_data() {
    let mut core = subscribed();
    core.buffer_live(batch(vec![routed(log(101, 1))], None, Some(b"l1")), Some(1)).expect("buffer");
    core.buffer_live(batch(vec![routed(log(101, 1))], None, Some(b"l1")), Some(1)).expect("again");
    assert_eq!(core.live_buffer.len(), 1);
    // While a token waits, the live source is not polled again.
    assert_eq!(core.next_step(epoch(9)).expect("step"), NextStep::PollHistorical);
    assert_eq!(
        core.buffer_live(batch(vec![routed(log(101, 2))], None, Some(b"l1")), Some(1)),
        Err(SubscriberError::Provider("hybrid live source reused one delivery token for different data"))
    );
    assert_eq!(core.phase, HybridPhase::Poisoned);

    let mut core = subscribed();
    let mut pending = batch(Vec::new(), None, Some(b"l2"));
    pending.chain_controls = vec![ChainControl::Barrier { id: vec![1], block: None }];
    let error = core.buffer_live(pending, Some(1)).expect_err("no canonical coverage");
    assert!(matches!(error, SubscriberError::Unsupported(_)), "{error:?}");
}

#[test]
fn a_source_on_another_chain_is_refused() {
    let mut core = subscribed();
    assert_eq!(
        core.buffer_live(batch(vec![routed(log(101, 1))], None, None), Some(2)),
        Err(SubscriberError::SourceChainChanged { source: HybridSource::Live, found: 2, expected: 1 })
    );
    assert_eq!(
        core.poisoned,
        Some("hybrid Live source changed to chain 2; expected 1".to_string())
    );
    let mut core = subscribed();
    assert_eq!(
        core.admit_historical(batch(vec![routed(log(101, 1))], None, None), None),
        Err(SubscriberError::SourceChainUnresolved { source: HybridSource::Historical, expected: 1 })
    );
    let mut core = subscribed();
    let mut foreign = batch(vec![routed(log(101, 1))], None, None);
    foreign.chain_id = Some(7);
    assert_eq!(
        core.admit_live(foreign, Some(1)),
        Err(SubscriberError::BatchChain { named: Some(7), expected: 1 })
    );
}

#[test]
fn a_historical_batch_needs_a_token() {
    let mut core = subscribed();
    assert_eq!(
        deliver_historical(&mut core, batch(vec![routed(log(100, 1))], None, None), &[100]),
        Err(SubscriberError::Provider(
            "hybrid durable historical delivery is missing its acknowledgement token"
        ))
    );
    assert_eq!(core.poisoned, None);
    assert_eq!(core.phase, HybridPhase::CatchingUp);
}

#[test]
fn a_committed_token_comes_again_only_after_a_restore() {
    let mut core = subscribed();
    let page = || batch(vec![routed(log(100, 1))], None, Some(b"h1"));
    let output = deliver_historical(&mut core, page(), &[100]).expect("page").expect("output");
    acknowledge(&mut core, &output);
    let mut other = subscribed();
    other.durable = core.durable.duplicate();
    assert_eq!(
        deliver_historical(&mut core, page(), &[]),
        Err(SubscriberError::Provider("hybrid source reused one delivery token after it was committed"))
    );
    assert_eq!(core.phase, HybridPhase::Poisoned);

    // After a restore the same batch is acknowledged and carries nothing.
    other.replay_historical = true;
    assert_eq!(
        other.next_step(epoch(9)).expect("step"),
        NextStep::Acknowledge { source: HybridSource::Historical, token: b"h1".to_vec() }
    );
    let output = deliver_historical(&mut other, page(), &[]).expect("replay").expect("output");
    assert!(output.deliveries.is_empty());
    assert!(output.chain_controls.is_empty());
    assert!(!other.replay_historical);
    acknowledge(&mut other, &output);

    let mut other = subscribed();
    other.durable = core.durable.duplicate();
    other.replay_historical = true;
    assert_eq!(
        deliver_historical(&mut other, batch(vec![routed(log(100, 2))], None, Some(b"h1")), &[]),
        Err(SubscriberError::Provider("hybrid source reused a committed delivery token for different data"))
    );
}

#[test]
fn a_lost_live_source_is_recovered_by_the_historical_one() {
    let mut core = live_at_101();
    assert_eq!(
        core.live_source_ended(),
        SubscriberError::Provider("hybrid live source ended; entering historical recovery")
    );
    assert_eq!(core.phase, HybridPhase::Recovering);
    assert_eq!(core.recovery_anchor, Some(block(101)));
    assert_eq!(
        core.live_source_ended(),
        SubscriberError::Provider("hybrid live source ended during catch-up/recovery")
    );
    assert_eq!(core.poisoned, None);

    // The historical source repeats what was delivered; only what is new is
    // delivered again.
    let output = deliver_historical(
        &mut core,
        batch(vec![routed(log(101, 1)), routed(log(102, 2))], None, Some(b"h2")),
        &[102],
    )
    .expect("page")
    .expect("output");
    assert_eq!(output.deliveries, vec![owed(log(102, 2))]);
    assert_eq!(
        core.historical_source_ended(),
        SubscriberError::Provider(
            "hybrid historical source ended without an acknowledged coverage proof for the live fence"
        )
    );
}

#[test]
fn only_history_explains_some_live_batches() {
    let mut core = live_at_101();
    let admitted = core.admit_live(batch(vec![routed(log(105, 1))], None, None), Some(1)).expect("admit");
    let error = core
        .plan_live(admitted, CanonicalOutcome::NeedsHistory("parent unknown".to_string()))
        .expect_err("a gap");
    assert_eq!(error, SubscriberError::NeedsHistory { reason: "parent unknown".to_string() });
    assert_eq!(
        error.message(),
        "hybrid canonical sequence requires durable historical recovery: parent unknown"
    );
    assert_eq!(core.phase, HybridPhase::Recovering);
    assert_eq!(core.poisoned, None);

    let mut core = live_at_101();
    let admitted = core.admit_live(batch(vec![routed(log(105, 1))], None, None), Some(1)).expect("admit");
    let error = core
        .plan_live(admitted, CanonicalOutcome::Refused("contradiction".to_string()))
        .expect_err("wrong");
    assert_eq!(error, SubscriberError::SequenceFailed { reason: "contradiction".to_string() });
    assert_eq!(core.phase, HybridPhase::Poisoned);

    let mut core = subscribed();
    let admitted =
        core.admit_historical(batch(vec![routed(log(105, 1))], None, Some(b"h")), Some(1)).expect("admit");
    core.plan_historical(admitted, CanonicalOutcome::NeedsHistory("gap".to_string()))
        .expect_err("history must explain itself");
    assert_eq!(core.phase, HybridPhase::Poisoned);
}

#[test]
fn owners_come_and_go_one_generation_each() {
    let mut core = started_with(HybridConfig::default());
    let alpha = || OwnerInterests { owner: id("alpha"), interests: vec![interest(1)] };
    let beta = || OwnerInterests { owner: id("beta"), interests: vec![interest(2)] };
    assert!(make_change(&mut core, TopologyChange::Replace(vec![beta(), alpha()])).expect("replace"));
    assert_eq!(core.durable.lifecycle_generation, 2);
    assert_eq!(core.owners, vec![alpha(), beta()]);
    assert_eq!(core.durable.owner_generations.get(&id("alpha")), Some(&2));
    assert_eq!(
        core.durable.lifecycle_intent.owners.get(&id("beta")),
        Some(&interest_fingerprint(&vec![interest(2)]).expect("fingerprint"))
    );
    assert_eq!(core.phase, HybridPhase::CatchingUp);

    // The next change waits until the last one was caught up with.
    assert_eq!(
        make_change(&mut core, TopologyChange::Remove(id("beta"))),
        Err(SubscriberError::Provider(
            "hybrid registration cannot change until the previous lifecycle revision has fully caught up and drained to Live"
        ))
    );
    core.phase = HybridPhase::Live;
    // The same topology asks for nothing.
    assert!(!make_change(&mut core, TopologyChange::Replace(vec![alpha(), beta()])).expect("same"));
    assert!(!make_change(&mut core, TopologyChange::Remove(id("gamma"))).expect("unknown"));
    assert!(!make_change(&mut core, TopologyChange::Upsert(Vec::new())).expect("nothing"));
    assert_eq!(
        make_change(&mut core, TopologyChange::Upsert(vec![alpha(), alpha()])),
        Err(SubscriberError::Provider("hybrid bulk owner lifecycle contains a duplicate owner id"))
    );
    assert_eq!(
        make_change(&mut core, TopologyChange::Replace(vec![alpha(), alpha()])),
        Err(SubscriberError::InvalidConfig("hybrid exact owner replacement contains a duplicate owner id"))
    );
    assert!(matches!(
        make_change(&mut core, TopologyChange::Base(vec![interest(1)])),
        Err(SubscriberError::InvalidConfig(_))
    ));

    let gamma = OwnerInterests { owner: id("gamma"), interests: vec![interest(3)] };
    assert!(make_change(&mut core, TopologyChange::Upsert(vec![gamma])).expect("upsert"));
    assert_eq!(core.durable.lifecycle_generation, 3);
    assert_eq!(core.durable.owner_generations.get(&id("alpha")), Some(&2));
    assert_eq!(core.durable.owner_generations.get(&id("gamma")), Some(&3));
    assert_eq!(core.phase, HybridPhase::CatchingUp);

    core.phase = HybridPhase::Live;
    assert!(make_change(&mut core, TopologyChange::Remove(id("beta"))).expect("remove"));
    assert_eq!(core.durable.owner_generations.get(&id("beta")), None);
    assert_eq!(core.phase, HybridPhase::Live);
    assert_eq!(core.owners.len(), 2);
}

#[test]
fn an_owner_starts_at_a_retained_block() {
    let mut core = started_with(HybridConfig::default());
    let entry = |fill: u8| OwnerInterests { owner: id("alpha"), interests: vec![interest(fill)] };
    make_change(&mut core, TopologyChange::Add(entry(1))).expect("add");
    core.phase = HybridPhase::Live;
    let error = make_change(&mut core, TopologyChange::AddFrom(entry(2), block(100)))
        .expect_err("nothing is retained");
    assert_eq!(
        error,
        SubscriberError::ActivationBaseline {
            number: 100,
            cause: Box::new(SubscriberError::OverlapOutside { number: 100 }),
        }
    );
    core.durable.canonical_history = vec![block(100)];
    core.durable.coverage_head = Some(block(100));
    assert!(make_change(&mut core, TopologyChange::AddFrom(entry(2), block(100))).expect("retained"));
    core.phase = HybridPhase::Live;
    assert!(matches!(
        make_change(&mut core, TopologyChange::Replace(vec![entry(3)])),
        Err(SubscriberError::Unsupported(_))
    ));
    assert!(make_change(&mut core, TopologyChange::ReplaceWithBackfill(vec![entry(3)])).expect("global"));
}

#[test]
fn an_empty_topology_ends_with_a_barrier() {
    let mut core = live_at_101();
    assert!(make_change(&mut core, TopologyChange::Base(Vec::new())).expect("clear"));
    assert!(core.base_interests.is_empty());
    assert_eq!(core.durable.lifecycle_intent.base, empty_interest_fingerprint());
    let output = match core.next_step(epoch(9)).expect("step") {
        NextStep::Deliver(output) => output,
        other => panic!("expected the barrier, got {other:?}"),
    };
    assert!(output.deliveries.is_empty());
    assert_eq!(output.chain_controls.len(), 1);
    assert!(matches!(
        &output.chain_controls[0],
        ChainControl::Barrier { block: Some(head), .. } if *head == block(101)
    ));
    assert_eq!(acknowledge(&mut core, &output), AckStep::Commit);
    assert_eq!(core.next_step(epoch(9)).expect("step"), NextStep::Idle);
    assert_eq!(core.durable.coverage_head, Some(block(101)));
    assert_eq!(core.durable.next_synthetic_token, 2);
}

/// What the historical and the live source are told to take a change back.
fn undo_steps(core: &Coordinator) -> (Vec<SourceAction>, Vec<SourceAction>) {
    let RollbackStep::RestoreHistorical(historical) = core.rollback_step(RollbackEvent::Due) else {
        panic!("the historical source is told first");
    };
    let RollbackStep::RestoreLive(live) = core.rollback_step(RollbackEvent::HistoricalTried) else {
        panic!("the live source is told next");
    };
    assert_eq!(core.rollback_step(RollbackEvent::LiveTried), RollbackStep::Finish);
    (historical, live)
}

fn planned(core: &mut Coordinator, change: TopologyChange) -> ChangePlan {
    core.plan_change(change, Some(1), &fine_change(), epoch(2)).expect("plan").expect("a change")
}

#[test]
fn the_live_source_is_told_first_and_each_source_once() {
    let mut core = started_with(HybridConfig::default());
    let entry = |name: &str| OwnerInterests { owner: id(name), interests: vec![interest(1)] };
    let list = || vec![entry("beta"), entry("alpha")];
    let plan = planned(&mut core, TopologyChange::Upsert(list()));
    assert_eq!(
        plan.change_step(&core, ChangeEvent::Planned),
        ChangeStep::MakeLive(SourceAction::Upsert(list()))
    );
    assert_eq!(
        plan.change_step(&core, ChangeEvent::LiveMade { chain: Some(1) }),
        ChangeStep::MakeHistorical(SourceAction::Upsert(list()))
    );
    assert_eq!(plan.change_step(&core, ChangeEvent::HistoricalMade), ChangeStep::Commit);
    assert_eq!(
        plan.change_step(&core, ChangeEvent::LiveFailed(SubscriberError::Provider("down"))),
        ChangeStep::Report(SubscriberError::Provider("down"))
    );
    assert_eq!(
        plan.change_step(&core, ChangeEvent::LiveMade { chain: Some(2) }),
        ChangeStep::TakeBack {
            step: "live chain validation failed",
            cause: SubscriberError::SourceChainChanged {
                source: HybridSource::Live,
                found: 2,
                expected: 1,
            },
        }
    );
    assert_eq!(
        plan.change_step(&core, ChangeEvent::HistoricalFailed(SubscriberError::Provider("no"))),
        ChangeStep::TakeBack {
            step: "historical bulk owner registration failed",
            cause: SubscriberError::Provider("no"),
        }
    );
    assert_eq!(core.commit_change(plan, epoch(3)), None);
    assert_eq!(core.durable.lifecycle_generation, 2);
    assert_eq!(core.durable.owner_generations.get(&id("alpha")), Some(&2));
    assert_eq!(core.durable.owner_generations.get(&id("beta")), Some(&2));
}

#[test]
fn only_the_historical_source_delivers_history() {
    let entry = || OwnerInterests { owner: id("alpha"), interests: vec![interest(1)] };
    let idle = || OwnerInterests { owner: id("alpha"), interests: Vec::new() };
    let steps = |change: TopologyChange, chain: Option<u64>| {
        let mut core = started_with(HybridConfig::default());
        core.durable.canonical_history = vec![block(100)];
        core.durable.coverage_head = Some(block(100));
        let plan = planned(&mut core, change);
        (
            plan.change_step(&core, ChangeEvent::Planned),
            plan.change_step(&core, ChangeEvent::LiveMade { chain }),
        )
    };
    assert_eq!(
        steps(TopologyChange::ReplaceWithBackfill(vec![entry()]), Some(1)),
        (
            ChangeStep::MakeLive(SourceAction::Replace(vec![entry()])),
            ChangeStep::MakeHistorical(SourceAction::ReplaceWithBackfill(vec![entry()]))
        )
    );
    assert_eq!(
        steps(TopologyChange::AddWithBackfill(entry()), Some(1)),
        (
            ChangeStep::MakeLive(SourceAction::Add(entry())),
            ChangeStep::MakeHistorical(SourceAction::AddWithBackfill(entry()))
        )
    );
    assert_eq!(
        steps(TopologyChange::AddFrom(entry(), block(100)), Some(1)),
        (
            ChangeStep::MakeLive(SourceAction::Add(entry())),
            ChangeStep::MakeHistorical(SourceAction::AddFrom(entry(), block(100)))
        )
    );
    // Where nothing is subscribed there is no history to deliver, and the chain
    // of the live source does not matter.
    assert_eq!(
        steps(TopologyChange::AddWithBackfill(idle()), None),
        (
            ChangeStep::MakeLive(SourceAction::Add(idle())),
            ChangeStep::MakeHistorical(SourceAction::Add(idle()))
        )
    );
}

#[test]
fn an_upsert_touches_the_listed_alone() {
    let mut core = started_with(HybridConfig::default());
    let entry = |name: &str, fill: u8| OwnerInterests { owner: id(name), interests: vec![interest(fill)] };
    make_change(&mut core, TopologyChange::Replace(vec![entry("alpha", 1), entry("beta", 2)]))
        .expect("replace");
    core.phase = HybridPhase::Live;
    make_change(&mut core, TopologyChange::Upsert(vec![entry("gamma", 4), entry("beta", 3)]))
        .expect("upsert");
    assert_eq!(core.owners, vec![entry("alpha", 1), entry("beta", 3), entry("gamma", 4)]);
    assert_eq!(core.durable.lifecycle_generation, 3);
    assert_eq!(core.durable.owner_generations.get(&id("alpha")), Some(&2));
    assert_eq!(core.durable.owner_generations.get(&id("beta")), Some(&3));
    assert_eq!(core.durable.owner_generations.get(&id("gamma")), Some(&3));
}

#[test]
fn a_bulk_change_is_taken_back_owner_by_owner() {
    let mut core = started_with(HybridConfig::default());
    let entry = |name: &str, fill: u8| OwnerInterests { owner: id(name), interests: vec![interest(fill)] };
    make_change(&mut core, TopologyChange::Replace(vec![entry("alpha", 1)])).expect("replace");
    core.phase = HybridPhase::Live;
    planned(
        &mut core,
        TopologyChange::Upsert(vec![entry("gamma", 3), entry("alpha", 2), entry("beta", 4)]),
    );
    let actions = || {
        vec![
            SourceAction::Upsert(vec![entry("alpha", 1)]),
            SourceAction::Remove(id("gamma")),
            SourceAction::Remove(id("beta")),
        ]
    };
    assert_eq!(undo_steps(&core), (actions(), actions()));
    core.finish_rollback(Ok(()), Ok(()), true).expect("taken back");
    // Removing an owner gives what it was interested in.
    let plan = planned(&mut core, TopologyChange::Remove(id("alpha")));
    assert_eq!(core.commit_change(plan, epoch(3)), Some(vec![interest(1)]));
}

#[test]
fn a_failed_change_is_taken_back() {
    let mut core = started_with(HybridConfig::default());
    let entry = |fill: u8| OwnerInterests { owner: id("alpha"), interests: vec![interest(fill)] };
    let plan = planned(&mut core, TopologyChange::Add(entry(1)));
    assert!(plan.next.active);
    assert_eq!(core.owners.len(), 0);
    // Until it is taken back nothing is delivered or acknowledged.
    assert!(core.next_step(epoch(9)).is_err());
    assert!(core.begin_acknowledgement(b"any").is_err());
    assert_eq!(core.pending_rollback(true), Ok(true));
    let actions = || vec![SourceAction::Remove(id("alpha"))];
    assert_eq!(undo_steps(&core), (actions(), actions()));
    assert_eq!(
        core.pending_rollback(false),
        Err(SubscriberError::Provider(
            "hybrid owner lifecycle is pending; retry an owner lifecycle operation"
        ))
    );
    let error = core
        .finish_rollback(Ok(()), Err(SubscriberError::Provider("child is down")), true)
        .expect_err("one source is down");
    assert_eq!(
        error.message(),
        "hybrid lifecycle rollback remains pending (historical: restored; live: child is down)"
    );
    assert!(core.rollback.is_some());
    let failed = ChangeEvent::HistoricalFailed(SubscriberError::Provider("no"));
    let ChangeStep::TakeBack { step, cause } = plan.change_step(&core, failed) else {
        panic!("a failed change is taken back");
    };
    assert_eq!(
        change_failure(step, cause, Err(error)).message(),
        "historical owner registration failed (no); hybrid lifecycle rollback remains pending (historical: restored; live: child is down)"
    );
    core.finish_rollback(Ok(()), Ok(()), true).expect("taken back");
    assert!(core.rollback.is_none());
    assert_eq!(core.next_step(epoch(9)).expect("step"), NextStep::Idle);
    assert_eq!(
        change_failure("any step", SubscriberError::Provider("wrong chain"), Ok(())),
        SubscriberError::Provider("wrong chain")
    );
    assert_eq!(result_description(&Ok(())), "restored");
    assert_eq!(result_description(&Err(SubscriberError::Provider("why"))), "why");
}

#[test]
fn a_change_that_may_have_missed_events_stops_the_coordinator() {
    let mut core = live_at_101();
    core.plan_change(TopologyChange::Base(Vec::new()), Some(1), &fine_change(), epoch(2))
        .expect("plan")
        .expect("a change");
    assert_eq!(core.pending_rollback(false), Ok(true));
    let actions = || vec![SourceAction::Register(vec![interest(0xaa)])];
    assert_eq!(undo_steps(&core), (actions(), actions()));
    let error = core.finish_rollback(Ok(()), Ok(()), false).expect_err("a gap is possible");
    let gap = SubscriberError::LifecycleGap { scope: "base subscription", number: 101 };
    assert_eq!(error, SubscriberError::Poisoned { reason: gap.message() });
    assert!(gap.message().starts_with(
        "base subscription changed on the live source after acknowledged coverage at block 101"
    ));
    assert_eq!(core.phase, HybridPhase::Poisoned);
}

#[test]
fn a_destructive_change_is_taken_back_through_a_recovery() {
    let mut core = started_with(HybridConfig::default());
    let entry = |fill: u8| OwnerInterests { owner: id("alpha"), interests: vec![interest(fill)] };
    make_change(&mut core, TopologyChange::Add(entry(1))).expect("add");
    core.phase = HybridPhase::Live;
    core.durable.canonical_history = vec![block(100)];
    core.durable.coverage_head = Some(block(100));
    core.plan_change(
        TopologyChange::ReplaceWithBackfill(vec![entry(2)]),
        Some(1),
        &fine_change(),
        epoch(2),
    )
    .expect("plan")
    .expect("a change");
    assert_eq!(core.pending_rollback(true), Ok(true));
    assert_eq!(
        undo_steps(&core),
        (
            vec![SourceAction::ReplaceAfter(vec![entry(1)], block(100))],
            vec![SourceAction::Replace(vec![entry(1)])]
        )
    );
    core.finish_rollback(Ok(()), Ok(()), true).expect_err("history must fill the gap first");
    assert!(core.pending_rollback(true).is_err());
    assert_eq!(core.next_step(epoch(7)).expect("step"), NextStep::PollBoth);
    assert_eq!(core.phase, HybridPhase::Recovering);
    assert_eq!(core.recovery_anchor, Some(block(100)));
    assert_eq!(core.durable.epoch, epoch(7));
    assert_eq!(core.durable.next_synthetic_token, 1);
}

#[test]
fn a_restore_resumes_after_the_last_delivery() {
    let mut core = live_at_101();
    core.live_source_failed();
    let output = deliver_historical(&mut core, batch(vec![routed(log(102, 2))], None, Some(b"h2")), &[102])
        .expect("page")
        .expect("output");
    acknowledge(&mut core, &output);
    let position = SubscriberResumePosition {
        chain_id: 1,
        coverage_head: core.durable.coverage_head.expect("coverage"),
        canonical_history: core.durable.canonical_history.clone(),
        delivery_token: output.delivery_token.clone(),
        subscriber_checkpoint: output.subscriber_checkpoint.clone(),
    };
    let base = vec![interest(0xaa)];

    let mut fresh = started_with(HybridConfig::default());
    assert!(fresh.begin_restore(&position, true, &fine_restore(), epoch(5)).is_err());
    let step = fresh.begin_preparation(&position, &base, &Vec::new(), true, &fine_restore()).expect("prepare");
    assert_eq!(step, PrepareStep::Finish);
    assert_eq!(
        fresh.finish_preparation(&base, Some(9)),
        Err(SubscriberError::SourceChainChanged { source: HybridSource::Live, found: 9, expected: 1 })
    );
    fresh.finish_preparation(&base, Some(1)).expect("prepared");
    let again = fresh.begin_preparation(&position, &base, &Vec::new(), true, &fine_restore());
    assert_eq!(again, Ok(PrepareStep::Done));
    assert!(fresh.next_step(epoch(9)).is_err());

    fresh.begin_restore(&position, true, &fine_restore(), epoch(5)).expect("restore");
    match fresh.restore_step() {
        RestoreStep::Historical(resume) => {
            assert_eq!(resume.delivery_token, Some(b"h2".to_vec()));
            assert_eq!(resume.coverage_head, block(102));
        }
        other => panic!("expected the historical source, got {other:?}"),
    }
    fresh.source_restored(HybridSource::Historical);
    match fresh.restore_step() {
        RestoreStep::Live(resume) => assert_eq!(resume.coverage_head, block(101)),
        other => panic!("expected the live source, got {other:?}"),
    }
    fresh.source_restored(HybridSource::Live);
    assert_eq!(fresh.restore_step(), RestoreStep::Finish);
    fresh.finish_restore(Some(1), Some(1), true).expect("finish");
    assert_eq!(fresh.durable, core.durable);
    assert_eq!(fresh.phase, HybridPhase::Recovering);
    assert_eq!(fresh.recovery_anchor, Some(block(102)));
    assert_eq!(fresh.acknowledged_historical_through, Some(102));
    assert!(fresh.replay_historical);

    // A live source that cannot replay loses its cursor, and the tokens their
    // epoch.
    let mut fresh = started_with(HybridConfig::default());
    let step = fresh.begin_preparation(&position, &base, &Vec::new(), false, &fine_restore()).expect("prepare");
    assert_eq!(step, PrepareStep::InstallBase(vec![interest(0xaa)]));
    fresh.topology_installed();
    fresh.finish_preparation(&base, Some(1)).expect("prepared");
    fresh.begin_restore(&position, false, &fine_restore(), epoch(5)).expect("restore");
    fresh.source_restored(HybridSource::Historical);
    assert_eq!(fresh.restore_step(), RestoreStep::Finish);
    fresh.finish_restore(Some(1), Some(1), false).expect("finish");
    assert_eq!(fresh.durable.epoch, epoch(5));
    assert_eq!(fresh.durable.last_committed_token, None);
    assert_eq!(fresh.durable.canonical_history, core.durable.canonical_history);
}

#[test]
fn a_restore_must_fit_its_checkpoint() {
    let mut core = live_at_101();
    let output = deliver_live(&mut core, batch(vec![routed(log(102, 2))], None, None), &[102])
        .expect("live")
        .expect("output");
    acknowledge(&mut core, &output);
    let position = || SubscriberResumePosition {
        chain_id: 1,
        coverage_head: block(102),
        canonical_history: vec![block(100), block(101), block(102)],
        delivery_token: output.delivery_token.clone(),
        subscriber_checkpoint: output.subscriber_checkpoint.clone(),
    };
    let base = vec![interest(0xaa)];
    let refused = |position: SubscriberResumePosition| {
        let mut fresh = started_with(HybridConfig::default());
        fresh
            .begin_preparation(&position, &base, &Vec::new(), false, &fine_restore())
            .expect_err("refused")
    };

    let mut other_chain = position();
    other_chain.chain_id = 2;
    assert_eq!(refused(other_chain), SubscriberError::RestoreWrongChain { expected: 1 });

    let mut no_checkpoint = position();
    no_checkpoint.subscriber_checkpoint = None;
    assert_eq!(
        refused(no_checkpoint),
        SubscriberError::Provider("hybrid live restore preparation requires its coordinator checkpoint")
    );

    let mut no_token = position();
    no_token.delivery_token = None;
    assert_eq!(
        refused(no_token),
        SubscriberError::Provider("hybrid restore checkpoint is missing its matching delivery token")
    );

    let mut other_token = position();
    other_token.delivery_token = Some(wrap_token(
        core.durable.epoch,
        HybridSource::Live,
        HybridTokenKind::Synthetic,
        &77_u64.to_be_bytes(),
    ));
    assert_eq!(
        refused(other_token),
        SubscriberError::Provider("hybrid checkpoint does not match its last committed outer delivery token")
    );

    let mut other_epoch = position();
    other_epoch.delivery_token = Some(wrap_token(
        epoch(0x66),
        HybridSource::Live,
        HybridTokenKind::Synthetic,
        &1_u64.to_be_bytes(),
    ));
    assert_eq!(
        refused(other_epoch),
        SubscriberError::Provider("hybrid checkpoint and delivery-token epochs differ")
    );

    let mut other_head = position();
    other_head.coverage_head = block(101);
    assert_eq!(
        refused(other_head),
        SubscriberError::RestoreCoverage { checkpoint: 102, runtime: 101 }
    );

    let mut other_history = position();
    other_history.canonical_history[1].timestamp = Some(1);
    assert_eq!(refused(other_history), SubscriberError::RuntimeHistoryConflict { number: 101 });

    let mut fresh = started_with(HybridConfig::default());
    let error = fresh
        .begin_preparation(&position(), &vec![interest(0xab)], &Vec::new(), false, &fine_restore())
        .expect_err("other interests");
    assert_eq!(
        error,
        SubscriberError::Provider(
            "restored runtime interests do not match the hybrid checkpoint lifecycle intent"
        )
    );

    let mut fresh = started_with(HybridConfig::default());
    let mut elsewhere = position();
    elsewhere.chain_id = 3;
    assert_eq!(
        fresh.begin_restore(&elsewhere, false, &fine_restore(), epoch(5)),
        Err(SubscriberError::RestoreChain { found: 3, expected: 1 })
    );
}

#[test]
fn a_verdict_against_the_sequence_is_passed_on() {
    let mut core = live_at_101();
    let admitted = core.admit_live(batch(vec![routed(log(102, 2))], None, None), Some(1)).expect("admit");
    let outcome = follows(&core, &admitted, &[102]);
    let planned = core.plan_live(admitted, outcome).expect("plan");
    let merges = separate(&planned);
    assert_eq!(
        core.emit_live(&planned, &merges, &Err("heads disagree".to_string())),
        Err(SubscriberError::SequenceRefused { reason: "heads disagree".to_string() })
    );
    assert_eq!(core.phase, HybridPhase::Poisoned);

    let core = live_at_101();
    let (before, after) = probe_sequences(&core.config, &core.durable).expect("sequences");
    assert_eq!(before.history.len(), core.config.canonical_history_capacity);
    assert_eq!(before.coverage_head.expect("head").number, u64::MAX - 1);
    assert_eq!(after.coverage_head.expect("head").number, u64::MAX);
}

#[test]
fn a_coordinator_needs_two_suitable_sources() {
    let refused = |historical: SourceProfile, live: SourceProfile, config: HybridConfig| {
        HybridSubscriber::new((), (), config, &historical, &live, epoch(1)).expect_err("refused")
    };
    let mut unknown = historical_profile();
    unknown.chain_id = None;
    assert_eq!(
        refused(unknown, live_profile(), HybridConfig::default()),
        SubscriberError::InvalidConfig("hybrid historical source must expose one authoritative chain id")
    );
    let mut other = live_profile();
    other.chain_id = Some(2);
    assert_eq!(
        refused(historical_profile(), other, HybridConfig::default()),
        SubscriberError::InvalidConfig("hybrid historical and live sources must target the same chain")
    );
    let mut forgetful = historical_profile();
    forgetful.capabilities.durable_replay = false;
    assert_eq!(
        refused(forgetful, live_profile(), HybridConfig::default()),
        SubscriberError::InvalidConfig(
            "hybrid historical source must provide durable backfill and explicit coverage barriers"
        )
    );
    let mut slow = live_profile();
    slow.capabilities.live = false;
    assert_eq!(
        refused(historical_profile(), slow, HybridConfig::default()),
        SubscriberError::InvalidConfig("hybrid live source must advertise live canonical delivery")
    );
    let mut config = HybridConfig::default();
    config.max_buffered_live_batches = 0;
    assert_eq!(
        refused(historical_profile(), live_profile(), config),
        SubscriberError::InvalidConfig("hybrid live buffer capacity must be non-zero")
    );

    let hybrid = HybridSubscriber::new(
        "history",
        "live",
        HybridConfig::default(),
        &historical_profile(),
        &live_profile(),
        epoch(1),
    )
    .expect("two suitable sources");
    assert_eq!(hybrid.phase(), HybridPhase::Live);
    assert_eq!(hybrid.fence(), None);
    assert_eq!(hybrid.buffered_live_batches(), 0);
    assert_eq!(hybrid.buffered_live_records(), 0);
    assert_eq!(hybrid.buffered_live_bytes(), 0);
    assert_eq!(hybrid.poison_reason(), None);
    assert_eq!(hybrid.owner_interests(&id("alpha")), None);
    assert_eq!(*hybrid.historical(), "history");
    assert_eq!(*hybrid.live(), "live");
    assert_eq!(hybrid.into_sources(), ("history", "live"));
}

#[test]
fn capabilities_come_from_the_source_that_has_them() {
    let combined =
        combine_capabilities(&historical_profile().capabilities, &live_profile().capabilities);
    assert!(combined.historical_backfill && combined.live && combined.durable_replay);
    assert!(combined.barriers && combined.logs);
    assert!(!combined.owner_scoped_delivery && !combined.block_headers);
}

#[test]
fn an_epoch_is_half_of_the_digest_of_its_seed() {
    let now = 0x0102_0304_0506_0708_090a_0b0c_0d0e_0f10_u128;
    let mut seed = now.to_be_bytes().to_vec();
    seed.extend_from_slice(&7_u32.to_be_bytes());
    seed.extend_from_slice(&9_u64.to_be_bytes());
    let digest = alloy_primitives::keccak256(&seed);
    assert_eq!(fresh_epoch(now, 7, 9), Epoch::from_slice(&digest.as_slice()[..16]));
    assert_ne!(fresh_epoch(now, 7, 9), fresh_epoch(now, 7, 10));
    assert_eq!(epoch_of_digest(hash(0x5a)), epoch(0x5a));
}
