//! The coordinator with its two sources.
use crate::checkpoint::{
    no_position, CheckpointView, HybridCheckpointV5, IntentView, LifecycleIntent, RecentView,
    SourcePosition,
};
use crate::codec::{half_bytes, push_half};
use crate::config::{config_error, validate_config, HybridConfig};
use crate::error::SubscriberError;
use crate::ingress::BufferedView;
use crate::intent::{
    empty_fingerprint, interests_view, law_empty_list_has_empty_fingerprint, lifecycle_intent,
    owners_view, InterestView, OwnerInterests, OwnerInterestsView, PortableInterest,
};
use crate::model::{BlockRef, HandlerId};
use crate::owners::{lookup, OwnerMap};
use crate::restore::{preparation_begun, PrepareStep, PrepareView, RestoreVerdicts};
use crate::state::{buffer_view, CoordView, Coordinator, HybridPhase, SubscriberResumePosition};
use crate::topology::interests_of;
use crate::transcript::{keccak256, keccak_digest};
use crate::words::{push_word, word_bytes, B256, Epoch};
use vstd::prelude::*;

verus! {

// ---------------------------------------------------------------------------
// Epochs
// ---------------------------------------------------------------------------

/// What an epoch is derived from: the time in nanoseconds, the process and a
/// number that the process uses once.
pub open spec fn epoch_seed(now: u128, process: u32, nonce: u64) -> Seq<u8> {
    word_bytes((now >> 64) as u64) + word_bytes(now as u64) + half_bytes(process) + word_bytes(nonce)
}

/// The first half of a digest, as an epoch.
pub fn epoch_of_digest(digest: B256) -> (r: Epoch)
    ensures
        r == (Epoch { hi: digest.w0, lo: digest.w1 }),
        r.bytes() == digest.bytes().take(16),
{
    let r = Epoch { hi: digest.w0, lo: digest.w1 };
    assert(r.bytes() =~= digest.bytes().take(16));
    r
}

/// A new epoch.
pub fn fresh_epoch(now: u128, process: u32, nonce: u64) -> (r: Epoch)
    ensures
        r.bytes() == keccak_digest(epoch_seed(now, process, nonce)).bytes().take(16),
{
    let mut seed: Vec<u8> = Vec::new();
    push_word(&mut seed, (now >> 64) as u64);
    push_word(&mut seed, now as u64);
    push_half(&mut seed, process);
    push_word(&mut seed, nonce);
    assert(seed@ =~= epoch_seed(now, process, nonce));
    epoch_of_digest(keccak256(seed.as_slice()))
}

// ---------------------------------------------------------------------------
// Capabilities
// ---------------------------------------------------------------------------

/// What a source can do.
#[derive(Clone, Copy, Debug, PartialEq, Eq, Structural)]
pub struct SubscriberCapabilities {
    pub historical_backfill: bool,
    pub live: bool,
    pub durable_replay: bool,
    pub barriers: bool,
    pub logs: bool,
    pub pending_transaction_hashes: bool,
    pub owner_scoped_delivery: bool,
    pub dynamic_interests: bool,
    pub explicit_reorgs: bool,
    pub finality_updates: bool,
    pub block_headers: bool,
    pub full_blocks: bool,
    pub pending_transactions: bool,
}

/// What two sources can do together. History, replay and barriers come from the
/// historical source, low latency from the live one; everything else takes
/// both. Bodies that cannot be verified are not promised.
pub open spec fn combined(
    historical: SubscriberCapabilities,
    live: SubscriberCapabilities,
) -> SubscriberCapabilities {
    SubscriberCapabilities {
        historical_backfill: historical.historical_backfill,
        live: live.live,
        durable_replay: historical.durable_replay,
        barriers: historical.barriers,
        logs: historical.logs && live.logs,
        pending_transaction_hashes: historical.pending_transaction_hashes
            && live.pending_transaction_hashes,
        owner_scoped_delivery: historical.owner_scoped_delivery && live.owner_scoped_delivery,
        dynamic_interests: historical.dynamic_interests && live.dynamic_interests,
        explicit_reorgs: historical.explicit_reorgs && live.explicit_reorgs,
        finality_updates: historical.finality_updates && live.finality_updates,
        block_headers: false,
        full_blocks: false,
        pending_transactions: false,
    }
}

/// What two sources can do together.
pub fn combine_capabilities(historical: &SubscriberCapabilities, live: &SubscriberCapabilities) -> (r:
    SubscriberCapabilities)
    ensures
        r == combined(*historical, *live),
{
    SubscriberCapabilities {
        historical_backfill: historical.historical_backfill,
        live: live.live,
        durable_replay: historical.durable_replay,
        barriers: historical.barriers,
        logs: historical.logs && live.logs,
        pending_transaction_hashes: historical.pending_transaction_hashes
            && live.pending_transaction_hashes,
        owner_scoped_delivery: historical.owner_scoped_delivery && live.owner_scoped_delivery,
        dynamic_interests: historical.dynamic_interests && live.dynamic_interests,
        explicit_reorgs: historical.explicit_reorgs && live.explicit_reorgs,
        finality_updates: historical.finality_updates && live.finality_updates,
        block_headers: false,
        full_blocks: false,
        pending_transactions: false,
    }
}

/// What is known of a source before it is used.
#[derive(Clone, Copy, Debug, PartialEq, Eq, Structural)]
pub struct SourceProfile {
    pub chain_id: Option<u64>,
    pub capabilities: SubscriberCapabilities,
}

// ---------------------------------------------------------------------------
// A new coordinator
// ---------------------------------------------------------------------------

/// The error that a configuration and two sources earn.
pub open spec fn start_error(
    config: HybridConfig,
    historical: SourceProfile,
    live: SourceProfile,
) -> Option<SubscriberError> {
    if config_error(config) is Some {
        config_error(config)
    } else if historical.chain_id is None {
        Some(
            SubscriberError::InvalidConfig(
                "hybrid historical source must expose one authoritative chain id",
            ),
        )
    } else if live.chain_id is Some && live.chain_id != historical.chain_id {
        Some(
            SubscriberError::InvalidConfig(
                "hybrid historical and live sources must target the same chain",
            ),
        )
    } else if !historical.capabilities.historical_backfill
        || !historical.capabilities.durable_replay || !historical.capabilities.barriers {
        Some(
            SubscriberError::InvalidConfig(
                "hybrid historical source must provide durable backfill and explicit coverage barriers",
            ),
        )
    } else if !live.capabilities.live {
        Some(
            SubscriberError::InvalidConfig(
                "hybrid live source must advertise live canonical delivery",
            ),
        )
    } else {
        None
    }
}

/// The durable state of a new coordinator.
pub open spec fn first_state(chain_id: u64, epoch: Epoch) -> CheckpointView {
    CheckpointView {
        chain_id,
        epoch,
        next_synthetic_token: 1,
        lifecycle_generation: 1,
        owner_generations: Seq::empty(),
        lifecycle_intent: IntentView { base: empty_fingerprint(), owners: Seq::empty() },
        recent_inputs: Seq::empty(),
        canonical_history: Seq::empty(),
        coverage_head: None,
        safe_head: None,
        finalized_head: None,
        certified_historical: None,
        historical_position: no_position(),
        live_position: no_position(),
        last_committed_token: None,
    }
}

/// A new coordinator: nothing is subscribed, covered or under way.
pub open spec fn started(chain_id: u64, config: HybridConfig, epoch: Epoch) -> CoordView {
    CoordView {
        durable: first_state(chain_id, epoch),
        config,
        phase: HybridPhase::Live,
        fence: None,
        drain_through: None,
        pending_cutover: None,
        acknowledged_historical_through: None,
        live_buffer: Seq::empty(),
        buffered_live_records: 0,
        buffered_live_bytes: 0,
        in_flight: None,
        rollback: None,
        replay_historical: false,
        replay_live: false,
        recovery_anchor: None,
        pending_restore: None,
        pending_preparation: None,
        prepared_position: None,
        poisoned: None,
        base_interests: Seq::empty(),
        owners: Seq::empty(),
    }
}

impl Coordinator {
    /// A coordinator in which nothing is subscribed, covered or under way.
    pub fn start(
        config: HybridConfig,
        historical: &SourceProfile,
        live: &SourceProfile,
        epoch: Epoch,
    ) -> (r: Result<Coordinator, SubscriberError>)
        ensures
            match start_error(config, *historical, *live) {
                Some(e) => r == Err::<Coordinator, _>(e),
                None => r is Ok && r->Ok_0@ == started(
                    historical.chain_id->Some_0,
                    config,
                    epoch,
                ),
            },
    {
        validate_config(&config)?;
        let chain_id: u64 = match historical.chain_id {
            Some(chain_id) => chain_id,
            None => {
                return Err(
                    SubscriberError::InvalidConfig(
                        "hybrid historical source must expose one authoritative chain id",
                    ),
                );
            },
        };
        if let Some(other) = live.chain_id {
            if other != chain_id {
                return Err(
                    SubscriberError::InvalidConfig(
                        "hybrid historical and live sources must target the same chain",
                    ),
                );
            }
        }
        if !historical.capabilities.historical_backfill || !historical.capabilities.durable_replay
            || !historical.capabilities.barriers {
            return Err(
                SubscriberError::InvalidConfig(
                    "hybrid historical source must provide durable backfill and explicit coverage barriers",
                ),
            );
        }
        if !live.capabilities.live {
            return Err(
                SubscriberError::InvalidConfig(
                    "hybrid live source must advertise live canonical delivery",
                ),
            );
        }
        let base_interests: Vec<PortableInterest> = Vec::new();
        let owners: Vec<OwnerInterests> = Vec::new();
        assert(interests_view(base_interests@) =~= Seq::<InterestView>::empty());
        assert(owners_view(owners@) =~= Seq::<OwnerInterestsView>::empty());
        proof {
            law_empty_list_has_empty_fingerprint();
        }
        let lifecycle_intent: LifecycleIntent = lifecycle_intent(&base_interests, &owners)?;
        let durable = HybridCheckpointV5 {
            chain_id,
            epoch,
            next_synthetic_token: 1,
            lifecycle_generation: 1,
            owner_generations: OwnerMap::new(),
            lifecycle_intent,
            recent_inputs: Vec::new(),
            canonical_history: Vec::new(),
            coverage_head: None,
            safe_head: None,
            finalized_head: None,
            certified_historical: None,
            historical_position: SourcePosition::new(),
            live_position: SourcePosition::new(),
            last_committed_token: None,
        };
        assert(durable@.recent_inputs =~= Seq::<RecentView>::empty());
        assert(durable@.canonical_history =~= Seq::<BlockRef>::empty());
        let core = Coordinator {
            durable,
            config,
            phase: HybridPhase::Live,
            fence: None,
            drain_through: None,
            pending_cutover: None,
            acknowledged_historical_through: None,
            live_buffer: Vec::new(),
            buffered_live_records: 0,
            buffered_live_bytes: 0,
            in_flight: None,
            rollback: None,
            replay_historical: false,
            replay_live: false,
            recovery_anchor: None,
            pending_restore: None,
            pending_preparation: None,
            prepared_position: None,
            poisoned: None,
            base_interests,
            owners,
        };
        assert(buffer_view(core.live_buffer@) =~= Seq::<BufferedView>::empty());
        Ok(core)
    }
}

// ---------------------------------------------------------------------------
// The subscriber
// ---------------------------------------------------------------------------

/// Two sources and the coordinator that makes one stream of them.
#[derive(Debug, PartialEq, Eq)]
#[verifier::reject_recursive_types(H)]
#[verifier::reject_recursive_types(L)]
pub struct HybridSubscriber<H, L> {
    pub historical: H,
    pub live: L,
    pub core: Coordinator,
}

impl<H, L> HybridSubscriber<H, L> {
    /// A coordinator over two sources, of which this much is known. Nothing is
    /// subscribed yet.
    pub fn new(
        historical: H,
        live: L,
        config: HybridConfig,
        historical_profile: &SourceProfile,
        live_profile: &SourceProfile,
        epoch: Epoch,
    ) -> (r: Result<HybridSubscriber<H, L>, SubscriberError>)
        ensures
            match start_error(config, *historical_profile, *live_profile) {
                Some(e) => r == Err::<HybridSubscriber<H, L>, _>(e),
                None => {
                    &&& r is Ok
                    &&& r->Ok_0.historical == historical
                    &&& r->Ok_0.live == live
                    &&& r->Ok_0.core@ == started(
                        historical_profile.chain_id->Some_0,
                        config,
                        epoch,
                    )
                },
            },
    {
        let core: Coordinator = Coordinator::start(
            config,
            historical_profile,
            live_profile,
            epoch,
        )?;
        Ok(HybridSubscriber { historical, live, core })
    }

    /// What the coordinator is doing.
    pub fn phase(&self) -> (r: HybridPhase)
        ensures
            r == self.core@.phase,
    {
        self.core.phase
    }

    /// The height that the historical source must reach before the live source
    /// takes over.
    pub fn fence(&self) -> (r: Option<u64>)
        ensures
            r == self.core@.fence,
    {
        self.core.fence
    }

    /// How many live batches are buffered.
    pub fn buffered_live_batches(&self) -> (r: usize)
        ensures
            r == self.core@.live_buffer.len(),
    {
        assert(self.core@.live_buffer.len() == self.core.live_buffer@.len());
        self.core.live_buffer.len()
    }

    /// How many records the buffered live batches hold.
    pub fn buffered_live_records(&self) -> (r: usize)
        ensures
            r == self.core@.buffered_live_records,
    {
        self.core.buffered_live_records
    }

    /// How many bytes the buffered live batches were charged.
    pub fn buffered_live_bytes(&self) -> (r: usize)
        ensures
            r == self.core@.buffered_live_bytes,
    {
        self.core.buffered_live_bytes
    }

    /// Why the coordinator stopped for good, if it did.
    pub fn poison_reason(&self) -> (r: Option<&str>)
        ensures
            match r {
                Some(reason) => self.core@.poisoned is Some && reason@
                    == self.core@.poisoned->Some_0@,
                None => self.core@.poisoned is None,
            },
    {
        match &self.core.poisoned {
            Some(reason) => Some(reason.as_str()),
            None => None,
        }
    }

    /// The historical source.
    pub fn historical(&self) -> (r: &H)
        ensures
            *r == self.historical,
    {
        &self.historical
    }

    /// The live source.
    pub fn live(&self) -> (r: &L)
        ensures
            *r == self.live,
    {
        &self.live
    }

    /// Gives the two sources back.
    pub fn into_sources(self) -> (r: (H, L))
        ensures
            r == (self.historical, self.live),
    {
        (self.historical, self.live)
    }

    /// What an owner is interested in.
    pub fn owner_interests(&self, owner: &HandlerId) -> (r: Option<&Vec<PortableInterest>>)
        ensures
            match r {
                Some(interests) => lookup(self.core@.owners, owner@) == Some(
                    interests_view(interests@),
                ),
                None => lookup(self.core@.owners, owner@) is None,
            },
    {
        interests_of(&self.core.owners, owner)
    }

    /// Admits a preparation of the live source for a restore of a position, with
    /// base interests or with owners, and says what it asks for. `verdicts` is
    /// what the canonical-sequence rules say in its course. Neither source is
    /// touched.
    pub fn prepare_restore_lifecycle(
        &mut self,
        position: &SubscriberResumePosition,
        base_interests: &Vec<PortableInterest>,
        owners: &Vec<OwnerInterests>,
        live_is_durable: bool,
        verdicts: &RestoreVerdicts,
    ) -> (r: Result<PrepareStep, SubscriberError>)
        ensures
            final(self).historical == old(self).historical,
            final(self).live == old(self).live,
            match r {
                Ok(step) => preparation_begun(
                    old(self).core@,
                    position@,
                    interests_view(base_interests@),
                    owners_view(owners@),
                    live_is_durable,
                    *verdicts,
                ) == Ok::<_, SubscriberError>((final(self).core@, step@)),
                Err(e) => preparation_begun(
                    old(self).core@,
                    position@,
                    interests_view(base_interests@),
                    owners_view(owners@),
                    live_is_durable,
                    *verdicts,
                ) == Err::<(CoordView, PrepareView), _>(e) && final(self).core@ == old(self).core@,
            },
    {
        self.core.begin_preparation(position, base_interests, owners, live_is_durable, verdicts)
    }

    /// Admits a preparation of the live source for a restore of a position with
    /// base interests alone.
    pub fn prepare_restore_base_lifecycle(
        &mut self,
        position: &SubscriberResumePosition,
        base_interests: &Vec<PortableInterest>,
        live_is_durable: bool,
        verdicts: &RestoreVerdicts,
    ) -> (r: Result<PrepareStep, SubscriberError>)
        ensures
            final(self).historical == old(self).historical,
            final(self).live == old(self).live,
            match r {
                Ok(step) => preparation_begun(
                    old(self).core@,
                    position@,
                    interests_view(base_interests@),
                    Seq::empty(),
                    live_is_durable,
                    *verdicts,
                ) == Ok::<_, SubscriberError>((final(self).core@, step@)),
                Err(e) => preparation_begun(
                    old(self).core@,
                    position@,
                    interests_view(base_interests@),
                    Seq::empty(),
                    live_is_durable,
                    *verdicts,
                ) == Err::<(CoordView, PrepareView), _>(e) && final(self).core@ == old(self).core@,
            },
    {
        let owners: Vec<OwnerInterests> = Vec::new();
        assert(owners_view(owners@) =~= Seq::<OwnerInterestsView>::empty());
        self.core.begin_preparation(position, base_interests, &owners, live_is_durable, verdicts)
    }
}

} // verus!
