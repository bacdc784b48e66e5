//! Limits that a coordinator is configured with.
use crate::checkpoint::{
    recent_view, CheckpointView, HybridCheckpointV5, HybridSource, HybridTokenKind, SourcePosition,
    SourceView, StoredRecentInput,
};
use crate::decode::{MAX_CANONICAL_HISTORY, MAX_CHECKPOINT_PAYLOAD_BYTES, MAX_RECENT_INPUTS};
use crate::error::{SourceFault, SubscriberError};
use crate::limits_laws::owner_total;
use crate::validate::first;
use vstd::prelude::*;

verus! {

/// The largest window of recent inputs that a checkpoint can hold.
pub const HYBRID_MAX_RECENT_INPUTS: usize = MAX_RECENT_INPUTS;

/// The largest window of canonical blocks that a checkpoint can hold.
pub const HYBRID_MAX_CANONICAL_HISTORY: usize = MAX_CANONICAL_HISTORY;

/// The largest number of owner associations that may be configured over all
/// retained recent inputs.
pub const HYBRID_MAX_RECENT_OWNER_ENTRIES: usize = 65_536;

/// The largest delivery-token budget of one source.
///
/// A whole checkpoint has one payload limit of the same size, so topologies
/// that are active can need a much smaller value.
pub const HYBRID_MAX_SOURCE_DELIVERY_TOKEN_BYTES: usize = MAX_CHECKPOINT_PAYLOAD_BYTES;

/// The largest checkpoint budget of one source.
pub const HYBRID_MAX_SOURCE_CHECKPOINT_BYTES: usize = MAX_CHECKPOINT_PAYLOAD_BYTES;

/// What every batch is charged before its contents.
pub const BATCH_ACCOUNTING_OVERHEAD: usize = 256;

/// What every control is charged at least.
pub const MIN_CONTROL_ACCOUNTING_BYTES: usize = 256;

/// What a coordinator may retain, accept and remember.
#[derive(Clone, Copy, Debug, PartialEq, Eq, Structural)]
#[non_exhaustive]
pub struct HybridConfig {
    /// How many live batches are retained while the historical source catches
    /// up. Beyond it the coordinator stops instead of dropping events.
    pub max_buffered_live_batches: usize,
    /// How many records are retained over the live batches, and how many one
    /// batch of either source may hold.
    pub max_buffered_live_records: usize,
    /// How many accounted bytes are retained over the live batches, and how
    /// many one batch of either source may hold.
    pub max_buffered_live_bytes: usize,
    /// How long a delivery token of either source may be.
    pub max_source_delivery_token_bytes: usize,
    /// How long a checkpoint of either source may be.
    pub max_source_checkpoint_bytes: usize,
    /// How many recently committed inputs are remembered with their witnesses.
    pub recent_input_capacity: usize,
    /// How many owner associations are remembered over these inputs. Where a
    /// delivery exceeds it, the oldest inputs are forgotten first.
    pub max_recent_owner_entries: usize,
    /// How many canonical blocks are remembered.
    pub canonical_history_capacity: usize,
}

impl Default for HybridConfig {
    fn default() -> (r: HybridConfig)
        ensures
            r == (HybridConfig {
                max_buffered_live_batches: 2_048,
                max_buffered_live_records: 262_144,
                max_buffered_live_bytes: 67_108_864,
                max_source_delivery_token_bytes: 65_536,
                max_source_checkpoint_bytes: 1_048_576,
                recent_input_capacity: 32_768,
                max_recent_owner_entries: HYBRID_MAX_RECENT_OWNER_ENTRIES,
                canonical_history_capacity: 512,
            }),
    {
        HybridConfig {
            max_buffered_live_batches: 2_048,
            max_buffered_live_records: 262_144,
            max_buffered_live_bytes: 67_108_864,
            max_source_delivery_token_bytes: 65_536,
            max_source_checkpoint_bytes: 1_048_576,
            recent_input_capacity: 32_768,
            max_recent_owner_entries: HYBRID_MAX_RECENT_OWNER_ENTRIES,
            canonical_history_capacity: 512,
        }
    }
}

/// What one batch of a source may hold.
#[derive(Clone, Copy, Debug, PartialEq, Eq, Structural)]
pub struct HybridIngressLimits {
    pub max_records: usize,
    pub max_accounted_bytes: usize,
    pub max_delivery_token_bytes: usize,
    pub max_checkpoint_bytes: usize,
    pub max_projected_owner_associations: usize,
}

impl HybridConfig {
    /// What one batch of a source may hold.
    pub open spec fn spec_ingress(self) -> HybridIngressLimits {
        HybridIngressLimits {
            max_records: self.max_buffered_live_records,
            max_accounted_bytes: self.max_buffered_live_bytes,
            max_delivery_token_bytes: self.max_source_delivery_token_bytes,
            max_checkpoint_bytes: self.max_source_checkpoint_bytes,
            max_projected_owner_associations: self.max_recent_owner_entries,
        }
    }

    /// What one batch of a source may hold.
    pub fn ingress(&self) -> (r: HybridIngressLimits)
        ensures
            r == self.spec_ingress(),
    {
        HybridIngressLimits {
            max_records: self.max_buffered_live_records,
            max_accounted_bytes: self.max_buffered_live_bytes,
            max_delivery_token_bytes: self.max_source_delivery_token_bytes,
            max_checkpoint_bytes: self.max_source_checkpoint_bytes,
            max_projected_owner_associations: self.max_recent_owner_entries,
        }
    }
}

/// The most controls that a batch of `max_accounted_bytes` can hold.
pub open spec fn control_ceiling(max_accounted_bytes: usize) -> usize {
    if max_accounted_bytes <= BATCH_ACCOUNTING_OVERHEAD {
        0
    } else {
        ((max_accounted_bytes - BATCH_ACCOUNTING_OVERHEAD) / MIN_CONTROL_ACCOUNTING_BYTES as int)
            as usize
    }
}

/// The most controls that a batch of `max_accounted_bytes` can hold.
pub fn maximum_ingress_control_count(max_accounted_bytes: usize) -> (r: usize)
    ensures
        r == control_ceiling(max_accounted_bytes),
{
    max_accounted_bytes.saturating_sub(BATCH_ACCOUNTING_OVERHEAD) / MIN_CONTROL_ACCOUNTING_BYTES
}

/// The most canonical blocks by which one batch can advance and which are then
/// retained.
pub fn maximum_admitted_canonical_advances(config: &HybridConfig) -> (r: usize)
    ensures
        r == (if control_ceiling(config.max_buffered_live_bytes) + 1
            <= config.canonical_history_capacity {
            (control_ceiling(config.max_buffered_live_bytes) + 1) as usize
        } else {
            config.canonical_history_capacity
        }),
{
    let advances: usize = maximum_ingress_control_count(
        config.max_buffered_live_bytes,
    ).saturating_add(1);
    if advances <= config.canonical_history_capacity {
        advances
    } else {
        config.canonical_history_capacity
    }
}

/// The error that a configuration earns.
pub open spec fn config_error(config: HybridConfig) -> Option<SubscriberError> {
    if config.max_buffered_live_batches == 0 {
        Some(SubscriberError::InvalidConfig("hybrid live buffer capacity must be non-zero"))
    } else if config.recent_input_capacity == 0 {
        Some(SubscriberError::InvalidConfig("hybrid deduplication capacity must be non-zero"))
    } else if config.recent_input_capacity > HYBRID_MAX_RECENT_INPUTS {
        Some(
            SubscriberError::InvalidConfig(
                "hybrid deduplication capacity exceeds the v5 durable checkpoint limit",
            ),
        )
    } else if config.max_recent_owner_entries == 0 {
        Some(
            SubscriberError::InvalidConfig("hybrid recent owner-entry budget must be non-zero"),
        )
    } else if config.max_recent_owner_entries > HYBRID_MAX_RECENT_OWNER_ENTRIES {
        Some(
            SubscriberError::InvalidConfig(
                "hybrid recent owner-entry budget exceeds the v5 durable checkpoint limit",
            ),
        )
    } else if config.max_buffered_live_records == 0 {
        Some(SubscriberError::InvalidConfig("hybrid live record capacity must be non-zero"))
    } else if config.max_buffered_live_bytes == 0 {
        Some(SubscriberError::InvalidConfig("hybrid live byte capacity must be non-zero"))
    } else if config.max_source_delivery_token_bytes == 0 {
        Some(
            SubscriberError::InvalidConfig(
                "hybrid source delivery-token byte budget must be non-zero",
            ),
        )
    } else if config.max_source_delivery_token_bytes > HYBRID_MAX_SOURCE_DELIVERY_TOKEN_BYTES {
        Some(
            SubscriberError::InvalidConfig(
                "hybrid source delivery-token byte budget exceeds the v5 durable checkpoint limit",
            ),
        )
    } else if config.max_source_checkpoint_bytes == 0 {
        Some(
            SubscriberError::InvalidConfig("hybrid source checkpoint byte budget must be non-zero"),
        )
    } else if config.max_source_checkpoint_bytes > HYBRID_MAX_SOURCE_CHECKPOINT_BYTES {
        Some(
            SubscriberError::InvalidConfig(
                "hybrid source checkpoint byte budget exceeds the v5 durable checkpoint limit",
            ),
        )
    } else if config.canonical_history_capacity == 0 {
        Some(SubscriberError::InvalidConfig("hybrid canonical history capacity must be non-zero"))
    } else if config.canonical_history_capacity > HYBRID_MAX_CANONICAL_HISTORY {
        Some(
            SubscriberError::InvalidConfig(
                "hybrid canonical history capacity exceeds the v5 durable checkpoint limit",
            ),
        )
    } else {
        None
    }
}

/// Refuses a configuration with a limit that is zero or beyond what a
/// checkpoint can hold.
pub fn validate_config(config: &HybridConfig) -> (r: Result<(), SubscriberError>)
    ensures
        match r {
            Ok(_) => config_error(*config) is None,
            Err(e) => config_error(*config) == Some(e),
        },
{
    if config.max_buffered_live_batches == 0 {
        return Err(SubscriberError::InvalidConfig("hybrid live buffer capacity must be non-zero"));
    }
    if config.recent_input_capacity == 0 {
        return Err(
            SubscriberError::InvalidConfig("hybrid deduplication capacity must be non-zero"),
        );
    }
    if config.recent_input_capacity > HYBRID_MAX_RECENT_INPUTS {
        return Err(
            SubscriberError::InvalidConfig(
                "hybrid deduplication capacity exceeds the v5 durable checkpoint limit",
            ),
        );
    }
    if config.max_recent_owner_entries == 0 {
        return Err(
            SubscriberError::InvalidConfig("hybrid recent owner-entry budget must be non-zero"),
        );
    }
    if config.max_recent_owner_entries > HYBRID_MAX_RECENT_OWNER_ENTRIES {
        return Err(
            SubscriberError::InvalidConfig(
                "hybrid recent owner-entry budget exceeds the v5 durable checkpoint limit",
            ),
        );
    }
    if config.max_buffered_live_records == 0 {
        return Err(SubscriberError::InvalidConfig("hybrid live record capacity must be non-zero"));
    }
    if config.max_buffered_live_bytes == 0 {
        return Err(SubscriberError::InvalidConfig("hybrid live byte capacity must be non-zero"));
    }
    if config.max_source_delivery_token_bytes == 0 {
        return Err(
            SubscriberError::InvalidConfig(
                "hybrid source delivery-token byte budget must be non-zero",
            ),
        );
    }
    if config.max_source_delivery_token_bytes > HYBRID_MAX_SOURCE_DELIVERY_TOKEN_BYTES {
        return Err(
            SubscriberError::InvalidConfig(
                "hybrid source delivery-token byte budget exceeds the v5 durable checkpoint limit",
            ),
        );
    }
    if config.max_source_checkpoint_bytes == 0 {
        return Err(
            SubscriberError::InvalidConfig("hybrid source checkpoint byte budget must be non-zero"),
        );
    }
    if config.max_source_checkpoint_bytes > HYBRID_MAX_SOURCE_CHECKPOINT_BYTES {
        return Err(
            SubscriberError::InvalidConfig(
                "hybrid source checkpoint byte budget exceeds the v5 durable checkpoint limit",
            ),
        );
    }
    if config.canonical_history_capacity == 0 {
        return Err(
            SubscriberError::InvalidConfig("hybrid canonical history capacity must be non-zero"),
        );
    }
    if config.canonical_history_capacity > HYBRID_MAX_CANONICAL_HISTORY {
        return Err(
            SubscriberError::InvalidConfig(
                "hybrid canonical history capacity exceeds the v5 durable checkpoint limit",
            ),
        );
    }
    Ok(())
}

/// The number of owner associations over recent inputs.
pub fn recent_owner_entry_count(entries: &[StoredRecentInput]) -> (r: Result<
    usize,
    SubscriberError,
>)
    ensures
        match r {
            Ok(n) => n == owner_total(recent_view(entries@), 0),
            Err(e) => owner_total(recent_view(entries@), 0) > usize::MAX && e
                == SubscriberError::Provider("hybrid recent owner-entry accounting overflowed"),
        },
{
    let ghost all = recent_view(entries@);
    let mut total: usize = 0;
    let mut i: usize = 0;
    while i < entries.len()
        invariant
            i <= entries@.len(),
            all == recent_view(entries@),
            total + owner_total(all, i as int) == owner_total(all, 0),
        decreases entries@.len() - i,
    {
        assert(all[i as int] == entries@[i as int]@);
        match total.checked_add(entries[i].coverage.owners.len()) {
            Some(next) => {
                total = next;
            },
            None => {
                return Err(
                    SubscriberError::Provider("hybrid recent owner-entry accounting overflowed"),
                );
            },
        }
        i += 1;
    }
    Ok(total)
}

/// The error that one source position earns for the length of its cursors.
pub open spec fn cursor_error(config: HybridConfig, label: &'static str, p: SourceView) -> Option<
    SubscriberError,
> {
    if p.delivery_token is Some && p.delivery_token->Some_0.len()
        > config.max_source_delivery_token_bytes {
        Some(SubscriberError::Source { label, problem: SourceFault::TokenTooLong })
    } else if p.checkpoint is Some && p.checkpoint->Some_0.len()
        > config.max_source_checkpoint_bytes {
        Some(SubscriberError::Source { label, problem: SourceFault::CheckpointTooLong })
    } else {
        None
    }
}

/// The error that a state earns under a configuration. Where the cursor of the
/// live source is not retained, its length does not count.
pub open spec fn config_limits_error(config: HybridConfig, c: CheckpointView, retain_live: bool) -> Option<
    SubscriberError,
> {
    if c.recent_inputs.len() <= config.recent_input_capacity && owner_total(c.recent_inputs, 0)
        > usize::MAX {
        Some(SubscriberError::Provider("hybrid recent owner-entry accounting overflowed"))
    } else if c.recent_inputs.len() > config.recent_input_capacity || owner_total(
        c.recent_inputs,
        0,
    ) > config.max_recent_owner_entries || c.canonical_history.len()
        > config.canonical_history_capacity || c.historical_position.canonical_history.len()
        > config.canonical_history_capacity || c.live_position.canonical_history.len()
        > config.canonical_history_capacity {
        Some(
            SubscriberError::Provider(
                "hybrid checkpoint exceeds this coordinator's configured durable verification budgets",
            ),
        )
    } else {
        first(
            cursor_error(config, "historical", c.historical_position),
            first(
                if retain_live {
                    cursor_error(config, "live", c.live_position)
                } else {
                    None
                },
                if c.last_committed_token is Some && c.last_committed_token->Some_0.kind
                    == HybridTokenKind::Forwarded && (c.last_committed_token->Some_0.source
                    != HybridSource::Live || retain_live)
                    && c.last_committed_token->Some_0.inner.len()
                    > config.max_source_delivery_token_bytes {
                    Some(
                        SubscriberError::Provider(
                            "hybrid last committed forwarded token exceeds this coordinator's configured opaque cursor bound",
                        ),
                    )
                } else {
                    None
                },
            ),
        )
    }
}

fn check_cursors(config: &HybridConfig, label: &'static str, position: &SourcePosition) -> (r: Result<
    (),
    SubscriberError,
>)
    ensures
        match r {
            Ok(_) => cursor_error(*config, label, position@) is None,
            Err(e) => cursor_error(*config, label, position@) == Some(e),
        },
{
    if let Some(token) = &position.delivery_token {
        if token.len() > config.max_source_delivery_token_bytes {
            return Err(SubscriberError::Source { label, problem: SourceFault::TokenTooLong });
        }
    }
    if let Some(checkpoint) = &position.checkpoint {
        if checkpoint.len() > config.max_source_checkpoint_bytes {
            return Err(SubscriberError::Source { label, problem: SourceFault::CheckpointTooLong });
        }
    }
    Ok(())
}

/// Refuses a state that exceeds what this configuration retains and accepts.
pub fn validate_checkpoint_config_limits_for_restore(
    config: &HybridConfig,
    state: &HybridCheckpointV5,
    retain_live_cursor: bool,
) -> (r: Result<(), SubscriberError>)
    ensures
        match r {
            Ok(_) => config_limits_error(*config, state@, retain_live_cursor) is None,
            Err(e) => config_limits_error(*config, state@, retain_live_cursor) == Some(e),
        },
{
    let over: bool = if state.recent_inputs.len() > config.recent_input_capacity {
        true
    } else {
        let owners: usize = recent_owner_entry_count(state.recent_inputs.as_slice())?;
        owners > config.max_recent_owner_entries || state.canonical_history.len()
            > config.canonical_history_capacity || state.historical_position.canonical_history.len()
            > config.canonical_history_capacity || state.live_position.canonical_history.len()
            > config.canonical_history_capacity
    };
    if over {
        return Err(
            SubscriberError::Provider(
                "hybrid checkpoint exceeds this coordinator's configured durable verification budgets",
            ),
        );
    }
    check_cursors(config, "historical", &state.historical_position)?;
    if retain_live_cursor {
        check_cursors(config, "live", &state.live_position)?;
    }
    if let Some(committed) = &state.last_committed_token {
        if committed.kind == HybridTokenKind::Forwarded && (committed.source != HybridSource::Live
            || retain_live_cursor) && committed.inner.len()
            > config.max_source_delivery_token_bytes {
            return Err(
                SubscriberError::Provider(
                    "hybrid last committed forwarded token exceeds this coordinator's configured opaque cursor bound",
                ),
            );
        }
    }
    Ok(())
}

/// Refuses a state that exceeds what this configuration retains and accepts.
pub fn validate_checkpoint_config_limits(config: &HybridConfig, state: &HybridCheckpointV5) -> (r:
    Result<(), SubscriberError>)
    ensures
        match r {
            Ok(_) => config_limits_error(*config, state@, true) is None,
            Err(e) => config_limits_error(*config, state@, true) == Some(e),
        },
{
    validate_checkpoint_config_limits_for_restore(config, state, true)
}

} // verus!
