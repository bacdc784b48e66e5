//! The texts of errors.
use crate::checkpoint::HybridSource;
use crate::error::{HistoryFault, SourceFault, SubscriberError};
use crate::rlp::RlpError;
use vstd::prelude::*;
use vstd::string::StringExecFns;

verus! {

/// One decimal digit.
pub open spec fn digit(n: nat) -> Seq<char> {
    if n == 0 {
        "0"@
    } else if n == 1 {
        "1"@
    } else if n == 2 {
        "2"@
    } else if n == 3 {
        "3"@
    } else if n == 4 {
        "4"@
    } else if n == 5 {
        "5"@
    } else if n == 6 {
        "6"@
    } else if n == 7 {
        "7"@
    } else if n == 8 {
        "8"@
    } else {
        "9"@
    }
}

/// A number in decimal digits.
pub open spec fn decimal(n: nat) -> Seq<char>
    decreases n,
{
    if n < 10 {
        digit(n)
    } else {
        decimal(n / 10) + digit(n % 10)
    }
}

proof fn lemma_say(start: Seq<char>, acc: Seq<char>, more: Seq<char>)
    ensures
        start + acc + more == start + (acc + more),
{
    assert(start + acc + more =~= start + (acc + more));
}

/// Appends `more` behind `acc`, which stands behind `start`.
fn say(out: &mut String, more: &str, Ghost(start): Ghost<Seq<char>>, Ghost(acc): Ghost<Seq<char>>)
    requires
        old(out)@ == start + acc,
    ensures
        final(out)@ == start + (acc + more@),
{
    out.append(more);
    proof {
        lemma_say(start, acc, more@);
    }
}

/// Appends `n` in decimal behind `acc`, which stands behind `start`.
fn say_decimal(
    out: &mut String,
    n: u64,
    Ghost(start): Ghost<Seq<char>>,
    Ghost(acc): Ghost<Seq<char>>,
)
    requires
        old(out)@ == start + acc,
    ensures
        final(out)@ == start + (acc + decimal(n as nat)),
{
    push_decimal(out, n);
    proof {
        lemma_say(start, acc, decimal(n as nat));
    }
}

fn push_decimal(out: &mut String, n: u64)
    ensures
        final(out)@ == old(out)@ + decimal(n as nat),
    decreases n,
{
    let ghost start = out@;
    if n >= 10 {
        push_decimal(out, n / 10);
    }
    out.append(
        match n % 10 {
            0 => "0",
            1 => "1",
            2 => "2",
            3 => "3",
            4 => "4",
            5 => "5",
            6 => "6",
            7 => "7",
            8 => "8",
            _ => "9",
        },
    );
    assert(out@ =~= start + decimal(n as nat));
}

/// An optional number as it is shown.
pub open spec fn option_text(value: Option<u64>) -> Seq<char> {
    match value {
        Some(n) => "Some("@ + decimal(n as nat) + ")"@,
        None => "None"@,
    }
}

fn push_option(out: &mut String, value: &Option<u64>)
    ensures
        final(out)@ == old(out)@ + option_text(*value),
{
    let ghost start = out@;
    match value {
        Some(n) => {
            out.append("Some(");
            push_decimal(out, *n);
            out.append(")");
        },
        None => {
            out.append("None");
        },
    }
    assert(out@ =~= start + option_text(*value));
}

/// The name of a source as it is shown.
pub open spec fn source_name(source: HybridSource) -> &'static str {
    match source {
        HybridSource::Historical => "Historical",
        HybridSource::Live => "Live",
    }
}

fn source_label(source: HybridSource) -> (r: &'static str)
    ensures
        r == source_name(source),
{
    match source {
        HybridSource::Historical => "Historical",
        HybridSource::Live => "Live",
    }
}

/// The text of a malformed item.
pub open spec fn rlp_text(e: RlpError) -> Seq<char> {
    match e {
        RlpError::Overflow => "overflow"@,
        RlpError::LeadingZero => "leading zero"@,
        RlpError::InputTooShort => "input too short"@,
        RlpError::NonCanonicalSingleByte => "non-canonical single byte"@,
        RlpError::NonCanonicalSize => "non-canonical size"@,
        RlpError::UnexpectedLength => "unexpected length"@,
        RlpError::UnexpectedString => "unexpected string"@,
        RlpError::UnexpectedList => "unexpected list"@,
        RlpError::ListLengthMismatch { expected, got } => "unexpected list length (got "@ + decimal(
            got as nat,
        ) + ", expected "@ + decimal(expected as nat) + ")"@,
        RlpError::Custom(text) => text@,
    }
}

fn push_rlp(out: &mut String, e: &RlpError)
    ensures
        final(out)@ == old(out)@ + rlp_text(*e),
{
    let ghost start = out@;
    match e {
        RlpError::Overflow => {
            out.append("overflow");
        },
        RlpError::LeadingZero => {
            out.append("leading zero");
        },
        RlpError::InputTooShort => {
            out.append("input too short");
        },
        RlpError::NonCanonicalSingleByte => {
            out.append("non-canonical single byte");
        },
        RlpError::NonCanonicalSize => {
            out.append("non-canonical size");
        },
        RlpError::UnexpectedLength => {
            out.append("unexpected length");
        },
        RlpError::UnexpectedString => {
            out.append("unexpected string");
        },
        RlpError::UnexpectedList => {
            out.append("unexpected list");
        },
        RlpError::ListLengthMismatch { expected, got } => {
            out.append("unexpected list length (got ");
            push_decimal(out, *got as u64);
            out.append(", expected ");
            push_decimal(out, *expected as u64);
            out.append(")");
        },
        RlpError::Custom(text) => {
            out.append(text);
        },
    }
    assert(out@ =~= start + rlp_text(*e));
}

/// The text of a fault in a history.
pub open spec fn history_text(label: &'static str, fault: HistoryFault) -> Seq<char> {
    match fault {
        HistoryFault::CoverageWithoutHistory => "hybrid "@ + label@ + " checkpoint has coverage without retained canonical history"@,
        HistoryFault::HistoryWithoutCoverage => "hybrid "@ + label@ + " checkpoint history has no coverage head"@,
        HistoryFault::NotAscending => "hybrid "@ + label@ + " checkpoint history is not strictly ordered"@,
        HistoryFault::ParentMismatch { number } => "hybrid "@ + label@ + " checkpoint history has a parent-hash discontinuity at block "@ + decimal(number as nat),
        HistoryFault::EndsElsewhere => "hybrid "@ + label@ + " checkpoint history does not end at its coverage head"@,
        HistoryFault::ProofWithoutHead => "hybrid checkpoint historical coverage proof has no "@ + label@ + " coverage head"@,
        HistoryFault::ProofAhead => "hybrid checkpoint historical coverage proof is ahead of the "@ + label@,
    }
}

fn push_history(out: &mut String, label: &'static str, fault: &HistoryFault)
    ensures
        final(out)@ == old(out)@ + history_text(label, *fault),
{
    let ghost start = out@;
    match fault {
        HistoryFault::CoverageWithoutHistory => {
            out.append("hybrid ");
            say(out, label, Ghost(start), Ghost("hybrid "@));
            say(out, " checkpoint has coverage without retained canonical history", Ghost(start), Ghost("hybrid "@ + label@));
        },
        HistoryFault::HistoryWithoutCoverage => {
            out.append("hybrid ");
            say(out, label, Ghost(start), Ghost("hybrid "@));
            say(out, " checkpoint history has no coverage head", Ghost(start), Ghost("hybrid "@ + label@));
        },
        HistoryFault::NotAscending => {
            out.append("hybrid ");
            say(out, label, Ghost(start), Ghost("hybrid "@));
            say(out, " checkpoint history is not strictly ordered", Ghost(start), Ghost("hybrid "@ + label@));
        },
        HistoryFault::ParentMismatch { number } => {
            out.append("hybrid ");
            say(out, label, Ghost(start), Ghost("hybrid "@));
            say(out, " checkpoint history has a parent-hash discontinuity at block ", Ghost(start), Ghost("hybrid "@ + label@));
            say_decimal(out, *number as u64, Ghost(start), Ghost("hybrid "@ + label@ + " checkpoint history has a parent-hash discontinuity at block "@));
        },
        HistoryFault::EndsElsewhere => {
            out.append("hybrid ");
            say(out, label, Ghost(start), Ghost("hybrid "@));
            say(out, " checkpoint history does not end at its coverage head", Ghost(start), Ghost("hybrid "@ + label@));
        },
        HistoryFault::ProofWithoutHead => {
            out.append("hybrid checkpoint historical coverage proof has no ");
            say(out, label, Ghost(start), Ghost("hybrid checkpoint historical coverage proof has no "@));
            say(out, " coverage head", Ghost(start), Ghost("hybrid checkpoint historical coverage proof has no "@ + label@));
        },
        HistoryFault::ProofAhead => {
            out.append("hybrid checkpoint historical coverage proof is ahead of the ");
            say(out, label, Ghost(start), Ghost("hybrid checkpoint historical coverage proof is ahead of the "@));
        },
    }
}

/// The text of a fault in a source position.
pub open spec fn position_text(label: &'static str, problem: SourceFault) -> Seq<char> {
    match problem {
        SourceFault::TokenWithoutDigest => "hybrid "@ + label@ + " has a delivery token without its payload digest"@,
        SourceFault::TokenWithoutCoverage => "hybrid "@ + label@ + " has a forwarded delivery token without restorable canonical coverage"@,
        SourceFault::CoverageWithoutCoordinator => "hybrid "@ + label@ + " has coverage without coordinator coverage"@,
        SourceFault::AheadOfCoordinator => "hybrid "@ + label@ + " coverage is ahead of coordinator coverage"@,
        SourceFault::TokenTooLong => "hybrid "@ + label@ + " source delivery token exceeds this coordinator's configured opaque cursor bound"@,
        SourceFault::CheckpointTooLong => "hybrid "@ + label@ + " source checkpoint exceeds this coordinator's configured opaque cursor bound"@,
    }
}

fn push_position(out: &mut String, label: &'static str, problem: &SourceFault)
    ensures
        final(out)@ == old(out)@ + position_text(label, *problem),
{
    let ghost start = out@;
    match problem {
        SourceFault::TokenWithoutDigest => {
            out.append("hybrid ");
            say(out, label, Ghost(start), Ghost("hybrid "@));
            say(out, " has a delivery token without its payload digest", Ghost(start), Ghost("hybrid "@ + label@));
        },
        SourceFault::TokenWithoutCoverage => {
            out.append("hybrid ");
            say(out, label, Ghost(start), Ghost("hybrid "@));
            say(out, " has a forwarded delivery token without restorable canonical coverage", Ghost(start), Ghost("hybrid "@ + label@));
        },
        SourceFault::CoverageWithoutCoordinator => {
            out.append("hybrid ");
            say(out, label, Ghost(start), Ghost("hybrid "@));
            say(out, " has coverage without coordinator coverage", Ghost(start), Ghost("hybrid "@ + label@));
        },
        SourceFault::AheadOfCoordinator => {
            out.append("hybrid ");
            say(out, label, Ghost(start), Ghost("hybrid "@));
            say(out, " coverage is ahead of coordinator coverage", Ghost(start), Ghost("hybrid "@ + label@));
        },
        SourceFault::TokenTooLong => {
            out.append("hybrid ");
            say(out, label, Ghost(start), Ghost("hybrid "@));
            say(out, " source delivery token exceeds this coordinator's configured opaque cursor bound", Ghost(start), Ghost("hybrid "@ + label@));
        },
        SourceFault::CheckpointTooLong => {
            out.append("hybrid ");
            say(out, label, Ghost(start), Ghost("hybrid "@));
            say(out, " source checkpoint exceeds this coordinator's configured opaque cursor bound", Ghost(start), Ghost("hybrid "@ + label@));
        },
    }
}

/// The text of an error.
pub open spec fn text(e: SubscriberError) -> Seq<char>
    decreases e,
{
    match e {
        SubscriberError::Provider(text) => text@,
        SubscriberError::InvalidConfig(text) => text@,
        SubscriberError::Unsupported(text) => text@,
        SubscriberError::Reported(text) => text@,
        SubscriberError::Rlp { context, error } => "invalid hybrid checkpoint "@ + context@ + ": "@ + rlp_text(error),
        SubscriberError::TrailingFields { context } => "hybrid checkpoint "@ + context@ + " contains trailing list fields"@,
        SubscriberError::TooManyEntries { context, max } => "hybrid checkpoint "@ + context@ + " exceeds "@ + decimal(max as nat) + " entries"@,
        SubscriberError::TooManyBytes { context, max } => "hybrid checkpoint "@ + context@ + " exceeds "@ + decimal(max as nat) + " bytes"@,
        SubscriberError::NotUtf8 { context } => "hybrid checkpoint "@ + context@ + " is not UTF-8"@,
        SubscriberError::EmptyHandlerId { context } => "hybrid checkpoint "@ + context@ + " is empty"@,
        SubscriberError::UnsortedOwners { context } => "hybrid checkpoint "@ + context@ + " is not strictly sorted by handler id"@,
        SubscriberError::UnknownTag { what, tag } => "hybrid checkpoint contains unknown "@ + what@ + " "@ + decimal(tag as nat),
        SubscriberError::IncompatibleIdentity => "hybrid checkpoint contains an incompatible reactive-input identity"@,
        SubscriberError::UnsupportedVersion { version } => "unsupported hybrid checkpoint version "@ + decimal(version as nat),
        SubscriberError::PayloadTooLarge { limit } => "hybrid checkpoint exceeds "@ + decimal(limit as nat) + " bytes"@,
        SubscriberError::RecentInputsExceeded { max } => "hybrid checkpoint recent inputs exceed "@ + decimal(max as nat) + " entries"@,
        SubscriberError::HistoryTooLong { label, max } => "hybrid checkpoint "@ + label@ + " history exceeds "@ + decimal(max as nat) + " entries"@,
        SubscriberError::OwnerEntriesExceeded { max } => "hybrid checkpoint exceeds "@ + decimal(max as nat) + " total owner entries"@,
        SubscriberError::StoredHandlerIdTooLong { context, owner } => "hybrid checkpoint "@ + context@ + " handler id "@ + owner@ + " exceeds 4096 bytes"@,
        SubscriberError::HandlerIdTooLong { owner } => "hybrid handler id "@ + owner@ + " exceeds the durable v5 limit of 4096 bytes"@,
        SubscriberError::EmptyOwners { label } => "hybrid source emitted an empty "@ + label@,
        SubscriberError::DuplicateOwner { label } => "hybrid source emitted a duplicate owner in "@ + label@,
        SubscriberError::ExplicitOwnersExceeded { count, max } => "hybrid child batch exceeds the explicit owner-audience ingress bound ("@ + decimal(count as nat) + "/"@ + decimal(max as nat) + ")"@,
        SubscriberError::ProjectedOwnersExceeded { count, max } => "hybrid child batch exceeds the projected owner associations ingress bound ("@ + decimal(count as nat) + "/"@ + decimal(max as nat) + ")"@,
        SubscriberError::UnknownOwner { owner } => "hybrid source routed a delivery through unknown owner "@ + owner@,
        SubscriberError::SequenceRefused { reason } => "hybrid checkpoint canonical sequence is invalid: "@ + reason@,
        SubscriberError::AncestorTooOld { number } => "hybrid reorg ancestor "@ + decimal(number as nat) + " is older than the retained canonical effect window"@,
        SubscriberError::AncestorMismatch { number } => "hybrid reorg ancestor hash or metadata mismatch at block "@ + decimal(number as nat),
        SubscriberError::OutsideHistory { number } => "hybrid canonical block "@ + decimal(number as nat) + " is outside retained history"@,
        SubscriberError::ParentMismatch { number } => "hybrid canonical parent mismatch at block "@ + decimal(number as nat),
        SubscriberError::ProtectedSuffixExceedsBudgets { protected, owners } => "hybrid current delivery needs "@ + decimal(protected as nat) + " protected recent witnesses and "@ + decimal(owners as nat) + " owner associations, exceeding the configured durable journal budgets"@,
        SubscriberError::ProtectedSuffixTooLarge { limit, needs } => "hybrid current delivery cannot fit its protected witness suffix in the "@ + decimal(limit as nat) + "-byte durable checkpoint payload (needs at least "@ + decimal(needs as nat) + " bytes)"@,
        SubscriberError::NoRoomForDelivery { context, kind, origin, cause } => context@ + " cannot retain one protected delivery witness for the maximum canonical-log delivery ("@ + kind@ + ") from the "@ + origin@ + " source: "@ + text(*cause),
        SubscriberError::HeaderTooLarge { limit } => "hybrid serialized block header exceeds the remaining ingress byte bound ("@ + decimal(limit as nat) + " bytes)"@,
        SubscriberError::HeaderNotJson { reason } => "failed to canonicalize exact hybrid block-header witness: "@ + reason@,
        SubscriberError::RecordChain { named, expected } => "hybrid source record has chain "@ + option_text(named) + "; expected "@ + decimal(expected as nat),
        SubscriberError::BatchChain { named, expected } => "hybrid child batch has chain "@ + option_text(named) + "; expected "@ + decimal(expected as nat),
        SubscriberError::IngressToken { length, max } => "hybrid child delivery token exceeds the configured opaque cursor bound ("@ + decimal(length as nat) + "/"@ + decimal(max as nat) + " bytes)"@,
        SubscriberError::IngressCheckpoint { length, max } => "hybrid child checkpoint exceeds the configured opaque cursor bound ("@ + decimal(length as nat) + "/"@ + decimal(max as nat) + " bytes)"@,
        SubscriberError::IngressRecords { count, max } => "hybrid child batch exceeds configured per-batch ingress record bound ("@ + decimal(count as nat) + "/"@ + decimal(max as nat) + ")"@,
        SubscriberError::IngressControls { count, max } => "hybrid child batch exceeds the derived per-batch ingress control bound ("@ + decimal(count as nat) + "/"@ + decimal(max as nat) + ")"@,
        SubscriberError::IngressBytes { bytes, max } => "hybrid child batch exceeds configured per-batch ingress byte bound ("@ + decimal(bytes as nat) + "/"@ + decimal(max as nat) + ")"@,
        SubscriberError::BlockConflict { number } => "hybrid canonical block identity conflicts at height "@ + decimal(number as nat),
        SubscriberError::MetadataConflict { label, number } => "hybrid canonical "@ + label@ + " conflicts at block "@ + decimal(number as nat),
        SubscriberError::OverlapOutside { number } => "canonical overlap at block "@ + decimal(number as nat) + " is outside retained hybrid history; increase canonical_history_capacity or perform a full resynchronization"@,
        SubscriberError::OverlapConflict { number } => "historical/live overlap conflicts with committed canonical metadata at block "@ + decimal(number as nat) + " without a usable reorg control"@,
        SubscriberError::OwnerCatchupOverlap { number, cause } => "hybrid owner-catchup block "@ + decimal(number as nat) + " is not an exact retained canonical overlap; owner-only effects require a pre-existing core rollback-journal entry and cannot advance canonical state ("@ + text(*cause) + ")"@,
        SubscriberError::RecoveryAncestorConflict { number } => "historical recovery reorg has a conflicting ancestor hash at block "@ + decimal(number as nat),
        SubscriberError::RecoveryAncestorTooOld { number } => "historical recovery reorg ancestor "@ + decimal(number as nat) + " is older than retained hybrid history; full resynchronization is required"@,
        SubscriberError::LiveBufferExceeded { batches, max_batches, records, max_records, bytes, max_bytes } => "hybrid live buffer exceeded configured bounds before cutover (batches "@ + decimal(batches as nat) + "/"@ + decimal(max_batches as nat) + ", records "@ + decimal(records as nat) + "/"@ + decimal(max_records as nat) + ", accounted bytes "@ + decimal(bytes as nat) + "/"@ + decimal(max_bytes as nat) + ")"@,
        SubscriberError::Poisoned { reason } => "hybrid coordinator is poisoned: "@ + reason@,
        SubscriberError::SourceChainChanged { source, found, expected } => "hybrid "@ + source_name(source)@ + " source changed to chain "@ + decimal(found as nat) + "; expected "@ + decimal(expected as nat),
        SubscriberError::SourceChainUnresolved { source, expected } => "hybrid "@ + source_name(source)@ + " source has not resolved required chain "@ + decimal(expected as nat),
        SubscriberError::RestoreWrongChain { expected } => "hybrid restore targets the wrong chain; expected "@ + decimal(expected as nat),
        SubscriberError::RestoreChain { found, expected } => "hybrid restore targets chain "@ + decimal(found as nat) + ", but this coordinator targets "@ + decimal(expected as nat),
        SubscriberError::RestoreCoverage { checkpoint, runtime } => "hybrid checkpoint coverage "@ + decimal(checkpoint as nat) + " does not match restored runtime coverage "@ + decimal(runtime as nat),
        SubscriberError::RuntimeHistoryConflict { number } => "runtime canonical history conflicts with the hybrid checkpoint at block "@ + decimal(number as nat),
        SubscriberError::RuntimeCoverageConflict { number } => "runtime canonical history conflicts with hybrid input coverage at block "@ + decimal(number as nat),
        SubscriberError::MissingReplayToken { source } => "hybrid restored "@ + source_name(source)@ + " acknowledgement is missing its child token"@,
        SubscriberError::NeedsHistory { reason } => "hybrid canonical sequence requires durable historical recovery: "@ + reason@,
        SubscriberError::SequenceFailed { reason } => "hybrid canonical sequence validation failed: "@ + reason@,
        SubscriberError::ActivationBaseline { number, cause } => "hybrid canonical owner activation baseline "@ + decimal(number as nat) + " is not an exact retained canonical block ("@ + text(*cause) + ")"@,
        SubscriberError::RollbackFailed { step, cause, rollback } => step@ + " ("@ + text(*cause) + "); "@ + text(*rollback),
        SubscriberError::LifecycleGap { scope, number } => scope@ + " changed on the live source after acknowledged coverage at block "@ + decimal(number as nat) + ", but the durable historical commit did not complete; ordinary compensation restored the prior filters without proving the intervening live mutation window is free of an event gap. Reconstruct the coordinator from an authoritative checkpoint"@,
        SubscriberError::RollbackPending { label, first, second } => label@ + " rollback remains pending (historical: "@ + first@ + "; live: "@ + second@ + ")"@,
        SubscriberError::History { label, fault } => history_text(label, fault),
        SubscriberError::Source { label, problem } => position_text(label, problem),
    }
}

fn push_text(out: &mut String, e: &SubscriberError)
    ensures
        final(out)@ == old(out)@ + text(*e),
    decreases *e,
{
    let ghost start = out@;
    match e {
        SubscriberError::Provider(text) => {
            out.append(text);
        },
        SubscriberError::InvalidConfig(text) => {
            out.append(text);
        },
        SubscriberError::Unsupported(text) => {
            out.append(text);
        },
        SubscriberError::Reported(text) => {
            out.append(text.as_str());
        },
        SubscriberError::Rlp { context, error } => {
            out.append("invalid hybrid checkpoint ");
            say(out, context, Ghost(start), Ghost("invalid hybrid checkpoint "@));
            say(out, ": ", Ghost(start), Ghost("invalid hybrid checkpoint "@ + context@));
            push_rlp(out, error);
            proof {
                lemma_say(start, "invalid hybrid checkpoint "@ + context@ + ": "@, rlp_text(*error));
            }
        },
        SubscriberError::TrailingFields { context } => {
            out.append("hybrid checkpoint ");
            say(out, context, Ghost(start), Ghost("hybrid checkpoint "@));
            say(out, " contains trailing list fields", Ghost(start), Ghost("hybrid checkpoint "@ + context@));
        },
        SubscriberError::TooManyEntries { context, max } => {
            out.append("hybrid checkpoint ");
            say(out, context, Ghost(start), Ghost("hybrid checkpoint "@));
            say(out, " exceeds ", Ghost(start), Ghost("hybrid checkpoint "@ + context@));
            say_decimal(out, *max as u64, Ghost(start), Ghost("hybrid checkpoint "@ + context@ + " exceeds "@));
            say(out, " entries", Ghost(start), Ghost("hybrid checkpoint "@ + context@ + " exceeds "@ + decimal(*max as nat)));
        },
        SubscriberError::TooManyBytes { context, max } => {
            out.append("hybrid checkpoint ");
            say(out, context, Ghost(start), Ghost("hybrid checkpoint "@));
            say(out, " exceeds ", Ghost(start), Ghost("hybrid checkpoint "@ + context@));
            say_decimal(out, *max as u64, Ghost(start), Ghost("hybrid checkpoint "@ + context@ + " exceeds "@));
            say(out, " bytes", Ghost(start), Ghost("hybrid checkpoint "@ + context@ + " exceeds "@ + decimal(*max as nat)));
        },
        SubscriberError::NotUtf8 { context } => {
            out.append("hybrid checkpoint ");
            say(out, context, Ghost(start), Ghost("hybrid checkpoint "@));
            say(out, " is not UTF-8", Ghost(start), Ghost("hybrid checkpoint "@ + context@));
        },
        SubscriberError::EmptyHandlerId { context } => {
            out.append("hybrid checkpoint ");
            say(out, context, Ghost(start), Ghost("hybrid checkpoint "@));
            say(out, " is empty", Ghost(start), Ghost("hybrid checkpoint "@ + context@));
        },
        SubscriberError::UnsortedOwners { context } => {
            out.append("hybrid checkpoint ");
            say(out, context, Ghost(start), Ghost("hybrid checkpoint "@));
            say(out, " is not strictly sorted by handler id", Ghost(start), Ghost("hybrid checkpoint "@ + context@));
        },
        SubscriberError::UnknownTag { what, tag } => {
            out.append("hybrid checkpoint contains unknown ");
            say(out, what, Ghost(start), Ghost("hybrid checkpoint contains unknown "@));
            say(out, " ", Ghost(start), Ghost("hybrid checkpoint contains unknown "@ + what@));
            say_decimal(out, *tag as u64, Ghost(start), Ghost("hybrid checkpoint contains unknown "@ + what@ + " "@));
        },
        SubscriberError::IncompatibleIdentity => {
            out.append("hybrid checkpoint contains an incompatible reactive-input identity");
        },
        SubscriberError::UnsupportedVersion { version } => {
            out.append("unsupported hybrid checkpoint version ");
            say_decimal(out, *version as u64, Ghost(start), Ghost("unsupported hybrid checkpoint version "@));
        },
        SubscriberError::PayloadTooLarge { limit } => {
            out.append("hybrid checkpoint exceeds ");
            say_decimal(out, *limit as u64, Ghost(start), Ghost("hybrid checkpoint exceeds "@));
            say(out, " bytes", Ghost(start), Ghost("hybrid checkpoint exceeds "@ + decimal(*limit as nat)));
        },
        SubscriberError::RecentInputsExceeded { max } => {
            out.append("hybrid checkpoint recent inputs exceed ");
            say_decimal(out, *max as u64, Ghost(start), Ghost("hybrid checkpoint recent inputs exceed "@));
            say(out, " entries", Ghost(start), Ghost("hybrid checkpoint recent inputs exceed "@ + decimal(*max as nat)));
        },
        SubscriberError::HistoryTooLong { label, max } => {
            out.append("hybrid checkpoint ");
            say(out, label, Ghost(start), Ghost("hybrid checkpoint "@));
            say(out, " history exceeds ", Ghost(start), Ghost("hybrid checkpoint "@ + label@));
            say_decimal(out, *max as u64, Ghost(start), Ghost("hybrid checkpoint "@ + label@ + " history exceeds "@));
            say(out, " entries", Ghost(start), Ghost("hybrid checkpoint "@ + label@ + " history exceeds "@ + decimal(*max as nat)));
        },
        SubscriberError::OwnerEntriesExceeded { max } => {
            out.append("hybrid checkpoint exceeds ");
            say_decimal(out, *max as u64, Ghost(start), Ghost("hybrid checkpoint exceeds "@));
            say(out, " total owner entries", Ghost(start), Ghost("hybrid checkpoint exceeds "@ + decimal(*max as nat)));
        },
        SubscriberError::StoredHandlerIdTooLong { context, owner } => {
            out.append("hybrid checkpoint ");
            say(out, context, Ghost(start), Ghost("hybrid checkpoint "@));
            say(out, " handler id ", Ghost(start), Ghost("hybrid checkpoint "@ + context@));
            say(out, owner.as_str(), Ghost(start), Ghost("hybrid checkpoint "@ + context@ + " handler id "@));
            say(out, " exceeds 4096 bytes", Ghost(start), Ghost("hybrid checkpoint "@ + context@ + " handler id "@ + owner@));
        },
        SubscriberError::HandlerIdTooLong { owner } => {
            out.append("hybrid handler id ");
            say(out, owner.as_str(), Ghost(start), Ghost("hybrid handler id "@));
            say(out, " exceeds the durable v5 limit of 4096 bytes", Ghost(start), Ghost("hybrid handler id "@ + owner@));
        },
        SubscriberError::EmptyOwners { label } => {
            out.append("hybrid source emitted an empty ");
            say(out, label, Ghost(start), Ghost("hybrid source emitted an empty "@));
        },
        SubscriberError::DuplicateOwner { label } => {
            out.append("hybrid source emitted a duplicate owner in ");
            say(out, label, Ghost(start), Ghost("hybrid source emitted a duplicate owner in "@));
        },
        SubscriberError::ExplicitOwnersExceeded { count, max } => {
            out.append("hybrid child batch exceeds the explicit owner-audience ingress bound (");
            say_decimal(out, *count as u64, Ghost(start), Ghost("hybrid child batch exceeds the explicit owner-audience ingress bound ("@));
            say(out, "/", Ghost(start), Ghost("hybrid child batch exceeds the explicit owner-audience ingress bound ("@ + decimal(*count as nat)));
            say_decimal(out, *max as u64, Ghost(start), Ghost("hybrid child batch exceeds the explicit owner-audience ingress bound ("@ + decimal(*count as nat) + "/"@));
            say(out, ")", Ghost(start), Ghost("hybrid child batch exceeds the explicit owner-audience ingress bound ("@ + decimal(*count as nat) + "/"@ + decimal(*max as nat)));
        },
        SubscriberError::ProjectedOwnersExceeded { count, max } => {
            out.append("hybrid child batch exceeds the projected owner associations ingress bound (");
            say_decimal(out, *count as u64, Ghost(start), Ghost("hybrid child batch exceeds the projected owner associations ingress bound ("@));
            say(out, "/", Ghost(start), Ghost("hybrid child batch exceeds the projected owner associations ingress bound ("@ + decimal(*count as nat)));
            say_decimal(out, *max as u64, Ghost(start), Ghost("hybrid child batch exceeds the projected owner associations ingress bound ("@ + decimal(*count as nat) + "/"@));
            say(out, ")", Ghost(start), Ghost("hybrid child batch exceeds the projected owner associations ingress bound ("@ + decimal(*count as nat) + "/"@ + decimal(*max as nat)));
        },
        SubscriberError::UnknownOwner { owner } => {
            out.append("hybrid source routed a delivery through unknown owner ");
            say(out, owner.as_str(), Ghost(start), Ghost("hybrid source routed a delivery through unknown owner "@));
        },
        SubscriberError::SequenceRefused { reason } => {
            out.append("hybrid checkpoint canonical sequence is invalid: ");
            say(out, reason.as_str(), Ghost(start), Ghost("hybrid checkpoint canonical sequence is invalid: "@));
        },
        SubscriberError::AncestorTooOld { number } => {
            out.append("hybrid reorg ancestor ");
            say_decimal(out, *number as u64, Ghost(start), Ghost("hybrid reorg ancestor "@));
            say(out, " is older than the retained canonical effect window", Ghost(start), Ghost("hybrid reorg ancestor "@ + decimal(*number as nat)));
        },
        SubscriberError::AncestorMismatch { number } => {
            out.append("hybrid reorg ancestor hash or metadata mismatch at block ");
            say_decimal(out, *number as u64, Ghost(start), Ghost("hybrid reorg ancestor hash or metadata mismatch at block "@));
        },
        SubscriberError::OutsideHistory { number } => {
            out.append("hybrid canonical block ");
            say_decimal(out, *number as u64, Ghost(start), Ghost("hybrid canonical block "@));
            say(out, " is outside retained history", Ghost(start), Ghost("hybrid canonical block "@ + decimal(*number as nat)));
        },
        SubscriberError::ParentMismatch { number } => {
            out.append("hybrid canonical parent mismatch at block ");
            say_decimal(out, *number as u64, Ghost(start), Ghost("hybrid canonical parent mismatch at block "@));
        },
        SubscriberError::ProtectedSuffixExceedsBudgets { protected, owners } => {
            out.append("hybrid current delivery needs ");
            say_decimal(out, *protected as u64, Ghost(start), Ghost("hybrid current delivery needs "@));
            say(out, " protected recent witnesses and ", Ghost(start), Ghost("hybrid current delivery needs "@ + decimal(*protected as nat)));
            say_decimal(out, *owners as u64, Ghost(start), Ghost("hybrid current delivery needs "@ + decimal(*protected as nat) + " protected recent witnesses and "@));
            say(out, " owner associations, exceeding the configured durable journal budgets", Ghost(start), Ghost("hybrid current delivery needs "@ + decimal(*protected as nat) + " protected recent witnesses and "@ + decimal(*owners as nat)));
        },
        SubscriberError::ProtectedSuffixTooLarge { limit, needs } => {
            out.append("hybrid current delivery cannot fit its protected witness suffix in the ");
            say_decimal(out, *limit as u64, Ghost(start), Ghost("hybrid current delivery cannot fit its protected witness suffix in the "@));
            say(out, "-byte durable checkpoint payload (needs at least ", Ghost(start), Ghost("hybrid current delivery cannot fit its protected witness suffix in the "@ + decimal(*limit as nat)));
            say_decimal(out, *needs as u64, Ghost(start), Ghost("hybrid current delivery cannot fit its protected witness suffix in the "@ + decimal(*limit as nat) + "-byte durable checkpoint payload (needs at least "@));
            say(out, " bytes)", Ghost(start), Ghost("hybrid current delivery cannot fit its protected witness suffix in the "@ + decimal(*limit as nat) + "-byte durable checkpoint payload (needs at least "@ + decimal(*needs as nat)));
        },
        SubscriberError::NoRoomForDelivery { context, kind, origin, cause } => {
            out.append(context);
            say(out, " cannot retain one protected delivery witness for the maximum canonical-log delivery (", Ghost(start), Ghost(context@));
            say(out, kind, Ghost(start), Ghost(context@ + " cannot retain one protected delivery witness for the maximum canonical-log delivery ("@));
            say(out, ") from the ", Ghost(start), Ghost(context@ + " cannot retain one protected delivery witness for the maximum canonical-log delivery ("@ + kind@));
            say(out, origin, Ghost(start), Ghost(context@ + " cannot retain one protected delivery witness for the maximum canonical-log delivery ("@ + kind@ + ") from the "@));
            say(out, " source: ", Ghost(start), Ghost(context@ + " cannot retain one protected delivery witness for the maximum canonical-log delivery ("@ + kind@ + ") from the "@ + origin@));
            push_text(out, cause);
            proof {
                lemma_say(start, context@ + " cannot retain one protected delivery witness for the maximum canonical-log delivery ("@ + kind@ + ") from the "@ + origin@ + " source: "@, text(**cause));
            }
        },
        SubscriberError::HeaderTooLarge { limit } => {
            out.append("hybrid serialized block header exceeds the remaining ingress byte bound (");
            say_decimal(out, *limit as u64, Ghost(start), Ghost("hybrid serialized block header exceeds the remaining ingress byte bound ("@));
            say(out, " bytes)", Ghost(start), Ghost("hybrid serialized block header exceeds the remaining ingress byte bound ("@ + decimal(*limit as nat)));
        },
        SubscriberError::HeaderNotJson { reason } => {
            out.append("failed to canonicalize exact hybrid block-header witness: ");
            say(out, reason.as_str(), Ghost(start), Ghost("failed to canonicalize exact hybrid block-header witness: "@));
        },
        SubscriberError::RecordChain { named, expected } => {
            out.append("hybrid source record has chain ");
            push_option(out, named);
            proof {
                lemma_say(start, "hybrid source record has chain "@, option_text(*named));
            }
            say(out, "; expected ", Ghost(start), Ghost("hybrid source record has chain "@ + option_text(*named)));
            say_decimal(out, *expected as u64, Ghost(start), Ghost("hybrid source record has chain "@ + option_text(*named) + "; expected "@));
        },
        SubscriberError::BatchChain { named, expected } => {
            out.append("hybrid child batch has chain ");
            push_option(out, named);
            proof {
                lemma_say(start, "hybrid child batch has chain "@, option_text(*named));
            }
            say(out, "; expected ", Ghost(start), Ghost("hybrid child batch has chain "@ + option_text(*named)));
            say_decimal(out, *expected as u64, Ghost(start), Ghost("hybrid child batch has chain "@ + option_text(*named) + "; expected "@));
        },
        SubscriberError::IngressToken { length, max } => {
            out.append("hybrid child delivery token exceeds the configured opaque cursor bound (");
            say_decimal(out, *length as u64, Ghost(start), Ghost("hybrid child delivery token exceeds the configured opaque cursor bound ("@));
            say(out, "/", Ghost(start), Ghost("hybrid child delivery token exceeds the configured opaque cursor bound ("@ + decimal(*length as nat)));
            say_decimal(out, *max as u64, Ghost(start), Ghost("hybrid child delivery token exceeds the configured opaque cursor bound ("@ + decimal(*length as nat) + "/"@));
            say(out, " bytes)", Ghost(start), Ghost("hybrid child delivery token exceeds the configured opaque cursor bound ("@ + decimal(*length as nat) + "/"@ + decimal(*max as nat)));
        },
        SubscriberError::IngressCheckpoint { length, max } => {
            out.append("hybrid child checkpoint exceeds the configured opaque cursor bound (");
            say_decimal(out, *length as u64, Ghost(start), Ghost("hybrid child checkpoint exceeds the configured opaque cursor bound ("@));
            say(out, "/", Ghost(start), Ghost("hybrid child checkpoint exceeds the configured opaque cursor bound ("@ + decimal(*length as nat)));
            say_decimal(out, *max as u64, Ghost(start), Ghost("hybrid child checkpoint exceeds the configured opaque cursor bound ("@ + decimal(*length as nat) + "/"@));
            say(out, " bytes)", Ghost(start), Ghost("hybrid child checkpoint exceeds the configured opaque cursor bound ("@ + decimal(*length as nat) + "/"@ + decimal(*max as nat)));
        },
        SubscriberError::IngressRecords { count, max } => {
            out.append("hybrid child batch exceeds configured per-batch ingress record bound (");
            say_decimal(out, *count as u64, Ghost(start), Ghost("hybrid child batch exceeds configured per-batch ingress record bound ("@));
            say(out, "/", Ghost(start), Ghost("hybrid child batch exceeds configured per-batch ingress record bound ("@ + decimal(*count as nat)));
            say_decimal(out, *max as u64, Ghost(start), Ghost("hybrid child batch exceeds configured per-batch ingress record bound ("@ + decimal(*count as nat) + "/"@));
            say(out, ")", Ghost(start), Ghost("hybrid child batch exceeds configured per-batch ingress record bound ("@ + decimal(*count as nat) + "/"@ + decimal(*max as nat)));
        },
        SubscriberError::IngressControls { count, max } => {
            out.append("hybrid child batch exceeds the derived per-batch ingress control bound (");
            say_decimal(out, *count as u64, Ghost(start), Ghost("hybrid child batch exceeds the derived per-batch ingress control bound ("@));
            say(out, "/", Ghost(start), Ghost("hybrid child batch exceeds the derived per-batch ingress control bound ("@ + decimal(*count as nat)));
            say_decimal(out, *max as u64, Ghost(start), Ghost("hybrid child batch exceeds the derived per-batch ingress control bound ("@ + decimal(*count as nat) + "/"@));
            say(out, ")", Ghost(start), Ghost("hybrid child batch exceeds the derived per-batch ingress control bound ("@ + decimal(*count as nat) + "/"@ + decimal(*max as nat)));
        },
        SubscriberError::IngressBytes { bytes, max } => {
            out.append("hybrid child batch exceeds configured per-batch ingress byte bound (");
            say_decimal(out, *bytes as u64, Ghost(start), Ghost("hybrid child batch exceeds configured per-batch ingress byte bound ("@));
            say(out, "/", Ghost(start), Ghost("hybrid child batch exceeds configured per-batch ingress byte bound ("@ + decimal(*bytes as nat)));
            say_decimal(out, *max as u64, Ghost(start), Ghost("hybrid child batch exceeds configured per-batch ingress byte bound ("@ + decimal(*bytes as nat) + "/"@));
            say(out, ")", Ghost(start), Ghost("hybrid child batch exceeds configured per-batch ingress byte bound ("@ + decimal(*bytes as nat) + "/"@ + decimal(*max as nat)));
        },
        SubscriberError::BlockConflict { number } => {
            out.append("hybrid canonical block identity conflicts at height ");
            say_decimal(out, *number as u64, Ghost(start), Ghost("hybrid canonical block identity conflicts at height "@));
        },
        SubscriberError::MetadataConflict { label, number } => {
            out.append("hybrid canonical ");
            say(out, label, Ghost(start), Ghost("hybrid canonical "@));
            say(out, " conflicts at block ", Ghost(start), Ghost("hybrid canonical "@ + label@));
            say_decimal(out, *number as u64, Ghost(start), Ghost("hybrid canonical "@ + label@ + " conflicts at block "@));
        },
        SubscriberError::OverlapOutside { number } => {
            out.append("canonical overlap at block ");
            say_decimal(out, *number as u64, Ghost(start), Ghost("canonical overlap at block "@));
            say(out, " is outside retained hybrid history; increase canonical_history_capacity or perform a full resynchronization", Ghost(start), Ghost("canonical overlap at block "@ + decimal(*number as nat)));
        },
        SubscriberError::OverlapConflict { number } => {
            out.append("historical/live overlap conflicts with committed canonical metadata at block ");
            say_decimal(out, *number as u64, Ghost(start), Ghost("historical/live overlap conflicts with committed canonical metadata at block "@));
            say(out, " without a usable reorg control", Ghost(start), Ghost("historical/live overlap conflicts with committed canonical metadata at block "@ + decimal(*number as nat)));
        },
        SubscriberError::OwnerCatchupOverlap { number, cause } => {
            out.append("hybrid owner-catchup block ");
            say_decimal(out, *number as u64, Ghost(start), Ghost("hybrid owner-catchup block "@));
            say(out, " is not an exact retained canonical overlap; owner-only effects require a pre-existing core rollback-journal entry and cannot advance canonical state (", Ghost(start), Ghost("hybrid owner-catchup block "@ + decimal(*number as nat)));
            push_text(out, cause);
            proof {
                lemma_say(start, "hybrid owner-catchup block "@ + decimal(*number as nat) + " is not an exact retained canonical overlap; owner-only effects require a pre-existing core rollback-journal entry and cannot advance canonical state ("@, text(**cause));
            }
            say(out, ")", Ghost(start), Ghost("hybrid owner-catchup block "@ + decimal(*number as nat) + " is not an exact retained canonical overlap; owner-only effects require a pre-existing core rollback-journal entry and cannot advance canonical state ("@ + text(**cause)));
        },
        SubscriberError::RecoveryAncestorConflict { number } => {
            out.append("historical recovery reorg has a conflicting ancestor hash at block ");
            say_decimal(out, *number as u64, Ghost(start), Ghost("historical recovery reorg has a conflicting ancestor hash at block "@));
        },
        SubscriberError::RecoveryAncestorTooOld { number } => {
            out.append("historical recovery reorg ancestor ");
            say_decimal(out, *number as u64, Ghost(start), Ghost("historical recovery reorg ancestor "@));
            say(out, " is older than retained hybrid history; full resynchronization is required", Ghost(start), Ghost("historical recovery reorg ancestor "@ + decimal(*number as nat)));
        },
        SubscriberError::LiveBufferExceeded { batches, max_batches, records, max_records, bytes, max_bytes } => {
            out.append("hybrid live buffer exceeded configured bounds before cutover (batches ");
            say_decimal(out, *batches as u64, Ghost(start), Ghost("hybrid live buffer exceeded configured bounds before cutover (batches "@));
            say(out, "/", Ghost(start), Ghost("hybrid live buffer exceeded configured bounds before cutover (batches "@ + decimal(*batches as nat)));
            say_decimal(out, *max_batches as u64, Ghost(start), Ghost("hybrid live buffer exceeded configured bounds before cutover (batches "@ + decimal(*batches as nat) + "/"@));
            say(out, ", records ", Ghost(start), Ghost("hybrid live buffer exceeded configured bounds before cutover (batches "@ + decimal(*batches as nat) + "/"@ + decimal(*max_batches as nat)));
            say_decimal(out, *records as u64, Ghost(start), Ghost("hybrid live buffer exceeded configured bounds before cutover (batches "@ + decimal(*batches as nat) + "/"@ + decimal(*max_batches as nat) + ", records "@));
            say(out, "/", Ghost(start), Ghost("hybrid live buffer exceeded configured bounds before cutover (batches "@ + decimal(*batches as nat) + "/"@ + decimal(*max_batches as nat) + ", records "@ + decimal(*records as nat)));
            say_decimal(out, *max_records as u64, Ghost(start), Ghost("hybrid live buffer exceeded configured bounds before cutover (batches "@ + decimal(*batches as nat) + "/"@ + decimal(*max_batches as nat) + ", records "@ + decimal(*records as nat) + "/"@));
            say(out, ", accounted bytes ", Ghost(start), Ghost("hybrid live buffer exceeded configured bounds before cutover (batches "@ + decimal(*batches as nat) + "/"@ + decimal(*max_batches as nat) + ", records "@ + decimal(*records as nat) + "/"@ + decimal(*max_records as nat)));
            say_decimal(out, *bytes as u64, Ghost(start), Ghost("hybrid live buffer exceeded configured bounds before cutover (batches "@ + decimal(*batches as nat) + "/"@ + decimal(*max_batches as nat) + ", records "@ + decimal(*records as nat) + "/"@ + decimal(*max_records as nat) + ", accounted bytes "@));
            say(out, "/", Ghost(start), Ghost("hybrid live buffer exceeded configured bounds before cutover (batches "@ + decimal(*batches as nat) + "/"@ + decimal(*max_batches as nat) + ", records "@ + decimal(*records as nat) + "/"@ + decimal(*max_records as nat) + ", accounted bytes "@ + decimal(*bytes as nat)));
            say_decimal(out, *max_bytes as u64, Ghost(start), Ghost("hybrid live buffer exceeded configured bounds before cutover (batches "@ + decimal(*batches as nat) + "/"@ + decimal(*max_batches as nat) + ", records "@ + decimal(*records as nat) + "/"@ + decimal(*max_records as nat) + ", accounted bytes "@ + decimal(*bytes as nat) + "/"@));
            say(out, ")", Ghost(start), Ghost("hybrid live buffer exceeded configured bounds before cutover (batches "@ + decimal(*batches as nat) + "/"@ + decimal(*max_batches as nat) + ", records "@ + decimal(*records as nat) + "/"@ + decimal(*max_records as nat) + ", accounted bytes "@ + decimal(*bytes as nat) + "/"@ + decimal(*max_bytes as nat)));
        },
        SubscriberError::Poisoned { reason } => {
            out.append("hybrid coordinator is poisoned: ");
            say(out, reason.as_str(), Ghost(start), Ghost("hybrid coordinator is poisoned: "@));
        },
        SubscriberError::SourceChainChanged { source, found, expected } => {
            out.append("hybrid ");
            say(out, source_label(*source), Ghost(start), Ghost("hybrid "@));
            say(out, " source changed to chain ", Ghost(start), Ghost("hybrid "@ + source_name(*source)@));
            say_decimal(out, *found as u64, Ghost(start), Ghost("hybrid "@ + source_name(*source)@ + " source changed to chain "@));
            say(out, "; expected ", Ghost(start), Ghost("hybrid "@ + source_name(*source)@ + " source changed to chain "@ + decimal(*found as nat)));
            say_decimal(out, *expected as u64, Ghost(start), Ghost("hybrid "@ + source_name(*source)@ + " source changed to chain "@ + decimal(*found as nat) + "; expected "@));
        },
        SubscriberError::SourceChainUnresolved { source, expected } => {
            out.append("hybrid ");
            say(out, source_label(*source), Ghost(start), Ghost("hybrid "@));
            say(out, " source has not resolved required chain ", Ghost(start), Ghost("hybrid "@ + source_name(*source)@));
            say_decimal(out, *expected as u64, Ghost(start), Ghost("hybrid "@ + source_name(*source)@ + " source has not resolved required chain "@));
        },
        SubscriberError::RestoreWrongChain { expected } => {
            out.append("hybrid restore targets the wrong chain; expected ");
            say_decimal(out, *expected as u64, Ghost(start), Ghost("hybrid restore targets the wrong chain; expected "@));
        },
        SubscriberError::RestoreChain { found, expected } => {
            out.append("hybrid restore targets chain ");
            say_decimal(out, *found as u64, Ghost(start), Ghost("hybrid restore targets chain "@));
            say(out, ", but this coordinator targets ", Ghost(start), Ghost("hybrid restore targets chain "@ + decimal(*found as nat)));
            say_decimal(out, *expected as u64, Ghost(start), Ghost("hybrid restore targets chain "@ + decimal(*found as nat) + ", but this coordinator targets "@));
        },
        SubscriberError::RestoreCoverage { checkpoint, runtime } => {
            out.append("hybrid checkpoint coverage ");
            say_decimal(out, *checkpoint as u64, Ghost(start), Ghost("hybrid checkpoint coverage "@));
            say(out, " does not match restored runtime coverage ", Ghost(start), Ghost("hybrid checkpoint coverage "@ + decimal(*checkpoint as nat)));
            say_decimal(out, *runtime as u64, Ghost(start), Ghost("hybrid checkpoint coverage "@ + decimal(*checkpoint as nat) + " does not match restored runtime coverage "@));
        },
        SubscriberError::RuntimeHistoryConflict { number } => {
            out.append("runtime canonical history conflicts with the hybrid checkpoint at block ");
            say_decimal(out, *number as u64, Ghost(start), Ghost("runtime canonical history conflicts with the hybrid checkpoint at block "@));
        },
        SubscriberError::RuntimeCoverageConflict { number } => {
            out.append("runtime canonical history conflicts with hybrid input coverage at block ");
            say_decimal(out, *number as u64, Ghost(start), Ghost("runtime canonical history conflicts with hybrid input coverage at block "@));
        },
        SubscriberError::MissingReplayToken { source } => {
            out.append("hybrid restored ");
            say(out, source_label(*source), Ghost(start), Ghost("hybrid restored "@));
            say(out, " acknowledgement is missing its child token", Ghost(start), Ghost("hybrid restored "@ + source_name(*source)@));
        },
        SubscriberError::NeedsHistory { reason } => {
            out.append("hybrid canonical sequence requires durable historical recovery: ");
            say(out, reason.as_str(), Ghost(start), Ghost("hybrid canonical sequence requires durable historical recovery: "@));
        },
        SubscriberError::SequenceFailed { reason } => {
            out.append("hybrid canonical sequence validation failed: ");
            say(out, reason.as_str(), Ghost(start), Ghost("hybrid canonical sequence validation failed: "@));
        },
        SubscriberError::ActivationBaseline { number, cause } => {
            out.append("hybrid canonical owner activation baseline ");
            say_decimal(out, *number as u64, Ghost(start), Ghost("hybrid canonical owner activation baseline "@));
            say(out, " is not an exact retained canonical block (", Ghost(start), Ghost("hybrid canonical owner activation baseline "@ + decimal(*number as nat)));
            push_text(out, cause);
            proof {
                lemma_say(start, "hybrid canonical owner activation baseline "@ + decimal(*number as nat) + " is not an exact retained canonical block ("@, text(**cause));
            }
            say(out, ")", Ghost(start), Ghost("hybrid canonical owner activation baseline "@ + decimal(*number as nat) + " is not an exact retained canonical block ("@ + text(**cause)));
        },
        SubscriberError::RollbackFailed { step, cause, rollback } => {
            out.append(step);
            say(out, " (", Ghost(start), Ghost(step@));
            push_text(out, cause);
            proof {
                lemma_say(start, step@ + " ("@, text(**cause));
            }
            say(out, "); ", Ghost(start), Ghost(step@ + " ("@ + text(**cause)));
            push_text(out, rollback);
            proof {
                lemma_say(start, step@ + " ("@ + text(**cause) + "); "@, text(**rollback));
            }
        },
        SubscriberError::LifecycleGap { scope, number } => {
            out.append(scope);
            say(out, " changed on the live source after acknowledged coverage at block ", Ghost(start), Ghost(scope@));
            say_decimal(out, *number as u64, Ghost(start), Ghost(scope@ + " changed on the live source after acknowledged coverage at block "@));
            say(out, ", but the durable historical commit did not complete; ordinary compensation restored the prior filters without proving the intervening live mutation window is free of an event gap. Reconstruct the coordinator from an authoritative checkpoint", Ghost(start), Ghost(scope@ + " changed on the live source after acknowledged coverage at block "@ + decimal(*number as nat)));
        },
        SubscriberError::RollbackPending { label, first, second } => {
            out.append(label);
            say(out, " rollback remains pending (historical: ", Ghost(start), Ghost(label@));
            say(out, first.as_str(), Ghost(start), Ghost(label@ + " rollback remains pending (historical: "@));
            say(out, "; live: ", Ghost(start), Ghost(label@ + " rollback remains pending (historical: "@ + first@));
            say(out, second.as_str(), Ghost(start), Ghost(label@ + " rollback remains pending (historical: "@ + first@ + "; live: "@));
            say(out, ")", Ghost(start), Ghost(label@ + " rollback remains pending (historical: "@ + first@ + "; live: "@ + second@));
        },
        SubscriberError::History { label, fault } => {
            push_history(out, label, fault);
        },
        SubscriberError::Source { label, problem } => {
            push_position(out, label, problem);
        },
    }
}

impl SubscriberError {
    /// The text of the error.
    pub fn message(&self) -> (r: String)
        ensures
            r@ == text(*self),
    {
        let mut out = String::new();
        push_text(&mut out, self);
        assert(out@ =~= text(*self));
        out
    }
}

} // verus!
