//! Coordination of a historical and a live event source for one chain:
//! bounded canonical history, audience bookkeeping, durable checkpoints and
//! the lifecycle of a subscription, each with its contract.

pub mod audience;
pub mod barrier;
pub mod capacity;
pub mod chain_laws;
pub mod checkpoint;
pub mod codec;
pub mod commit;
pub mod config;
pub mod coverage_laws;
pub mod cursor_laws;
pub mod decode;
pub mod dedup_laws;
pub mod delivery;
pub mod encode;
pub mod error;
pub mod exactly_once_laws;
pub mod filter;
pub mod fit;
pub mod flow;
pub mod flow_laws;
pub mod format_laws;
pub mod framing;
pub mod header;
pub mod header_laws;
pub mod history;
pub mod identities;
pub mod ingress;
pub mod ingress_laws;
pub mod intent;
pub mod intent_laws;
pub mod json_laws;
pub mod laws;
pub mod lifecycle;
pub mod lifecycle_laws;
pub mod limits;
pub mod limits_laws;
pub mod message;
pub mod model;
pub mod overlap;
pub mod owners;
pub mod plan;
pub mod probe;
pub mod probe_laws;
pub mod record_laws;
pub mod records;
pub mod recovery_laws;
pub mod reserve_laws;
pub mod restore;
pub mod restore_laws;
pub mod resume_laws;
pub mod rlp;
pub mod rollback;
pub mod rollback_laws;
pub mod room_laws;
pub mod selection;
pub mod source_laws;
pub mod state;
pub mod steps;
pub mod subscriber;
pub mod token;
pub mod topology;
pub mod topology_laws;
pub mod transcript;
pub mod validate;
pub mod validity_laws;
pub mod wire;
pub mod wire_laws;
pub mod words;

pub use checkpoint::HybridSource;
pub use config::HybridConfig;
pub use error::SubscriberError;
pub use state::HybridPhase;
pub use subscriber::HybridSubscriber;
