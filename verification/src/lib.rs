//! A threshold-voting bridge core: a fixed set of validators jointly
//! authorize cross-chain transfer events.  Independently submitted,
//! possibly duplicate attestations of one external event are deduplicated
//! into a single proposal; assenting votes are tallied against an integer
//! 51% threshold; an accepted proposal executes its mint or burn action on
//! the in-memory ledger exactly once; proposals that resolve neither way
//! are expired by a per-block deadline sweep.

pub mod engine;
pub mod kvlist;
pub mod ledger;
pub mod types;

pub use engine::Module;
pub use ledger::Ledger;
pub use types::Action;
pub use types::BridgeProposal;
pub use types::Error;
pub use types::Event;
pub use types::ExecutionError;
pub use types::Outcome;
pub use types::Validator;
