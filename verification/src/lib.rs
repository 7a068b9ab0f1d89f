//! Control plane core for a fleet of network-diagnostic daemons: a registry
//! of daemon records, a table of time-bounded discovery sessions with a
//! monotonic state machine, and the reclaim sweeps that expire overdue
//! sessions and evict stale terminal ones.

pub mod daemon;
pub mod errors;
pub mod fleet;
pub mod parse;
pub mod reclaim;
pub mod session;
pub mod store;
pub mod text;

pub use errors::FleetError;
