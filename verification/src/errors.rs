//! Error taxonomy of the fleet core. Storage and transport failures carry the
//! daemon id and session id that callers need to correlate them in logs.

use vstd::prelude::*;

verus! {

/// Every failure the fleet core can surface. Raw engine or transport errors
/// are always wrapped into one of these.
#[derive(Clone, Copy, Debug, PartialEq, Eq, Structural)]
pub enum FleetError {
    /// A create hit a uniqueness violation (`id`, `host_id` or `api_key`).
    Conflict,
    /// An operation referenced an id the store does not hold.
    NotFound,
    /// A daemon could not be reached at the network level.
    TransportFailure { daemon_id: u128, session_id: u128 },
    /// A daemon was reachable but answered with an application-level failure.
    RemoteRejected { daemon_id: u128, session_id: u128 },
    /// A stored or transmitted address or payload was malformed.
    SerializationFailure,
    /// An illegal session state change was attempted; per the session rules it
    /// is treated as a no-op, so this variant is never surfaced by `advance`.
    InvalidTransition,
}

impl FleetError {
    /// True of the failures that a caller may retry without changing the
    /// request: the remote side, not the request, was at fault.
    pub open spec fn spec_is_remote(self) -> bool {
        self is TransportFailure || self is RemoteRejected
    }

    /// Executable twin of `spec_is_remote`.
    pub fn is_remote(&self) -> (r: bool)
        ensures
            r == self.spec_is_remote(),
    {
        match self {
            FleetError::TransportFailure { .. } => true,
            FleetError::RemoteRejected { .. } => true,
            _ => false,
        }
    }
}

} // verus!
