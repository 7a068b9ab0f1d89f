//! The daemon record: one remote network-diagnostic agent, keyed by a unique
//! id, bound to one host, reachable at an IPv4 address and port, and grouped
//! into a logical network. Identities (daemon id, host id, network id) are
//! 128-bit values; the surrounding process renders them as UUIDs.

use vstd::prelude::*;

verus! {

/// An IPv4 address held as its four octets: the plain-value model of the
/// address a daemon listens on.
#[derive(Clone, Copy, Debug, PartialEq, Eq, Structural)]
pub struct IpV4 {
    pub a: u8,
    pub b: u8,
    pub c: u8,
    pub d: u8,
}

impl IpV4 {
    /// Builds the address `a.b.c.d`.
    pub fn new(a: u8, b: u8, c: u8, d: u8) -> (r: IpV4)
        ensures
            r == (IpV4 { a, b, c, d }),
    {
        IpV4 { a, b, c, d }
    }
}

/// One registered daemon.
///
/// `registered_at` is immutable after creation; `last_seen` only ever grows
/// (refreshed by heartbeats); `host_id`, `ip` and `port` change only through
/// an explicit update. Timestamps are milliseconds of UTC wall-clock time.
#[derive(Debug)]
pub struct DaemonRecord {
    /// Unique identity, generated by the caller at registration.
    pub id: u128,
    /// The host the daemon runs on; one daemon per host.
    pub host_id: u128,
    /// Logical grouping / tenancy of the daemon.
    pub network_id: u128,
    /// Address the daemon listens on.
    pub ip: IpV4,
    /// Port the daemon listens on.
    pub port: u16,
    /// Secret credential presented on inbound calls; unique per daemon.
    pub api_key: String,
    /// Timestamp of the last heartbeat; never decreases.
    pub last_seen: u64,
    /// Timestamp of registration; never changes.
    pub registered_at: u64,
}

impl Clone for DaemonRecord {
    /// A clone is equal to the original, field for field.
    fn clone(&self) -> (r: Self)
        ensures
            r == *self,
    {
        DaemonRecord {
            id: self.id,
            host_id: self.host_id,
            network_id: self.network_id,
            ip: self.ip,
            port: self.port,
            api_key: self.api_key.clone(),
            last_seen: self.last_seen,
            registered_at: self.registered_at,
        }
    }
}

impl DaemonRecord {
    /// The record as it stands after a heartbeat at time `now`: only
    /// `last_seen` moves, and never backwards.
    pub open spec fn after_heartbeat(self, now: u64) -> DaemonRecord {
        DaemonRecord {
            last_seen: if self.last_seen >= now {
                self.last_seen
            } else {
                now
            },
            ..self
        }
    }

    /// The record as it stands after an explicit update taking `host_id`,
    /// `ip`, `port` and `last_seen` from `patch`: identity, grouping,
    /// credential and registration time are immutable.
    pub open spec fn after_update(self, patch: DaemonRecord) -> DaemonRecord {
        DaemonRecord {
            host_id: patch.host_id,
            ip: patch.ip,
            port: patch.port,
            last_seen: patch.last_seen,
            ..self
        }
    }
}

} // verus!
