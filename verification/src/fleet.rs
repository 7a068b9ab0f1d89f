//! The fleet service: owner of the daemon lifecycle (register, lookup, list,
//! update, heartbeat, delete) over the record store, and the decision logic
//! of outbound dispatch — which endpoint a discovery or cancellation call
//! goes to, and what its observed outcome means. The HTTP transport itself
//! is carried by the surrounding process, which hands the observed outcome
//! back as a plain value.

use vstd::prelude::*;

use crate::daemon::DaemonRecord;
use crate::daemon::IpV4;
use crate::errors::FleetError;
use crate::reclaim::RECLAIM_INTERVAL_MS;
use crate::reclaim::RETENTION_WINDOW_MS;
use crate::reclaim::RUNNING_TIME_CEILING_MS;
use crate::reclaim::Reclaimer;
use crate::session::DiscoverySessionTable;
use crate::session::SessionState;
use crate::session::advance_model;
use crate::session::index_of_sid;
use crate::session::sid_taken;
use crate::session::DiscoverySession;
use crate::store::DaemonStore;
use crate::store::conflicts_with;
use crate::store::find_by_host;
use crate::store::find_by_id;
use crate::store::find_by_key;
use crate::store::heartbeat_model;
use crate::store::id_taken;
use crate::store::index_of_id;
use crate::store::matching;
use crate::store::newest_first;
use crate::store::update_host_conflict;
use crate::text::dec_chars;
use crate::text::format_ipv4;
use crate::text::ipv4_chars;
use crate::text::u64_to_string;

verus! {

/// The URL of an HTTP route on a daemon: scheme, dotted-quad host, decimal
/// port, path.
pub open spec fn http_url_chars(ip: IpV4, port: u16, path: Seq<char>) -> Seq<char> {
    "http://"@ + ipv4_chars(ip) + seq![':'] + dec_chars(port as nat) + path
}

/// A network endpoint on a daemon, built from its stored address.
#[derive(Debug)]
pub struct Endpoint {
    pub ip: IpV4,
    pub port: u16,
    pub path: String,
}

impl Endpoint {
    /// Renders the endpoint as the URL the transport posts to.
    pub fn url(&self) -> (r: String)
        ensures
            r@ == http_url_chars(self.ip, self.port, self.path@),
    {
        let mut s = String::from_str("http://");
        let ip_text = format_ipv4(self.ip);
        s.append(ip_text.as_str());
        s.append(":");
        let port_text = u64_to_string(self.port as u64);
        s.append(port_text.as_str());
        s.append(self.path.as_str());
        proof {
            reveal_strlit(":");
            assert(s@ =~= http_url_chars(self.ip, self.port, self.path@));
        }
        s
    }
}

/// The endpoint a discovery request for a daemon goes to: its address, on
/// the fixed initiation path.
pub fn discovery_endpoint(daemon: &DaemonRecord) -> (r: Endpoint)
    ensures
        r.ip == daemon.ip,
        r.port == daemon.port,
        r.path@ == "/api/discovery/initiate"@,
{
    Endpoint { ip: daemon.ip, port: daemon.port, path: String::from_str("/api/discovery/initiate") }
}

/// The endpoint a cancellation for a daemon goes to: its address, on the
/// fixed cancellation path.
pub fn cancellation_endpoint(daemon: &DaemonRecord) -> (r: Endpoint)
    ensures
        r.ip == daemon.ip,
        r.port == daemon.port,
        r.path@ == "/api/discovery/cancel"@,
{
    Endpoint { ip: daemon.ip, port: daemon.port, path: String::from_str("/api/discovery/cancel") }
}

/// What the transport observed when it carried a dispatch to a daemon:
/// either no response at the network level, or a response with its HTTP
/// status and the application-level `success` flag of the envelope.
#[derive(Clone, Copy, Debug, PartialEq, Eq, Structural)]
pub enum DispatchOutcome {
    /// The daemon could not be reached.
    NoResponse,
    /// The daemon answered with this HTTP status; `success` is the flag of
    /// its response envelope.
    Responded { status: u16, success: bool },
}

/// An outbound call — discovery dispatch and cancellation alike — counts as
/// successful only when both layers agree: the HTTP status is in the success
/// range and the envelope's flag is set.
pub open spec fn dispatch_ok(o: DispatchOutcome) -> bool {
    match o {
        DispatchOutcome::NoResponse => false,
        DispatchOutcome::Responded { status, success } => 200 <= status < 300 && success,
    }
}

/// The failure a dispatch outcome maps to, carrying the daemon and session
/// ids for correlation: unreachable is a transport failure; a reachable
/// daemon that answered outside the success range, or with a cleared flag,
/// rejected the request.
pub open spec fn dispatch_error(o: DispatchOutcome, daemon_id: u128, session_id: u128) -> FleetError {
    if o is NoResponse {
        FleetError::TransportFailure { daemon_id, session_id }
    } else {
        FleetError::RemoteRejected { daemon_id, session_id }
    }
}

/// Decides an outbound call from its observed outcome: success exactly when
/// the transport succeeded and the envelope's flag was set; otherwise the
/// matching failure, with the daemon and session ids attached. No retry
/// happens at this layer — the caller decides what the failure means.
pub fn interpret_dispatch(o: DispatchOutcome, daemon_id: u128, session_id: u128) -> (r: Result<
    (),
    FleetError,
>)
    ensures
        dispatch_ok(o) ==> r == Ok::<(), FleetError>(()),
        !dispatch_ok(o) ==> r == Err::<(), FleetError>(dispatch_error(o, daemon_id, session_id)),
{
    match o {
        DispatchOutcome::NoResponse => Err(
            FleetError::TransportFailure { daemon_id, session_id },
        ),
        DispatchOutcome::Responded { status, success } => {
            if 200 <= status && status < 300 && success {
                Ok(())
            } else {
                Err(FleetError::RemoteRejected { daemon_id, session_id })
            }
        },
    }
}

/// Relies on chrono's `Utc::now`: the wall clock, read as milliseconds since
/// the Unix epoch. Nothing is promised of the reading; callers state what
/// holds whatever the clock returned. Note that `Utc::now` itself panics on
/// a system clock standing before the Unix epoch.
#[verifier::external_body]
fn now_utc_millis() -> i64 {
    chrono::Utc::now().timestamp_millis()
}

/// The fleet service: the one owner of the daemon records. All daemon
/// lifecycle operations go through it; its view is the sequence of stored
/// records, newest registration first.
pub struct DaemonService {
    daemon_storage: DaemonStore,
}

impl View for DaemonService {
    type V = Seq<DaemonRecord>;

    closed spec fn view(&self) -> Seq<DaemonRecord> {
        self.daemon_storage@
    }
}

impl DaemonService {
    /// The service's invariant: the record store's own.
    pub closed spec fn wf(&self) -> bool {
        self.daemon_storage.wf()
    }

    /// A service over the given store.
    pub fn new(daemon_storage: DaemonStore) -> (r: DaemonService)
        requires
            daemon_storage.wf(),
        ensures
            r@ == daemon_storage@,
            r.wf(),
    {
        DaemonService { daemon_storage }
    }

    /// Registers a new daemon and returns the stored record. Fails with
    /// `Conflict`, leaving the fleet unchanged, exactly when the daemon id,
    /// host id or api key is already taken; the caller generates a fresh id
    /// and key before calling.
    pub fn register_daemon(&mut self, daemon: DaemonRecord) -> (r: Result<
        DaemonRecord,
        FleetError,
    >)
        requires
            old(self).wf(),
        ensures
            final(self).wf(),
            conflicts_with(old(self)@, daemon) ==> r == Err::<DaemonRecord, FleetError>(
                FleetError::Conflict,
            ) && final(self)@ == old(self)@,
            !conflicts_with(old(self)@, daemon) ==> r == Ok::<DaemonRecord, FleetError>(daemon)
                && exists|p: int|
                0 <= p <= old(self)@.len() && final(self)@ == old(self)@.insert(p, daemon),
    {
        let stored = daemon.clone();
        match self.daemon_storage.create(daemon) {
            Ok(()) => Ok(stored),
            Err(e) => Err(e),
        }
    }

    /// Looks up a daemon by id; a miss is `None`, never an error.
    pub fn get_daemon(&self, id: u128) -> (r: Result<Option<DaemonRecord>, FleetError>)
        requires
            self.wf(),
        ensures
            r == Ok::<Option<DaemonRecord>, FleetError>(find_by_id(self@, id)),
    {
        Ok(self.daemon_storage.get_by_id(id))
    }

    /// Looks up the daemon of a host; one daemon runs per host.
    pub fn get_host_daemon(&self, host_id: u128) -> (r: Result<Option<DaemonRecord>, FleetError>)
        requires
            self.wf(),
        ensures
            r == Ok::<Option<DaemonRecord>, FleetError>(find_by_host(self@, host_id)),
    {
        Ok(self.daemon_storage.get_by_host_id(host_id))
    }

    /// Looks up a daemon by the api key presented on an inbound call: the
    /// authentication path, matching on the exact stored value.
    pub fn get_daemon_by_api_key_hash(&self, api_key: &String) -> (r: Result<
        Option<DaemonRecord>,
        FleetError,
    >)
        requires
            self.wf(),
        ensures
            r == Ok::<Option<DaemonRecord>, FleetError>(find_by_key(self@, api_key@)),
    {
        Ok(self.daemon_storage.get_by_api_key(api_key))
    }

    /// Lists exactly the daemons whose network id lies in the given set,
    /// ordered newest registration first.
    pub fn get_all_daemons(&self, network_ids: &Vec<u128>) -> (r: Result<
        Vec<DaemonRecord>,
        FleetError,
    >)
        requires
            self.wf(),
        ensures
            r is Ok,
            r->Ok_0@ == matching(self@, network_ids@),
            newest_first(r->Ok_0@),
    {
        Ok(self.daemon_storage.get_all(network_ids))
    }

    /// Updates a daemon's mutable facts (`host_id`, `ip`, `port`,
    /// `last_seen`) by id and returns the stored record. `NotFound` when the
    /// id is absent; `Conflict` when the new host id would collide with
    /// another daemon; either failure leaves the fleet unchanged.
    pub fn update_daemon(&mut self, daemon: &DaemonRecord) -> (r: Result<DaemonRecord, FleetError>)
        requires
            old(self).wf(),
        ensures
            final(self).wf(),
            !id_taken(old(self)@, daemon.id) ==> r == Err::<DaemonRecord, FleetError>(
                FleetError::NotFound,
            ) && final(self)@ == old(self)@,
            id_taken(old(self)@, daemon.id) && update_host_conflict(old(self)@, *daemon) ==> r
                == Err::<DaemonRecord, FleetError>(FleetError::Conflict) && final(self)@ == old(
                self,
            )@,
            id_taken(old(self)@, daemon.id) && !update_host_conflict(old(self)@, *daemon) ==> {
                let i = index_of_id(old(self)@, daemon.id);
                let merged = old(self)@[i].after_update(*daemon);
                r == Ok::<DaemonRecord, FleetError>(merged) && final(self)@ == old(self)@.update(
                    i,
                    merged,
                )
            },
    {
        self.daemon_storage.update(daemon)
    }

    /// Receives a heartbeat for a daemon at time `now`: the path by which
    /// liveness is refreshed (an explicit update also carries a `last_seen`).
    /// `last_seen` never decreases, and nothing else changes; a daemon that
    /// stops heartbeating is not removed here.
    pub fn receive_heartbeat(&mut self, id: u128, now: u64) -> (r: Result<DaemonRecord, FleetError>)
        requires
            old(self).wf(),
        ensures
            final(self).wf(),
            final(self)@ == heartbeat_model(old(self)@, id, now),
            !id_taken(old(self)@, id) ==> r == Err::<DaemonRecord, FleetError>(
                FleetError::NotFound,
            ),
            id_taken(old(self)@, id) ==> {
                let d = old(self)@[index_of_id(old(self)@, id)];
                r == Ok::<DaemonRecord, FleetError>(d.after_heartbeat(now)) && d.after_heartbeat(
                    now,
                ).last_seen >= d.last_seen && d.after_heartbeat(now).last_seen >= now
            },
    {
        self.daemon_storage.heartbeat(id, now)
    }

    /// Receives a heartbeat stamped with the wall clock. Whatever the clock
    /// read, the daemon's `last_seen` never decreases.
    pub fn receive_heartbeat_now(&mut self, id: u128) -> (r: Result<DaemonRecord, FleetError>)
        requires
            old(self).wf(),
        ensures
            final(self).wf(),
            !id_taken(old(self)@, id) ==> r == Err::<DaemonRecord, FleetError>(FleetError::NotFound)
                && final(self)@ == old(self)@,
            id_taken(old(self)@, id) ==> exists|now: u64|
                {
                    let d = old(self)@[index_of_id(old(self)@, id)];
                    &&& #[trigger] heartbeat_model(old(self)@, id, now) == final(self)@
                    &&& r == Ok::<DaemonRecord, FleetError>(d.after_heartbeat(now))
                    &&& d.after_heartbeat(now).last_seen >= d.last_seen
                },
    {
        let t = now_utc_millis();
        let now: u64 = if t < 0 {
            0
        } else {
            t as u64
        };
        self.receive_heartbeat(id, now)
    }

    /// Deletes a daemon by id. Idempotent: deleting an absent id succeeds
    /// and changes nothing. Sessions referencing the daemon are untouched.
    pub fn delete_daemon(&mut self, id: u128) -> (r: Result<(), FleetError>)
        requires
            old(self).wf(),
        ensures
            final(self).wf(),
            r == Ok::<(), FleetError>(()),
            id_taken(old(self)@, id) ==> final(self)@ == old(self)@.remove(
                index_of_id(old(self)@, id),
            ),
            !id_taken(old(self)@, id) ==> final(self)@ == old(self)@,
            !id_taken(final(self)@, id),
    {
        self.daemon_storage.delete(id)
    }
}

/// Opens a discovery session on a daemon: a `Pending` entry keyed by the
/// session id enters the table, and the endpoint the transport must post the
/// request to is handed back. Fails with `Conflict`, leaving the table
/// unchanged, exactly when the session id is already taken.
pub fn start_discovery(
    table: &mut DiscoverySessionTable,
    daemon: &DaemonRecord,
    session_id: u128,
    now: u64,
) -> (r: Result<Endpoint, FleetError>)
    requires
        old(table).wf(),
    ensures
        final(table).wf(),
        sid_taken(old(table)@, session_id) ==> r == Err::<Endpoint, FleetError>(
            FleetError::Conflict,
        ) && final(table)@ == old(table)@,
        !sid_taken(old(table)@, session_id) ==> {
            &&& r is Ok
            &&& r->Ok_0.ip == daemon.ip
            &&& r->Ok_0.port == daemon.port
            &&& r->Ok_0.path@ == "/api/discovery/initiate"@
            &&& final(table)@ == old(table)@.push(
                DiscoverySession {
                    session_id,
                    daemon_id: daemon.id,
                    state: SessionState::Pending,
                    created_at: now,
                    updated_at: now,
                },
            )
        },
{
    match table.create(session_id, daemon.id, now) {
        Ok(()) => Ok(discovery_endpoint(daemon)),
        Err(e) => Err(e),
    }
}

/// Applies the observed outcome of a discovery dispatch to its session: a
/// successful dispatch confirms the session (`Dispatched`), any failure
/// fails it (`Failed`) and surfaces the matching error with the daemon and
/// session ids attached. `NotFound`, with nothing changed, exactly when the
/// session id is absent.
pub fn confirm_dispatch(
    table: &mut DiscoverySessionTable,
    session_id: u128,
    outcome: DispatchOutcome,
    now: u64,
) -> (r: Result<(), FleetError>)
    requires
        old(table).wf(),
    ensures
        final(table).wf(),
        !sid_taken(old(table)@, session_id) ==> r == Err::<(), FleetError>(FleetError::NotFound)
            && final(table)@ == old(table)@,
        sid_taken(old(table)@, session_id) && dispatch_ok(outcome) ==> final(table)@
            == advance_model(old(table)@, session_id, SessionState::Dispatched, now) && r == Ok::<
            (),
            FleetError,
        >(()),
        sid_taken(old(table)@, session_id) && !dispatch_ok(outcome) ==> final(table)@
            == advance_model(old(table)@, session_id, SessionState::Failed, now) && r == Err::<
            (),
            FleetError,
        >(
            dispatch_error(
                outcome,
                old(table)@[index_of_sid(old(table)@, session_id)].daemon_id,
                session_id,
            ),
        ),
{
    let current = match table.get(session_id) {
        Some(s) => s,
        None => {
            return Err(FleetError::NotFound);
        },
    };
    let decided = interpret_dispatch(outcome, current.daemon_id, session_id);
    match decided {
        Ok(()) => {
            match table.advance(session_id, SessionState::Dispatched, now) {
                Ok(_) => Ok(()),
                Err(e) => Err(e),
            }
        },
        Err(e) => {
            match table.advance(session_id, SessionState::Failed, now) {
                Ok(_) => Err(e),
                Err(e2) => Err(e2),
            }
        },
    }
}

/// Applies the observed outcome of a remote cancellation to its session. The
/// remote call carries the same dual-layer success contract as discovery
/// dispatch: it counts as delivered only when the HTTP status is in the
/// success range and the envelope's flag is set. Cancellation is
/// best-effort: the local state advances to `Cancelled` under the transition
/// rule whatever the remote call observed, and a remote failure is still
/// surfaced afterwards, with the daemon and session ids attached, so the
/// caller can log it. Only an absent session id is `NotFound`, with nothing
/// changed.
pub fn cancel_session(
    table: &mut DiscoverySessionTable,
    session_id: u128,
    remote: DispatchOutcome,
    now: u64,
) -> (r: Result<(), FleetError>)
    requires
        old(table).wf(),
    ensures
        final(table).wf(),
        !sid_taken(old(table)@, session_id) ==> r == Err::<(), FleetError>(FleetError::NotFound)
            && final(table)@ == old(table)@,
        sid_taken(old(table)@, session_id) ==> {
            &&& final(table)@ == advance_model(
                old(table)@,
                session_id,
                SessionState::Cancelled,
                now,
            )
            &&& dispatch_ok(remote) ==> r == Ok::<(), FleetError>(())
            &&& !dispatch_ok(remote) ==> r == Err::<(), FleetError>(
                dispatch_error(
                    remote,
                    old(table)@[index_of_sid(old(table)@, session_id)].daemon_id,
                    session_id,
                ),
            )
        },
{
    let current = match table.get(session_id) {
        Some(s) => s,
        None => {
            return Err(FleetError::NotFound);
        },
    };
    match table.cancel(session_id, now) {
        Ok(()) => {},
        Err(e) => {
            return Err(e);
        },
    }
    interpret_dispatch(remote, current.daemon_id, session_id)
}

/// Process-wide state of the control plane: the fleet service over the
/// daemon records, the discovery session table, and the reclaimer's
/// configuration.
pub struct AppState {
    pub service: DaemonService,
    pub sessions: DiscoverySessionTable,
    pub reclaimer: Reclaimer,
}

impl AppState {
    /// A fresh control plane: no daemons, no sessions, operational reclaim
    /// windows.
    pub fn new() -> (r: AppState)
        ensures
            r.service.wf(),
            r.service@ == Seq::<DaemonRecord>::empty(),
            r.sessions.wf(),
            r.sessions@ == Seq::<DiscoverySession>::empty(),
            r.reclaimer.running_time_ceiling_ms == RUNNING_TIME_CEILING_MS,
            r.reclaimer.retention_window_ms == RETENTION_WINDOW_MS,
    {
        AppState {
            service: DaemonService::new(DaemonStore::new()),
            sessions: DiscoverySessionTable::new(),
            reclaimer: Reclaimer::new(),
        }
    }

    /// How often the surrounding process should drive `reclaimer.tick`.
    pub fn reclaim_interval_ms(&self) -> (r: u64)
        ensures
            r == RECLAIM_INTERVAL_MS,
    {
        RECLAIM_INTERVAL_MS
    }
}

} // verus!
