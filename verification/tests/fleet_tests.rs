//! Fleet-side behaviour: registration uniqueness, lookups, listing order,
//! updates, heartbeats, deletion, and the dispatch decision logic.

use netvisor_fleet::daemon::DaemonRecord;
use netvisor_fleet::daemon::IpV4;
use netvisor_fleet::errors::FleetError;
use netvisor_fleet::fleet::cancellation_endpoint;
use netvisor_fleet::fleet::discovery_endpoint;
use netvisor_fleet::fleet::interpret_dispatch;
use netvisor_fleet::fleet::AppState;
use netvisor_fleet::fleet::DaemonService;
use netvisor_fleet::fleet::DispatchOutcome;
use netvisor_fleet::parse::parse_ipv4;
use netvisor_fleet::store::DaemonStore;
use netvisor_fleet::text::format_ipv4;
use netvisor_fleet::text::port_from_i64;
use netvisor_fleet::text::u64_to_string;

fn daemon(id: u128, host_id: u128, network_id: u128, key: &str, registered_at: u64) -> DaemonRecord {
    DaemonRecord {
        id,
        host_id,
        network_id,
        ip: IpV4::new(10, 0, 0, 5),
        port: 9000,
        api_key: key.to_string(),
        last_seen: 0,
        registered_at,
    }
}

fn fresh_service() -> DaemonService {
    DaemonService::new(DaemonStore::new())
}

#[test]
fn register_then_lookup_by_host() {
    // Register D1 (host H1, 10.0.0.5:9000), find it by host, and watch a
    // second registration on the same host fail with Conflict, leaving the
    // original record unchanged.
    let h1: u128 = 0xaa;
    let mut svc = fresh_service();
    let d1 = daemon(1, h1, 7, "key-1", 100);
    let stored = svc.register_daemon(d1.clone()).unwrap();
    assert_eq!(stored.id, 1);

    let found = svc.get_host_daemon(h1).unwrap().unwrap();
    assert_eq!(found.id, 1);
    assert_eq!(found.ip, IpV4::new(10, 0, 0, 5));
    assert_eq!(found.port, 9000);

    let d2 = daemon(2, h1, 7, "key-2", 200);
    let e = svc.register_daemon(d2);
    assert_eq!(e.unwrap_err(), FleetError::Conflict);

    let again = svc.get_host_daemon(h1).unwrap().unwrap();
    assert_eq!(again.id, 1);
    assert_eq!(again.api_key, "key-1");
    assert_eq!(again.registered_at, 100);
}

#[test]
fn register_conflicts_on_id_and_api_key() {
    let mut svc = fresh_service();
    svc.register_daemon(daemon(1, 10, 7, "key-1", 100)).unwrap();

    // Same daemon id, everything else fresh.
    let e = svc.register_daemon(daemon(1, 11, 7, "key-2", 200));
    assert_eq!(e.unwrap_err(), FleetError::Conflict);

    // Same api key, everything else fresh.
    let e = svc.register_daemon(daemon(2, 11, 7, "key-1", 200));
    assert_eq!(e.unwrap_err(), FleetError::Conflict);

    // All three identities fresh: accepted.
    svc.register_daemon(daemon(2, 11, 7, "key-2", 200)).unwrap();
}

#[test]
fn lookup_by_id_and_api_key() {
    let mut svc = fresh_service();
    svc.register_daemon(daemon(1, 10, 7, "key-1", 100)).unwrap();
    svc.register_daemon(daemon(2, 11, 7, "key-2", 200)).unwrap();

    assert_eq!(svc.get_daemon(2).unwrap().unwrap().host_id, 11);
    assert!(svc.get_daemon(3).unwrap().is_none());

    let by_key = svc.get_daemon_by_api_key_hash(&"key-1".to_string()).unwrap().unwrap();
    assert_eq!(by_key.id, 1);
    assert!(svc.get_daemon_by_api_key_hash(&"nope".to_string()).unwrap().is_none());
}

#[test]
fn list_daemons_filters_and_orders_newest_first() {
    let mut svc = fresh_service();
    svc.register_daemon(daemon(1, 10, 7, "key-1", 100)).unwrap();
    svc.register_daemon(daemon(2, 11, 8, "key-2", 300)).unwrap();
    svc.register_daemon(daemon(3, 12, 7, "key-3", 200)).unwrap();
    svc.register_daemon(daemon(4, 13, 9, "key-4", 400)).unwrap();

    let listed = svc.get_all_daemons(&vec![7, 8]).unwrap();
    let ids: Vec<u128> = listed.iter().map(|d| d.id).collect();
    assert_eq!(ids, vec![2, 3, 1]);

    let none = svc.get_all_daemons(&vec![99]).unwrap();
    assert!(none.is_empty());
}

#[test]
fn update_replaces_mutable_facts_only() {
    let mut svc = fresh_service();
    svc.register_daemon(daemon(1, 10, 7, "key-1", 100)).unwrap();

    let mut patch = daemon(1, 20, 999, "ignored", 999);
    patch.ip = IpV4::new(192, 168, 1, 2);
    patch.port = 8080;
    patch.last_seen = 42;
    let updated = svc.update_daemon(&patch).unwrap();

    assert_eq!(updated.host_id, 20);
    assert_eq!(updated.ip, IpV4::new(192, 168, 1, 2));
    assert_eq!(updated.port, 8080);
    assert_eq!(updated.last_seen, 42);
    // Identity, grouping, credential and registration time are immutable.
    assert_eq!(updated.network_id, 7);
    assert_eq!(updated.api_key, "key-1");
    assert_eq!(updated.registered_at, 100);
}

#[test]
fn update_absent_id_is_not_found() {
    let mut svc = fresh_service();
    let e = svc.update_daemon(&daemon(1, 10, 7, "key-1", 100));
    assert_eq!(e.unwrap_err(), FleetError::NotFound);
}

#[test]
fn update_host_collision_is_conflict() {
    let mut svc = fresh_service();
    svc.register_daemon(daemon(1, 10, 7, "key-1", 100)).unwrap();
    svc.register_daemon(daemon(2, 11, 7, "key-2", 200)).unwrap();

    // Move daemon 2 onto daemon 1's host.
    let patch = daemon(2, 10, 7, "key-2", 200);
    let e = svc.update_daemon(&patch);
    assert_eq!(e.unwrap_err(), FleetError::Conflict);
    // Nothing moved.
    assert_eq!(svc.get_daemon(2).unwrap().unwrap().host_id, 11);
}

#[test]
fn heartbeat_never_decreases_last_seen() {
    let mut svc = fresh_service();
    svc.register_daemon(daemon(1, 10, 7, "key-1", 100)).unwrap();

    let d = svc.receive_heartbeat(1, 500).unwrap();
    assert_eq!(d.last_seen, 500);

    // A clock standing behind the stored timestamp does not move it back.
    let d = svc.receive_heartbeat(1, 300).unwrap();
    assert_eq!(d.last_seen, 500);

    // Repeating the same heartbeat changes nothing: idempotent in effect.
    let d = svc.receive_heartbeat(1, 500).unwrap();
    assert_eq!(d.last_seen, 500);
    assert_eq!(d.registered_at, 100);
    assert_eq!(d.host_id, 10);

    let e = svc.receive_heartbeat(99, 500);
    assert_eq!(e.unwrap_err(), FleetError::NotFound);
}

#[test]
fn heartbeat_with_wall_clock_moves_forward() {
    // Through the real clock: whatever it reads, last_seen never decreases,
    // and a live clock lies far past a stored timestamp of 500.
    let mut svc = fresh_service();
    svc.register_daemon(daemon(1, 10, 7, "key-1", 100)).unwrap();
    svc.receive_heartbeat(1, 500).unwrap();

    let d = svc.receive_heartbeat_now(1).unwrap();
    assert!(d.last_seen >= 500);

    let e = svc.receive_heartbeat_now(99);
    assert_eq!(e.unwrap_err(), FleetError::NotFound);
}

#[test]
fn delete_is_idempotent() {
    let mut svc = fresh_service();
    svc.register_daemon(daemon(1, 10, 7, "key-1", 100)).unwrap();

    svc.delete_daemon(1).unwrap();
    assert!(svc.get_daemon(1).unwrap().is_none());

    // Deleting an absent id still succeeds.
    svc.delete_daemon(1).unwrap();
    assert!(svc.get_daemon(1).unwrap().is_none());

    // The freed identities can be registered again.
    svc.register_daemon(daemon(1, 10, 7, "key-1", 150)).unwrap();
}

#[test]
fn endpoints_carry_the_fixed_paths() {
    let d = daemon(1, 10, 7, "key-1", 100);
    let ep = discovery_endpoint(&d);
    assert_eq!(ep.path, "/api/discovery/initiate");
    assert_eq!(ep.url(), "http://10.0.0.5:9000/api/discovery/initiate");

    let ep = cancellation_endpoint(&d);
    assert_eq!(ep.path, "/api/discovery/cancel");
    assert_eq!(ep.url(), "http://10.0.0.5:9000/api/discovery/cancel");
}

#[test]
fn dispatch_outcome_decides_both_layers() {
    // Success needs a success-range status and the envelope flag.
    assert!(interpret_dispatch(DispatchOutcome::Responded { status: 200, success: true }, 1, 2)
        .is_ok());
    assert!(interpret_dispatch(DispatchOutcome::Responded { status: 299, success: true }, 1, 2)
        .is_ok());

    // Unreachable daemon: transport failure, ids attached.
    let e = interpret_dispatch(DispatchOutcome::NoResponse, 1, 2).unwrap_err();
    assert_eq!(e, FleetError::TransportFailure { daemon_id: 1, session_id: 2 });

    // Reachable daemon, HTTP error: rejected.
    let e = interpret_dispatch(DispatchOutcome::Responded { status: 500, success: true }, 1, 2)
        .unwrap_err();
    assert_eq!(e, FleetError::RemoteRejected { daemon_id: 1, session_id: 2 });

    // Reachable daemon, envelope flag cleared: rejected.
    let e = interpret_dispatch(DispatchOutcome::Responded { status: 200, success: false }, 1, 2)
        .unwrap_err();
    assert_eq!(e, FleetError::RemoteRejected { daemon_id: 1, session_id: 2 });
}

#[test]
fn decimal_and_address_rendering() {
    assert_eq!(u64_to_string(0), "0");
    assert_eq!(u64_to_string(9), "9");
    assert_eq!(u64_to_string(10), "10");
    assert_eq!(u64_to_string(9000), "9000");
    assert_eq!(u64_to_string(65535), "65535");
    assert_eq!(format_ipv4(IpV4::new(10, 0, 0, 5)), "10.0.0.5");
    assert_eq!(format_ipv4(IpV4::new(255, 255, 255, 255)), "255.255.255.255");
}

#[test]
fn stored_address_round_trip() {
    // Reading back what was stored never fails and gives the octets back.
    for ip in [
        IpV4::new(10, 0, 0, 5),
        IpV4::new(0, 0, 0, 0),
        IpV4::new(255, 255, 255, 255),
        IpV4::new(192, 168, 1, 2),
        IpV4::new(1, 10, 100, 250),
    ] {
        assert_eq!(parse_ipv4(&format_ipv4(ip)), Ok(ip));
    }
    assert_eq!(parse_ipv4("10.0.0.5"), Ok(IpV4::new(10, 0, 0, 5)));
}

#[test]
fn malformed_stored_address_is_rejected() {
    for bad in [
        "",
        "10.0.0",
        "10.0.0.5.",
        ".10.0.0.5",
        "10.0.0.5.6",
        "10..0.5",
        "10.0.0.256",
        "10.0.0.999",
        "010.0.0.5",
        "10.0.0.05",
        "a.b.c.d",
        "10.0.0.5 ",
        "1000.0.0.5",
        "10,0,0,5",
    ] {
        assert_eq!(parse_ipv4(bad), Err(FleetError::SerializationFailure));
    }
}

#[test]
fn port_column_conversion() {
    assert_eq!(port_from_i64(0), Ok(0));
    assert_eq!(port_from_i64(9000), Ok(9000));
    assert_eq!(port_from_i64(65535), Ok(65535));
    assert_eq!(port_from_i64(65536), Err(FleetError::SerializationFailure));
    assert_eq!(port_from_i64(-1), Err(FleetError::SerializationFailure));
}

#[test]
fn remote_failures_are_distinguishable() {
    // Callers map failures to distinct outcomes: only the two remote kinds
    // may be retried against the same request.
    assert!(FleetError::TransportFailure { daemon_id: 1, session_id: 2 }.is_remote());
    assert!(FleetError::RemoteRejected { daemon_id: 1, session_id: 2 }.is_remote());
    assert!(!FleetError::Conflict.is_remote());
    assert!(!FleetError::NotFound.is_remote());
    assert!(!FleetError::SerializationFailure.is_remote());
    assert!(!FleetError::InvalidTransition.is_remote());
}

#[test]
fn app_state_starts_empty() {
    let state = AppState::new();
    assert!(state.service.get_daemon(1).unwrap().is_none());
    assert!(state.sessions.get(1).is_none());
    assert_eq!(state.reclaim_interval_ms(), 5 * 60 * 1000);
    assert_eq!(state.reclaimer.running_time_ceiling_ms, 10 * 60 * 1000);
    assert_eq!(state.reclaimer.retention_window_ms, 24 * 60 * 60 * 1000);
}
