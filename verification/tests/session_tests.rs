//! Session lifecycle behaviour: the monotonic state machine, the table's
//! uniqueness and idempotent cancellation, and the reclaimer's two sweeps.

use netvisor_fleet::daemon::DaemonRecord;
use netvisor_fleet::daemon::IpV4;
use netvisor_fleet::errors::FleetError;
use netvisor_fleet::fleet::cancel_session;
use netvisor_fleet::fleet::confirm_dispatch;
use netvisor_fleet::fleet::start_discovery;
use netvisor_fleet::fleet::DispatchOutcome;
use netvisor_fleet::reclaim::Reclaimer;
use netvisor_fleet::reclaim::RETENTION_WINDOW_MS;
use netvisor_fleet::reclaim::RUNNING_TIME_CEILING_MS;
use netvisor_fleet::session::DiscoverySessionTable;
use netvisor_fleet::session::SessionState;
use netvisor_fleet::session::transition_allowed;

fn daemon(id: u128) -> DaemonRecord {
    DaemonRecord {
        id,
        host_id: id + 1000,
        network_id: 7,
        ip: IpV4::new(10, 0, 0, 5),
        port: 9000,
        api_key: format!("key-{}", id),
        last_seen: 0,
        registered_at: 100,
    }
}

const ALL_STATES: [SessionState; 7] = [
    SessionState::Pending,
    SessionState::Dispatched,
    SessionState::Running,
    SessionState::Completed,
    SessionState::Failed,
    SessionState::Cancelled,
    SessionState::TimedOut,
];

const TERMINAL_STATES: [SessionState; 4] = [
    SessionState::Completed,
    SessionState::Failed,
    SessionState::Cancelled,
    SessionState::TimedOut,
];

/// Drives a fresh session into the wanted state through legal transitions.
fn table_with_session_in(state: SessionState, sid: u128) -> DiscoverySessionTable {
    let mut table = DiscoverySessionTable::new();
    table.create(sid, 1, 0).unwrap();
    match state {
        SessionState::Pending => {},
        SessionState::Dispatched => {
            assert_eq!(table.advance(sid, SessionState::Dispatched, 1), Ok(true));
        },
        SessionState::Running => {
            assert_eq!(table.advance(sid, SessionState::Dispatched, 1), Ok(true));
            assert_eq!(table.advance(sid, SessionState::Running, 2), Ok(true));
        },
        SessionState::Completed => {
            assert_eq!(table.advance(sid, SessionState::Dispatched, 1), Ok(true));
            assert_eq!(table.advance(sid, SessionState::Running, 2), Ok(true));
            assert_eq!(table.advance(sid, SessionState::Completed, 3), Ok(true));
        },
        SessionState::Failed => {
            assert_eq!(table.advance(sid, SessionState::Failed, 1), Ok(true));
        },
        SessionState::Cancelled => {
            assert_eq!(table.advance(sid, SessionState::Cancelled, 1), Ok(true));
        },
        SessionState::TimedOut => {
            assert_eq!(table.advance(sid, SessionState::TimedOut, 1), Ok(true));
        },
    }
    assert_eq!(table.get(sid).unwrap().state, state);
    table
}

#[test]
fn create_is_unique_per_session_id() {
    let mut table = DiscoverySessionTable::new();
    table.create(1, 42, 0).unwrap();
    let e = table.create(1, 43, 5);
    assert_eq!(e.unwrap_err(), FleetError::Conflict);

    // The original entry is untouched.
    let s = table.get(1).unwrap();
    assert_eq!(s.daemon_id, 42);
    assert_eq!(s.created_at, 0);
    assert_eq!(s.state, SessionState::Pending);
}

#[test]
fn advance_follows_the_state_machine() {
    let mut table = DiscoverySessionTable::new();
    table.create(1, 42, 0).unwrap();

    // Pending cannot jump to Running or Completed.
    assert_eq!(table.advance(1, SessionState::Running, 1), Ok(false));
    assert_eq!(table.advance(1, SessionState::Completed, 1), Ok(false));
    assert_eq!(table.get(1).unwrap().state, SessionState::Pending);

    assert_eq!(table.advance(1, SessionState::Dispatched, 2), Ok(true));
    assert_eq!(table.advance(1, SessionState::Running, 3), Ok(true));
    // Progress reports keep a running session running.
    assert_eq!(table.advance(1, SessionState::Running, 4), Ok(true));
    assert_eq!(table.get(1).unwrap().updated_at, 4);
    assert_eq!(table.advance(1, SessionState::Completed, 5), Ok(true));

    // An absent session is an error, not a no-op.
    assert_eq!(table.advance(9, SessionState::Failed, 6), Err(FleetError::NotFound));
}

#[test]
fn terminal_states_accept_no_transition() {
    // From each terminal state, every requested target is a no-op.
    for (i, terminal) in TERMINAL_STATES.iter().enumerate() {
        let sid = (i + 1) as u128;
        let mut table = table_with_session_in(*terminal, sid);
        let before = table.get(sid).unwrap();
        for target in ALL_STATES.iter() {
            assert_eq!(table.advance(sid, *target, 99), Ok(false));
            let after = table.get(sid).unwrap();
            assert_eq!(after.state, *terminal);
            assert_eq!(after.updated_at, before.updated_at);
        }
    }
}

#[test]
fn transition_rule_matches_the_table() {
    // The rule itself, spot-checked against the documented machine.
    assert!(transition_allowed(SessionState::Pending, SessionState::Dispatched));
    assert!(transition_allowed(SessionState::Dispatched, SessionState::Running));
    assert!(transition_allowed(SessionState::Running, SessionState::Running));
    assert!(transition_allowed(SessionState::Dispatched, SessionState::Completed));
    assert!(transition_allowed(SessionState::Pending, SessionState::Failed));
    assert!(transition_allowed(SessionState::Running, SessionState::TimedOut));
    assert!(!transition_allowed(SessionState::Pending, SessionState::Running));
    assert!(!transition_allowed(SessionState::Dispatched, SessionState::Pending));
    for terminal in TERMINAL_STATES.iter() {
        for target in ALL_STATES.iter() {
            assert!(!transition_allowed(*terminal, *target));
        }
    }
}

#[test]
fn dispatch_then_cancel_is_idempotent() {
    // Create S1 for D1, dispatch successfully, advance to Running, cancel;
    // a second cancel is a no-op and the state is still Cancelled.
    let d1 = daemon(1);
    let mut table = DiscoverySessionTable::new();

    let ep = start_discovery(&mut table, &d1, 51, 1000).unwrap();
    assert_eq!(ep.url(), "http://10.0.0.5:9000/api/discovery/initiate");
    assert_eq!(table.get(51).unwrap().state, SessionState::Pending);

    confirm_dispatch(
        &mut table,
        51,
        DispatchOutcome::Responded { status: 200, success: true },
        1100,
    )
    .unwrap();
    assert_eq!(table.get(51).unwrap().state, SessionState::Dispatched);

    assert_eq!(table.advance(51, SessionState::Running, 1200), Ok(true));

    table.cancel(51, 1300).unwrap();
    let s = table.get(51).unwrap();
    assert_eq!(s.state, SessionState::Cancelled);
    assert_eq!(s.updated_at, 1300);

    table.cancel(51, 1400).unwrap();
    let s = table.get(51).unwrap();
    assert_eq!(s.state, SessionState::Cancelled);
    assert_eq!(s.updated_at, 1300);

    assert_eq!(table.cancel(99, 1500), Err(FleetError::NotFound));
}

#[test]
fn cancellation_is_best_effort() {
    // The remote call failed, yet the local state still advances to
    // Cancelled; the remote failure is surfaced afterwards for logging.
    let d1 = daemon(1);
    let mut table = DiscoverySessionTable::new();
    start_discovery(&mut table, &d1, 51, 1000).unwrap();

    let e = cancel_session(&mut table, 51, DispatchOutcome::NoResponse, 1100).unwrap_err();
    assert_eq!(e, FleetError::TransportFailure { daemon_id: 1, session_id: 51 });
    assert_eq!(table.get(51).unwrap().state, SessionState::Cancelled);

    // Delivered: success-range status and the envelope flag set.
    let mut table = DiscoverySessionTable::new();
    start_discovery(&mut table, &d1, 52, 1000).unwrap();
    cancel_session(
        &mut table,
        52,
        DispatchOutcome::Responded { status: 204, success: true },
        1100,
    )
    .unwrap();
    assert_eq!(table.get(52).unwrap().state, SessionState::Cancelled);

    // The dual-layer rule holds for cancellation too: a success-range status
    // whose envelope flag is cleared is a rejection — yet the session is
    // still cancelled locally.
    let mut table = DiscoverySessionTable::new();
    start_discovery(&mut table, &d1, 53, 1000).unwrap();
    let e = cancel_session(
        &mut table,
        53,
        DispatchOutcome::Responded { status: 200, success: false },
        1100,
    )
    .unwrap_err();
    assert_eq!(e, FleetError::RemoteRejected { daemon_id: 1, session_id: 53 });
    assert_eq!(table.get(53).unwrap().state, SessionState::Cancelled);

    // So is a status outside the success range.
    let mut table = DiscoverySessionTable::new();
    start_discovery(&mut table, &d1, 54, 1000).unwrap();
    let e = cancel_session(
        &mut table,
        54,
        DispatchOutcome::Responded { status: 500, success: true },
        1100,
    )
    .unwrap_err();
    assert_eq!(e, FleetError::RemoteRejected { daemon_id: 1, session_id: 54 });
    assert_eq!(table.get(54).unwrap().state, SessionState::Cancelled);

    // An absent session id is the one hard failure, and nothing changes.
    let e = cancel_session(&mut table, 99, DispatchOutcome::NoResponse, 1200).unwrap_err();
    assert_eq!(e, FleetError::NotFound);
}

#[test]
fn failed_dispatch_fails_the_session() {
    let d1 = daemon(1);
    let mut table = DiscoverySessionTable::new();
    start_discovery(&mut table, &d1, 51, 1000).unwrap();

    let e = confirm_dispatch(&mut table, 51, DispatchOutcome::NoResponse, 1100).unwrap_err();
    assert_eq!(e, FleetError::TransportFailure { daemon_id: 1, session_id: 51 });
    assert_eq!(table.get(51).unwrap().state, SessionState::Failed);

    // A duplicate session id is refused before any dispatch happens.
    let e = start_discovery(&mut table, &d1, 51, 1200).unwrap_err();
    assert_eq!(e, FleetError::Conflict);
}

#[test]
fn timeout_sweep_times_out_only_overdue_sessions() {
    let mut table = DiscoverySessionTable::new();
    table.create(1, 42, 0).unwrap();
    table.create(2, 42, 500_000).unwrap();
    // A terminal session is never timed out, however old.
    table.create(3, 42, 0).unwrap();
    assert_eq!(table.advance(3, SessionState::Completed, 1), Ok(false));
    assert_eq!(table.advance(3, SessionState::Failed, 1), Ok(true));

    let rec = Reclaimer::new();
    let now = RUNNING_TIME_CEILING_MS + 1;
    rec.tick(&mut table, now);

    assert_eq!(table.get(1).unwrap().state, SessionState::TimedOut);
    assert_eq!(table.get(1).unwrap().updated_at, now);
    // Younger than the ceiling: untouched.
    assert_eq!(table.get(2).unwrap().state, SessionState::Pending);
    assert_eq!(table.get(2).unwrap().updated_at, 500_000);
    // Already terminal: untouched.
    assert_eq!(table.get(3).unwrap().state, SessionState::Failed);
}

#[test]
fn retention_sweep_evicts_only_stale_terminal_sessions() {
    let mut table = DiscoverySessionTable::new();
    // Old terminal session: evicted.
    table.create(1, 42, 0).unwrap();
    assert_eq!(table.advance(1, SessionState::Completed, 1), Ok(false));
    assert_eq!(table.advance(1, SessionState::Cancelled, 1), Ok(true));
    // Old but non-terminal: kept by the retention sweep alone.
    table.create(2, 42, 0).unwrap();
    // Young terminal session: kept.
    table.create(3, 42, RETENTION_WINDOW_MS).unwrap();
    assert_eq!(table.advance(3, SessionState::Failed, RETENTION_WINDOW_MS + 1), Ok(true));

    let rec = Reclaimer::with_windows(u64::MAX, RETENTION_WINDOW_MS);
    let now = RETENTION_WINDOW_MS + 1;
    rec.tick(&mut table, now);

    assert!(table.get(1).is_none());
    assert_eq!(table.get(2).unwrap().state, SessionState::Pending);
    assert_eq!(table.get(3).unwrap().state, SessionState::Failed);
}

#[test]
fn overdue_session_is_timed_out_then_evicted() {
    // Create S2 and never advance it; past the running-time ceiling the
    // timeout sweep times it out, and past the retention window the
    // retention sweep removes it from listing and lookup.
    let d2 = daemon(2);
    let mut table = DiscoverySessionTable::new();
    start_discovery(&mut table, &d2, 52, 0).unwrap();

    let rec = Reclaimer::new();
    let t1 = RUNNING_TIME_CEILING_MS + 1;
    rec.tick(&mut table, t1);
    let s = table.get(52).unwrap();
    assert_eq!(s.state, SessionState::TimedOut);
    // Terminal now, so no longer listed as active, but still present.
    assert!(table.list_active().is_empty());

    let t2 = RETENTION_WINDOW_MS + 1;
    rec.tick(&mut table, t2);
    assert!(table.get(52).is_none());
    assert!(table.list_active().is_empty());
    assert_eq!(table.len(), 0);
}

#[test]
fn list_active_returns_exactly_the_non_terminal_sessions() {
    let mut table = DiscoverySessionTable::new();
    table.create(1, 42, 0).unwrap();
    table.create(2, 42, 0).unwrap();
    table.create(3, 42, 0).unwrap();
    assert_eq!(table.advance(2, SessionState::Dispatched, 1), Ok(true));
    assert_eq!(table.advance(3, SessionState::Cancelled, 1), Ok(true));

    let active = table.list_active();
    let ids: Vec<u128> = active.iter().map(|s| s.session_id).collect();
    assert_eq!(ids, vec![1, 2]);
    assert_eq!(table.len(), 3);
}
