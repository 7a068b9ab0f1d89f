//! The reclaimer: the periodic process that expires overdue discovery
//! sessions and evicts old terminal ones. Each tick performs two independent
//! sweeps over the session table — a timeout sweep and a retention sweep —
//! and never touches the daemon records or the network. The surrounding
//! process drives `tick` on a fixed interval with the current wall-clock
//! time; everything the tick does is a function of the table and that time.

use vstd::prelude::*;

use crate::session::DiscoverySession;
use crate::session::DiscoverySessionTable;
use crate::session::index_of_sid;
use crate::session::overdue;
use crate::session::retained;
use crate::session::sid_taken;
use crate::session::stale;
use crate::session::lemma_filter_keeps_unique;
use crate::session::timeout_swept;
use crate::session::unique_sids;

verus! {

/// Running-time ceiling of a discovery session: ten minutes.
pub const RUNNING_TIME_CEILING_MS: u64 = 10 * 60 * 1000;

/// Retention window of a terminal session in the table: twenty-four hours.
pub const RETENTION_WINDOW_MS: u64 = 24 * 60 * 60 * 1000;

/// How often the surrounding process should drive a reclaim tick: five
/// minutes.
pub const RECLAIM_INTERVAL_MS: u64 = 5 * 60 * 1000;

/// The reclaimer's configuration: how old a non-terminal session may grow
/// before it is timed out, and how long a terminal session is kept.
#[derive(Clone, Copy, Debug, PartialEq, Eq, Structural)]
pub struct Reclaimer {
    pub running_time_ceiling_ms: u64,
    pub retention_window_ms: u64,
}

impl Reclaimer {
    /// A reclaimer with the operational windows.
    pub fn new() -> (r: Reclaimer)
        ensures
            r.running_time_ceiling_ms == RUNNING_TIME_CEILING_MS,
            r.retention_window_ms == RETENTION_WINDOW_MS,
    {
        Reclaimer {
            running_time_ceiling_ms: RUNNING_TIME_CEILING_MS,
            retention_window_ms: RETENTION_WINDOW_MS,
        }
    }

    /// A reclaimer with explicit windows (tests drive a simulated clock).
    pub fn with_windows(running_time_ceiling_ms: u64, retention_window_ms: u64) -> (r: Reclaimer)
        ensures
            r == (Reclaimer { running_time_ceiling_ms, retention_window_ms }),
    {
        Reclaimer { running_time_ceiling_ms, retention_window_ms }
    }

    /// One reclaim tick at time `now`: the timeout sweep times out every
    /// overdue session, then the retention sweep evicts every stale terminal
    /// one. The two sweeps are independent; the tick composes them.
    pub fn tick(&self, table: &mut DiscoverySessionTable, now: u64)
        requires
            old(table).wf(),
        ensures
            final(table).wf(),
            final(table)@ == retained(
                timeout_swept(old(table)@, now, self.running_time_ceiling_ms),
                now,
                self.retention_window_ms,
            ),
    {
        table.timeout_overdue(now, self.running_time_ceiling_ms);
        table.evict_stale(now, self.retention_window_ms);
    }
}

/// What the timeout sweep does to each single session: an overdue one (still
/// non-terminal, older than the ceiling) transitions to `TimedOut` with its
/// identity and creation time kept; any other is untouched.
pub proof fn lemma_timeout_sweep_pointwise(
    s: Seq<DiscoverySession>,
    now: u64,
    ceiling_ms: u64,
    i: int,
)
    requires
        0 <= i < s.len(),
    ensures
        timeout_swept(s, now, ceiling_ms).len() == s.len(),
        overdue(s[i], now, ceiling_ms) ==> timeout_swept(s, now, ceiling_ms)[i]
            == (DiscoverySession {
            state: crate::session::SessionState::TimedOut,
            updated_at: now,
            ..s[i]
        }),
        !overdue(s[i], now, ceiling_ms) ==> timeout_swept(s, now, ceiling_ms)[i] == s[i],
{
}

/// What the retention sweep does to each single session: a stale one
/// (terminal, older than the retention window) is absent from the table
/// afterwards; any other is still present.
pub proof fn lemma_retention_sweep_pointwise(
    s: Seq<DiscoverySession>,
    now: u64,
    retention_ms: u64,
    sid: u128,
)
    requires
        unique_sids(s),
        sid_taken(s, sid),
    ensures
        stale(s[index_of_sid(s, sid)], now, retention_ms) ==> !sid_taken(
            retained(s, now, retention_ms),
            sid,
        ),
        !stale(s[index_of_sid(s, sid)], now, retention_ms) ==> retained(
            s,
            now,
            retention_ms,
        ).contains(s[index_of_sid(s, sid)]),
{
    let i = index_of_sid(s, sid);
    let x = s[i];
    broadcast use vstd::seq_lib::group_filter_ensures;

    let pred = |y: DiscoverySession| !stale(y, now, retention_ms);
    let f = retained(s, now, retention_ms);
    lemma_filter_keeps_unique(s, pred);
    if stale(x, now, retention_ms) {
        if sid_taken(f, sid) {
            let k = choose|k: int| 0 <= k < f.len() && f[k].session_id == sid;
            assert(s.contains(f[k]));
            let j = choose|j: int| 0 <= j < s.len() && s[j] == f[k];
            assert(s[j].session_id == sid);
            assert(j == i);
            assert(pred(f[k]));
            assert(false);
        }
    } else {
        assert(pred(x));
        assert(f.contains(x));
    }
}

} // verus!
