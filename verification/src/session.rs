//! Discovery sessions: one tracked unit of work per request for a daemon to
//! probe its network, identified by a session id shared with the daemon. A
//! session moves through a monotonic state machine — once terminal it never
//! changes again — and lives in an in-memory table keyed by session id,
//! independent of the durable daemon records.

use vstd::prelude::*;

use crate::errors::FleetError;

verus! {

/// The lifecycle states of a discovery session. `Pending` means created but
/// dispatch not yet confirmed; `Dispatched` that the daemon accepted the
/// request; `Running` that it reported progress; the last four are terminal.
#[derive(Clone, Copy, Debug, PartialEq, Eq, Structural)]
pub enum SessionState {
    Pending,
    Dispatched,
    Running,
    Completed,
    Failed,
    Cancelled,
    TimedOut,
}

impl SessionState {
    /// A terminal state permits no further transition.
    pub open spec fn spec_is_terminal(self) -> bool {
        self is Completed || self is Failed || self is Cancelled || self is TimedOut
    }

    /// Executable twin of `spec_is_terminal`.
    pub fn is_terminal(&self) -> (r: bool)
        ensures
            r == self.spec_is_terminal(),
    {
        match self {
            SessionState::Completed => true,
            SessionState::Failed => true,
            SessionState::Cancelled => true,
            SessionState::TimedOut => true,
            _ => false,
        }
    }
}

/// The transition rule of the session state machine. Nothing leaves a
/// terminal state; `Pending` is only ever an initial state; dispatch
/// confirmation moves `Pending` forward; progress reports keep a dispatched
/// or running session running; completion comes only out of a dispatched or
/// running session; failure, cancellation and timeout may strike any
/// non-terminal session.
pub open spec fn allowed(from: SessionState, to: SessionState) -> bool {
    if from.spec_is_terminal() {
        false
    } else {
        match to {
            SessionState::Pending => false,
            SessionState::Dispatched => from is Pending,
            SessionState::Running => from is Dispatched || from is Running,
            SessionState::Completed => from is Dispatched || from is Running,
            SessionState::Failed => true,
            SessionState::Cancelled => true,
            SessionState::TimedOut => true,
        }
    }
}

/// The state after asking to advance `from` to `to`: the request is applied
/// when the rule allows it and is a no-op otherwise.
pub open spec fn step(from: SessionState, to: SessionState) -> SessionState {
    if allowed(from, to) {
        to
    } else {
        from
    }
}

/// Executable twin of `allowed`.
pub fn transition_allowed(from: SessionState, to: SessionState) -> (r: bool)
    ensures
        r == allowed(from, to),
{
    if from.is_terminal() {
        false
    } else {
        match to {
            SessionState::Pending => false,
            SessionState::Dispatched => matches!(from, SessionState::Pending),
            SessionState::Running => matches!(from, SessionState::Dispatched | SessionState::Running),
            SessionState::Completed => matches!(from, SessionState::Dispatched | SessionState::Running),
            SessionState::Failed => true,
            SessionState::Cancelled => true,
            SessionState::TimedOut => true,
        }
    }
}

/// Once a session is terminal, no `advance` request changes its state,
/// whatever the requested target: terminal states are stable.
pub proof fn lemma_terminal_state_stable(from: SessionState, to: SessionState)
    ensures
        from.spec_is_terminal() ==> step(from, to) == from,
{
}

/// State transitions are monotonic towards termination: a step never takes a
/// terminal state back to a non-terminal one.
pub proof fn lemma_no_resurrection(from: SessionState, to: SessionState)
    ensures
        from.spec_is_terminal() ==> step(from, to).spec_is_terminal(),
{
}

/// One tracked discovery session. `created_at` is fixed at creation;
/// `updated_at` moves on every applied transition. The daemon id is a weak
/// reference: deleting the daemon does not touch its sessions.
#[derive(Clone, Copy, Debug, PartialEq, Eq, Structural)]
pub struct DiscoverySession {
    pub session_id: u128,
    pub daemon_id: u128,
    pub state: SessionState,
    pub created_at: u64,
    pub updated_at: u64,
}

impl DiscoverySession {
    /// The session after a request to advance it to `to` at time `now`.
    pub open spec fn stepped(self, to: SessionState, now: u64) -> DiscoverySession {
        if allowed(self.state, to) {
            DiscoverySession { state: to, updated_at: now, ..self }
        } else {
            self
        }
    }

    /// How old the session is at time `now` (zero for a clock that stands
    /// before its creation).
    pub open spec fn age_ms(self, now: u64) -> u64 {
        if now >= self.created_at {
            (now - self.created_at) as u64
        } else {
            0
        }
    }
}

/// Some session in `s` already carries this session id.
pub open spec fn sid_taken(s: Seq<DiscoverySession>, sid: u128) -> bool {
    exists|i: int| 0 <= i < s.len() && s[i].session_id == sid
}

/// The index of the session carrying `sid`; meaningful only under
/// `sid_taken(s, sid)`, and unique under `unique_sids(s)`.
pub open spec fn index_of_sid(s: Seq<DiscoverySession>, sid: u128) -> int {
    choose|i: int| 0 <= i < s.len() && s[i].session_id == sid
}

/// What a lookup by session id returns.
pub open spec fn find_session(s: Seq<DiscoverySession>, sid: u128) -> Option<DiscoverySession> {
    if sid_taken(s, sid) {
        Some(s[index_of_sid(s, sid)])
    } else {
        None
    }
}

/// Session ids are unique within `s`: exactly one session per id.
pub open spec fn unique_sids(s: Seq<DiscoverySession>) -> bool {
    forall|i: int, j: int| #![trigger s[i], s[j]]
        0 <= i < j < s.len() ==> s[i].session_id != s[j].session_id
}

/// The table after a request to advance session `sid` to `to` at time `now`:
/// the transition rule is applied to that session, and a request for an
/// absent id changes nothing.
pub open spec fn advance_model(
    s: Seq<DiscoverySession>,
    sid: u128,
    to: SessionState,
    now: u64,
) -> Seq<DiscoverySession> {
    if sid_taken(s, sid) {
        let i = index_of_sid(s, sid);
        s.update(i, s[i].stepped(to, now))
    } else {
        s
    }
}

/// A session is kept by `list_active`: it has not reached a terminal state.
pub open spec fn is_active(s: DiscoverySession) -> bool {
    !s.state.spec_is_terminal()
}

/// The active (non-terminal) sessions of `s`, in table order.
pub open spec fn active_sessions(s: Seq<DiscoverySession>) -> Seq<DiscoverySession> {
    s.filter(|x: DiscoverySession| is_active(x))
}

/// The session is overdue at time `now`: still non-terminal although its age
/// exceeds the running-time ceiling.
pub open spec fn overdue(x: DiscoverySession, now: u64, ceiling_ms: u64) -> bool {
    !x.state.spec_is_terminal() && x.age_ms(now) > ceiling_ms
}

/// The session is stale at time `now`: terminal, and older than the
/// retention window.
pub open spec fn stale(x: DiscoverySession, now: u64, retention_ms: u64) -> bool {
    x.state.spec_is_terminal() && x.age_ms(now) > retention_ms
}

/// The table after a timeout sweep at time `now`: every overdue session is
/// moved to `TimedOut`, every other session is untouched.
pub open spec fn timeout_swept(s: Seq<DiscoverySession>, now: u64, ceiling_ms: u64) -> Seq<
    DiscoverySession,
> {
    Seq::new(
        s.len(),
        |i: int|
            if overdue(s[i], now, ceiling_ms) {
                DiscoverySession { state: SessionState::TimedOut, updated_at: now, ..s[i] }
            } else {
                s[i]
            },
    )
}

/// The table after a retention sweep at time `now`: exactly the sessions
/// that are not stale remain, in table order.
pub open spec fn retained(s: Seq<DiscoverySession>, now: u64, retention_ms: u64) -> Seq<
    DiscoverySession,
> {
    s.filter(|x: DiscoverySession| !stale(x, now, retention_ms))
}

/// In-memory, single-owner registry of active and recent discovery sessions.
/// Exactly one session exists per session id, and every mutation obeys the
/// monotonic transition rule.
pub struct DiscoverySessionTable {
    sessions: Vec<DiscoverySession>,
}

impl View for DiscoverySessionTable {
    type V = Seq<DiscoverySession>;

    closed spec fn view(&self) -> Seq<DiscoverySession> {
        self.sessions@
    }
}

impl DiscoverySessionTable {
    /// The table's invariant: one session per session id.
    pub open spec fn wf(&self) -> bool {
        unique_sids(self@)
    }

    /// An empty table.
    pub fn new() -> (r: DiscoverySessionTable)
        ensures
            r@ == Seq::<DiscoverySession>::empty(),
            r.wf(),
    {
        DiscoverySessionTable { sessions: Vec::new() }
    }

    /// How many sessions the table holds, terminal ones included.
    pub fn len(&self) -> (r: usize)
        ensures
            r == self@.len(),
    {
        self.sessions.len()
    }

    /// The position of the session with this id, if any.
    fn position_of_sid(&self, sid: u128) -> (r: Option<usize>)
        ensures
            match r {
                Some(i) => i < self@.len() && self@[i as int].session_id == sid,
                None => !sid_taken(self@, sid),
            },
    {
        let mut i: usize = 0;
        while i < self.sessions.len()
            invariant
                i <= self@.len(),
                forall|j: int| 0 <= j < i ==> #[trigger] self@[j].session_id != sid,
            decreases self@.len() - i,
        {
            if self.sessions[i].session_id == sid {
                return Some(i);
            }
            i = i + 1;
        }
        None
    }

    /// Creates a session in state `Pending` for a dispatch to `daemon_id`.
    /// Fails with `Conflict`, leaving the table unchanged, exactly when the
    /// session id is already present.
    pub fn create(&mut self, session_id: u128, daemon_id: u128, now: u64) -> (r: Result<
        (),
        FleetError,
    >)
        requires
            old(self).wf(),
        ensures
            final(self).wf(),
            sid_taken(old(self)@, session_id) ==> r == Err::<(), FleetError>(FleetError::Conflict)
                && final(self)@ == old(self)@,
            !sid_taken(old(self)@, session_id) ==> r == Ok::<(), FleetError>(()) && final(self)@
                == old(self)@.push(
                DiscoverySession {
                    session_id,
                    daemon_id,
                    state: SessionState::Pending,
                    created_at: now,
                    updated_at: now,
                },
            ),
    {
        match self.position_of_sid(session_id) {
            Some(_) => Err(FleetError::Conflict),
            None => {
                let ghost s_old = self@;
                self.sessions.push(
                    DiscoverySession {
                        session_id,
                        daemon_id,
                        state: SessionState::Pending,
                        created_at: now,
                        updated_at: now,
                    },
                );
                proof {
                    assert forall|x: int, y: int| #![trigger self@[x], self@[y]]
                        0 <= x < y < self@.len() implies self@[x].session_id
                        != self@[y].session_id by {
                        if y < self@.len() - 1 {
                            assert(self@[x] == s_old[x] && self@[y] == s_old[y]);
                        } else {
                            assert(self@[x] == s_old[x]);
                            assert(!(s_old[x].session_id == session_id));
                        }
                    }
                }
                Ok(())
            },
        }
    }

    /// Looks up a session by id; `None` is a legitimate miss, never an error.
    pub fn get(&self, session_id: u128) -> (r: Option<DiscoverySession>)
        requires
            self.wf(),
        ensures
            r == find_session(self@, session_id),
    {
        match self.position_of_sid(session_id) {
            Some(i) => {
                let s = self.sessions[i];
                proof {
                    let w = index_of_sid(self@, session_id);
                    assert(0 <= w < self@.len() && self@[w].session_id == session_id);
                    assert(w == i as int);
                }
                Some(s)
            },
            None => None,
        }
    }

    /// Applies the monotonic transition rule to session `session_id`:
    /// `Ok(true)` when the transition was applied, `Ok(false)` when it was
    /// refused and the session left as it stands (an illegal transition,
    /// including any out of a terminal state, is a no-op, not an error), and
    /// `NotFound` when the id is absent.
    pub fn advance(&mut self, session_id: u128, to: SessionState, now: u64) -> (r: Result<
        bool,
        FleetError,
    >)
        requires
            old(self).wf(),
        ensures
            final(self).wf(),
            final(self)@ == advance_model(old(self)@, session_id, to, now),
            !sid_taken(old(self)@, session_id) ==> r == Err::<bool, FleetError>(
                FleetError::NotFound,
            ),
            sid_taken(old(self)@, session_id) ==> r == Ok::<bool, FleetError>(
                allowed(old(self)@[index_of_sid(old(self)@, session_id)].state, to),
            ),
    {
        let pos = match self.position_of_sid(session_id) {
            Some(i) => i,
            None => {
                return Err(FleetError::NotFound);
            },
        };
        proof {
            let w = index_of_sid(self@, session_id);
            assert(0 <= w < self@.len() && self@[w].session_id == session_id);
            assert(w == pos as int);
        }

        let cur = self.sessions[pos];
        let ok = transition_allowed(cur.state, to);
        let ghost s_old = self@;
        if ok {
            let stepped = DiscoverySession {
                state: to,
                updated_at: now,
                session_id: cur.session_id,
                daemon_id: cur.daemon_id,
                created_at: cur.created_at,
            };
            self.sessions.remove(pos);
            self.sessions.insert(pos, stepped);
            proof {
                assert(self@ =~= s_old.update(pos as int, stepped));
                assert(stepped == s_old[pos as int].stepped(to, now));
                assert forall|x: int, y: int| #![trigger self@[x], self@[y]]
                    0 <= x < y < self@.len() implies self@[x].session_id
                    != self@[y].session_id by {
                    assert(s_old[x].session_id != s_old[y].session_id);
                }
            }
        } else {
            proof {
                assert(s_old[pos as int].stepped(to, now) == s_old[pos as int]);
                assert(self@ =~= s_old.update(pos as int, s_old[pos as int].stepped(to, now)));
            }
        }
        Ok(ok)
    }

    /// Best-effort local cancellation: advances the session to `Cancelled`
    /// under the transition rule. On an already-terminal session this is a
    /// no-op that still succeeds, so cancellation is idempotent; only an
    /// absent id is `NotFound`.
    pub fn cancel(&mut self, session_id: u128, now: u64) -> (r: Result<(), FleetError>)
        requires
            old(self).wf(),
        ensures
            final(self).wf(),
            final(self)@ == advance_model(old(self)@, session_id, SessionState::Cancelled, now),
            !sid_taken(old(self)@, session_id) ==> r == Err::<(), FleetError>(FleetError::NotFound),
            sid_taken(old(self)@, session_id) ==> r == Ok::<(), FleetError>(()),
    {
        match self.advance(session_id, SessionState::Cancelled, now) {
            Ok(_) => Ok(()),
            Err(e) => Err(e),
        }
    }

    /// The active (non-terminal) sessions, for diagnostics, in table order.
    pub fn list_active(&self) -> (r: Vec<DiscoverySession>)
        requires
            self.wf(),
        ensures
            r@ == active_sessions(self@),
    {
        let mut out: Vec<DiscoverySession> = Vec::new();
        let mut i: usize = 0;
        proof {
            reveal(Seq::filter);
            assert(self@.subrange(0, 0) =~= Seq::<DiscoverySession>::empty());
        }
        while i < self.sessions.len()
            invariant
                i <= self@.len(),
                out@ == active_sessions(self@.subrange(0, i as int)),
            decreases self@.len() - i,
        {
            let s = self.sessions[i];
            if !s.state.is_terminal() {
                out.push(s);
            }
            proof {
                reveal(Seq::filter);
                let t = self@.subrange(0, i as int + 1);
                assert(t.drop_last() =~= self@.subrange(0, i as int));
                assert(t.last() == self@[i as int]);
            }
            i = i + 1;
        }
        proof {
            assert(self@.subrange(0, self@.len() as int) =~= self@);
        }
        out
    }

    /// The timeout sweep: every session still non-terminal whose age at `now`
    /// exceeds `ceiling_ms` transitions to `TimedOut`; every other session,
    /// younger or already terminal, is untouched.
    pub fn timeout_overdue(&mut self, now: u64, ceiling_ms: u64)
        requires
            old(self).wf(),
        ensures
            final(self).wf(),
            final(self)@ == timeout_swept(old(self)@, now, ceiling_ms),
    {
        let n = self.sessions.len();
        let mut out: Vec<DiscoverySession> = Vec::new();
        let mut i: usize = 0;
        while i < n
            invariant
                old(self).wf(),
                *self == *old(self),
                n == self@.len(),
                i <= n,
                out@.len() == i,
                forall|j: int|
                    0 <= j < i ==> #[trigger] out@[j] == timeout_swept(self@, now, ceiling_ms)[j],
            decreases n - i,
        {
            let s = self.sessions[i];
            let is_over = if !s.state.is_terminal() && now >= s.created_at {
                now - s.created_at > ceiling_ms
            } else {
                false
            };
            if is_over {
                out.push(
                    DiscoverySession {
                        state: SessionState::TimedOut,
                        updated_at: now,
                        session_id: s.session_id,
                        daemon_id: s.daemon_id,
                        created_at: s.created_at,
                    },
                );
            } else {
                out.push(s);
            }
            i = i + 1;
        }
        let ghost s_old = self@;
        self.sessions = out;
        proof {
            assert(self@ =~= timeout_swept(s_old, now, ceiling_ms));
            assert forall|x: int, y: int| #![trigger self@[x], self@[y]]
                0 <= x < y < self@.len() implies self@[x].session_id != self@[y].session_id by {
                assert(s_old[x].session_id != s_old[y].session_id);
            }
        }
    }

    /// The retention sweep: every terminal session whose age at `now` exceeds
    /// `retention_ms` is evicted from the table entirely; everything else,
    /// active or recently terminal, remains, in table order.
    pub fn evict_stale(&mut self, now: u64, retention_ms: u64)
        requires
            old(self).wf(),
        ensures
            final(self).wf(),
            final(self)@ == retained(old(self)@, now, retention_ms),
    {
        let n = self.sessions.len();
        let mut out: Vec<DiscoverySession> = Vec::new();
        let mut i: usize = 0;
        proof {
            reveal(Seq::filter);
            assert(self@.subrange(0, 0) =~= Seq::<DiscoverySession>::empty());
        }
        while i < n
            invariant
                old(self).wf(),
                *self == *old(self),
                n == self@.len(),
                i <= n,
                out@ == retained(self@.subrange(0, i as int), now, retention_ms),
            decreases n - i,
        {
            let s = self.sessions[i];
            let is_stale = if s.state.is_terminal() && now >= s.created_at {
                now - s.created_at > retention_ms
            } else {
                false
            };
            if !is_stale {
                out.push(s);
            }
            proof {
                reveal(Seq::filter);
                let t = self@.subrange(0, i as int + 1);
                assert(t.drop_last() =~= self@.subrange(0, i as int));
                assert(t.last() == self@[i as int]);
            }
            i = i + 1;
        }
        let ghost s_old = self@;
        self.sessions = out;
        proof {
            assert(s_old.subrange(0, s_old.len() as int) =~= s_old);
            lemma_filter_keeps_unique(s_old, |x: DiscoverySession| !stale(x, now, retention_ms));
        }
    }
}

/// Filtering a table with unique session ids keeps the ids unique: every
/// session the filter keeps stands in the original.
pub proof fn lemma_filter_keeps_unique(
    s: Seq<DiscoverySession>,
    pred: spec_fn(DiscoverySession) -> bool,
)
    requires
        unique_sids(s),
    ensures
        unique_sids(s.filter(pred)),
        forall|k: int| 0 <= k < s.filter(pred).len() ==> s.contains(#[trigger] s.filter(pred)[k]),
    decreases s.len(),
{
    reveal(Seq::filter);
    if s.len() > 0 {
        let t = s.drop_last();
        assert(unique_sids(t));
        lemma_filter_keeps_unique(t, pred);
        let ft = t.filter(pred);
        assert forall|k: int| 0 <= k < ft.len() implies s.contains(#[trigger] ft[k]) by {
            assert(t.contains(ft[k]));
            let j = choose|j: int| 0 <= j < t.len() && t[j] == ft[k];
            assert(s[j] == ft[k]);
        }
        let f = s.filter(pred);
        if pred(s.last()) {
            assert(f == ft.push(s.last()));
            assert forall|x: int, y: int| #![trigger f[x], f[y]]
                0 <= x < y < f.len() implies f[x].session_id != f[y].session_id by {
                if y < f.len() - 1 {
                    assert(f[x] == ft[x] && f[y] == ft[y]);
                } else {
                    assert(f[x] == ft[x]);
                    assert(f[y] == s.last());
                    assert(t.contains(ft[x]));
                    let j = choose|j: int| 0 <= j < t.len() && t[j] == ft[x];
                    assert(s[j].session_id != s[s.len() - 1].session_id);
                }
            }
        } else {
            assert(f == ft);
        }
    }
}

/// Advancing a session that a first advance left terminal is a no-op: in
/// particular a second cancellation of the same session changes nothing.
pub proof fn lemma_advance_on_terminal_noop(
    s: Seq<DiscoverySession>,
    sid: u128,
    to: SessionState,
    now: u64,
)
    requires
        unique_sids(s),
        sid_taken(s, sid),
        s[index_of_sid(s, sid)].state.spec_is_terminal(),
    ensures
        advance_model(s, sid, to, now) == s,
{
    let i = index_of_sid(s, sid);
    assert(s[i].stepped(to, now) == s[i]);
    assert(s.update(i, s[i]) =~= s);
}

/// Cancellation is idempotent at the table level: cancelling a session twice
/// leaves the table exactly as one cancellation left it, whatever the clock
/// read the second time.
pub proof fn lemma_cancel_idempotent(s: Seq<DiscoverySession>, sid: u128, n1: u64, n2: u64)
    requires
        unique_sids(s),
    ensures
        advance_model(
            advance_model(s, sid, SessionState::Cancelled, n1),
            sid,
            SessionState::Cancelled,
            n2,
        ) == advance_model(s, sid, SessionState::Cancelled, n1),
{
    if sid_taken(s, sid) {
        let i = index_of_sid(s, sid);
        let s1 = advance_model(s, sid, SessionState::Cancelled, n1);
        assert(s1 == s.update(i, s[i].stepped(SessionState::Cancelled, n1)));
        assert(s1[i].session_id == sid);
        assert(sid_taken(s1, sid));
        assert forall|x: int, y: int| #![trigger s1[x], s1[y]]
            0 <= x < y < s1.len() implies s1[x].session_id != s1[y].session_id by {
            assert(s[x].session_id != s[y].session_id);
        }
        let k = index_of_sid(s1, sid);
        assert(0 <= k < s1.len() && s1[k].session_id == sid);
        assert(k == i);
        assert(s1[i].state.spec_is_terminal());
        lemma_advance_on_terminal_noop(s1, sid, SessionState::Cancelled, n2);
    }
}

} // verus!
