//! The daemon record store: a durable mapping from daemon identity to
//! connection and metadata facts, held here as an in-memory table with the
//! storage contract proved. Identities (`id`, `host_id`, `api_key`) are
//! unique among live records, and the table is kept ordered newest
//! registration first, which is what listing promises to callers.

use vstd::prelude::*;

use crate::daemon::DaemonRecord;
use crate::errors::FleetError;

verus! {

/// Some record in `s` already carries this daemon id.
pub open spec fn id_taken(s: Seq<DaemonRecord>, id: u128) -> bool {
    exists|i: int| 0 <= i < s.len() && s[i].id == id
}

/// Some record in `s` already carries this host id.
pub open spec fn host_taken(s: Seq<DaemonRecord>, host_id: u128) -> bool {
    exists|i: int| 0 <= i < s.len() && s[i].host_id == host_id
}

/// Some record in `s` already carries this api key.
pub open spec fn key_taken(s: Seq<DaemonRecord>, key: Seq<char>) -> bool {
    exists|i: int| 0 <= i < s.len() && s[i].api_key@ == key
}

/// Creating `d` would violate a uniqueness constraint of the store.
pub open spec fn conflicts_with(s: Seq<DaemonRecord>, d: DaemonRecord) -> bool {
    id_taken(s, d.id) || host_taken(s, d.host_id) || key_taken(s, d.api_key@)
}

/// `id`, `host_id` and `api_key` are each unique among the records of `s`.
pub open spec fn unique_identities(s: Seq<DaemonRecord>) -> bool {
    forall|i: int, j: int| #![trigger s[i], s[j]]
        0 <= i < j < s.len() ==> s[i].id != s[j].id && s[i].host_id != s[j].host_id
            && s[i].api_key@ != s[j].api_key@
}

/// The records of `s` are ordered by registration time, newest first.
pub open spec fn newest_first(s: Seq<DaemonRecord>) -> bool {
    forall|i: int, j: int| #![trigger s[i], s[j]]
        0 <= i <= j < s.len() ==> s[i].registered_at >= s[j].registered_at
}

/// The index of the record carrying `id`; meaningful only under
/// `id_taken(s, id)`, and unique under `unique_identities(s)`.
pub open spec fn index_of_id(s: Seq<DaemonRecord>, id: u128) -> int {
    choose|i: int| 0 <= i < s.len() && s[i].id == id
}

/// What a lookup by daemon id returns.
pub open spec fn find_by_id(s: Seq<DaemonRecord>, id: u128) -> Option<DaemonRecord> {
    if id_taken(s, id) {
        Some(s[index_of_id(s, id)])
    } else {
        None
    }
}

/// What a lookup by host id returns.
pub open spec fn find_by_host(s: Seq<DaemonRecord>, host_id: u128) -> Option<DaemonRecord> {
    if host_taken(s, host_id) {
        Some(s[choose|i: int| 0 <= i < s.len() && s[i].host_id == host_id])
    } else {
        None
    }
}

/// What a lookup by api key returns.
pub open spec fn find_by_key(s: Seq<DaemonRecord>, key: Seq<char>) -> Option<DaemonRecord> {
    if key_taken(s, key) {
        Some(s[choose|i: int| 0 <= i < s.len() && s[i].api_key@ == key])
    } else {
        None
    }
}

/// The record `d` belongs to one of the given networks.
pub open spec fn in_networks(d: DaemonRecord, nets: Seq<u128>) -> bool {
    nets.contains(d.network_id)
}

/// The records of `s` whose network id lies in `nets`, in the order of `s`.
pub open spec fn matching(s: Seq<DaemonRecord>, nets: Seq<u128>) -> Seq<DaemonRecord> {
    s.filter(|d: DaemonRecord| in_networks(d, nets))
}

/// The store after a heartbeat for `id` at time `now`: the record's
/// `last_seen` moves forward (never backwards), everything else stays.
pub open spec fn heartbeat_model(s: Seq<DaemonRecord>, id: u128, now: u64) -> Seq<DaemonRecord> {
    if id_taken(s, id) {
        let i = index_of_id(s, id);
        s.update(i, s[i].after_heartbeat(now))
    } else {
        s
    }
}

/// Updating `d.id` to carry `d.host_id` would collide with a different record.
pub open spec fn update_host_conflict(s: Seq<DaemonRecord>, d: DaemonRecord) -> bool {
    exists|j: int| 0 <= j < s.len() && s[j].id != d.id && #[trigger] s[j].host_id == d.host_id
}

/// In-memory daemon record store with the storage contract proved: unique
/// identities, newest-first order, explicit `Conflict` / `NotFound` failures
/// and an idempotent delete.
pub struct DaemonStore {
    records: Vec<DaemonRecord>,
}

impl View for DaemonStore {
    type V = Seq<DaemonRecord>;

    closed spec fn view(&self) -> Seq<DaemonRecord> {
        self.records@
    }
}

impl DaemonStore {
    /// The store's invariant: unique identities, ordered newest first.
    pub open spec fn wf(&self) -> bool {
        unique_identities(self@) && newest_first(self@)
    }

    /// An empty store.
    pub fn new() -> (r: DaemonStore)
        ensures
            r@ == Seq::<DaemonRecord>::empty(),
            r.wf(),
    {
        DaemonStore { records: Vec::new() }
    }

    /// How many records the store holds.
    pub fn len(&self) -> (r: usize)
        ensures
            r == self@.len(),
    {
        self.records.len()
    }

    /// Persists a new record. Fails with `Conflict`, leaving the store
    /// unchanged, exactly when `id`, `host_id` or `api_key` is already taken;
    /// otherwise the record is inserted at its place in registration order
    /// (before the first record registered no later than it).
    pub fn create(&mut self, d: DaemonRecord) -> (r: Result<(), FleetError>)
        requires
            old(self).wf(),
        ensures
            final(self).wf(),
            conflicts_with(old(self)@, d) ==> r == Err::<(), FleetError>(FleetError::Conflict)
                && final(self)@ == old(self)@,
            !conflicts_with(old(self)@, d) ==> r == Ok::<(), FleetError>(()) && exists|p: int|
                {
                    &&& 0 <= p <= old(self)@.len()
                    &&& (forall|j: int|
                        0 <= j < p ==> #[trigger] old(self)@[j].registered_at > d.registered_at)
                    &&& (p < old(self)@.len() ==> old(self)@[p].registered_at <= d.registered_at)
                    &&& final(self)@ == old(self)@.insert(p, d)
                },
    {
        let n = self.records.len();
        let mut i: usize = 0;
        while i < n
            invariant
                old(self).wf(),
                n == self@.len(),
                i <= n,
                *self == *old(self),
                forall|j: int|
                    0 <= j < i ==> #[trigger] self@[j].id != d.id && self@[j].host_id != d.host_id
                        && self@[j].api_key@ != d.api_key@,
            decreases n - i,
        {
            let e = &self.records[i];
            if e.id == d.id || e.host_id == d.host_id || e.api_key == d.api_key {
                return Err(FleetError::Conflict);
            }
            i = i + 1;
        }
        assert(!conflicts_with(self@, d));

        let mut p: usize = 0;
        while p < n && self.records[p].registered_at > d.registered_at
            invariant
                old(self).wf(),
                n == self@.len(),
                p <= n,
                *self == *old(self),
                forall|j: int| 0 <= j < p ==> #[trigger] self@[j].registered_at > d.registered_at,
            decreases n - p,
        {
            p = p + 1;
        }

        let ghost s_old = self@;
        self.records.insert(p, d);
        proof {
            assert(self@ == s_old.insert(p as int, d));
            assert forall|x: int, y: int| #![trigger self@[x], self@[y]]
                0 <= x < y < self@.len() implies self@[x].id != self@[y].id && self@[x].host_id
                != self@[y].host_id && self@[x].api_key@ != self@[y].api_key@ by {
                let px = if x < p { x } else { x - 1 };
                let py = if y < p { y } else { y - 1 };
                if x != p && y != p {
                    assert(self@[x] == s_old[px]);
                    assert(self@[y] == s_old[py]);
                }
            }
            assert forall|x: int, y: int| #![trigger self@[x], self@[y]]
                0 <= x <= y < self@.len() implies self@[x].registered_at
                >= self@[y].registered_at by {
                let px = if x < p { x } else { x - 1 };
                let py = if y < p { y } else { y - 1 };
                if x != p && y != p {
                    assert(self@[x] == s_old[px]);
                    assert(self@[y] == s_old[py]);
                } else if x == p && y != p {
                    assert(self@[y] == s_old[py]);
                } else if x != p && y == p {
                    assert(self@[x] == s_old[px]);
                }
            }
        }
        Ok(())
    }

    /// The position of the record with this id, if any.
    fn position_of_id(&self, id: u128) -> (r: Option<usize>)
        ensures
            match r {
                Some(i) => i < self@.len() && self@[i as int].id == id,
                None => !id_taken(self@, id),
            },
    {
        let mut i: usize = 0;
        while i < self.records.len()
            invariant
                i <= self@.len(),
                forall|j: int| 0 <= j < i ==> #[trigger] self@[j].id != id,
            decreases self@.len() - i,
        {
            if self.records[i].id == id {
                return Some(i);
            }
            i = i + 1;
        }
        None
    }

    /// Looks up a record by daemon id; `None` is a legitimate miss, never an
    /// error.
    pub fn get_by_id(&self, id: u128) -> (r: Option<DaemonRecord>)
        requires
            self.wf(),
        ensures
            r == find_by_id(self@, id),
    {
        match self.position_of_id(id) {
            Some(i) => {
                let d = self.records[i].clone();
                proof {
                    let w = index_of_id(self@, id);
                    assert(0 <= w < self@.len() && self@[w].id == id);
                    assert(w == i as int);
                }
                Some(d)
            },
            None => None,
        }
    }

    /// Looks up a record by host id.
    pub fn get_by_host_id(&self, host_id: u128) -> (r: Option<DaemonRecord>)
        requires
            self.wf(),
        ensures
            r == find_by_host(self@, host_id),
    {
        let mut i: usize = 0;
        while i < self.records.len()
            invariant
                self.wf(),
                i <= self@.len(),
                forall|j: int| 0 <= j < i ==> #[trigger] self@[j].host_id != host_id,
            decreases self@.len() - i,
        {
            if self.records[i].host_id == host_id {
                let d = self.records[i].clone();
                proof {
                    let w = choose|k: int| 0 <= k < self@.len() && self@[k].host_id == host_id;
                    assert(0 <= w < self@.len() && self@[w].host_id == host_id);
                    assert(w == i as int);
                }
                return Some(d);
            }
            i = i + 1;
        }
        None
    }

    /// Looks up a record by api key; this is the authentication path for
    /// inbound daemon calls, matching on the exact stored value.
    pub fn get_by_api_key(&self, api_key: &String) -> (r: Option<DaemonRecord>)
        requires
            self.wf(),
        ensures
            r == find_by_key(self@, api_key@),
    {
        let mut i: usize = 0;
        while i < self.records.len()
            invariant
                self.wf(),
                i <= self@.len(),
                forall|j: int| 0 <= j < i ==> #[trigger] self@[j].api_key@ != api_key@,
            decreases self@.len() - i,
        {
            if self.records[i].api_key == *api_key {
                let d = self.records[i].clone();
                proof {
                    let w = choose|k: int| 0 <= k < self@.len() && self@[k].api_key@ == api_key@;
                    assert(0 <= w < self@.len() && self@[w].api_key@ == api_key@);
                    assert(w == i as int);
                }
                return Some(d);
            }
            i = i + 1;
        }
        None
    }

    /// Returns exactly the records whose `network_id` lies in `network_ids`,
    /// ordered by registration time, newest first.
    pub fn get_all(&self, network_ids: &Vec<u128>) -> (r: Vec<DaemonRecord>)
        requires
            self.wf(),
        ensures
            r@ == matching(self@, network_ids@),
            newest_first(r@),
    {
        let mut out: Vec<DaemonRecord> = Vec::new();
        let mut i: usize = 0;
        proof {
            reveal(Seq::filter);
            assert(self@.subrange(0, 0) =~= Seq::<DaemonRecord>::empty());
        }
        while i < self.records.len()
            invariant
                self.wf(),
                i <= self@.len(),
                out@ == matching(self@.subrange(0, i as int), network_ids@),
            decreases self@.len() - i,
        {
            let d = &self.records[i];
            let keep = contains_u128(network_ids, d.network_id);
            if keep {
                out.push(d.clone());
            }
            proof {
                reveal(Seq::filter);
                let t = self@.subrange(0, i as int + 1);
                assert(t.drop_last() =~= self@.subrange(0, i as int));
                assert(t.last() == self@[i as int]);
            }
            i = i + 1;
        }
        proof {
            assert(self@.subrange(0, self@.len() as int) =~= self@);
            lemma_matching_keeps_order(self@, network_ids@);
        }
        out
    }

    /// Full-record update by id: `host_id`, `ip`, `port` and `last_seen` are
    /// taken from `d`; identity, grouping, credential and registration time
    /// are immutable. Fails with `NotFound` when the id is absent, and with
    /// `Conflict` when the new `host_id` would collide with another record;
    /// either failure leaves the store unchanged.
    pub fn update(&mut self, d: &DaemonRecord) -> (r: Result<DaemonRecord, FleetError>)
        requires
            old(self).wf(),
        ensures
            final(self).wf(),
            !id_taken(old(self)@, d.id) ==> r == Err::<DaemonRecord, FleetError>(
                FleetError::NotFound,
            ) && final(self)@ == old(self)@,
            id_taken(old(self)@, d.id) && update_host_conflict(old(self)@, *d) ==> r == Err::<
                DaemonRecord,
                FleetError,
            >(FleetError::Conflict) && final(self)@ == old(self)@,
            id_taken(old(self)@, d.id) && !update_host_conflict(old(self)@, *d) ==> {
                let i = index_of_id(old(self)@, d.id);
                let merged = old(self)@[i].after_update(*d);
                r == Ok::<DaemonRecord, FleetError>(merged) && final(self)@ == old(self)@.update(
                    i,
                    merged,
                )
            },
    {
        let pos = match self.position_of_id(d.id) {
            Some(i) => i,
            None => {
                return Err(FleetError::NotFound);
            },
        };
        proof {
            let w = index_of_id(self@, d.id);
            assert(0 <= w < self@.len() && self@[w].id == d.id);
            assert(w == pos as int);
        }

        let n = self.records.len();
        let mut j: usize = 0;
        while j < n
            invariant
                old(self).wf(),
                n == self@.len(),
                j <= n,
                pos < n,
                self@[pos as int].id == d.id,
                *self == *old(self),
                forall|k: int|
                    0 <= k < j ==> !(#[trigger] self@[k].id != d.id && self@[k].host_id
                        == d.host_id),
            decreases n - j,
        {
            let e = &self.records[j];
            if e.id != d.id && e.host_id == d.host_id {
                return Err(FleetError::Conflict);
            }
            j = j + 1;
        }
        assert(!update_host_conflict(self@, *d));

        let stored = self.records[pos].clone();
        let merged = DaemonRecord {
            host_id: d.host_id,
            ip: d.ip,
            port: d.port,
            last_seen: d.last_seen,
            id: stored.id,
            network_id: stored.network_id,
            api_key: stored.api_key,
            registered_at: stored.registered_at,
        };
        let out = merged.clone();
        let ghost s_old = self@;
        let ghost m = merged;
        self.records.remove(pos);
        self.records.insert(pos, merged);
        proof {
            assert(self@ =~= s_old.update(pos as int, m));
            assert(m == s_old[pos as int].after_update(*d));
            assert forall|x: int, y: int| #![trigger self@[x], self@[y]]
                0 <= x < y < self@.len() implies self@[x].id != self@[y].id && self@[x].host_id
                != self@[y].host_id && self@[x].api_key@ != self@[y].api_key@ by {
                assert(s_old[x].id != s_old[y].id && s_old[x].host_id != s_old[y].host_id
                    && s_old[x].api_key@ != s_old[y].api_key@);
                if x == pos as int {
                    assert(s_old[y].id != s_old[pos as int].id);
                    assert(!(s_old[y].id != d.id && s_old[y].host_id == d.host_id));
                } else if y == pos as int {
                    assert(s_old[x].id != s_old[pos as int].id);
                    assert(!(s_old[x].id != d.id && s_old[x].host_id == d.host_id));
                }
            }
            assert forall|x: int, y: int| #![trigger self@[x], self@[y]]
                0 <= x <= y < self@.len() implies self@[x].registered_at
                >= self@[y].registered_at by {
                assert(s_old[x].registered_at >= s_old[y].registered_at);
            }
        }
        Ok(out)
    }

    /// Refreshes the liveness timestamp of the record carrying `id`: its
    /// `last_seen` becomes `now` unless it already lies past `now`, so it
    /// never decreases. Fails with `NotFound` when the id is absent.
    pub fn heartbeat(&mut self, id: u128, now: u64) -> (r: Result<DaemonRecord, FleetError>)
        requires
            old(self).wf(),
        ensures
            final(self).wf(),
            final(self)@ == heartbeat_model(old(self)@, id, now),
            !id_taken(old(self)@, id) ==> r == Err::<DaemonRecord, FleetError>(
                FleetError::NotFound,
            ),
            id_taken(old(self)@, id) ==> {
                let i = index_of_id(old(self)@, id);
                r == Ok::<DaemonRecord, FleetError>(old(self)@[i].after_heartbeat(now))
            },
    {
        let pos = match self.position_of_id(id) {
            Some(i) => i,
            None => {
                return Err(FleetError::NotFound);
            },
        };
        proof {
            let w = index_of_id(self@, id);
            assert(0 <= w < self@.len() && self@[w].id == id);
            assert(w == pos as int);
        }

        let stored = self.records[pos].clone();
        let bumped = DaemonRecord {
            last_seen: if stored.last_seen >= now {
                stored.last_seen
            } else {
                now
            },
            id: stored.id,
            host_id: stored.host_id,
            network_id: stored.network_id,
            ip: stored.ip,
            port: stored.port,
            api_key: stored.api_key,
            registered_at: stored.registered_at,
        };
        let out = bumped.clone();
        let ghost s_old = self@;
        let ghost b = bumped;
        self.records.remove(pos);
        self.records.insert(pos, bumped);
        proof {
            assert(self@ =~= s_old.update(pos as int, b));
            assert(b == s_old[pos as int].after_heartbeat(now));
            assert forall|x: int, y: int| #![trigger self@[x], self@[y]]
                0 <= x < y < self@.len() implies self@[x].id != self@[y].id && self@[x].host_id
                != self@[y].host_id && self@[x].api_key@ != self@[y].api_key@ by {
                assert(s_old[x].id != s_old[y].id && s_old[x].host_id != s_old[y].host_id
                    && s_old[x].api_key@ != s_old[y].api_key@);
            }
            assert forall|x: int, y: int| #![trigger self@[x], self@[y]]
                0 <= x <= y < self@.len() implies self@[x].registered_at
                >= self@[y].registered_at by {
                assert(s_old[x].registered_at >= s_old[y].registered_at);
            }
        }
        Ok(out)
    }

    /// Removes the record carrying `id`. Idempotent: succeeds, leaving the
    /// store as it is, when the id is already absent.
    pub fn delete(&mut self, id: u128) -> (r: Result<(), FleetError>)
        requires
            old(self).wf(),
        ensures
            final(self).wf(),
            r == Ok::<(), FleetError>(()),
            id_taken(old(self)@, id) ==> final(self)@ == old(self)@.remove(
                index_of_id(old(self)@, id),
            ),
            !id_taken(old(self)@, id) ==> final(self)@ == old(self)@,
            !id_taken(final(self)@, id),
    {
        let pos = match self.position_of_id(id) {
            Some(i) => i,
            None => {
                return Ok(());
            },
        };
        proof {
            let w = index_of_id(self@, id);
            assert(0 <= w < self@.len() && self@[w].id == id);
            assert(w == pos as int);
        }
        let ghost s_old = self@;
        self.records.remove(pos);
        proof {
            assert(self@ == s_old.remove(pos as int));
            assert forall|x: int, y: int| #![trigger self@[x], self@[y]]
                0 <= x < y < self@.len() implies self@[x].id != self@[y].id && self@[x].host_id
                != self@[y].host_id && self@[x].api_key@ != self@[y].api_key@ by {
                let px = if x < pos { x } else { x + 1 };
                let py = if y < pos { y } else { y + 1 };
                assert(self@[x] == s_old[px]);
                assert(self@[y] == s_old[py]);
            }
            assert forall|x: int, y: int| #![trigger self@[x], self@[y]]
                0 <= x <= y < self@.len() implies self@[x].registered_at
                >= self@[y].registered_at by {
                let px = if x < pos { x } else { x + 1 };
                let py = if y < pos { y } else { y + 1 };
                assert(self@[x] == s_old[px]);
                assert(self@[y] == s_old[py]);
            }
            if id_taken(self@, id) {
                let k = choose|k: int| 0 <= k < self@.len() && self@[k].id == id;
                let pk = if k < pos { k } else { k + 1 };
                assert(s_old[pk].id == id);
                assert(pk != pos);
            }
        }
        Ok(())
    }
}

/// Whether `v` holds `x`.
fn contains_u128(v: &Vec<u128>, x: u128) -> (r: bool)
    ensures
        r == v@.contains(x),
{
    let mut k: usize = 0;
    while k < v.len()
        invariant
            k <= v@.len(),
            forall|j: int| 0 <= j < k ==> v@[j] != x,
        decreases v@.len() - k,
    {
        if v[k] == x {
            return true;
        }
        k = k + 1;
    }
    false
}

/// A listing is exact: every record it returns belongs to one of the asked
/// networks and stands in the store, and every stored record of an asked
/// network is returned.
pub proof fn lemma_listing_exact(s: Seq<DaemonRecord>, nets: Seq<u128>)
    ensures
        forall|k: int|
            0 <= k < matching(s, nets).len() ==> in_networks(#[trigger] matching(s, nets)[k], nets)
                && s.contains(matching(s, nets)[k]),
        forall|i: int|
            0 <= i < s.len() && in_networks(#[trigger] s[i], nets) ==> matching(s, nets).contains(
                s[i],
            ),
{
    broadcast use vstd::seq_lib::group_filter_ensures;

    let pred = |d: DaemonRecord| in_networks(d, nets);
    let f = matching(s, nets);
    assert forall|k: int| 0 <= k < f.len() implies in_networks(#[trigger] f[k], nets) && s.contains(
        f[k],
    ) by {
        lemma_matching_contains(s, nets, k);
    }
    assert forall|i: int| 0 <= i < s.len() && in_networks(#[trigger] s[i], nets) implies f.contains(
        s[i],
    ) by {
        assert(pred(s[i]));
    }
}

/// Each record the network filter keeps satisfies the filter and stands in
/// the original store.
proof fn lemma_matching_contains(s: Seq<DaemonRecord>, nets: Seq<u128>, k: int)
    requires
        0 <= k < matching(s, nets).len(),
    ensures
        in_networks(matching(s, nets)[k], nets),
        s.contains(matching(s, nets)[k]),
    decreases s.len(),
{
    reveal(Seq::filter);
    let pred = |d: DaemonRecord| in_networks(d, nets);
    if s.len() > 0 {
        let t = s.drop_last();
        let ft = t.filter(pred);
        let f = s.filter(pred);
        if pred(s.last()) && k == f.len() - 1 {
            assert(f[k] == s.last());
            assert(s.contains(s.last()));
        } else {
            assert(f[k] == ft[k]);
            lemma_matching_contains(t, nets, k);
            let j = choose|j: int| 0 <= j < t.len() && t[j] == ft[k];
            assert(s[j] == ft[k]);
        }
    }
}

/// A heartbeat never decreases `last_seen`: the refreshed timestamp lies at
/// or past both the old one and the clock reading.
pub proof fn lemma_heartbeat_never_decreases(d: DaemonRecord, now: u64)
    ensures
        d.after_heartbeat(now).last_seen >= d.last_seen,
        d.after_heartbeat(now).last_seen >= now,
        d.after_heartbeat(now) == (DaemonRecord { last_seen: d.after_heartbeat(now).last_seen, ..d }),
{
}

/// Heartbeats are idempotent in effect: a second heartbeat at the same time
/// changes nothing — only the timestamp ever moves, and it has already moved.
pub proof fn lemma_heartbeat_idempotent(s: Seq<DaemonRecord>, id: u128, now: u64)
    requires
        unique_identities(s),
    ensures
        heartbeat_model(heartbeat_model(s, id, now), id, now) == heartbeat_model(s, id, now),
{
    if id_taken(s, id) {
        let i = index_of_id(s, id);
        assert(0 <= i < s.len() && s[i].id == id);
        let b = s[i].after_heartbeat(now);
        let s1 = s.update(i, b);
        assert(heartbeat_model(s, id, now) == s1);
        assert(s1[i].id == id);
        assert(id_taken(s1, id));
        assert forall|x: int, y: int| #![trigger s1[x], s1[y]]
            0 <= x < y < s1.len() implies s1[x].id != s1[y].id by {
            assert(s[x].id != s[y].id);
        }
        let k = index_of_id_witness(s1, id);
        assert(b.after_heartbeat(now) == b);
        assert(s1.update(k, s1[k].after_heartbeat(now)) =~= s1);
    }
}

/// The index chosen for `id` in a store whose ids are pairwise distinct is
/// the one index that carries it.
proof fn index_of_id_witness(s1: Seq<DaemonRecord>, id: u128) -> (k: int)
    requires
        id_taken(s1, id),
        forall|x: int, y: int| #![trigger s1[x], s1[y]] 0 <= x < y < s1.len() ==> s1[x].id != s1[y].id,
    ensures
        k == index_of_id(s1, id),
        0 <= k < s1.len() && s1[k].id == id,
        forall|j: int| 0 <= j < s1.len() && #[trigger] s1[j].id == id ==> j == k,
{
    let k = index_of_id(s1, id);
    assert(0 <= k < s1.len() && s1[k].id == id);
    assert forall|j: int| 0 <= j < s1.len() && #[trigger] s1[j].id == id implies j == k by {
        if j != k {
            assert(s1[j].id != s1[k].id);
        }
    }
    k
}

/// Filtering by network keeps the newest-first order: every record the
/// filter keeps stands in the original, in the original order.
pub proof fn lemma_matching_keeps_order(s: Seq<DaemonRecord>, nets: Seq<u128>)
    requires
        newest_first(s),
    ensures
        newest_first(matching(s, nets)),
        forall|k: int|
            0 <= k < matching(s, nets).len() ==> s.contains(#[trigger] matching(s, nets)[k]),
    decreases s.len(),
{
    reveal(Seq::filter);
    if s.len() > 0 {
        let t = s.drop_last();
        assert(newest_first(t));
        lemma_matching_keeps_order(t, nets);
        let ft = matching(t, nets);
        assert forall|k: int| 0 <= k < ft.len() implies s.contains(#[trigger] ft[k]) by {
            assert(t.contains(ft[k]));
            let j = choose|j: int| 0 <= j < t.len() && t[j] == ft[k];
            assert(s[j] == ft[k]);
        }
        let f = matching(s, nets);
        if in_networks(s.last(), nets) {
            assert(f == ft.push(s.last()));
            assert forall|x: int, y: int| #![trigger f[x], f[y]]
                0 <= x <= y < f.len() implies f[x].registered_at >= f[y].registered_at by {
                if y < f.len() - 1 {
                    assert(f[x] == ft[x] && f[y] == ft[y]);
                } else if x < f.len() - 1 {
                    assert(f[x] == ft[x]);
                    assert(f[y] == s.last());
                    assert(t.contains(ft[x]));
                    let j = choose|j: int| 0 <= j < t.len() && t[j] == ft[x];
                    assert(s[j].registered_at >= s[s.len() - 1].registered_at);
                }
            }
        } else {
            assert(f == ft);
        }
    }
}

} // verus!
