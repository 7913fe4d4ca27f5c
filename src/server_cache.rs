//! The target side's cache of per-flow sockets, each connected to the real
//! server, with the same timeout-based reclamation as the entry side.

use vstd::prelude::*;

use tokio::net::UdpSocket;

use crate::cache::is_expired;
use crate::common::{lemma_push_to_set, now_micros};
use crate::server::ConnId;

verus! {

/// Lets Verus name tokio's UDP socket, which the cache holds without
/// looking inside.
#[verifier::external_type_specification]
#[verifier::external_body]
pub struct ExUdpSocket(tokio::net::UdpSocket);

/// A flow and the socket that carries it to the real server.
pub struct CacheEntry {
    pub id: ConnId,
    pub socket: UdpSocket,
}

struct CacheEntryOuter {
    last_access: i64,
    data: CacheEntry,
}

/// One flow as the contracts see it.
pub struct FlowState {
    pub socket: UdpSocket,
    pub last_access: int,
}

/// The cache as the contracts see it (times in microseconds).
pub struct FlowCacheState {
    pub timeout: int,
    pub entries: Map<ConnId, FlowState>,
    pub pending: Set<ConnId>,
}

impl FlowCacheState {
    /// A lookup at time `now`: the new state, and whether the flow is live.
    /// A flow already marked for removal stays unanswered.
    pub open spec fn lookup(self, id: ConnId, now: int) -> (FlowCacheState, bool) {
        if !self.entries.contains_key(id) || self.pending.contains(id) {
            (self, false)
        } else if is_expired(self.entries[id].last_access, self.timeout, now) {
            (FlowCacheState { pending: self.pending.insert(id), ..self }, false)
        } else {
            (
                FlowCacheState {
                    entries: self.entries.insert(
                        id,
                        FlowState { socket: self.entries[id].socket, last_access: now },
                    ),
                    ..self
                },
                true,
            )
        }
    }

    /// The state after the pending flows are dropped.
    pub open spec fn cleaned(self) -> FlowCacheState {
        FlowCacheState {
            timeout: self.timeout,
            entries: self.entries.remove_keys(self.pending),
            pending: Set::empty(),
        }
    }

    /// The state after the pending flows and those expired at `now` are
    /// dropped.
    pub open spec fn swept(self, now: int) -> FlowCacheState {
        FlowCacheState { pending: self.pending.union(self.expired_at(now)), ..self }.cleaned()
    }

    /// An insertion at time `now`, once the pending flows and those expired
    /// at `now` are dropped; a flow of the same id is replaced.
    pub open spec fn insert_spec(self, id: ConnId, socket: UdpSocket, now: int) -> FlowCacheState {
        let c = self.swept(now);
        FlowCacheState {
            entries: c.entries.insert(id, FlowState { socket, last_access: now }),
            ..c
        }
    }

    /// The flows that are not marked for removal and have not expired at
    /// `now`.
    pub open spec fn live_at(self, now: int) -> Set<ConnId> {
        self.entries.dom().filter(
            |k: ConnId|
                !self.pending.contains(k) && !is_expired(self.entries[k].last_access, self.timeout, now),
        )
    }

    /// The entries once every flow live at `now` is renewed to `now`.
    pub open spec fn renewed_at(self, now: int) -> Map<ConnId, FlowState> {
        Map::new(
            |k: ConnId| self.entries.contains_key(k),
            |k: ConnId|
                if self.live_at(now).contains(k) {
                    FlowState { socket: self.entries[k].socket, last_access: now }
                } else {
                    self.entries[k]
                },
        )
    }

    /// The flows that have expired at `now`.
    pub open spec fn expired_at(self, now: int) -> Set<ConnId> {
        self.entries.dom().filter(
            |k: ConnId| is_expired(self.entries[k].last_access, self.timeout, now),
        )
    }
}

/// A lookup of a flow live at `now` finds it and renews it to `now`, so its
/// last access strictly advances whenever the clock moved on; a flow idle
/// past the timeout is not found.
pub proof fn lemma_flow_lookup_renews(s: FlowCacheState, id: ConnId, now: int)
    ensures
        s.live_at(now).contains(id) ==> s.lookup(id, now).1 && s.lookup(id, now).0.entries[id].last_access
            == now,
        s.lookup(id, now).1 ==> s.live_at(now).contains(id) && s.lookup(id, now).0.entries[id].last_access
            == now,
        s.entries.contains_key(id) && is_expired(s.entries[id].last_access, s.timeout, now) ==> !s.lookup(
            id,
            now,
        ).1,
{
}

spec fn flow_state(e: CacheEntryOuter) -> FlowState {
    FlowState { socket: e.data.socket, last_access: e.last_access as int }
}

spec fn unique_ids(v: Seq<CacheEntryOuter>) -> bool {
    forall|i: int, j: int|
        0 <= i < v.len() && 0 <= j < v.len() && i != j ==> #[trigger] v[i].data.id
            != #[trigger] v[j].data.id
}

spec fn has_id(v: Seq<CacheEntryOuter>, k: ConnId) -> bool {
    exists|i: int| 0 <= i < v.len() && #[trigger] v[i].data.id == k
}

spec fn entries_of(v: Seq<CacheEntryOuter>) -> Map<ConnId, FlowState> {
    Map::new(
        |k: ConnId| has_id(v, k),
        |k: ConnId| flow_state(v[choose|i: int| 0 <= i < v.len() && #[trigger] v[i].data.id == k]),
    )
}

proof fn lemma_entry_at(v: Seq<CacheEntryOuter>, i: int)
    requires
        unique_ids(v),
        0 <= i < v.len(),
    ensures
        entries_of(v).contains_key(v[i].data.id),
        entries_of(v)[v[i].data.id] == flow_state(v[i]),
{
    assert(has_id(v, v[i].data.id));
}

proof fn lemma_update(v: Seq<CacheEntryOuter>, i: int, e: CacheEntryOuter)
    requires
        unique_ids(v),
        0 <= i < v.len(),
        v[i].data.id == e.data.id,
    ensures
        unique_ids(v.update(i, e)),
        entries_of(v.update(i, e)) == entries_of(v).insert(e.data.id, flow_state(e)),
{
    let w = v.update(i, e);
    assert forall|k: ConnId| has_id(w, k) <==> has_id(v, k) by {
        if has_id(w, k) {
            let j = choose|j: int| 0 <= j < w.len() && #[trigger] w[j].data.id == k;
            assert(v[j].data.id == k);
        }
        if has_id(v, k) {
            let j = choose|j: int| 0 <= j < v.len() && #[trigger] v[j].data.id == k;
            assert(w[j].data.id == k);
        }
    }
    assert forall|k: ConnId| #[trigger] entries_of(w).contains_key(k) implies entries_of(w)[k]
        == entries_of(v).insert(e.data.id, flow_state(e))[k] by {
        let j = choose|j: int| 0 <= j < w.len() && #[trigger] w[j].data.id == k;
        lemma_entry_at(w, j);
        lemma_entry_at(v, j);
    }
    assert(entries_of(w) =~= entries_of(v).insert(e.data.id, flow_state(e)));
}

proof fn lemma_push(v: Seq<CacheEntryOuter>, e: CacheEntryOuter)
    requires
        unique_ids(v),
        !has_id(v, e.data.id),
    ensures
        unique_ids(v.push(e)),
        entries_of(v.push(e)) == entries_of(v).insert(e.data.id, flow_state(e)),
{
    let w = v.push(e);
    assert forall|i: int, j: int|
        0 <= i < w.len() && 0 <= j < w.len() && i != j implies #[trigger] w[i].data.id
        != #[trigger] w[j].data.id by {
        if i < v.len() && j < v.len() {
            assert(v[i].data.id != v[j].data.id);
        } else if i < v.len() {
            assert(v[i].data.id != e.data.id);
        } else if j < v.len() {
            assert(v[j].data.id != e.data.id);
        }
    }
    assert forall|k: ConnId| has_id(w, k) <==> (has_id(v, k) || k == e.data.id) by {
        if has_id(w, k) {
            let j = choose|j: int| 0 <= j < w.len() && #[trigger] w[j].data.id == k;
            if j < v.len() {
                assert(v[j].data.id == k);
            }
        }
        if has_id(v, k) {
            let j = choose|j: int| 0 <= j < v.len() && #[trigger] v[j].data.id == k;
            assert(w[j].data.id == k);
        }
        if k == e.data.id {
            assert(w[v.len() as int].data.id == k);
        }
    }
    assert forall|k: ConnId| #[trigger] entries_of(w).contains_key(k) implies entries_of(w)[k]
        == entries_of(v).insert(e.data.id, flow_state(e))[k] by {
        let j = choose|j: int| 0 <= j < w.len() && #[trigger] w[j].data.id == k;
        lemma_entry_at(w, j);
        if j < v.len() {
            lemma_entry_at(v, j);
        }
    }
    assert(entries_of(w) =~= entries_of(v).insert(e.data.id, flow_state(e)));
}

proof fn lemma_remove(v: Seq<CacheEntryOuter>, i: int)
    requires
        unique_ids(v),
        0 <= i < v.len(),
    ensures
        unique_ids(v.remove(i)),
        entries_of(v.remove(i)) == entries_of(v).remove(v[i].data.id),
{
    let w = v.remove(i);
    let k0 = v[i].data.id;
    assert forall|a: int, b: int|
        0 <= a < w.len() && 0 <= b < w.len() && a != b implies #[trigger] w[a].data.id
        != #[trigger] w[b].data.id by {
        let a1 = if a < i { a } else { a + 1 };
        let b1 = if b < i { b } else { b + 1 };
        assert(w[a] == v[a1]);
        assert(w[b] == v[b1]);
        assert(v[a1].data.id != v[b1].data.id);
    }
    assert forall|k: ConnId| has_id(w, k) <==> (has_id(v, k) && k != k0) by {
        if has_id(w, k) {
            let j = choose|j: int| 0 <= j < w.len() && #[trigger] w[j].data.id == k;
            let j1 = if j < i { j } else { j + 1 };
            assert(w[j] == v[j1]);
            assert(v[j1].data.id == k);
            assert(v[i].data.id != v[j1].data.id);
        }
        if has_id(v, k) && k != k0 {
            let j = choose|j: int| 0 <= j < v.len() && #[trigger] v[j].data.id == k;
            if j < i {
                assert(w[j].data.id == k);
            } else {
                assert(j != i);
                assert(w[j - 1].data.id == k);
            }
        }
    }
    assert forall|k: ConnId| #[trigger] entries_of(w).contains_key(k) implies entries_of(w)[k]
        == entries_of(v).remove(k0)[k] by {
        let j = choose|j: int| 0 <= j < w.len() && #[trigger] w[j].data.id == k;
        let j1 = if j < i { j } else { j + 1 };
        assert(w[j] == v[j1]);
        lemma_entry_at(w, j);
        lemma_entry_at(v, j1);
    }
    assert(entries_of(w) =~= entries_of(v).remove(k0));
}

proof fn lemma_dom_len(v: Seq<CacheEntryOuter>)
    requires
        unique_ids(v),
    ensures
        entries_of(v).dom().finite(),
        entries_of(v).dom().len() == v.len(),
{
    let ids = v.map_values(|e: CacheEntryOuter| e.data.id);
    assert(ids.no_duplicates()) by {
        assert forall|i: int, j: int| 0 <= i < ids.len() && 0 <= j < ids.len() && i != j implies ids[i]
            != ids[j] by {
            assert(v[i].data.id != v[j].data.id);
        }
    }
    assert forall|k: ConnId| #[trigger] entries_of(v).dom().contains(k) <==> ids.to_set().contains(k) by {
        if has_id(v, k) {
            let j = choose|j: int| 0 <= j < v.len() && #[trigger] v[j].data.id == k;
            assert(ids[j] == k);
        }
        if ids.to_set().contains(k) {
            let j = choose|j: int| 0 <= j < ids.len() && ids[j] == k;
            assert(v[j].data.id == k);
        }
    }
    assert(entries_of(v).dom() =~= ids.to_set());
    ids.unique_seq_to_set();
}

/// The target side's cache of per-flow sockets.
pub struct Cache {
    timeout: i64,
    by_id: Vec<CacheEntryOuter>,
    expired: Vec<ConnId>,
}

impl View for Cache {
    type V = FlowCacheState;

    closed spec fn view(&self) -> FlowCacheState {
        FlowCacheState {
            timeout: self.timeout as int,
            entries: entries_of(self.by_id@),
            pending: self.expired@.to_set(),
        }
    }
}

impl Cache {
    /// No two slots hold the same flow.
    pub closed spec fn wf(&self) -> bool {
        unique_ids(self.by_id@)
    }

    /// An empty cache whose flows expire after `timeout` microseconds idle.
    pub fn new(timeout: i64) -> (r: Cache)
        ensures
            r.wf(),
            r@.timeout == timeout as int,
            r@.entries == Map::<ConnId, FlowState>::empty(),
            r@.pending == Set::<ConnId>::empty(),
    {
        let r = Cache { timeout, by_id: Vec::new(), expired: Vec::new() };
        assert(r@.entries =~= Map::<ConnId, FlowState>::empty());
        assert(r@.pending =~= Set::<ConnId>::empty());
        r
    }

    fn find(&self, id: ConnId) -> (r: Option<usize>)
        requires
            self.wf(),
        ensures
            match r {
                Some(i) => i < self.by_id@.len() && self.by_id@[i as int].data.id == id,
                None => !self@.entries.contains_key(id),
            },
    {
        let mut i: usize = 0;
        while i < self.by_id.len()
            invariant
                i <= self.by_id@.len(),
                forall|j: int| 0 <= j < i ==> self.by_id@[j].data.id != id,
            decreases self.by_id@.len() - i,
        {
            if self.by_id[i].data.id == id {
                return Some(i);
            }
            i += 1;
        }
        None
    }

    /// Whether a lookup has marked `id` for removal.
    fn is_pending(&self, id: ConnId) -> (r: bool)
        ensures
            r == self@.pending.contains(id),
    {
        let mut i: usize = 0;
        while i < self.expired.len()
            invariant
                i <= self.expired@.len(),
                forall|j: int| 0 <= j < i ==> self.expired@[j] != id,
            decreases self.expired@.len() - i,
        {
            if self.expired[i] == id {
                assert(self.expired@.contains(id));
                return true;
            }
            i += 1;
        }
        false
    }

    /// Looks a flow up at time `now`. A flow idle past the timeout is not
    /// returned but marked for removal; a live one is renewed to `now`.
    pub fn get_by_id_mut_at(&mut self, id: ConnId, now: i64) -> (r: Option<&CacheEntry>)
        requires
            old(self).wf(),
        ensures
            final(self).wf(),
            (final(self)@, r is Some) == old(self)@.lookup(id, now as int),
            r matches Some(e) ==> e.id == id && e.socket == old(self)@.entries[id].socket,
    {
        if self.is_pending(id) {
            return None;
        }
        match self.find(id) {
            None => None,
            Some(i) => {
                proof {
                    lemma_entry_at(self.by_id@, i as int);
                }
                if (now as i128) - (self.by_id[i].last_access as i128) > (self.timeout as i128) {
                    self.expired.push(id);
                    proof {
                        lemma_push_to_set(old(self).expired@, id);
                    }
                    None
                } else {
                    let ghost old_v = self.by_id@;
                    self.by_id[i].last_access = now;
                    proof {
                        assert(self.by_id@ == old_v.update(i as int, self.by_id@[i as int]));
                        lemma_update(old_v, i as int, self.by_id@[i as int]);
                    }
                    Some(&self.by_id[i].data)
                }
            },
        }
    }

    /// Drops every flow that a lookup found expired, closing its socket.
    pub fn cleanup(&mut self)
        requires
            old(self).wf(),
        ensures
            final(self).wf(),
            final(self)@ == old(self)@.cleaned(),
    {
        let mut i: usize = 0;
        while i < self.expired.len()
            invariant
                self.wf(),
                i <= self.expired@.len(),
                self.expired == old(self).expired,
                self.timeout == old(self).timeout,
                self@.entries == old(self)@.entries.remove_keys(
                    self.expired@.subrange(0, i as int).to_set(),
                ),
            decreases self.expired@.len() - i,
        {
            let k = self.expired[i];
            match self.find(k) {
                Some(j) => {
                    let ghost v = self.by_id@;
                    let _gone = self.by_id.remove(j);
                    proof {
                        lemma_remove(v, j as int);
                    }
                },
                None => {},
            }
            proof {
                let s0 = self.expired@.subrange(0, i as int);
                let s1 = self.expired@.subrange(0, i + 1);
                assert(s1 == s0.push(k));
                lemma_push_to_set(s0, k);
                assert(self@.entries =~= old(self)@.entries.remove_keys(s1.to_set()));
            }
            i += 1;
        }
        assert(self.expired@.subrange(0, self.expired@.len() as int) == self.expired@);
        self.expired.clear();
        assert(self@.pending =~= Set::<ConnId>::empty());
    }

    /// Stores the socket of a flow at time `now`, after dropping the flows
    /// that lookups found expired and those expired at `now`. A flow of the
    /// same id is replaced.
    pub fn insert_at(&mut self, id: ConnId, socket: UdpSocket, now: i64) -> (r: &CacheEntry)
        requires
            old(self).wf(),
        ensures
            final(self).wf(),
            final(self)@ == old(self)@.insert_spec(id, socket, now as int),
            r.id == id,
            r.socket == socket,
    {
        self.mark_expired_at(now);
        self.cleanup();
        let ghost v = self.by_id@;
        let e = CacheEntryOuter { last_access: now, data: CacheEntry { id, socket } };
        let ghost ge = e;
        let i = match self.find(id) {
            Some(i) => {
                self.by_id.set(i, e);
                proof {
                    lemma_update(v, i as int, ge);
                }
                i
            },
            None => {
                assert(!has_id(v, id));
                self.by_id.push(e);
                proof {
                    lemma_push(v, ge);
                }
                self.by_id.len() - 1
            },
        };
        &self.by_id[i].data
    }

    /// Marks for removal every flow expired at `now`.
    fn mark_expired_at(&mut self, now: i64)
        requires
            old(self).wf(),
        ensures
            final(self).wf(),
            final(self)@.entries == old(self)@.entries,
            final(self).by_id == old(self).by_id,
            final(self).timeout == old(self).timeout,
            final(self)@.pending == old(self)@.pending.union(old(self)@.expired_at(now as int)),
    {
        let mut i: usize = 0;
        while i < self.by_id.len()
            invariant
                self.by_id == old(self).by_id,
                self.timeout == old(self).timeout,
                i <= self.by_id@.len(),
                forall|k: ConnId|
                    #[trigger] self.expired@.to_set().contains(k) <==> (old(self)@.pending.contains(k)
                        || exists|j: int|
                        0 <= j < i && #[trigger] self.by_id@[j].data.id == k && is_expired(
                            self.by_id@[j].last_access as int,
                            self.timeout as int,
                            now as int,
                        )),
            decreases self.by_id@.len() - i,
        {
            if (now as i128) - (self.by_id[i].last_access as i128) > (self.timeout as i128) {
                let k = self.by_id[i].data.id;
                let ghost before = self.expired@;
                self.expired.push(k);
                proof {
                    lemma_push_to_set(before, k);
                }
            }
            i += 1;
        }
        proof {
            let v = self.by_id@;
            assert forall|k: ConnId| #[trigger] self@.pending.contains(k) <==> old(self)@.pending.union(
                old(self)@.expired_at(now as int),
            ).contains(k) by {
                if exists|j: int|
                    0 <= j < v.len() && #[trigger] v[j].data.id == k && is_expired(
                        v[j].last_access as int,
                        self.timeout as int,
                        now as int,
                    ) {
                    let j = choose|j: int|
                        0 <= j < v.len() && #[trigger] v[j].data.id == k && is_expired(
                            v[j].last_access as int,
                            self.timeout as int,
                            now as int,
                        );
                    lemma_entry_at(v, j);
                }
                if old(self)@.expired_at(now as int).contains(k) {
                    let j = choose|j: int| 0 <= j < v.len() && #[trigger] v[j].data.id == k;
                    lemma_entry_at(v, j);
                }
            }
            assert(self@.pending =~= old(self)@.pending.union(old(self)@.expired_at(now as int)));
        }
    }

    /// References to the flows not marked for removal, each once.
    fn unmarked_refs(&self) -> (r: Vec<&CacheEntry>)
        requires
            self.wf(),
        ensures
            forall|j: int|
                0 <= j < r@.len() ==> self@.entries.contains_key(#[trigger] r@[j].id)
                    && !self@.pending.contains(r@[j].id) && r@[j].socket
                    == self@.entries[r@[j].id].socket,
            forall|k: ConnId|
                #[trigger] self@.entries.contains_key(k) && !self@.pending.contains(k) ==> exists|j: int|
                    0 <= j < r@.len() && #[trigger] r@[j].id == k,
            forall|a: int, b: int|
                0 <= a < r@.len() && 0 <= b < r@.len() && a != b ==> #[trigger] r@[a].id
                    != #[trigger] r@[b].id,
    {
        let ghost v = self.by_id@;
        let mut out: Vec<&CacheEntry> = Vec::new();
        let ghost mut idx: Seq<int> = Seq::empty();
        let mut j: usize = 0;
        while j < self.by_id.len()
            invariant
                v == self.by_id@,
                j <= v.len(),
                out@.len() == idx.len(),
                forall|q: int|
                    0 <= q < idx.len() ==> 0 <= #[trigger] idx[q] < j && *out@[q] == v[idx[q]].data
                        && !self@.pending.contains(v[idx[q]].data.id),
                forall|q1: int, q2: int| 0 <= q1 < q2 < idx.len() ==> idx[q1] < idx[q2],
                forall|s: int|
                    0 <= s < j && !self@.pending.contains(#[trigger] v[s].data.id) ==> exists|q: int|
                        0 <= q < idx.len() && idx[q] == s,
            decreases v.len() - j,
        {
            if !self.is_pending(self.by_id[j].data.id) {
                out.push(&self.by_id[j].data);
                proof {
                    let old_idx = idx;
                    idx = idx.push(j as int);
                    assert forall|s: int|
                        0 <= s < j + 1 && !self@.pending.contains(#[trigger] v[s].data.id) implies exists|q: int|
                            0 <= q < idx.len() && idx[q] == s by {
                        if s < j {
                            let q = choose|q: int| 0 <= q < old_idx.len() && old_idx[q] == s;
                            assert(idx[q] == s);
                        } else {
                            assert(idx[old_idx.len() as int] == s);
                        }
                    }
                }
            }
            j += 1;
        }
        proof {
            assert forall|q: int| 0 <= q < out@.len() implies self@.entries.contains_key(
                #[trigger] out@[q].id,
            ) && !self@.pending.contains(out@[q].id) && out@[q].socket == self@.entries[out@[q].id].socket by {
                lemma_entry_at(v, idx[q]);
            }
            assert forall|k: ConnId| #[trigger] self@.entries.contains_key(k) && !self@.pending.contains(k) implies exists|q: int|
                0 <= q < out@.len() && #[trigger] out@[q].id == k by {
                let s = choose|s: int| 0 <= s < v.len() && #[trigger] v[s].data.id == k;
                let q = choose|q: int| 0 <= q < idx.len() && idx[q] == s;
                assert(out@[q].id == k);
            }
            assert forall|a: int, b: int|
                0 <= a < out@.len() && 0 <= b < out@.len() && a != b implies #[trigger] out@[a].id
                != #[trigger] out@[b].id by {
                if a < b {
                    assert(idx[a] < idx[b]);
                } else {
                    assert(idx[b] < idx[a]);
                }
                assert(v[idx[a]].data.id != v[idx[b]].data.id);
            }
        }
        out
    }

    /// Renews to `now` every flow not marked for removal.
    fn renew_unmarked(&mut self, now: i64)
        requires
            old(self).wf(),
        ensures
            final(self).wf(),
            final(self).timeout == old(self).timeout,
            final(self).expired == old(self).expired,
            final(self)@.entries == Map::new(
                |k: ConnId| old(self)@.entries.contains_key(k),
                |k: ConnId|
                    if old(self)@.pending.contains(k) {
                        old(self)@.entries[k]
                    } else {
                        FlowState { socket: old(self)@.entries[k].socket, last_access: now as int }
                    },
            ),
    {
        let ghost v0 = self.by_id@;
        let mut i: usize = 0;
        while i < self.by_id.len()
            invariant
                self.wf(),
                self.timeout == old(self).timeout,
                self.expired == old(self).expired,
                v0 == old(self).by_id@,
                i <= self.by_id@.len(),
                self.by_id@.len() == v0.len(),
                forall|j: int| 0 <= j < v0.len() ==> (#[trigger] self.by_id@[j]).data == v0[j].data,
                forall|j: int|
                    0 <= j < v0.len() ==> (#[trigger] self.by_id@[j]).last_access == (if j < i
                        && !old(self)@.pending.contains(v0[j].data.id) {
                        now
                    } else {
                        v0[j].last_access
                    }),
            decreases v0.len() - i,
        {
            if !self.is_pending(self.by_id[i].data.id) {
                let ghost before = self.by_id@;
                self.by_id[i].last_access = now;
                proof {
                    assert(self.by_id@ == before.update(i as int, self.by_id@[i as int]));
                    lemma_update(before, i as int, self.by_id@[i as int]);
                }
            }
            i += 1;
        }
        proof {
            let v = self.by_id@;
            let target = Map::new(
                |k: ConnId| old(self)@.entries.contains_key(k),
                |k: ConnId|
                    if old(self)@.pending.contains(k) {
                        old(self)@.entries[k]
                    } else {
                        FlowState { socket: old(self)@.entries[k].socket, last_access: now as int }
                    },
            );
            assert forall|k: ConnId| has_id(v, k) <==> has_id(v0, k) by {
                if has_id(v, k) {
                    let j = choose|j: int| 0 <= j < v.len() && #[trigger] v[j].data.id == k;
                    assert(v0[j].data.id == k);
                }
                if has_id(v0, k) {
                    let j = choose|j: int| 0 <= j < v0.len() && #[trigger] v0[j].data.id == k;
                    assert(v[j].data.id == k);
                }
            }
            assert(unique_ids(v)) by {
                assert forall|a: int, b: int|
                    0 <= a < v.len() && 0 <= b < v.len() && a != b implies #[trigger] v[a].data.id
                    != #[trigger] v[b].data.id by {
                    assert(v[a].data == v0[a].data);
                    assert(v[b].data == v0[b].data);
                }
            }
            assert forall|k: ConnId| #[trigger] entries_of(v).contains_key(k) implies entries_of(v)[k]
                == target[k] by {
                let j = choose|j: int| 0 <= j < v.len() && #[trigger] v[j].data.id == k;
                lemma_entry_at(v, j);
                lemma_entry_at(v0, j);
            }
            assert(entries_of(v) =~= target);
        }
    }

    /// The flows that are live at time `now`, each once, each renewed to
    /// `now`. Those found expired are marked for removal and keep their
    /// time.
    pub fn iter_at(&mut self, now: i64) -> (r: Vec<&CacheEntry>)
        requires
            old(self).wf(),
        ensures
            final(self).wf(),
            final(self)@.timeout == old(self)@.timeout,
            final(self)@.entries == old(self)@.renewed_at(now as int),
            final(self)@.pending == old(self)@.pending.union(old(self)@.expired_at(now as int)),
            forall|j: int|
                0 <= j < r@.len() ==> old(self)@.live_at(now as int).contains(#[trigger] r@[j].id)
                    && r@[j].socket == old(self)@.entries[r@[j].id].socket,
            forall|k: ConnId|
                #[trigger] old(self)@.live_at(now as int).contains(k) ==> exists|j: int|
                    0 <= j < r@.len() && #[trigger] r@[j].id == k,
            forall|a: int, b: int|
                0 <= a < r@.len() && 0 <= b < r@.len() && a != b ==> #[trigger] r@[a].id
                    != #[trigger] r@[b].id,
    {
        self.mark_expired_at(now);
        let ghost marked = self@;
        assert forall|k: ConnId| #[trigger] marked.entries.contains_key(k) implies (!marked.pending.contains(k)
            <==> old(self)@.live_at(now as int).contains(k)) by {}
        self.renew_unmarked(now);
        assert(self@.entries =~= old(self)@.renewed_at(now as int));
        assert(self@.pending == marked.pending);
        assert forall|k: ConnId| #[trigger] old(self)@.live_at(now as int).contains(k) implies self@.entries.contains_key(k)
            && !self@.pending.contains(k) by {
            assert(marked.entries.contains_key(k));
        }
        self.unmarked_refs()
    }

    /// The number of slots, an upper bound on the number of live flows.
    pub fn len_max(&self) -> (r: usize)
        requires
            self.wf(),
        ensures
            r == self@.entries.dom().len(),
    {
        proof {
            lemma_dom_len(self.by_id@);
        }
        self.by_id.len()
    }

    /// Looks a flow up at the current time.
    pub fn get_by_id_mut(&mut self, id: ConnId) -> (r: Option<&CacheEntry>)
        requires
            old(self).wf(),
        ensures
            final(self).wf(),
            exists|now: i64| (final(self)@, r is Some) == #[trigger] old(self)@.lookup(id, now as int),
            r matches Some(e) ==> e.id == id && e.socket == old(self)@.entries[id].socket,
    {
        let now = now_micros();
        self.get_by_id_mut_at(id, now)
    }

    /// Stores the socket of a flow at the current time.
    pub fn insert(&mut self, id: ConnId, socket: UdpSocket) -> (r: &CacheEntry)
        requires
            old(self).wf(),
        ensures
            final(self).wf(),
            exists|now: i64| final(self)@ == #[trigger] old(self)@.insert_spec(id, socket, now as int),
            r.id == id,
            r.socket == socket,
    {
        let now = now_micros();
        self.insert_at(id, socket, now)
    }

    /// The flows live at the current time, each once, each renewed.
    pub fn iter(&mut self) -> (r: Vec<&CacheEntry>)
        requires
            old(self).wf(),
        ensures
            final(self).wf(),
            exists|now: i64|
                {
                    &&& final(self)@.entries == #[trigger] old(self)@.renewed_at(now as int)
                    &&& final(self)@.pending == old(self)@.pending.union(
                        old(self)@.expired_at(now as int),
                    )
                    &&& forall|j: int|
                        0 <= j < r@.len() ==> old(self)@.live_at(now as int).contains(
                            #[trigger] r@[j].id,
                        )
                    &&& forall|k: ConnId|
                        #[trigger] old(self)@.live_at(now as int).contains(k) ==> exists|j: int|
                            0 <= j < r@.len() && #[trigger] r@[j].id == k
                },
            forall|j: int|
                0 <= j < r@.len() ==> #[trigger] r@[j].socket == old(self)@.entries[r@[j].id].socket,
            forall|a: int, b: int|
                0 <= a < r@.len() && 0 <= b < r@.len() && a != b ==> #[trigger] r@[a].id
                    != #[trigger] r@[b].id,
    {
        let now = now_micros();
        self.iter_at(now)
    }
}

} // verus!
