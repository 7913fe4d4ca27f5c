//! The entry side's connection-id cache: each live external peer holds a
//! one-byte id, unique among live entries, and so does its address.

use vstd::prelude::*;

use crate::addr::PeerAddr;
use crate::common::{lemma_push_to_set, now_micros};

verus! {

/// A live pairing of a connection id and an external peer.
#[derive(Clone, Copy, Debug, PartialEq, Eq, Structural, Hash)]
pub struct SocketId {
    pub id: u8,
    pub addr: PeerAddr,
}

/// Why an id could not be handed out.
#[derive(Debug, Clone, Copy, PartialEq, Eq, Structural)]
pub enum Error {
    /// All 256 ids are live.
    NoFreeSlots,
}

/// One entry as the contracts see it.
pub struct EntryState {
    pub addr: PeerAddr,
    pub last_access: int,
}

/// The cache as the contracts see it: the entries by id, the ids that a
/// lookup found expired and that the next mutating call drops, and the idle
/// timeout (all times in microseconds).
pub struct CacheState {
    pub timeout: int,
    pub entries: Map<u8, EntryState>,
    pub pending: Set<u8>,
}

/// An entry idle for longer than the timeout has expired.
pub open spec fn is_expired(last_access: int, timeout: int, now: int) -> bool {
    now - last_access > timeout
}

impl CacheState {
    /// No two entries share an address.
    pub open spec fn valid(self) -> bool {
        forall|i: u8, j: u8|
            #![trigger self.entries[i], self.entries[j]]
            self.entries.contains_key(i) && self.entries.contains_key(j)
                && self.entries[i].addr == self.entries[j].addr ==> i == j
    }

    /// The id of the entry that holds `addr`, if any.
    pub open spec fn id_of_addr(self, addr: PeerAddr) -> Option<u8> {
        if exists|k: u8| #[trigger] self.entries.contains_key(k) && self.entries[k].addr == addr {
            Some(choose|k: u8| #[trigger] self.entries.contains_key(k) && self.entries[k].addr == addr)
        } else {
            None
        }
    }

    /// A lookup by id at time `now`: the new state and the answer. An entry
    /// already marked for removal stays unanswered.
    pub open spec fn lookup_id(self, id: u8, now: int) -> (CacheState, Option<SocketId>) {
        if !self.entries.contains_key(id) || self.pending.contains(id) {
            (self, None)
        } else if is_expired(self.entries[id].last_access, self.timeout, now) {
            (CacheState { pending: self.pending.insert(id), ..self }, None)
        } else {
            (
                CacheState {
                    entries: self.entries.insert(
                        id,
                        EntryState { addr: self.entries[id].addr, last_access: now },
                    ),
                    ..self
                },
                Some(SocketId { id, addr: self.entries[id].addr }),
            )
        }
    }

    /// A lookup by address at time `now`.
    pub open spec fn lookup_addr(self, addr: PeerAddr, now: int) -> (CacheState, Option<SocketId>) {
        match self.id_of_addr(addr) {
            None => (self, None),
            Some(k) => self.lookup_id(k, now),
        }
    }

    /// The state after the pending ids are dropped.
    pub open spec fn cleaned(self) -> CacheState {
        CacheState {
            timeout: self.timeout,
            entries: self.entries.remove_keys(self.pending),
            pending: Set::empty(),
        }
    }

    /// The ids of the entries that have expired at `now`.
    pub open spec fn expired_at(self, now: int) -> Set<u8> {
        self.entries.dom().filter(|k: u8| is_expired(self.entries[k].last_access, self.timeout, now))
    }

    /// The ids of the entries that have not expired at `now`.
    pub open spec fn live_at(self, now: int) -> Set<u8> {
        self.entries.dom().filter(|k: u8| !is_expired(self.entries[k].last_access, self.timeout, now))
    }

    /// Every entry marked for removal has expired at `now`: the clock has
    /// not gone back since the marking.
    pub open spec fn pending_expired_at(self, now: int) -> bool {
        forall|k: u8|
            #[trigger] self.pending.contains(k) && self.entries.contains_key(k) ==> is_expired(
                self.entries[k].last_access,
                self.timeout,
                now,
            )
    }

    /// The state after the pending entries and those expired at `now` are
    /// dropped.
    pub open spec fn swept(self, now: int) -> CacheState {
        CacheState { pending: self.pending.union(self.expired_at(now)), ..self }.cleaned()
    }

    /// The entries without the one that holds `addr`.
    pub open spec fn without_addr(self, addr: PeerAddr) -> Map<u8, EntryState> {
        self.entries.remove_keys(self.entries.dom().filter(|k: u8| self.entries[k].addr == addr))
    }

    /// An insertion at time `now`: once the pending entries and those
    /// expired at `now` are dropped, `id` or else the lowest free id goes to
    /// `addr`, replacing whatever held that id or that address.
    pub open spec fn insert_spec(self, id: Option<u8>, addr: PeerAddr, now: int) -> (
        CacheState,
        Result<SocketId, Error>,
    ) {
        let c = self.swept(now);
        let k = match id {
            Some(k) => Some(k),
            None => lowest_free(c.entries.dom()),
        };
        match k {
            None => (c, Err(Error::NoFreeSlots)),
            Some(k) => (
                CacheState {
                    entries: c.without_addr(addr).insert(k, EntryState { addr, last_access: now }),
                    ..c
                },
                Ok(SocketId { id: k, addr }),
            ),
        }
    }

    /// A lookup by address that inserts the address when it is not live.
    pub open spec fn get_or_insert_spec(self, addr: PeerAddr, now: int) -> (
        CacheState,
        Result<SocketId, Error>,
    ) {
        let (s, r) = self.lookup_addr(addr, now);
        match r {
            Some(x) => (s, Ok(x)),
            None => s.insert_spec(None, addr, now),
        }
    }
}

/// The least id at or above `k` that `d` does not hold.
pub open spec fn first_free_from(d: Set<u8>, k: nat) -> Option<u8>
    decreases 256 - k,
{
    if k >= 256 {
        None
    } else if !d.contains(k as u8) {
        Some(k as u8)
    } else {
        first_free_from(d, k + 1)
    }
}

/// The least id that `d` does not hold; `None` when it holds all 256.
pub open spec fn lowest_free(d: Set<u8>) -> Option<u8> {
    first_free_from(d, 0)
}

#[derive(Clone, Copy)]
struct CacheEntry {
    data: SocketId,
    last_access: i64,
}

/// The number of distinct ids.
const ID_COUNT: usize = 256;

/// The entry side's cache of connection ids.
pub struct Cache {
    timeout: i64,
    /// The live ids, strictly increasing.
    ids: Vec<u8>,
    /// One slot per id.
    by_id: Vec<Option<CacheEntry>>,
    /// Ids that a lookup found expired.
    expired: Vec<u8>,
}

impl View for Cache {
    type V = CacheState;

    closed spec fn view(&self) -> CacheState {
        CacheState {
            timeout: self.timeout as int,
            entries: Map::new(
                |k: u8| self.by_id@[k as int] is Some,
                |k: u8|
                    EntryState {
                        addr: self.by_id@[k as int]->Some_0.data.addr,
                        last_access: self.by_id@[k as int]->Some_0.last_access as int,
                    },
            ),
            pending: self.expired@.to_set(),
        }
    }
}

pub open spec fn strictly_increasing(s: Seq<u8>) -> bool {
    forall|i: int, j: int| 0 <= i < j < s.len() ==> s[i] < s[j]
}

impl Cache {
    /// The representation is consistent: one slot per id, each slot tagged
    /// with its own id, the live ids listed in order, addresses unique.
    pub closed spec fn wf(&self) -> bool {
        &&& self.by_id@.len() == ID_COUNT
        &&& forall|k: int|
            0 <= k < ID_COUNT && #[trigger] self.by_id@[k] is Some ==> self.by_id@[k]->Some_0.data.id
                == k
        &&& strictly_increasing(self.ids@)
        &&& forall|k: u8| #[trigger] self.ids@.contains(k) <==> self.by_id@[k as int] is Some
        &&& self@.valid()
    }

    pub proof fn lemma_wf_valid(&self)
        requires
            self.wf(),
        ensures
            self@.valid(),
    {
    }

    /// An empty cache whose entries expire after `timeout` microseconds idle.
    pub fn new(timeout: i64) -> (r: Cache)
        ensures
            r.wf(),
            r@.timeout == timeout as int,
            r@.entries == Map::<u8, EntryState>::empty(),
            r@.pending == Set::<u8>::empty(),
    {
        let mut by_id: Vec<Option<CacheEntry>> = Vec::with_capacity(ID_COUNT);
        let mut i: usize = 0;
        while i < ID_COUNT
            invariant
                i <= ID_COUNT,
                by_id@.len() == i,
                forall|k: int| 0 <= k < i ==> by_id@[k] is None,
            decreases ID_COUNT - i,
        {
            by_id.push(None);
            i += 1;
        }
        let r = Cache { timeout, ids: Vec::new(), by_id, expired: Vec::new() };
        assert(r@.entries =~= Map::<u8, EntryState>::empty());
        assert(r@.pending =~= Set::<u8>::empty());
        r
    }

    /// Whether a lookup has marked `id` for removal.
    fn is_pending(&self, id: u8) -> (r: bool)
        ensures
            r == self@.pending.contains(id),
    {
        let mut i: usize = 0;
        while i < self.expired.len()
            invariant
                i <= self.expired@.len(),
                forall|j: int| 0 <= j < i ==> self.expired@[j] != id,
            decreases self.expired@.len() - i,
        {
            if self.expired[i] == id {
                assert(self.expired@.contains(id));
                return true;
            }
            i += 1;
        }
        false
    }

    /// Looks up an id at time `now`. An entry idle past the timeout is not
    /// returned: it is marked for removal instead. A live one has its last
    /// access set to `now`.
    pub fn get_by_id_at(&mut self, id: u8, now: i64) -> (r: Option<SocketId>)
        requires
            old(self).wf(),
        ensures
            final(self).wf(),
            (final(self)@, r) == old(self)@.lookup_id(id, now as int),
    {
        let slot = self.by_id[id as usize];
        if slot.is_none() || self.is_pending(id) {
            return None;
        }
        match slot {
            None => None,
            Some(e) => {
                if (now as i128) - (e.last_access as i128) > (self.timeout as i128) {
                    self.expired.push(id);
                    assert(self@.pending =~= old(self)@.pending.insert(id)) by {
                        assert(self.expired@.last() == id);
                        assert forall|x: u8| #[trigger] self@.pending.contains(x) implies old(
                            self,
                        )@.pending.insert(id).contains(x) by {
                            let i = choose|i: int| 0 <= i < self.expired@.len() && self.expired@[i] == x;
                            if i < old(self).expired@.len() {
                                assert(old(self).expired@[i] == x);
                            }
                        }
                        assert forall|x: u8| #[trigger] old(self)@.pending.insert(id).contains(
                            x,
                        ) implies self@.pending.contains(x) by {
                            if x != id {
                                let i = choose|i: int|
                                    0 <= i < old(self).expired@.len() && old(self).expired@[i] == x;
                                assert(self.expired@[i] == x);
                            } else {
                                assert(self.expired@[self.expired@.len() - 1] == x);
                            }
                        }
                    }
                    assert(self@.entries =~= old(self)@.entries);
                    None
                } else {
                    let ne = CacheEntry { data: e.data, last_access: now };
                    self.by_id.set(id as usize, Some(ne));
                    assert(self@.entries =~= old(self)@.entries.insert(
                        id,
                        EntryState { addr: e.data.addr, last_access: now as int },
                    ));
                    Some(e.data)
                }
            },
        }
    }

    /// The id of the entry that holds `addr`.
    fn find_addr(&self, addr: PeerAddr) -> (r: Option<u8>)
        requires
            self.wf(),
        ensures
            r == self@.id_of_addr(addr),
    {
        let mut i: usize = 0;
        while i < self.ids.len()
            invariant
                self.wf(),
                i <= self.ids@.len(),
                forall|j: int|
                    0 <= j < i ==> self.by_id@[#[trigger] self.ids@[j] as int]->Some_0.data.addr
                        != addr,
            decreases self.ids@.len() - i,
        {
            let k = self.ids[i];
            assert(self.ids@.contains(k));
            match self.by_id[k as usize] {
                Some(e) => {
                    if e.data.addr == addr {
                        assert(self@.entries.contains_key(k) && self@.entries[k].addr == addr);
                        return Some(k);
                    }
                },
                None => {},
            }
            i += 1;
        }
        assert forall|k: u8| #[trigger] self@.entries.contains_key(k) implies self@.entries[k].addr
            != addr by {
            assert(self.ids@.contains(k));
            let j = choose|j: int| 0 <= j < self.ids@.len() && self.ids@[j] == k;
            assert(self.by_id@[self.ids@[j] as int]->Some_0.data.addr != addr);
        }
        None
    }

    /// Drops the entry of id `k`, if there is one.
    fn remove_id(&mut self, k: u8)
        requires
            old(self).wf(),
        ensures
            final(self).wf(),
            final(self)@.entries == old(self)@.entries.remove(k),
            final(self).expired == old(self).expired,
            final(self).timeout == old(self).timeout,
    {
        if self.by_id[k as usize].is_some() {
            assert(self.ids@.contains(k));
            let mut i: usize = 0;
            while i < self.ids.len() && self.ids[i] != k
                invariant
                    i <= self.ids@.len(),
                    self.ids@.contains(k),
                    forall|j: int| 0 <= j < i ==> self.ids@[j] != k,
                decreases self.ids@.len() - i,
            {
                i += 1;
            }
            self.by_id.set(k as usize, None);
            let ghost old_ids = self.ids@;
            self.ids.remove(i);
            assert(self.ids@ == old_ids.remove(i as int));
            assert forall|x: u8| #[trigger] self.ids@.contains(x) <==> self.by_id@[x as int] is Some by {
                if x == k {
                    if self.ids@.contains(x) {
                        let j = choose|j: int| 0 <= j < self.ids@.len() && self.ids@[j] == x;
                        if j < i {
                            assert(old_ids[j] == x);
                        } else {
                            assert(old_ids[j + 1] == x);
                        }
                    }
                } else {
                    if old_ids.contains(x) {
                        let j = choose|j: int| 0 <= j < old_ids.len() && old_ids[j] == x;
                        if j < i {
                            assert(self.ids@[j] == x);
                        } else {
                            assert(self.ids@[j - 1] == x);
                        }
                    }
                    if self.ids@.contains(x) {
                        let j = choose|j: int| 0 <= j < self.ids@.len() && self.ids@[j] == x;
                        if j < i {
                            assert(old_ids[j] == x);
                        } else {
                            assert(old_ids[j + 1] == x);
                        }
                    }
                }
            }
        }
        assert(self@.entries =~= old(self)@.entries.remove(k));
    }

    /// Drops every entry that a lookup found expired.
    pub fn cleanup(&mut self)
        requires
            old(self).wf(),
        ensures
            final(self).wf(),
            final(self)@ == old(self)@.cleaned(),
    {
        let mut i: usize = 0;
        while i < self.expired.len()
            invariant
                self.wf(),
                i <= self.expired@.len(),
                self.expired == old(self).expired,
                self.timeout == old(self).timeout,
                self@.entries == old(self)@.entries.remove_keys(
                    self.expired@.subrange(0, i as int).to_set(),
                ),
            decreases self.expired@.len() - i,
        {
            let k = self.expired[i];
            let ghost before = self@.entries;
            self.remove_id(k);
            proof {
                let s0 = self.expired@.subrange(0, i as int);
                let s1 = self.expired@.subrange(0, i + 1);
                assert(s1 == s0.push(k));
                lemma_push_to_set(s0, k);
                assert(self@.entries =~= old(self)@.entries.remove_keys(s1.to_set()));
            }
            i += 1;
        }
        assert(self.expired@.subrange(0, self.expired@.len() as int) == self.expired@);
        self.expired.clear();
        assert(self@.pending =~= Set::<u8>::empty());
    }

    /// The lowest id that no entry holds.
    fn next_free_id(&self) -> (r: Option<u8>)
        requires
            self.wf(),
        ensures
            r == lowest_free(self@.entries.dom()),
    {
        let mut i: usize = 0;
        while i < self.ids.len()
            invariant
                self.wf(),
                i <= self.ids@.len(),
                forall|j: int| 0 <= j < i ==> self.ids@[j] == j,
            decreases self.ids@.len() - i,
        {
            if self.ids[i] as usize != i {
                proof {
                    if i > 0 {
                        assert(self.ids@[i - 1] == i - 1);
                    }
                    assert(self.ids@[i as int] > i);
                    assert(!self.ids@.contains(i as u8)) by {
                        if self.ids@.contains(i as u8) {
                            let j = choose|j: int|
                                0 <= j < self.ids@.len() && self.ids@[j] == i as u8;
                            if j < i {
                            } else if j > i {
                                assert(self.ids@[j] > self.ids@[i as int]);
                            }
                        }
                    }
                    assert forall|j: nat| j < i implies #[trigger] self@.entries.dom().contains(
                        j as u8,
                    ) by {
                        assert(self.ids@[j as int] == j);
                        assert(self.ids@.contains(j as u8));
                    }
                    lemma_first_free(self@.entries.dom(), 0, i as nat);
                }
                return Some(i as u8);
            }
            i += 1;
        }
        proof {
            if self.ids@.len() > 0 {
                assert(self.ids@[self.ids@.len() - 1] == self.ids@.len() - 1);
            }
            assert forall|j: nat| j < self.ids@.len() implies #[trigger] self@.entries.dom().contains(
                j as u8,
            ) by {
                assert(self.ids@[j as int] == j);
                assert(self.ids@.contains(j as u8));
            }
            if self.ids@.len() < ID_COUNT {
                assert(!self.ids@.contains(self.ids@.len() as u8)) by {
                    if self.ids@.contains(self.ids@.len() as u8) {
                        let j = choose|j: int|
                            0 <= j < self.ids@.len() && self.ids@[j] == self.ids@.len() as u8;
                        assert(self.ids@[j] == j);
                    }
                }
            }
            lemma_first_free(self@.entries.dom(), 0, self.ids@.len());
        }
        if self.ids.len() < ID_COUNT {
            Some(self.ids.len() as u8)
        } else {
            None
        }
    }

    /// Sets the entry of id `k` to `addr`, accessed at `now`.
    fn put(&mut self, k: u8, addr: PeerAddr, now: i64)
        requires
            old(self).wf(),
            forall|j: u8|
                #[trigger] old(self)@.entries.contains_key(j) && old(self)@.entries[j].addr == addr
                    ==> j == k,
        ensures
            final(self).wf(),
            final(self)@ == (CacheState {
                entries: old(self)@.entries.insert(k, EntryState { addr, last_access: now as int }),
                ..old(self)@
            }),
    {
        if self.by_id[k as usize].is_none() {
            let mut i: usize = 0;
            while i < self.ids.len() && self.ids[i] < k
                invariant
                    i <= self.ids@.len(),
                    forall|j: int| 0 <= j < i ==> self.ids@[j] < k,
                decreases self.ids@.len() - i,
            {
                i += 1;
            }
            assert(!self.ids@.contains(k));
            let ghost old_ids = self.ids@;
            self.ids.insert(i, k);
            assert(self.ids@ == old_ids.insert(i as int, k));
            assert(i < old_ids.len() ==> old_ids[i as int] > k);
            assert forall|x: u8| #[trigger] self.ids@.contains(x) <==> (old_ids.contains(x) || x == k) by {
                if old_ids.contains(x) {
                    let j = choose|j: int| 0 <= j < old_ids.len() && old_ids[j] == x;
                    if j < i {
                        assert(self.ids@[j] == x);
                    } else {
                        assert(self.ids@[j + 1] == x);
                    }
                }
                if x == k {
                    assert(self.ids@[i as int] == k);
                }
                if self.ids@.contains(x) {
                    let j = choose|j: int| 0 <= j < self.ids@.len() && self.ids@[j] == x;
                    if j < i {
                        assert(old_ids[j] == x);
                    } else if j > i {
                        assert(old_ids[j - 1] == x);
                    }
                }
            }
        }
        self.by_id.set(k as usize, Some(CacheEntry { data: SocketId { id: k, addr }, last_access: now }));
        assert(self@.entries =~= old(self)@.entries.insert(k, EntryState { addr, last_access: now as int }));
    }

    /// Marks for removal every entry expired at `now`.
    fn mark_expired_at(&mut self, now: i64)
        requires
            old(self).wf(),
        ensures
            final(self).wf(),
            final(self)@ == (CacheState {
                pending: old(self)@.pending.union(old(self)@.expired_at(now as int)),
                ..old(self)@
            }),
    {
        let mut k: usize = 0;
        while k < ID_COUNT
            invariant
                self.wf(),
                self.by_id == old(self).by_id,
                self.ids == old(self).ids,
                self.timeout == old(self).timeout,
                k <= ID_COUNT,
                forall|x: u8|
                    #[trigger] self.expired@.to_set().contains(x) <==> (old(self)@.pending.contains(x)
                        || ((x as int) < k && old(self)@.expired_at(now as int).contains(x))),
            decreases ID_COUNT - k,
        {
            match self.by_id[k] {
                Some(e) => {
                    if (now as i128) - (e.last_access as i128) > (self.timeout as i128) {
                        let ghost before = self.expired@;
                        self.expired.push(k as u8);
                        proof {
                            lemma_push_to_set(before, k as u8);
                            assert(old(self)@.expired_at(now as int).contains(k as u8));
                        }
                    } else {
                        assert(!old(self)@.expired_at(now as int).contains(k as u8));
                    }
                },
                None => {
                    assert(!old(self)@.expired_at(now as int).contains(k as u8));
                },
            }
            k += 1;
        }
        assert(self@.pending =~= old(self)@.pending.union(old(self)@.expired_at(now as int)));
        assert(self@.entries =~= old(self)@.entries);
    }

    /// Inserts `addr` at time `now`, under `id` or else under the lowest free
    /// id, after dropping the entries that lookups found expired and those
    /// expired at `now`. An entry that held the id or the address is
    /// replaced.
    pub fn insert_at(&mut self, id: Option<u8>, addr: PeerAddr, now: i64) -> (r: Result<SocketId, Error>)
        requires
            old(self).wf(),
        ensures
            final(self).wf(),
            (final(self)@, r) == old(self)@.insert_spec(id, addr, now as int),
    {
        self.mark_expired_at(now);
        self.cleanup();
        let ghost c = self@;
        let k = match id {
            Some(k) => k,
            None => match self.next_free_id() {
                Some(k) => k,
                None => {
                    return Err(Error::NoFreeSlots);
                },
            },
        };
        let ghost holders = c.entries.dom().filter(|j: u8| c.entries[j].addr == addr);
        match self.find_addr(addr) {
            Some(j) => {
                assert(holders =~= set![j]);
                if j != k {
                    self.remove_id(j);
                }
            },
            None => {
                assert(holders =~= Set::<u8>::empty());
            },
        }
        self.put(k, addr, now);
        assert(self@.entries =~= c.without_addr(addr).insert(
            k,
            EntryState { addr, last_access: now as int },
        ));
        Ok(SocketId { id: k, addr })
    }

    /// Looks up `addr` at time `now` and, where it is not live, inserts it
    /// under the lowest free id.
    pub fn get_or_insert_by_addr_at(&mut self, addr: PeerAddr, now: i64) -> (r: Result<SocketId, Error>)
        requires
            old(self).wf(),
        ensures
            final(self).wf(),
            (final(self)@, r) == old(self)@.get_or_insert_spec(addr, now as int),
    {
        match self.get_by_addr_at(addr, now) {
            None => self.insert_at(None, addr, now),
            Some(r) => Ok(r),
        }
    }

    /// Looks up an address at time `now`, as `get_by_id_at` does an id.
    pub fn get_by_addr_at(&mut self, addr: PeerAddr, now: i64) -> (r: Option<SocketId>)
        requires
            old(self).wf(),
        ensures
            final(self).wf(),
            (final(self)@, r) == old(self)@.lookup_addr(addr, now as int),
    {
        match self.find_addr(addr) {
            None => None,
            Some(k) => self.get_by_id_at(k, now),
        }
    }

    /// Looks up an id at the current time.
    pub fn get_by_id(&mut self, id: u8) -> (r: Option<SocketId>)
        requires
            old(self).wf(),
        ensures
            final(self).wf(),
            exists|now: i64| (final(self)@, r) == #[trigger] old(self)@.lookup_id(id, now as int),
    {
        let now = now_micros();
        self.get_by_id_at(id, now)
    }

    /// Looks up an address at the current time.
    pub fn get_by_addr(&mut self, addr: PeerAddr) -> (r: Option<SocketId>)
        requires
            old(self).wf(),
        ensures
            final(self).wf(),
            exists|now: i64| (final(self)@, r) == #[trigger] old(self)@.lookup_addr(addr, now as int),
    {
        let now = now_micros();
        self.get_by_addr_at(addr, now)
    }

    /// Inserts `addr` at the current time.
    pub fn insert(&mut self, id: Option<u8>, addr: PeerAddr) -> (r: Result<SocketId, Error>)
        requires
            old(self).wf(),
        ensures
            final(self).wf(),
            exists|now: i64|
                (final(self)@, r) == #[trigger] old(self)@.insert_spec(id, addr, now as int),
    {
        let now = now_micros();
        self.insert_at(id, addr, now)
    }

    /// Looks up `addr` at the current time, inserting it where it is not live.
    pub fn get_or_insert_by_addr(&mut self, addr: PeerAddr) -> (r: Result<SocketId, Error>)
        requires
            old(self).wf(),
        ensures
            final(self).wf(),
            exists|now: i64|
                (final(self)@, r) == #[trigger] old(self)@.get_or_insert_spec(addr, now as int),
    {
        let now = now_micros();
        self.get_or_insert_by_addr_at(addr, now)
    }
}

/// When `d` holds every id in `[k, m)` and not `m`, the least free id from
/// `k` on is `m` (none when `m` is 256).
pub proof fn lemma_first_free(d: Set<u8>, k: nat, m: nat)
    requires
        k <= m <= 256,
        forall|j: nat| k <= j < m ==> #[trigger] d.contains(j as u8),
        m < 256 ==> !d.contains(m as u8),
    ensures
        first_free_from(d, k) == (if m < 256 {
            Some(m as u8)
        } else {
            None::<u8>
        }),
    decreases m - k,
{
    if k < m {
        assert(d.contains(k as u8));
        lemma_first_free(d, k + 1, m);
    }
}

/// Every id.
pub open spec fn all_ids() -> Set<u8> {
    Set::new(|k: u8| true)
}

proof fn lemma_all_ids_len()
    ensures
        all_ids().finite(),
        all_ids().len() == 256,
{
    let q = Seq::new(256, |i: int| i as u8);
    assert(q.no_duplicates());
    assert forall|k: u8| #[trigger] all_ids().contains(k) implies q.to_set().contains(k) by {
        assert(q[k as int] == k);
    }
    assert(q.to_set() =~= all_ids());
    q.unique_seq_to_set();
}

/// A set of ids holds all of them exactly when it has 256 elements.
pub proof fn lemma_full_iff_len(d: Set<u8>)
    ensures
        d.finite(),
        (forall|j: u8| #[trigger] d.contains(j)) <==> d.len() == 256,
{
    lemma_all_ids_len();
    vstd::set_lib::lemma_len_subset(d, all_ids());
    if forall|j: u8| #[trigger] d.contains(j) {
        assert(d =~= all_ids());
    }
    if d.len() == 256 {
        if exists|j: u8| !#[trigger] d.contains(j) {
            let j = choose|j: u8| !#[trigger] d.contains(j);
            vstd::set_lib::lemma_len_subset(d, all_ids().remove(j));
        }
    }
}

/// What `first_free_from` returns: the least id from `k` on that `d` does
/// not hold, or `None` when it holds them all.
pub proof fn lemma_first_free_char(d: Set<u8>, k: nat)
    requires
        k <= 256,
    ensures
        match first_free_from(d, k) {
            Some(m) => k <= m && !d.contains(m) && forall|j: u8| k <= j < m ==> #[trigger] d.contains(j),
            None => forall|j: u8| k <= j ==> #[trigger] d.contains(j),
        },
    decreases 256 - k,
{
    if k < 256 && d.contains(k as u8) {
        lemma_first_free_char(d, k + 1);
    }
}

/// In every state, no two entries share an id or an address, and a lookup by
/// id finds an address exactly when a lookup by that address finds that id.
pub proof fn lemma_lookups_agree(s: CacheState, i: u8, a: PeerAddr, now: int)
    requires
        s.valid(),
    ensures
        s.lookup_id(i, now).1 == Some(SocketId { id: i, addr: a }) <==> s.lookup_addr(a, now).1
            == Some(SocketId { id: i, addr: a }),
{
    if s.entries.contains_key(i) && s.entries[i].addr == a {
        assert(s.id_of_addr(a) == Some(i));
    }
}

/// Every operation keeps addresses unique.
pub proof fn lemma_operations_keep_valid(s: CacheState, id: Option<u8>, k: u8, a: PeerAddr, now: int)
    requires
        s.valid(),
    ensures
        s.lookup_id(k, now).0.valid(),
        s.lookup_addr(a, now).0.valid(),
        s.cleaned().valid(),
        s.insert_spec(id, a, now).0.valid(),
        s.get_or_insert_spec(a, now).0.valid(),
{
    let c = s.cleaned();
    let (s1, r1) = s.lookup_addr(a, now);
    assert(s1.valid());
    let (s2, _r2) = s1.insert_spec(None, a, now);
    assert(s2.valid()) by {
        let c1 = s1.swept(now);
        let w = c1.without_addr(a);
        assert forall|x: u8| #[trigger] w.contains_key(x) implies w[x].addr != a by {}
    }
    assert(s.insert_spec(id, a, now).0.valid()) by {
        let w = s.swept(now).without_addr(a);
        assert forall|x: u8| #[trigger] w.contains_key(x) implies w[x].addr != a by {}
    }
}

/// An insertion without an id takes the lowest id that no live entry holds
/// once expired entries are dropped, and fails exactly when all 256 ids are
/// live.
pub proof fn lemma_lowest_free_id(s: CacheState, addr: PeerAddr, now: int)
    ensures
        s.insert_spec(None, addr, now).1 is Err <==> s.swept(now).entries.dom().len() == 256,
        s.insert_spec(None, addr, now).1 matches Ok(x) ==> !s.swept(now).entries.contains_key(x.id)
            && forall|j: u8| j < x.id ==> #[trigger] s.swept(now).entries.contains_key(j),
        forall|k: u8| #[trigger] s.swept(now).entries.contains_key(k) ==> s.entries.contains_key(k)
            && !s.pending.contains(k) && !is_expired(s.entries[k].last_access, s.timeout, now),
{
    let d = s.swept(now).entries.dom();
    lemma_first_free_char(d, 0);
    lemma_full_iff_len(d);
}

/// A lookup that succeeds renews the entry to the lookup's time, which
/// advances it whenever the clock moved on since the last access; an entry
/// idle past the timeout is returned by no lookup.
pub proof fn lemma_lookup_renews(s: CacheState, id: u8, a: PeerAddr, now: int)
    requires
        s.valid(),
        forall|k: u8| #[trigger] s.entries.contains_key(k) ==> s.entries[k].last_access < now,
    ensures
        s.lookup_id(id, now).1 is Some ==> s.lookup_id(id, now).0.entries[id].last_access == now
            && s.lookup_id(id, now).0.entries[id].last_access > s.entries[id].last_access,
        s.lookup_addr(a, now).1 matches Some(x) ==> s.lookup_addr(a, now).0.entries[x.id].last_access
            == now && s.lookup_addr(a, now).0.entries[x.id].last_access > s.entries[x.id].last_access,
        s.entries.contains_key(id) && s.entries[id].last_access + s.timeout < now ==> s.lookup_id(
            id,
            now,
        ).1 is None,
        (s.id_of_addr(a) matches Some(k) && s.entries[k].last_access + s.timeout < now) ==> s.lookup_addr(
            a,
            now,
        ).1 is None,
{
    if s.id_of_addr(a) is Some {
        let k = s.id_of_addr(a)->Some_0;
        assert(s.entries.contains_key(k) && s.entries[k].addr == a);
    }
}

/// Dropping the pending and expired entries leaves exactly the live ones,
/// when every pending entry has expired.
proof fn lemma_swept_is_live(s: CacheState, now: int)
    requires
        s.pending_expired_at(now),
    ensures
        s.swept(now).entries.dom() == s.live_at(now),
{
    assert(s.swept(now).entries.dom() =~= s.live_at(now));
}

/// An insertion without an id takes the lowest id among those that no
/// entry live at `now` holds, and fails exactly when 256 entries are live,
/// provided the clock has not gone back since entries were marked.
pub proof fn lemma_lowest_free_live_id(s: CacheState, addr: PeerAddr, now: int)
    requires
        s.pending_expired_at(now),
    ensures
        s.insert_spec(None, addr, now).1 is Err <==> s.live_at(now).len() == 256,
        s.insert_spec(None, addr, now).1 matches Ok(x) ==> !s.live_at(now).contains(x.id) && forall|
            j: u8,
        | j < x.id ==> #[trigger] s.live_at(now).contains(j),
{
    lemma_swept_is_live(s, now);
    lemma_lowest_free_id(s, addr, now);
}

/// Looking up an address with no live entry, then inserting it, takes the
/// lowest id that no live entry holds, or fails when 256 are live.
pub proof fn lemma_get_or_insert_lowest_free(s: CacheState, addr: PeerAddr, now: int)
    requires
        s.valid(),
        s.pending_expired_at(now),
        forall|k: u8| #[trigger] s.live_at(now).contains(k) ==> s.entries[k].addr != addr,
    ensures
        s.get_or_insert_spec(addr, now).1 is Err <==> s.live_at(now).len() == 256,
        s.get_or_insert_spec(addr, now).1 matches Ok(x) ==> x.addr == addr && !s.live_at(now).contains(
            x.id,
        ) && forall|j: u8| j < x.id ==> #[trigger] s.live_at(now).contains(j),
{
    let (s1, r1) = s.lookup_addr(addr, now);
    match s.id_of_addr(addr) {
        Some(k) => {
            assert(s.entries.contains_key(k) && s.entries[k].addr == addr);
            assert(!s.live_at(now).contains(k));
        },
        None => {},
    }
    assert(r1 is None);
    assert(s1.live_at(now) =~= s.live_at(now));
    assert(s1.pending_expired_at(now));
    lemma_lowest_free_live_id(s1, addr, now);
}

/// Right after an insertion at `now`, with a timeout that is not negative,
/// both lookups at `now` find the new pairing, no other entry holds its id
/// or address, and addresses stay unique.
pub proof fn lemma_insert_then_lookup(s: CacheState, id: Option<u8>, addr: PeerAddr, now: int)
    requires
        s.valid(),
        s.timeout >= 0,
    ensures
        s.insert_spec(id, addr, now).0.valid(),
        s.insert_spec(id, addr, now).1 matches Ok(x) ==> {
            let t = s.insert_spec(id, addr, now).0;
            &&& x.addr == addr
            &&& t.lookup_id(x.id, now).1 == Some(x)
            &&& t.lookup_addr(addr, now).1 == Some(x)
            &&& forall|k: u8| #[trigger] t.entries.contains_key(k) && k != x.id ==> t.entries[k].addr != addr
        },
{
    lemma_operations_keep_valid(s, id, 0, addr, now);
    let (t, r) = s.insert_spec(id, addr, now);
    match r {
        Ok(x) => {
            assert(t.entries.contains_key(x.id) && t.entries[x.id].addr == addr);
            let w = s.swept(now).without_addr(addr);
            assert forall|k: u8| #[trigger] w.contains_key(k) implies w[k].addr != addr by {}
            assert(t.id_of_addr(addr) == Some(x.id));
        },
        Err(_) => {},
    }
}

/// Right after a lookup-or-insert at `now` that succeeds, with a timeout
/// that is not negative, both lookups at `now` find the same pairing.
pub proof fn lemma_get_or_insert_then_lookup(s: CacheState, addr: PeerAddr, now: int)
    requires
        s.valid(),
        s.timeout >= 0,
    ensures
        s.get_or_insert_spec(addr, now).0.valid(),
        s.get_or_insert_spec(addr, now).1 matches Ok(x) ==> {
            let t = s.get_or_insert_spec(addr, now).0;
            &&& x.addr == addr
            &&& t.lookup_id(x.id, now).1 == Some(x)
            &&& t.lookup_addr(addr, now).1 == Some(x)
        },
{
    let (s1, r1) = s.lookup_addr(addr, now);
    lemma_operations_keep_valid(s, None, 0, addr, now);
    match r1 {
        Some(x) => {
            let k = s.id_of_addr(addr)->Some_0;
            assert(s.entries.contains_key(k) && s.entries[k].addr == addr);
            assert(s1.entries.contains_key(k) && s1.entries[k].addr == addr);
            assert(s1.id_of_addr(addr) == Some(k));
        },
        None => {
            lemma_insert_then_lookup(s1, None, addr, now);
        },
    }
}

/// Two lookups at the same instant agree: after a lookup by id finds a
/// pairing, the lookup by its address finds it too, and the other way
/// round, when the timeout is not negative.
pub proof fn lemma_lookups_agree_in_turn(s: CacheState, i: u8, a: PeerAddr, now: int)
    requires
        s.valid(),
        s.timeout >= 0,
    ensures
        s.lookup_id(i, now).1 matches Some(x) ==> x.id == i && s.lookup_id(i, now).0.lookup_addr(
            x.addr,
            now,
        ).1 == Some(x),
        s.lookup_addr(a, now).1 matches Some(x) ==> x.addr == a && s.lookup_addr(a, now).0.lookup_id(
            x.id,
            now,
        ).1 == Some(x),
{
    let (t, r) = s.lookup_id(i, now);
    match r {
        Some(x) => {
            assert(t.entries.contains_key(i) && t.entries[i].addr == x.addr);
            assert(t.id_of_addr(x.addr) == Some(i));
        },
        None => {},
    }
    match s.id_of_addr(a) {
        Some(k) => {
            assert(s.entries.contains_key(k) && s.entries[k].addr == a);
        },
        None => {},
    }
}

/// A lookup of an entry live at `now` answers it and renews it to `now`,
/// by id and by address, when the clock has not gone back since entries
/// were marked; so its last access strictly advances whenever the clock
/// moved on.
pub proof fn lemma_live_lookup_succeeds(s: CacheState, id: u8, now: int)
    requires
        s.valid(),
        s.pending_expired_at(now),
        s.live_at(now).contains(id),
    ensures
        s.lookup_id(id, now).1 == Some(SocketId { id, addr: s.entries[id].addr }),
        s.lookup_id(id, now).0.entries[id].last_access == now,
        s.lookup_addr(s.entries[id].addr, now).1 == Some(SocketId { id, addr: s.entries[id].addr }),
        s.lookup_addr(s.entries[id].addr, now).0.entries[id].last_access == now,
        s.entries[id].last_access < now ==> s.lookup_id(id, now).0.entries[id].last_access
            > s.entries[id].last_access,
{
    assert(!s.pending.contains(id));
    assert(s.entries.contains_key(id) && s.entries[id].addr == s.entries[id].addr);
    assert(s.id_of_addr(s.entries[id].addr) == Some(id));
}

} // verus!
