//! The soft-state set of known peers, each with the instant after which it is stale.
use vstd::prelude::*;
use crate::types::PeerAddr;
use crate::table::{
    entries_map, has_key, keys_unique, lemma_entries_map_index, lemma_entries_map_push,
    lemma_entries_map_remove, lemma_entries_map_update, lemma_restrict_step, restrict,
};

verus! {

/// The deadlines that a sweep at `now` keeps: those not strictly before `now`.
pub open spec fn alive(now: u64) -> spec_fn(u64) -> bool {
    |d: u64| now <= d
}

/// What a sweep at `now` leaves of a peer map.
pub open spec fn expire_peers(m: Map<PeerAddr, u64>, now: u64) -> Map<PeerAddr, u64> {
    restrict(m, alive(now))
}

pub struct PeerList {
    timeout: u64,
    peers: Vec<(PeerAddr, u64)>,
}

impl View for PeerList {
    type V = Map<PeerAddr, u64>;

    /// Each known peer with its deadline (milliseconds on a monotonic clock).
    closed spec fn view(&self) -> Map<PeerAddr, u64> {
        entries_map(self.peers@)
    }
}

impl PeerList {
    pub closed spec fn wf(&self) -> bool {
        keys_unique(self.peers@)
    }

    /// How long an unrefreshed peer is kept, in milliseconds.
    pub closed spec fn timeout_ms(&self) -> u64 {
        self.timeout
    }

    pub fn new(timeout: u64) -> (r: PeerList)
        ensures
            r.wf(),
            r@ == Map::<PeerAddr, u64>::empty(),
            r.timeout_ms() == timeout,
    {
        let r = PeerList { timeout, peers: Vec::new() };
        assert(entries_map(r.peers@) =~= Map::<PeerAddr, u64>::empty());
        r
    }

    fn index_of(&self, addr: &PeerAddr) -> (r: Option<usize>)
        requires
            self.wf(),
        ensures
            match r {
                Some(i) => i < self.peers@.len() && self.peers@[i as int].0 == *addr,
                None => !has_key(self.peers@, *addr),
            },
    {
        let mut i: usize = 0;
        while i < self.peers.len()
            invariant
                i <= self.peers@.len(),
                forall|j: int| 0 <= j < i ==> self.peers@[j].0 != *addr,
            decreases self.peers@.len() - i,
        {
            if self.peers[i].0 == *addr {
                return Some(i);
            }
            i = i + 1;
        }
        None
    }

    pub fn contains(&self, addr: &PeerAddr) -> (r: bool)
        requires
            self.wf(),
        ensures
            r == self@.contains_key(*addr),
    {
        self.index_of(addr).is_some()
    }

    /// Inserts or refreshes `addr` with deadline `now + timeout`; says whether it is new.
    pub fn add(&mut self, addr: &PeerAddr, now: u64) -> (r: bool)
        requires
            old(self).wf(),
            now + old(self).timeout_ms() <= u64::MAX,
        ensures
            final(self).wf(),
            final(self).timeout_ms() == old(self).timeout_ms(),
            final(self)@ == old(self)@.insert(*addr, (now + old(self).timeout_ms()) as u64),
            r == !old(self)@.contains_key(*addr),
    {
        let deadline = now + self.timeout;
        match self.index_of(addr) {
            Some(i) => {
                proof {
                    lemma_entries_map_update(self.peers@, i as int, deadline);
                    lemma_entries_map_index(self.peers@, i as int);
                }
                self.peers.set(i, (*addr, deadline));
                false
            },
            None => {
                proof {
                    lemma_entries_map_push(self.peers@, *addr, deadline);
                }
                self.peers.push((*addr, deadline));
                true
            },
        }
    }

    /// Evicts `addr`; says whether it was there.
    pub fn remove(&mut self, addr: &PeerAddr) -> (r: bool)
        requires
            old(self).wf(),
        ensures
            final(self).wf(),
            final(self).timeout_ms() == old(self).timeout_ms(),
            final(self)@ == old(self)@.remove(*addr),
            r == old(self)@.contains_key(*addr),
    {
        match self.index_of(addr) {
            Some(i) => {
                proof {
                    lemma_entries_map_remove(self.peers@, i as int);
                    lemma_entries_map_index(self.peers@, i as int);
                }
                self.peers.remove(i);
                true
            },
            None => {
                assert(self@.remove(*addr) =~= self@);
                false
            },
        }
    }

    /// The addresses of all known peers, each once, in no particular order.
    pub fn as_vec(&self) -> (r: Vec<PeerAddr>)
        requires
            self.wf(),
        ensures
            r@.no_duplicates(),
            forall|a: PeerAddr| #[trigger] r@.contains(a) <==> self@.contains_key(a),
    {
        let mut r: Vec<PeerAddr> = Vec::new();
        let mut i: usize = 0;
        while i < self.peers.len()
            invariant
                self.wf(),
                i <= self.peers@.len(),
                r@.len() == i,
                forall|j: int| 0 <= j < i ==> #[trigger] r@[j] == self.peers@[j].0,
            decreases self.peers@.len() - i,
        {
            r.push(self.peers[i].0);
            i = i + 1;
        }
        assert forall|a: PeerAddr| #[trigger] r@.contains(a) <==> self@.contains_key(a) by {
            if self@.contains_key(a) {
                let j = choose|j: int| 0 <= j < self.peers@.len() && self.peers@[j].0 == a;
                assert(r@[j] == a);
            }
        }
        r
    }

    /// Evicts every peer whose deadline is strictly before `now`.
    pub fn timeout(&mut self, now: u64)
        requires
            old(self).wf(),
        ensures
            final(self).wf(),
            final(self).timeout_ms() == old(self).timeout_ms(),
            final(self)@ == expire_peers(old(self)@, now),
    {
        let mut kept: Vec<(PeerAddr, u64)> = Vec::new();
        let mut i: usize = 0;
        proof {
            assert(entries_map(kept@) =~= restrict(entries_map(self.peers@.take(0)), alive(now)));
        }
        while i < self.peers.len()
            invariant
                self.wf(),
                i <= self.peers@.len(),
                keys_unique(kept@),
                entries_map(kept@) == restrict(entries_map(self.peers@.take(i as int)), alive(now)),
            decreases self.peers@.len() - i,
        {
            let e = self.peers[i];
            proof {
                lemma_restrict_step(self.peers@, kept@, i as int, alive(now));
            }
            if now <= e.1 {
                kept.push(e);
            }
            i = i + 1;
        }
        assert(self.peers@.take(i as int) =~= self.peers@);
        self.peers = kept;
    }
}

/// A peer added at time `t` is still known, with the same deadline, after any sweep
/// made strictly before `t` plus the peer timeout.
pub proof fn lemma_added_peer_survives(before: PeerList, after: PeerList, a: PeerAddr, t: u64, now: u64)
    requires
        t + before.timeout_ms() <= u64::MAX,
        after@ == before@.insert(a, (t + before.timeout_ms()) as u64),
        now < t + before.timeout_ms(),
    ensures
        expire_peers(after@, now).contains_key(a),
        expire_peers(after@, now)[a] == after@[a],
{
}

/// Adding a peer twice is adding it once, at the later time.
pub proof fn lemma_add_twice(m: Map<PeerAddr, u64>, a: PeerAddr, d1: u64, d2: u64)
    ensures
        m.insert(a, d1).insert(a, d2) == m.insert(a, d2),
{
    assert(m.insert(a, d1).insert(a, d2) =~= m.insert(a, d2));
}

} // verus!
