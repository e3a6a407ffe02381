//! The learning cache from (MAC, VLAN) to the peer address last seen sending from it.
use vstd::prelude::*;
use crate::types::{Mac, PeerAddr};
use crate::table::{
    entries_map, has_key, keys_unique, lemma_entries_map_index, lemma_entries_map_push,
    lemma_entries_map_update, lemma_restrict_step, restrict,
};

verus! {

/// The entries that a sweep at `now` keeps: deadline not strictly before `now`.
pub open spec fn mac_alive(now: u64) -> spec_fn((PeerAddr, u64)) -> bool {
    |v: (PeerAddr, u64)| now <= v.1
}

/// What a sweep at `now` leaves of a MAC map.
pub open spec fn expire_macs(m: Map<(Mac, u16), (PeerAddr, u64)>, now: u64) -> Map<(Mac, u16), (PeerAddr, u64)> {
    restrict(m, mac_alive(now))
}

/// What a lookup of `(mac, vlan)` gives on a MAC map.
pub open spec fn lookup_in(m: Map<(Mac, u16), (PeerAddr, u64)>, mac: Mac, vlan: u16) -> Option<PeerAddr> {
    if m.contains_key((mac, vlan)) {
        Some(m[(mac, vlan)].0)
    } else {
        None
    }
}

pub struct MacTable {
    timeout: u64,
    table: Vec<((Mac, u16), (PeerAddr, u64))>,
}

impl View for MacTable {
    type V = Map<(Mac, u16), (PeerAddr, u64)>;

    /// Each learnt (MAC, VLAN) with its peer address and deadline.
    closed spec fn view(&self) -> Map<(Mac, u16), (PeerAddr, u64)> {
        entries_map(self.table@)
    }
}

impl MacTable {
    pub closed spec fn wf(&self) -> bool {
        keys_unique(self.table@)
    }

    /// How long an unrefreshed entry is kept, in milliseconds.
    pub closed spec fn timeout_ms(&self) -> u64 {
        self.timeout
    }

    pub fn new(timeout: u64) -> (r: MacTable)
        ensures
            r.wf(),
            r@ == Map::<(Mac, u16), (PeerAddr, u64)>::empty(),
            r.timeout_ms() == timeout,
    {
        let r = MacTable { timeout, table: Vec::new() };
        assert(entries_map(r.table@) =~= Map::<(Mac, u16), (PeerAddr, u64)>::empty());
        r
    }

    fn index_of(&self, mac: &Mac, vlan: u16) -> (r: Option<usize>)
        requires
            self.wf(),
        ensures
            match r {
                Some(i) => i < self.table@.len() && self.table@[i as int].0 == (*mac, vlan),
                None => !has_key(self.table@, (*mac, vlan)),
            },
    {
        let mut i: usize = 0;
        while i < self.table.len()
            invariant
                i <= self.table@.len(),
                forall|j: int| 0 <= j < i ==> self.table@[j].0 != (*mac, vlan),
            decreases self.table@.len() - i,
        {
            let key = self.table[i].0;
            if key.0 == *mac && key.1 == vlan {
                return Some(i);
            }
            i = i + 1;
        }
        None
    }

    /// Maps `(mac, vlan)` to `addr` with deadline `now + timeout`, replacing any earlier
    /// mapping; says whether the key is new.
    pub fn learn(&mut self, mac: &Mac, vlan: u16, addr: &PeerAddr, now: u64) -> (r: bool)
        requires
            old(self).wf(),
            now + old(self).timeout_ms() <= u64::MAX,
        ensures
            final(self).wf(),
            final(self).timeout_ms() == old(self).timeout_ms(),
            final(self)@ == old(self)@.insert((*mac, vlan), (*addr, (now + old(self).timeout_ms()) as u64)),
            r == !old(self)@.contains_key((*mac, vlan)),
    {
        let value = (*addr, now + self.timeout);
        match self.index_of(mac, vlan) {
            Some(i) => {
                proof {
                    lemma_entries_map_update(self.table@, i as int, value);
                    lemma_entries_map_index(self.table@, i as int);
                }
                self.table.set(i, ((*mac, vlan), value));
                false
            },
            None => {
                proof {
                    lemma_entries_map_push(self.table@, (*mac, vlan), value);
                }
                self.table.push(((*mac, vlan), value));
                true
            },
        }
    }

    /// The address mapped to `(mac, vlan)`, whatever its deadline.
    pub fn lookup(&self, mac: &Mac, vlan: u16) -> (r: Option<PeerAddr>)
        requires
            self.wf(),
        ensures
            r == lookup_in(self@, *mac, vlan),
    {
        match self.index_of(mac, vlan) {
            Some(i) => {
                proof {
                    lemma_entries_map_index(self.table@, i as int);
                }
                Some((self.table[i].1).0)
            },
            None => None,
        }
    }

    /// Evicts every entry whose deadline is strictly before `now`.
    pub fn timeout(&mut self, now: u64)
        requires
            old(self).wf(),
        ensures
            final(self).wf(),
            final(self).timeout_ms() == old(self).timeout_ms(),
            final(self)@ == expire_macs(old(self)@, now),
    {
        let mut kept: Vec<((Mac, u16), (PeerAddr, u64))> = Vec::new();
        let mut i: usize = 0;
        proof {
            assert(entries_map(kept@) =~= restrict(entries_map(self.table@.take(0)), mac_alive(now)));
        }
        while i < self.table.len()
            invariant
                self.wf(),
                i <= self.table@.len(),
                keys_unique(kept@),
                entries_map(kept@) == restrict(entries_map(self.table@.take(i as int)), mac_alive(now)),
            decreases self.table@.len() - i,
        {
            let e = self.table[i];
            proof {
                lemma_restrict_step(self.table@, kept@, i as int, mac_alive(now));
            }
            if now <= (e.1).1 {
                kept.push(e);
            }
            i = i + 1;
        }
        assert(self.table@.take(i as int) =~= self.table@);
        self.table = kept;
    }
}

/// A mapping learnt at time `t` is what a lookup gives: after any sweep made strictly
/// before `t` plus the MAC timeout, and after learning any other key.
pub proof fn lemma_learned_mac_holds(
    before: MacTable,
    after: MacTable,
    mac: Mac,
    vlan: u16,
    a: PeerAddr,
    t: u64,
)
    requires
        t + before.timeout_ms() <= u64::MAX,
        after@ == before@.insert((mac, vlan), (a, (t + before.timeout_ms()) as u64)),
    ensures
        lookup_in(after@, mac, vlan) == Some(a),
        forall|now: u64|
            now < t + before.timeout_ms() ==> #[trigger] expire_macs(after@, now).contains_key((mac, vlan))
                && expire_macs(after@, now)[(mac, vlan)] == after@[(mac, vlan)],
        forall|k: (Mac, u16), v: (PeerAddr, u64)|
            k != (mac, vlan) ==> #[trigger] after@.insert(k, v)[(mac, vlan)] == after@[(mac, vlan)]
                && after@.insert(k, v).contains_key((mac, vlan)),
{
}

/// Learning a key twice is learning it once, at the later time.
pub proof fn lemma_learn_twice(
    m: Map<(Mac, u16), (PeerAddr, u64)>,
    k: (Mac, u16),
    v1: (PeerAddr, u64),
    v2: (PeerAddr, u64),
)
    ensures
        m.insert(k, v1).insert(k, v2) == m.insert(k, v2),
{
    assert(m.insert(k, v1).insert(k, v2) =~= m.insert(k, v2));
}

} // verus!
