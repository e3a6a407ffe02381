use vstd::prelude::*;

verus! {

/// A 6-byte Ethernet hardware address, compared by value.
#[derive(Clone, Copy, Hash, Debug)]
pub struct Mac(pub [u8; 6]);

impl PartialEq for Mac {
    fn eq(&self, o: &Mac) -> (r: bool) {
        let r = self.0[0] == o.0[0] && self.0[1] == o.0[1] && self.0[2] == o.0[2]
            && self.0[3] == o.0[3] && self.0[4] == o.0[4] && self.0[5] == o.0[5];
        proof {
            broadcast use vstd::array::group_array_axioms;

            if r {
                assert(self.0 =~= o.0);
            }
        }
        r
    }
}

impl Eq for Mac {}

impl vstd::std_specs::cmp::PartialEqSpecImpl for Mac {
    open spec fn obeys_eq_spec() -> bool {
        true
    }

    open spec fn eq_spec(&self, o: &Mac) -> bool {
        self.0 == o.0
    }
}

/// The MAC whose bytes are the first six of `s`.
pub open spec fn mac_of(s: Seq<u8>) -> Mac {
    Mac([s[0], s[1], s[2], s[3], s[4], s[5]])
}

pub proof fn lemma_mac_of(m: Mac)
    ensures
        mac_of(m.0@) == m,
{
    broadcast use vstd::array::group_array_axioms;

    assert(mac_of(m.0@).0 =~= m.0);
}

/// The address part of a peer endpoint.
#[derive(Clone, Copy, PartialEq, Eq, Structural, Hash, Debug)]
pub enum IpAddr {
    V4(u32),
    V6(u128),
}

/// A network endpoint of a peer: address and port, compared by value.
#[derive(Clone, Copy, PartialEq, Eq, Structural, Hash, Debug)]
pub struct PeerAddr {
    pub ip: IpAddr,
    pub port: u16,
}

/// The shared admission key of a cloud.
pub type Token = u64;

/// The per-unit errors of the engine; none of them ends the event loop.
#[derive(Debug)]
pub enum Error {
    ParseError(&'static str),
    WrongToken(Token),
    SocketError(&'static str),
    TapdevError(&'static str),
}

} // verus!
