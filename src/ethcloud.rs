//! The switching and membership engine. It owns the peer list and the MAC table and
//! decides, for each unit of work, what to send and to whom; the caller performs the
//! sends and device writes it asks for and reports the time on a monotonic clock in
//! milliseconds.
use vstd::prelude::*;
use crate::types::{lemma_mac_of, mac_of, Error, Mac, PeerAddr, Token};
use crate::peers::{expire_peers, PeerList};
use crate::mactable::{expire_macs, lookup_in, MacTable};
use crate::ethernet::{self, parse_frame, EthernetFrame, FrameView};
use crate::udpmessage::{
    self, encodable, lemma_peers_encodable, message_bytes, parse_message, Message, MessageView,
    MAX_LISTED_PEERS,
};

verus! {

/// The least time between two housekeeping runs, in milliseconds.
pub const HOUSEKEEP_INTERVAL: u64 = 1000;

/// One datagram to be sent to each of `targets`.
#[derive(Debug)]
pub struct Outbound {
    pub targets: Vec<PeerAddr>,
    pub data: Vec<u8>,
}

/// What the caller has to do after an inbound datagram was handled.
#[derive(Debug)]
pub enum Reaction {
    /// Write the frame to the device and, if that succeeds, report it with
    /// `frame_written`.
    Deliver(EthernetFrame),
    Send(Outbound),
    Nothing,
}

pub struct EthCloud {
    peers: PeerList,
    mactable: MacTable,
    token: Token,
    next_peerlist: u64,
    update_freq: u64,
    last_housekeep: u64,
}

/// The addresses that are not keys of `m`.
pub open spec fn unknown_in(m: Map<PeerAddr, u64>) -> spec_fn(PeerAddr) -> bool {
    |p: PeerAddr| !m.contains_key(p)
}

/// `targets` lists each key of `m` exactly once.
pub open spec fn lists_all(targets: Seq<PeerAddr>, m: Map<PeerAddr, u64>) -> bool {
    &&& targets.no_duplicates()
    &&& forall|a: PeerAddr| #[trigger] targets.contains(a) <==> m.contains_key(a)
}

/// A list that names each key of `m` once is as long as `m`.
pub proof fn lemma_lists_all_len(targets: Seq<PeerAddr>, m: Map<PeerAddr, u64>)
    requires
        lists_all(targets, m),
    ensures
        targets.len() == m.len(),
{
    assert(targets.to_set() =~= m.dom());
    targets.unique_seq_to_set();
}

impl EthCloud {
    pub closed spec fn wf(&self) -> bool {
        &&& self.peers.wf()
        &&& self.mactable.wf()
        &&& self.update_freq == self.peers.timeout_ms() / 2
    }

    pub closed spec fn peers_view(&self) -> Map<PeerAddr, u64> {
        self.peers@
    }

    pub closed spec fn macs_view(&self) -> Map<(Mac, u16), (PeerAddr, u64)> {
        self.mactable@
    }

    pub closed spec fn token_spec(&self) -> Token {
        self.token
    }

    pub closed spec fn peer_timeout_ms(&self) -> u64 {
        self.peers.timeout_ms()
    }

    pub closed spec fn mac_timeout_ms(&self) -> u64 {
        self.mactable.timeout_ms()
    }

    /// The instant from which the next housekeeping run gossips the peer list.
    pub closed spec fn next_gossip(&self) -> u64 {
        self.next_peerlist
    }

    pub closed spec fn gossip_interval(&self) -> u64 {
        self.update_freq
    }

    pub closed spec fn last_housekeeping(&self) -> u64 {
        self.last_housekeep
    }

    /// Deadlines computed at `now` fit in a `u64`.
    pub open spec fn time_ok(&self, now: u64) -> bool {
        &&& now + self.peer_timeout_ms() <= u64::MAX
        &&& now + self.mac_timeout_ms() <= u64::MAX
    }

    /// Everything but the tables is as in `pre`.
    pub open spec fn same_settings(&self, pre: &EthCloud) -> bool {
        &&& self.token_spec() == pre.token_spec()
        &&& self.peer_timeout_ms() == pre.peer_timeout_ms()
        &&& self.mac_timeout_ms() == pre.mac_timeout_ms()
        &&& self.gossip_interval() == pre.gossip_interval()
    }

    /// What handling the frame `f` from the device yields: a datagram carrying it,
    /// to the peer that its destination `dst` was learnt from, else to every known peer.
    pub open spec fn routes_frame(&self, dst: Mac, f: FrameView, r: Result<Outbound, Error>) -> bool {
        let m = MessageView::Frame(f);
        match r {
            Ok(o) => {
                &&& encodable(m)
                &&& o.data@ == message_bytes(self.token_spec(), m)
                &&& match lookup_in(self.macs_view(), dst, f.2) {
                    Some(a) => o.targets@ == seq![a],
                    None => lists_all(o.targets@, self.peers_view()),
                }
            },
            Err(e) => !encodable(m) && e is SocketError,
        }
    }

    /// What handling the inbound message `m` with `token` from `peer` at `now` does.
    pub open spec fn net_step(
        pre: EthCloud,
        post: EthCloud,
        peer: PeerAddr,
        token: Token,
        m: MessageView,
        now: u64,
        r: Result<Reaction, Error>,
    ) -> bool {
        if token != pre.token_spec() {
            r matches Err(Error::WrongToken(t)) && t == token && post == pre
        } else {
            &&& post.same_settings(&pre)
            &&& post.next_gossip() == pre.next_gossip()
            &&& post.last_housekeeping() == pre.last_housekeeping()
            &&& post.macs_view() == pre.macs_view()
            &&& match m {
                MessageView::Frame(f) => {
                    &&& r matches Ok(Reaction::Deliver(g)) && g@ == f
                    &&& post.peers_view() == pre.peers_view()
                },
                MessageView::Peers(l) => {
                    let known = pre.peers_view().insert(peer, (now + pre.peer_timeout_ms()) as u64);
                    &&& post.peers_view() == known
                    &&& r matches Ok(Reaction::Send(o))
                    &&& o.targets@ == l.filter(unknown_in(known))
                    &&& o.data@ == message_bytes(token, MessageView::GetPeers)
                },
                MessageView::GetPeers => {
                    &&& post.peers_view() == pre.peers_view().insert(peer, (now + pre.peer_timeout_ms()) as u64)
                    &&& match r {
                        Ok(Reaction::Send(o)) => {
                            &&& o.targets@ == seq![peer]
                            &&& exists|s: Seq<PeerAddr>| {
                                &&& lists_all(s, post.peers_view())
                                &&& encodable(MessageView::Peers(s))
                                &&& o.data@ == #[trigger] message_bytes(token, MessageView::Peers(s))
                            }
                        },
                        Err(e) => e is SocketError && post.peers_view().len() > MAX_LISTED_PEERS,
                        _ => false,
                    }
                },
                MessageView::Close => {
                    &&& post.peers_view() == pre.peers_view().remove(peer)
                    &&& r matches Ok(Reaction::Nothing)
                },
            }
        }
    }

    /// What a housekeeping run at `now` does: it sweeps both tables and, once the
    /// gossip instant has come, sends the peer list to every peer and moves that
    /// instant one gossip interval past `now`.
    pub open spec fn housekeep_step(pre: EthCloud, post: EthCloud, now: u64, r: Result<Option<Outbound>, Error>) -> bool {
        &&& post.same_settings(&pre)
        &&& post.peers_view() == expire_peers(pre.peers_view(), now)
        &&& post.macs_view() == expire_macs(pre.macs_view(), now)
        &&& post.last_housekeeping() == now
        &&& if pre.next_gossip() <= now {
            match r {
                Ok(Some(o)) => {
                    &&& lists_all(o.targets@, post.peers_view())
                    &&& encodable(MessageView::Peers(o.targets@))
                    &&& o.data@ == message_bytes(pre.token_spec(), MessageView::Peers(o.targets@))
                    &&& post.next_gossip() == now + pre.gossip_interval()
                },
                Ok(None) => false,
                Err(e) => {
                    &&& e is SocketError
                    &&& post.next_gossip() == pre.next_gossip()
                    &&& post.peers_view().len() > MAX_LISTED_PEERS
                },
            }
        } else {
            r matches Ok(None) && post.next_gossip() == pre.next_gossip()
        }
    }

    pub fn new(token: Token, mac_timeout: u64, peer_timeout: u64, now: u64) -> (r: EthCloud)
        ensures
            r.wf(),
            r.peers_view() == Map::<PeerAddr, u64>::empty(),
            r.macs_view() == Map::<(Mac, u16), (PeerAddr, u64)>::empty(),
            r.token_spec() == token,
            r.peer_timeout_ms() == peer_timeout,
            r.mac_timeout_ms() == mac_timeout,
            r.gossip_interval() == peer_timeout / 2,
            r.next_gossip() == now,
            r.last_housekeeping() == now,
    {
        EthCloud {
            peers: PeerList::new(peer_timeout),
            mactable: MacTable::new(mac_timeout),
            token,
            next_peerlist: now,
            update_freq: peer_timeout / 2,
            last_housekeep: now,
        }
    }

    fn send_msg(&self, targets: Vec<PeerAddr>, msg: &Message) -> (r: Result<Outbound, Error>)
        ensures
            match r {
                Ok(o) => encodable(msg@) && o.targets@ == targets@ && o.data@ == message_bytes(self.token, msg@),
                Err(e) => !encodable(msg@) && e is SocketError,
            },
    {
        match udpmessage::encode(self.token, msg) {
            Ok(data) => Ok(Outbound { targets, data }),
            Err(e) => Err(e),
        }
    }

    /// A request for the peer list of `addr`.
    pub fn connect(&self, addr: &PeerAddr) -> (r: Result<Outbound, Error>)
        ensures
            r matches Ok(o) && o.targets@ == seq![*addr] && o.data@ == message_bytes(
                self.token_spec(),
                MessageView::GetPeers,
            ),
    {
        let mut targets: Vec<PeerAddr> = Vec::new();
        targets.push(*addr);
        proof {
            crate::bytes::lemma_be64(0);
        }
        self.send_msg(targets, &Message::GetPeers)
    }

    /// Whether housekeeping is due: at least a second since the last run.
    pub fn housekeeping_due(&self, now: u64) -> (r: bool)
        ensures
            r == (now >= self.last_housekeeping() + HOUSEKEEP_INTERVAL),
    {
        now >= self.last_housekeep && now - self.last_housekeep >= HOUSEKEEP_INTERVAL
    }

    /// Routes a frame read from the device.
    pub fn handle_ethernet_frame(&self, frame: EthernetFrame) -> (r: Result<Outbound, Error>)
        requires
            self.wf(),
        ensures
            self.routes_frame(frame.dst, frame@, r),
    {
        let targets = match self.mactable.lookup(&frame.dst, frame.vlan) {
            Some(addr) => {
                let mut t: Vec<PeerAddr> = Vec::new();
                t.push(addr);
                t
            },
            None => self.peers.as_vec(),
        };
        self.send_msg(targets, &Message::Frame(frame))
    }

    /// Decodes and routes bytes read from the device.
    pub fn handle_device_frame(&self, data: &[u8]) -> (r: Result<Outbound, Error>)
        requires
            self.wf(),
        ensures
            match parse_frame(data@) {
                None => r matches Err(e) && e is ParseError,
                Some(f) => self.routes_frame(mac_of(f.0), f, r),
            },
    {
        match ethernet::decode(data) {
            Ok(f) => {
                let dst = f.dst;
                let ghost fv = f@;
                let r = self.handle_ethernet_frame(f);
                proof {
                    lemma_mac_of(dst);
                }
                r
            },
            Err(e) => Err(e),
        }
    }

    /// Handles an inbound message from `peer`, which carried `token`.
    pub fn handle_net_message(&mut self, peer: &PeerAddr, token: Token, msg: Message, now: u64) -> (r: Result<Reaction, Error>)
        requires
            old(self).wf(),
            old(self).time_ok(now),
        ensures
            final(self).wf(),
            Self::net_step(*old(self), *final(self), *peer, token, msg@, now, r),
    {
        if token != self.token {
            return Err(Error::WrongToken(token));
        }
        match msg {
            Message::Frame(f) => Ok(Reaction::Deliver(f)),
            Message::Peers(list) => {
                self.peers.add(peer, now);
                let ghost known = self.peers@;
                let mut targets: Vec<PeerAddr> = Vec::new();
                let mut i: usize = 0;
                proof {
                    reveal(Seq::filter);
                    assert(list@.take(0) =~= Seq::<PeerAddr>::empty());
                }
                while i < list.len()
                    invariant
                        self.peers.wf(),
                        self.peers@ == known,
                        i <= list@.len(),
                        targets@ == list@.take(i as int).filter(unknown_in(known)),
                    decreases list@.len() - i,
                {
                    proof {
                        assert(list@.take(i + 1) =~= list@.take(i as int).push(list@[i as int]));
                        list@.take(i as int).lemma_filter_push(list@[i as int], unknown_in(known));
                    }
                    if !self.peers.contains(&list[i]) {
                        targets.push(list[i]);
                    }
                    i = i + 1;
                }
                assert(list@.take(i as int) =~= list@);
                proof {
                    crate::bytes::lemma_be64(0);
                }
                match self.send_msg(targets, &Message::GetPeers) {
                    Ok(o) => Ok(Reaction::Send(o)),
                    Err(e) => Err(e),
                }
            },
            Message::GetPeers => {
                self.peers.add(peer, now);
                let snapshot = self.peers.as_vec();
                let ghost s = snapshot@;
                let mut to: Vec<PeerAddr> = Vec::new();
                to.push(*peer);
                let reply = Message::Peers(snapshot);
                match self.send_msg(to, &reply) {
                    Ok(o) => {
                        assert(o.data@ == message_bytes(token, MessageView::Peers(s)));
                        Ok(Reaction::Send(o))
                    },
                    Err(e) => {
                        proof {
                            lemma_lists_all_len(s, self.peers@);
                            if s.len() <= MAX_LISTED_PEERS {
                                lemma_peers_encodable(s);
                            }
                        }
                        Err(e)
                    },
                }
            },
            Message::Close => {
                self.peers.remove(peer);
                Ok(Reaction::Nothing)
            },
        }
    }

    /// Reports that a frame from `peer` with source `src` on `vlan` reached the
    /// device: the peer is refreshed and the source learnt.
    pub fn frame_written(&mut self, peer: &PeerAddr, src: &Mac, vlan: u16, now: u64)
        requires
            old(self).wf(),
            old(self).time_ok(now),
        ensures
            final(self).wf(),
            final(self).same_settings(&*old(self)),
            final(self).next_gossip() == old(self).next_gossip(),
            final(self).last_housekeeping() == old(self).last_housekeeping(),
            final(self).peers_view() == old(self).peers_view().insert(*peer, (now + old(self).peer_timeout_ms()) as u64),
            final(self).macs_view() == old(self).macs_view().insert((*src, vlan), (*peer, (now + old(self).mac_timeout_ms()) as u64)),
    {
        self.peers.add(peer, now);
        self.mactable.learn(src, vlan, peer, now);
    }

    /// Decodes and handles a datagram received from `peer`.
    pub fn handle_datagram(&mut self, peer: &PeerAddr, data: &[u8], now: u64) -> (r: Result<Reaction, Error>)
        requires
            old(self).wf(),
            old(self).time_ok(now),
        ensures
            final(self).wf(),
            match parse_message(data@) {
                None => r matches Err(e) && e is ParseError && *final(self) == *old(self),
                Some((t, m)) => Self::net_step(*old(self), *final(self), *peer, t, m, now, r),
            },
    {
        match udpmessage::decode(data) {
            Ok((token, msg)) => self.handle_net_message(peer, token, msg, now),
            Err(e) => Err(e),
        }
    }

    /// Sweeps both tables and, when its time has come, gossips the peer list.
    pub fn housekeep(&mut self, now: u64) -> (r: Result<Option<Outbound>, Error>)
        requires
            old(self).wf(),
            old(self).time_ok(now),
        ensures
            final(self).wf(),
            Self::housekeep_step(*old(self), *final(self), now, r),
    {
        self.peers.timeout(now);
        self.mactable.timeout(now);
        self.last_housekeep = now;
        if self.next_peerlist <= now {
            let snapshot = self.peers.as_vec();
            let ghost s = snapshot@;
            let targets = snapshot.clone();
            assert(targets@ == s);
            match self.send_msg(targets, &Message::Peers(snapshot)) {
                Ok(o) => {
                    self.next_peerlist = now + self.update_freq;
                    Ok(Some(o))
                },
                Err(e) => {
                    proof {
                        lemma_lists_all_len(s, self.peers@);
                        if s.len() <= MAX_LISTED_PEERS {
                            lemma_peers_encodable(s);
                        }
                    }
                    Err(e)
                },
            }
        } else {
            Ok(None)
        }
    }

    /// The known peers, each once.
    pub fn peer_list(&self) -> (r: Vec<PeerAddr>)
        requires
            self.wf(),
        ensures
            lists_all(r@, self.peers_view()),
    {
        self.peers.as_vec()
    }

    pub fn knows_peer(&self, addr: &PeerAddr) -> (r: bool)
        requires
            self.wf(),
        ensures
            r == self.peers_view().contains_key(*addr),
    {
        self.peers.contains(addr)
    }

    /// The peer address learnt for `(mac, vlan)`, if any.
    pub fn lookup_mac(&self, mac: &Mac, vlan: u16) -> (r: Option<PeerAddr>)
        requires
            self.wf(),
        ensures
            r == lookup_in(self.macs_view(), *mac, vlan),
    {
        self.mactable.lookup(mac, vlan)
    }
}

/// The outcome of a send that was to write `size` bytes and wrote `written`: a
/// truncated datagram is an error.
pub fn check_sent(size: usize, written: usize) -> (r: Result<(), Error>)
    ensures
        r is Ok <==> written == size,
        r matches Err(e) ==> e is SocketError,
{
    if written == size {
        Ok(())
    } else {
        Err(Error::SocketError("Sent out truncated packet"))
    }
}

/// Two housekeeping runs that both gossip, with no run between them, lie at least one
/// gossip interval apart (every other operation leaves the gossip instant alone).
pub proof fn lemma_gossip_spacing(
    c0: EthCloud,
    c1: EthCloud,
    t1: u64,
    r1: Result<Option<Outbound>, Error>,
    c2: EthCloud,
    c3: EthCloud,
    t2: u64,
    r2: Result<Option<Outbound>, Error>,
)
    requires
        EthCloud::housekeep_step(c0, c1, t1, r1),
        r1 matches Ok(Some(_)),
        c2.next_gossip() == c1.next_gossip(),
        c2.gossip_interval() == c1.gossip_interval(),
        EthCloud::housekeep_step(c2, c3, t2, r2),
        r2 matches Ok(Some(_)),
    ensures
        t2 >= t1 + c0.gossip_interval(),
        c3.next_gossip() == t2 + c0.gossip_interval(),
{
}

} // verus!
