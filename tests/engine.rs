use ethcloud::clock::Clock;
use ethcloud::ethcloud::check_sent;
use ethcloud::ethernet;
use ethcloud::peers::PeerList;
use ethcloud::mactable::MacTable;
use ethcloud::udpmessage;
use ethcloud::{Error, EthCloud, EthernetFrame, IpAddr, Mac, Message, Outbound, PeerAddr, Reaction};

const TOKEN: u64 = 0x0000_0000_DEAD_BEEF;
const MAC_TIMEOUT: u64 = 300_000;
const PEER_TIMEOUT: u64 = 600_000;

fn addr(last: u32) -> PeerAddr {
    PeerAddr { ip: IpAddr::V4(0x0A00_0000 + last), port: 3210 }
}

fn node(now: u64) -> EthCloud {
    EthCloud::new(TOKEN, MAC_TIMEOUT, PEER_TIMEOUT, now)
}

fn frame_bytes(dst: [u8; 6], src: [u8; 6], vlan: u16) -> Vec<u8> {
    let f = EthernetFrame { dst: Mac(dst), src: Mac(src), vlan, payload: vec![0x08, 0x00, 42] };
    let mut out = Vec::new();
    ethernet::encode(&f, &mut out);
    out
}

fn sorted(mut v: Vec<PeerAddr>) -> Vec<PeerAddr> {
    v.sort_by_key(|a| format!("{:?}", a));
    v
}

/// Hands a datagram to `to` as coming from `from`; a frame is written and reported.
fn deliver(to: &mut EthCloud, from: &PeerAddr, data: &[u8], now: u64) -> Result<Reaction, Error> {
    let r = to.handle_datagram(from, data, now);
    if let Ok(Reaction::Deliver(f)) = &r {
        to.frame_written(from, &f.src, f.vlan, now);
    }
    r
}

fn sent(r: Result<Reaction, Error>) -> Outbound {
    match r {
        Ok(Reaction::Send(o)) => o,
        other => panic!("expected a send, got {:?}", other),
    }
}

/// B learns of A through a GetPeers request and A of B through the reply.
fn introduce(a: &mut EthCloud, a_addr: &PeerAddr, b: &mut EthCloud, b_addr: &PeerAddr, now: u64) {
    let req = a.connect(b_addr).unwrap();
    let reply = sent(deliver(b, a_addr, &req.data, now));
    deliver(a, b_addr, &reply.data, now).unwrap();
}

#[test]
fn discovery() {
    let (a_addr, b_addr) = (addr(1), addr(2));
    let mut a = node(0);
    let mut b = node(0);
    assert!(a.peer_list().is_empty());
    let req = a.connect(&b_addr).unwrap();
    assert_eq!(req.targets, vec![b_addr]);
    assert!(matches!(udpmessage::decode(&req.data), Ok((TOKEN, Message::GetPeers))));
    let reply = sent(deliver(&mut b, &a_addr, &req.data, 0));
    assert_eq!(reply.targets, vec![a_addr]);
    match udpmessage::decode(&reply.data) {
        Ok((TOKEN, Message::Peers(l))) => assert_eq!(l, vec![a_addr]),
        other => panic!("unexpected {:?}", other),
    }
    deliver(&mut a, &b_addr, &reply.data, 0).unwrap();
    assert_eq!(a.peer_list(), vec![b_addr]);
    assert_eq!(b.peer_list(), vec![a_addr]);
}

#[test]
fn learning_and_unicast() {
    let (a_addr, b_addr) = (addr(1), addr(2));
    let mut a = node(0);
    let mut b = node(0);
    introduce(&mut a, &a_addr, &mut b, &b_addr, 0);
    let aa = [0xaa; 6];
    let bb = [0xbb; 6];
    let flood = b.handle_device_frame(&frame_bytes(bb, aa, 0)).unwrap();
    assert_eq!(flood.targets, vec![a_addr]);
    let r = deliver(&mut a, &b_addr, &flood.data, 10);
    assert!(matches!(r, Ok(Reaction::Deliver(ref f)) if f.src == Mac(aa) && f.dst == Mac(bb) && f.vlan == 0));
    assert_eq!(a.lookup_mac(&Mac(aa), 0), Some(b_addr));
    let unicast = a.handle_device_frame(&frame_bytes(aa, bb, 0)).unwrap();
    assert_eq!(unicast.targets, vec![b_addr]);
    assert_eq!(a.lookup_mac(&Mac(bb), 0), None);
}

#[test]
fn wrong_token() {
    let (a_addr, c_addr) = (addr(1), addr(3));
    let mut a = node(0);
    let c = EthCloud::new(0, MAC_TIMEOUT, PEER_TIMEOUT, 0);
    let _ = a_addr;
    let f = EthernetFrame { dst: Mac([0xbb; 6]), src: Mac([0xcc; 6]), vlan: 0, payload: vec![0x08, 0x00] };
    let data = udpmessage::encode(0, &Message::Frame(f)).unwrap();
    let r = a.handle_datagram(&c_addr, &data, 0);
    assert!(matches!(r, Err(Error::WrongToken(0))));
    assert!(!a.knows_peer(&c_addr));
    assert_eq!(a.lookup_mac(&Mac([0xcc; 6]), 0), None);
    let get = c.connect(&a_addr).unwrap();
    assert!(matches!(a.handle_datagram(&c_addr, &get.data, 0), Err(Error::WrongToken(0))));
    assert!(a.peer_list().is_empty());
}

#[test]
fn peer_expiry() {
    let (a_addr, b_addr) = (addr(1), addr(2));
    let mut a = node(0);
    let mut b = node(0);
    introduce(&mut a, &a_addr, &mut b, &b_addr, 0);
    a.housekeep(599_999).unwrap();
    assert!(a.knows_peer(&b_addr));
    a.housekeep(600_001).unwrap();
    assert!(!a.knows_peer(&b_addr));
    let flood = a.handle_device_frame(&frame_bytes([0xbb; 6], [0xaa; 6], 0)).unwrap();
    assert!(flood.targets.is_empty());
}

#[test]
fn mac_relearn() {
    let (a_addr, b_addr, d_addr) = (addr(1), addr(2), addr(4));
    let mut a = node(0);
    let mut b = node(0);
    let mut d = node(0);
    introduce(&mut a, &a_addr, &mut b, &b_addr, 0);
    let aa = [0xaa; 6];
    let from_b = b.handle_device_frame(&frame_bytes([0xff; 6], aa, 10)).unwrap();
    deliver(&mut a, &b_addr, &from_b.data, 0).unwrap();
    assert_eq!(a.lookup_mac(&Mac(aa), 10), Some(b_addr));
    introduce(&mut a, &a_addr, &mut d, &d_addr, 100_000);
    let from_d = d.handle_device_frame(&frame_bytes([0xff; 6], aa, 10)).unwrap();
    assert!(from_d.targets.contains(&a_addr));
    deliver(&mut a, &d_addr, &from_d.data, 100_000).unwrap();
    assert_eq!(a.lookup_mac(&Mac(aa), 10), Some(d_addr));
    assert!(a.knows_peer(&b_addr));
}

#[test]
fn graceful_close() {
    let (a_addr, b_addr) = (addr(1), addr(2));
    let mut a = node(0);
    let mut b = node(0);
    introduce(&mut a, &a_addr, &mut b, &b_addr, 0);
    let close = udpmessage::encode(TOKEN, &Message::Close).unwrap();
    assert!(matches!(deliver(&mut a, &b_addr, &close, 5), Ok(Reaction::Nothing)));
    assert!(!a.knows_peer(&b_addr));
    let flood = a.handle_device_frame(&frame_bytes([0xbb; 6], [0xaa; 6], 0)).unwrap();
    assert!(!flood.targets.contains(&b_addr));
    let again = b.connect(&a_addr).unwrap();
    deliver(&mut a, &b_addr, &again.data, 6).unwrap();
    assert!(a.knows_peer(&b_addr));
}

#[test]
fn flood_reaches_every_peer_and_hit_reaches_one() {
    let mut a = node(0);
    let list = vec![addr(2), addr(3), addr(4)];
    for p in &list {
        let get = a.connect(&addr(1)).unwrap();
        deliver(&mut a, p, &get.data, 0).unwrap();
    }
    let dst = [0x02, 0, 0, 0, 0, 1];
    let flood = a.handle_device_frame(&frame_bytes(dst, [0xaa; 6], 0)).unwrap();
    assert_eq!(sorted(flood.targets.clone()), sorted(list.clone()));
    match udpmessage::decode(&flood.data) {
        Ok((TOKEN, Message::Frame(f))) => assert_eq!(f.dst, Mac(dst)),
        other => panic!("unexpected {:?}", other),
    }
    a.frame_written(&addr(3), &Mac(dst), 0, 1);
    let hit = a.handle_device_frame(&frame_bytes(dst, [0xaa; 6], 0)).unwrap();
    assert_eq!(hit.targets, vec![addr(3)]);
}

#[test]
fn zero_peers_broadcast_succeeds() {
    let a = node(0);
    let flood = a.handle_device_frame(&frame_bytes([0xff; 6], [0xaa; 6], 0)).unwrap();
    assert!(flood.targets.is_empty());
}

#[test]
fn device_garbage_is_a_parse_error() {
    let a = node(0);
    assert!(matches!(a.handle_device_frame(&[1, 2, 3]), Err(Error::ParseError(_))));
    let mut b = node(0);
    assert!(matches!(b.handle_datagram(&addr(2), &[1, 2], 0), Err(Error::ParseError(_))));
    assert!(b.peer_list().is_empty());
}

#[test]
fn empty_peers_message_learns_only_sender() {
    let mut a = node(0);
    let data = udpmessage::encode(TOKEN, &Message::Peers(Vec::new())).unwrap();
    let o = sent(a.handle_datagram(&addr(2), &data, 0));
    assert!(o.targets.is_empty());
    assert_eq!(a.peer_list(), vec![addr(2)]);
}

#[test]
fn peers_message_connects_only_to_unknown() {
    let mut a = node(0);
    let hello = a.connect(&addr(1)).unwrap();
    deliver(&mut a, &addr(3), &hello.data, 0).unwrap();
    let list = vec![addr(2), addr(3), addr(4), addr(5)];
    let data = udpmessage::encode(TOKEN, &Message::Peers(list)).unwrap();
    let o = sent(a.handle_datagram(&addr(2), &data, 0));
    assert_eq!(o.targets, vec![addr(4), addr(5)]);
    assert!(matches!(udpmessage::decode(&o.data), Ok((TOKEN, Message::GetPeers))));
}

#[test]
fn vlan_zero_and_4094_are_distinct() {
    let mut t = MacTable::new(MAC_TIMEOUT);
    let m = Mac([1, 2, 3, 4, 5, 6]);
    assert!(t.learn(&m, 0, &addr(2), 0));
    assert!(t.learn(&m, 4094, &addr(3), 0));
    assert_eq!(t.lookup(&m, 0), Some(addr(2)));
    assert_eq!(t.lookup(&m, 4094), Some(addr(3)));
    assert_eq!(t.lookup(&m, 1), None);
}

#[test]
fn learnt_mac_holds_until_timeout() {
    let mut t = MacTable::new(MAC_TIMEOUT);
    let m = Mac([0xaa; 6]);
    t.learn(&m, 10, &addr(2), 1_000);
    assert!(t.learn(&Mac([0xbb; 6]), 10, &addr(3), 2_000));
    t.timeout(300_999);
    assert_eq!(t.lookup(&m, 10), Some(addr(2)));
    t.timeout(301_001);
    assert_eq!(t.lookup(&m, 10), None);
    assert_eq!(t.lookup(&Mac([0xbb; 6]), 10), Some(addr(3)));
}

#[test]
fn relearning_is_not_new_and_replaces() {
    let mut t = MacTable::new(MAC_TIMEOUT);
    let m = Mac([0xaa; 6]);
    assert!(t.learn(&m, 1, &addr(2), 0));
    assert!(!t.learn(&m, 1, &addr(3), 10));
    assert_eq!(t.lookup(&m, 1), Some(addr(3)));
    t.timeout(300_005);
    assert_eq!(t.lookup(&m, 1), Some(addr(3)));
}

#[test]
fn added_peer_survives_until_deadline() {
    let mut p = PeerList::new(PEER_TIMEOUT);
    assert!(p.add(&addr(2), 1_000));
    p.timeout(300_000);
    p.timeout(600_999);
    assert!(p.contains(&addr(2)));
    p.timeout(601_001);
    assert!(!p.contains(&addr(2)));
}

#[test]
fn adding_twice_counts_from_the_later_time() {
    let mut p = PeerList::new(PEER_TIMEOUT);
    assert!(p.add(&addr(2), 0));
    assert!(!p.add(&addr(2), 100_000));
    assert_eq!(p.as_vec(), vec![addr(2)]);
    p.timeout(650_000);
    assert!(p.contains(&addr(2)));
    assert!(p.remove(&addr(2)));
    assert!(!p.remove(&addr(2)));
    assert!(p.as_vec().is_empty());
}

#[test]
fn gossip_at_most_once_per_half_peer_timeout() {
    let (a_addr, b_addr) = (addr(1), addr(2));
    let mut a = node(0);
    let mut b = node(0);
    introduce(&mut a, &a_addr, &mut b, &b_addr, 0);
    let g = a.housekeep(1_000).unwrap().expect("first run gossips");
    assert_eq!(g.targets, vec![b_addr]);
    match udpmessage::decode(&g.data) {
        Ok((TOKEN, Message::Peers(l))) => assert_eq!(l, vec![b_addr]),
        other => panic!("unexpected {:?}", other),
    }
    assert!(a.housekeep(2_000).unwrap().is_none());
    assert!(a.housekeep(300_999).unwrap().is_none());
    assert!(a.housekeep(301_000).unwrap().is_some());
}

#[test]
fn housekeeping_is_due_after_a_second() {
    let mut a = node(5_000);
    assert!(!a.housekeeping_due(5_999));
    assert!(a.housekeeping_due(6_000));
    a.housekeep(6_000).unwrap();
    assert!(!a.housekeeping_due(6_500));
    assert!(a.housekeeping_due(7_000));
}

#[test]
fn truncated_send_is_a_socket_error() {
    assert!(check_sent(10, 10).is_ok());
    assert!(matches!(check_sent(10, 9), Err(Error::SocketError(_))));
}

#[test]
fn clock_counts_from_its_start() {
    assert_eq!(Clock::to_ms(-5), 0);
    assert_eq!(Clock::to_ms(1_234), 1_234);
    let c = Clock::new();
    let first = c.elapsed_ms();
    assert!(first < 10_000);
    let mut later = c.elapsed_ms();
    let mut spins: u64 = 0;
    while later < first + 2 && spins < 50_000_000 {
        later = c.elapsed_ms();
        spins += 1;
    }
    assert!(later >= first + 2);
}
