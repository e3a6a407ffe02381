use ethcloud::bytes;
use ethcloud::ethernet;
use ethcloud::udpmessage::{self, MAX_DATAGRAM};
use ethcloud::{Error, EthernetFrame, IpAddr, Mac, Message, PeerAddr};

const TOKEN: u64 = 0x0000_0000_DEAD_BEEF;

fn v4(a: u32, port: u16) -> PeerAddr {
    PeerAddr { ip: IpAddr::V4(a), port }
}

fn frame(dst: [u8; 6], src: [u8; 6], vlan: u16, payload: Vec<u8>) -> EthernetFrame {
    EthernetFrame { dst: Mac(dst), src: Mac(src), vlan, payload }
}

fn same_frame(a: &EthernetFrame, b: &EthernetFrame) -> bool {
    a.dst == b.dst && a.src == b.src && a.vlan == b.vlan && a.payload == b.payload
}

#[test]
fn integers_are_big_endian() {
    let mut out = Vec::new();
    bytes::push_u16(&mut out, 0x1234);
    bytes::push_u32(&mut out, 0xA1B2C3D4);
    bytes::push_u64(&mut out, 0x0102030405060708);
    assert_eq!(out, vec![0x12, 0x34, 0xA1, 0xB2, 0xC3, 0xD4, 1, 2, 3, 4, 5, 6, 7, 8]);
    assert_eq!(bytes::read_u16(&out, 0), 0x1234);
    assert_eq!(bytes::read_u32(&out, 2), 0xA1B2C3D4);
    assert_eq!(bytes::read_u64(&out, 6), 0x0102030405060708);
    let mut wide = Vec::new();
    bytes::push_u128(&mut wide, 0x000102030405060708090a0b0c0d0e0f);
    assert_eq!(wide, (0u8..16).collect::<Vec<u8>>());
    assert_eq!(bytes::read_u128(&wide, 0), 0x000102030405060708090a0b0c0d0e0f);
}

#[test]
fn get_peers_and_close_exact_bytes() {
    let g = udpmessage::encode(TOKEN, &Message::GetPeers).unwrap();
    assert_eq!(g, vec![0, 0, 0, 0, 0xDE, 0xAD, 0xBE, 0xEF, 2]);
    let c = udpmessage::encode(TOKEN, &Message::Close).unwrap();
    assert_eq!(c, vec![0, 0, 0, 0, 0xDE, 0xAD, 0xBE, 0xEF, 3]);
}

#[test]
fn peers_exact_bytes_and_round_trip() {
    let list = vec![
        v4(0x0A000001, 3210),
        PeerAddr { ip: IpAddr::V6(1), port: 80 },
    ];
    let bytes = udpmessage::encode(TOKEN, &Message::Peers(list.clone())).unwrap();
    let mut expected = vec![0, 0, 0, 0, 0xDE, 0xAD, 0xBE, 0xEF, 1, 0, 2];
    expected.extend_from_slice(&[4, 10, 0, 0, 1, 0x0C, 0x8A]);
    expected.push(6);
    expected.extend_from_slice(&[0; 15]);
    expected.extend_from_slice(&[1, 0, 80]);
    assert_eq!(bytes, expected);
    match udpmessage::decode(&bytes).unwrap() {
        (t, Message::Peers(l)) => {
            assert_eq!(t, TOKEN);
            assert_eq!(l, list);
        }
        other => panic!("unexpected {:?}", other),
    }
}

#[test]
fn empty_peer_list_round_trips() {
    let bytes = udpmessage::encode(7, &Message::Peers(Vec::new())).unwrap();
    assert_eq!(bytes, vec![0, 0, 0, 0, 0, 0, 0, 7, 1, 0, 0]);
    assert!(matches!(udpmessage::decode(&bytes), Ok((7, Message::Peers(l))) if l.is_empty()));
}

#[test]
fn frame_message_round_trips() {
    let f = frame([0xbb; 6], [0xaa; 6], 10, vec![0x08, 0x00, 1, 2, 3]);
    let bytes = udpmessage::encode(TOKEN, &Message::Frame(f.clone())).unwrap();
    assert_eq!(bytes[8], 0);
    assert_eq!(&bytes[9..15], &[0xbb; 6]);
    assert_eq!(&bytes[21..25], &[0x81, 0x00, 0x00, 0x0a]);
    match udpmessage::decode(&bytes).unwrap() {
        (t, Message::Frame(g)) => {
            assert_eq!(t, TOKEN);
            assert!(same_frame(&f, &g));
        }
        other => panic!("unexpected {:?}", other),
    }
}

#[test]
fn decode_errors() {
    assert!(matches!(udpmessage::decode(&[0, 0, 0]), Err(Error::ParseError(_))));
    assert!(matches!(udpmessage::decode(&[0, 0, 0, 0, 0, 0, 0, 1, 9]), Err(Error::ParseError(_))));
    // a peer list with an address of family 5
    assert!(matches!(
        udpmessage::decode(&[0, 0, 0, 0, 0, 0, 0, 1, 1, 0, 1, 5, 1, 2, 3, 4, 0, 1]),
        Err(Error::ParseError(_))
    ));
    // a peer list that announces two addresses and holds one
    assert!(matches!(
        udpmessage::decode(&[0, 0, 0, 0, 0, 0, 0, 1, 1, 0, 2, 4, 1, 2, 3, 4, 0, 1]),
        Err(Error::ParseError(_))
    ));
    // a truncated IPv4 address
    assert!(matches!(
        udpmessage::decode(&[0, 0, 0, 0, 0, 0, 0, 1, 1, 0, 1, 4, 1, 2, 3]),
        Err(Error::ParseError(_))
    ));
    // a frame message with a frame too short
    assert!(matches!(udpmessage::decode(&[0, 0, 0, 0, 0, 0, 0, 1, 0, 1, 2]), Err(Error::ParseError(_))));
}

#[test]
fn ethernet_untagged_round_trip() {
    let f = frame([1, 2, 3, 4, 5, 6], [7, 8, 9, 10, 11, 12], 0, vec![0x08, 0x00, 0xff]);
    let mut out = Vec::new();
    ethernet::encode(&f, &mut out);
    assert_eq!(out, vec![1, 2, 3, 4, 5, 6, 7, 8, 9, 10, 11, 12, 0x08, 0x00, 0xff]);
    let g = ethernet::decode(&out).unwrap();
    assert!(same_frame(&f, &g));
}

#[test]
fn ethernet_vlan_id_is_low_twelve_bits() {
    let data = [1, 2, 3, 4, 5, 6, 7, 8, 9, 10, 11, 12, 0x81, 0x00, 0xEF, 0xFE, 0x08, 0x00];
    let f = ethernet::decode(&data).unwrap();
    assert_eq!(f.vlan, 4094);
    assert_eq!(f.payload, vec![0x08, 0x00]);
    assert!(matches!(ethernet::decode(&data[..16]), Err(Error::ParseError(_))));
    assert!(matches!(ethernet::decode(&data[..13]), Err(Error::ParseError(_))));
}

#[test]
fn largest_frame_round_trips_and_larger_fails() {
    let payload_len = MAX_DATAGRAM - 9 - 12;
    let f = frame([0xbb; 6], [0xaa; 6], 0, vec![0x08; payload_len]);
    let bytes = udpmessage::encode(TOKEN, &Message::Frame(f.clone())).unwrap();
    assert_eq!(bytes.len(), MAX_DATAGRAM);
    match udpmessage::decode(&bytes).unwrap() {
        (_, Message::Frame(g)) => assert!(same_frame(&f, &g)),
        other => panic!("unexpected {:?}", other),
    }
    let big = frame([0xbb; 6], [0xaa; 6], 0, vec![0x08; payload_len + 1]);
    assert!(matches!(udpmessage::encode(TOKEN, &Message::Frame(big)), Err(Error::SocketError(_))));
}
