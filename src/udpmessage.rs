//! The datagram framing: `token (8 bytes) || tag (1 byte) || body`, integers big-endian.
//! Tags: 0 Frame, 1 Peers, 2 GetPeers, 3 Close. A Peers body is a 2-byte count and
//! that many addresses, each `family (4 or 6) || address || port`.
use vstd::prelude::*;
use crate::types::{Error, IpAddr, PeerAddr, Token};
use crate::bytes::{
    be128, be16, be32, be64, lemma_be128, lemma_be16, lemma_be32, lemma_be64, push_u128,
    push_u16, push_u32, push_u64, read_u128, read_u16, read_u32, read_u64, val128, val16, val32,
    val64,
};
use crate::ethernet::{self, frame_bytes, frame_encodable, lemma_frame_round_trip, parse_frame, EthernetFrame, FrameView};

verus! {

/// The largest datagram that the scratch buffers hold.
pub const MAX_DATAGRAM: usize = 65536;

/// The longest peer list that always fits a datagram (19 bytes per address at most).
pub const MAX_LISTED_PEERS: usize = 3448;

#[derive(Clone, Debug)]
pub enum Message {
    Frame(EthernetFrame),
    Peers(Vec<PeerAddr>),
    GetPeers,
    Close,
}

pub enum MessageView {
    Frame(FrameView),
    Peers(Seq<PeerAddr>),
    GetPeers,
    Close,
}

impl View for Message {
    type V = MessageView;

    open spec fn view(&self) -> MessageView {
        match self {
            Message::Frame(f) => MessageView::Frame(f@),
            Message::Peers(l) => MessageView::Peers(l@),
            Message::GetPeers => MessageView::GetPeers,
            Message::Close => MessageView::Close,
        }
    }
}

pub open spec fn addr_bytes(a: PeerAddr) -> Seq<u8> {
    match a.ip {
        IpAddr::V4(x) => seq![4u8] + be32(x) + be16(a.port),
        IpAddr::V6(x) => seq![6u8] + be128(x) + be16(a.port),
    }
}

pub open spec fn addrs_bytes(l: Seq<PeerAddr>) -> Seq<u8>
    decreases l.len(),
{
    if l.len() == 0 {
        Seq::empty()
    } else {
        addr_bytes(l[0]) + addrs_bytes(l.subrange(1, l.len() as int))
    }
}

pub open spec fn body_bytes(m: MessageView) -> Seq<u8> {
    match m {
        MessageView::Frame(f) => seq![0u8] + frame_bytes(f),
        MessageView::Peers(l) => seq![1u8] + be16(l.len() as u16) + addrs_bytes(l),
        MessageView::GetPeers => seq![2u8],
        MessageView::Close => seq![3u8],
    }
}

/// The datagram that carries `m` under `token`.
pub open spec fn message_bytes(token: u64, m: MessageView) -> Seq<u8> {
    be64(token) + body_bytes(m)
}

/// Whether `m` can be sent: a count that fits its field, and a datagram that fits
/// the buffers.
pub open spec fn encodable(m: MessageView) -> bool {
    &&& (m matches MessageView::Peers(l) ==> l.len() <= 0xffff)
    &&& message_bytes(0, m).len() <= MAX_DATAGRAM
}

/// One address at the front of `s`, with the number of bytes it takes.
pub open spec fn parse_addr(s: Seq<u8>) -> Option<(PeerAddr, int)> {
    if s.len() >= 7 && s[0] == 4 {
        Some((PeerAddr { ip: IpAddr::V4(val32(s.subrange(1, 5))), port: val16(s.subrange(5, 7)) }, 7))
    } else if s.len() >= 19 && s[0] == 6 {
        Some((PeerAddr { ip: IpAddr::V6(val128(s.subrange(1, 17))), port: val16(s.subrange(17, 19)) }, 19))
    } else {
        None
    }
}

/// `n` addresses at the front of `s`, with what follows them.
pub open spec fn parse_addrs(s: Seq<u8>, n: nat) -> Option<(Seq<PeerAddr>, Seq<u8>)>
    decreases n,
{
    if n == 0 {
        Some((Seq::empty(), s))
    } else {
        match parse_addr(s) {
            None => None,
            Some((a, k)) => match parse_addrs(s.subrange(k, s.len() as int), (n - 1) as nat) {
                None => None,
                Some((l, r)) => Some((seq![a] + l, r)),
            },
        }
    }
}

/// What a datagram decodes to; bytes after a complete message are ignored.
pub open spec fn parse_message(b: Seq<u8>) -> Option<(u64, MessageView)> {
    if b.len() < 9 {
        None
    } else {
        let token = val64(b.subrange(0, 8));
        let rest = b.subrange(9, b.len() as int);
        if b[8] == 0 {
            match parse_frame(rest) {
                Some(f) => Some((token, MessageView::Frame(f))),
                None => None,
            }
        } else if b[8] == 1 {
            if rest.len() < 2 {
                None
            } else {
                match parse_addrs(rest.subrange(2, rest.len() as int), val16(rest.subrange(0, 2)) as nat) {
                    Some((l, _)) => Some((token, MessageView::Peers(l))),
                    None => None,
                }
            }
        } else if b[8] == 2 {
            Some((token, MessageView::GetPeers))
        } else if b[8] == 3 {
            Some((token, MessageView::Close))
        } else {
            None
        }
    }
}

spec fn prepend(got: Seq<PeerAddr>, o: Option<(Seq<PeerAddr>, Seq<u8>)>) -> Option<(Seq<PeerAddr>, Seq<u8>)> {
    match o {
        None => None,
        Some((l, r)) => Some((got + l, r)),
    }
}

fn push_addr(out: &mut Vec<u8>, a: &PeerAddr)
    ensures
        final(out)@ == old(out)@ + addr_bytes(*a),
{
    match a.ip {
        IpAddr::V4(x) => {
            out.push(4);
            push_u32(out, x);
        },
        IpAddr::V6(x) => {
            out.push(6);
            push_u128(out, x);
        },
    }
    push_u16(out, a.port);
    assert(final(out)@ =~= old(out)@ + addr_bytes(*a));
}

fn read_addr(d: &[u8], pos: usize) -> (r: Result<(PeerAddr, usize), Error>)
    requires
        pos <= d@.len() <= usize::MAX,
    ensures
        match r {
            Ok((a, next)) => parse_addr(d@.subrange(pos as int, d@.len() as int)) == Some((a, next - pos))
                && pos < next <= d@.len(),
            Err(e) => parse_addr(d@.subrange(pos as int, d@.len() as int)) is None && e is ParseError,
        },
{
    let ghost s = d@.subrange(pos as int, d@.len() as int);
    let n = d.len();
    if n - pos >= 7 && d[pos] == 4 {
        let ip = read_u32(d, pos + 1);
        let port = read_u16(d, pos + 5);
        assert(s.subrange(1, 5) =~= d@.subrange(pos + 1, pos + 5));
        assert(s.subrange(5, 7) =~= d@.subrange(pos + 5, pos + 7));
        Ok((PeerAddr { ip: IpAddr::V4(ip), port }, pos + 7))
    } else if n - pos >= 19 && d[pos] == 6 {
        let ip = read_u128(d, pos + 1);
        let port = read_u16(d, pos + 17);
        assert(s.subrange(1, 17) =~= d@.subrange(pos + 1, pos + 17));
        assert(s.subrange(17, 19) =~= d@.subrange(pos + 17, pos + 19));
        Ok((PeerAddr { ip: IpAddr::V6(ip), port }, pos + 19))
    } else {
        Err(Error::ParseError("Invalid address family"))
    }
}

/// Encodes `msg` under `token`; fails when the message does not fit a datagram.
pub fn encode(token: Token, msg: &Message) -> (r: Result<Vec<u8>, Error>)
    ensures
        match r {
            Ok(v) => encodable(msg@) && v@ == message_bytes(token, msg@),
            Err(e) => !encodable(msg@) && e is SocketError,
        },
{
    let mut out: Vec<u8> = Vec::new();
    push_u64(&mut out, token);
    let ghost head = out@;
    proof {
        lemma_be64(token);
        lemma_be64(0);
    }
    match msg {
        Message::Frame(f) => {
            out.push(0);
            ethernet::encode(f, &mut out);
        },
        Message::Peers(l) => {
            if l.len() > 0xffff {
                return Err(Error::SocketError("Too many peers for one message"));
            }
            out.push(1);
            push_u16(&mut out, l.len() as u16);
            let ghost mid = out@;
            let mut i: usize = 0;
            assert(l@.subrange(0, l@.len() as int) =~= l@);
            while i < l.len()
                invariant
                    i <= l@.len(),
                    out@ + addrs_bytes(l@.subrange(i as int, l@.len() as int)) == mid + addrs_bytes(l@),
                decreases l@.len() - i,
            {
                let ghost rest = l@.subrange(i as int, l@.len() as int);
                assert(rest.subrange(1, rest.len() as int) =~= l@.subrange(i + 1, l@.len() as int));
                assert(rest[0] == l@[i as int]);
                push_addr(&mut out, &l[i]);
                i = i + 1;
                assert(out@ + addrs_bytes(l@.subrange(i as int, l@.len() as int)) =~= mid + addrs_bytes(l@));
            }
            assert(addrs_bytes(l@.subrange(i as int, l@.len() as int)) =~= Seq::<u8>::empty());
            assert(out@ =~= out@ + Seq::<u8>::empty());
        },
        Message::GetPeers => {
            out.push(2);
        },
        Message::Close => {
            out.push(3);
        },
    }
    assert(out@ =~= message_bytes(token, msg@));
    assert(message_bytes(0, msg@).len() == message_bytes(token, msg@).len());
    if out.len() > MAX_DATAGRAM {
        return Err(Error::SocketError("Message too large for the buffer"));
    }
    Ok(out)
}

/// Decodes a datagram into its token and message.
pub fn decode(data: &[u8]) -> (r: Result<(Token, Message), Error>)
    ensures
        match r {
            Ok((t, m)) => parse_message(data@) == Some((t, m@)),
            Err(e) => parse_message(data@) is None && e is ParseError,
        },
{
    let n = data.len();
    if n < 9 {
        return Err(Error::ParseError("Message is too short"));
    }
    let token = read_u64(data, 0);
    let ghost rest = data@.subrange(9, n as int);
    let tag = data[8];
    if tag == 0 {
        let rest_bytes = ethernet::copy_from(data, 9);
        match ethernet::decode(rest_bytes.as_slice()) {
            Ok(f) => Ok((token, Message::Frame(f))),
            Err(e) => Err(e),
        }
    } else if tag == 1 {
        if n < 11 {
            return Err(Error::ParseError("Peer list is too short"));
        }
        let count = read_u16(data, 9);
        assert(rest.subrange(0, 2) =~= data@.subrange(9, 11));
        let ghost whole = rest.subrange(2, rest.len() as int);
        assert(whole =~= data@.subrange(11, n as int));
        let mut peers: Vec<PeerAddr> = Vec::new();
        let mut pos: usize = 11;
        let mut i: u16 = 0;
        assert(peers@ + Seq::<PeerAddr>::empty() =~= peers@);
        while i < count
            invariant
                n == data@.len(),
                n >= 11,
                rest == data@.subrange(9, n as int),
                whole == rest.subrange(2, rest.len() as int),
                count == val16(rest.subrange(0, 2)),
                token == val64(data@.subrange(0, 8)),
                data@[8] == 1,
                11 <= pos <= n,
                i <= count,
                parse_addrs(whole, count as nat) == prepend(peers@, parse_addrs(data@.subrange(pos as int, n as int), (count - i) as nat)),
            decreases count - i,
        {
            let ghost s = data@.subrange(pos as int, n as int);
            match read_addr(data, pos) {
                Ok((a, next)) => {
                    assert(s.subrange(next - pos, s.len() as int) =~= data@.subrange(next as int, n as int));
                    let ghost tail = parse_addrs(data@.subrange(next as int, n as int), (count - i - 1) as nat);
                    assert(prepend(peers@, prepend(seq![a], tail)) == prepend(peers@.push(a), tail)) by {
                        match tail {
                            Some((l, r)) => {
                                assert(peers@ + (seq![a] + l) =~= peers@.push(a) + l);
                            },
                            None => {},
                        }
                    }
                    peers.push(a);
                    pos = next;
                    i = i + 1;
                },
                Err(e) => {
                    assert(parse_addrs(s, (count - i) as nat) is None);
                    return Err(e);
                },
            }
        }
        Ok((token, Message::Peers(peers)))
    } else if tag == 2 {
        Ok((token, Message::GetPeers))
    } else if tag == 3 {
        Ok((token, Message::Close))
    } else {
        Err(Error::ParseError("Unknown message type"))
    }
}

/// The messages that survive encoding and decoding unchanged.
pub open spec fn message_encodable(m: MessageView) -> bool {
    match m {
        MessageView::Frame(f) => frame_encodable(f),
        MessageView::Peers(l) => l.len() <= 0xffff,
        _ => true,
    }
}

proof fn lemma_addr_round_trip(a: PeerAddr, u: Seq<u8>)
    ensures
        parse_addr(addr_bytes(a) + u) == Some((a, addr_bytes(a).len() as int)),
{
    let s = addr_bytes(a) + u;
    lemma_be16(a.port);
    match a.ip {
        IpAddr::V4(x) => {
            lemma_be32(x);
            assert(s.subrange(1, 5) =~= be32(x));
            assert(s.subrange(5, 7) =~= be16(a.port));
        },
        IpAddr::V6(x) => {
            lemma_be128(x);
            assert(s.subrange(1, 17) =~= be128(x));
            assert(s.subrange(17, 19) =~= be16(a.port));
        },
    }
}

proof fn lemma_addrs_round_trip(l: Seq<PeerAddr>, u: Seq<u8>)
    ensures
        parse_addrs(addrs_bytes(l) + u, l.len()) == Some((l, u)),
    decreases l.len(),
{
    if l.len() > 0 {
        let tl = l.subrange(1, l.len() as int);
        let s = addrs_bytes(l) + u;
        let k = addr_bytes(l[0]).len() as int;
        assert(s =~= addr_bytes(l[0]) + (addrs_bytes(tl) + u));
        lemma_addr_round_trip(l[0], addrs_bytes(tl) + u);
        assert(s.subrange(k, s.len() as int) =~= addrs_bytes(tl) + u);
        lemma_addrs_round_trip(tl, u);
        assert(seq![l[0]] + tl =~= l);
    } else {
        assert(addrs_bytes(l) + u =~= u);
        assert(l =~= Seq::<PeerAddr>::empty());
    }
}

/// Decoding the datagram of a message gives the token and the message back, for
/// every frame that survives its own encoding and every peer list whose count fits
/// its field.
pub proof fn lemma_message_round_trip(token: u64, m: MessageView)
    requires
        message_encodable(m),
    ensures
        parse_message(message_bytes(token, m)) == Some((token, m)),
{
    let b = message_bytes(token, m);
    lemma_be64(token);
    assert(b.subrange(0, 8) =~= be64(token));
    let rest = b.subrange(9, b.len() as int);
    match m {
        MessageView::Frame(f) => {
            assert(rest =~= frame_bytes(f));
            lemma_frame_round_trip(f);
        },
        MessageView::Peers(l) => {
            lemma_be16(l.len() as u16);
            assert(rest.subrange(0, 2) =~= be16(l.len() as u16));
            assert(rest.subrange(2, rest.len() as int) =~= addrs_bytes(l) + Seq::<u8>::empty());
            lemma_addrs_round_trip(l, Seq::<u8>::empty());
        },
        _ => {},
    }
}

proof fn lemma_addrs_len(l: Seq<PeerAddr>)
    ensures
        addrs_bytes(l).len() <= 19 * l.len(),
    decreases l.len(),
{
    if l.len() > 0 {
        lemma_addrs_len(l.subrange(1, l.len() as int));
        lemma_be16(l[0].port);
        match l[0].ip {
            IpAddr::V4(x) => lemma_be32(x),
            IpAddr::V6(x) => lemma_be128(x),
        }
    }
}

/// Every list of at most `MAX_LISTED_PEERS` addresses can be sent.
pub proof fn lemma_peers_encodable(l: Seq<PeerAddr>)
    requires
        l.len() <= MAX_LISTED_PEERS,
    ensures
        encodable(MessageView::Peers(l)),
{
    lemma_addrs_len(l);
    lemma_be64(0);
    lemma_be16(l.len() as u16);
}

} // verus!
