//! Ethernet frames: destination, source, optional 802.1Q VLAN tag, then the rest.
use vstd::prelude::*;
use crate::types::{Error, Mac};
use crate::bytes::{be16, lemma_be16, push_u16, read_u16, val16};

verus! {

/// A decoded Ethernet frame. `payload` starts at the EtherType; `vlan` is 0 when
/// the frame carries no VLAN tag.
#[derive(Clone, Debug)]
pub struct EthernetFrame {
    pub dst: Mac,
    pub src: Mac,
    pub vlan: u16,
    pub payload: Vec<u8>,
}

/// (destination, source, VLAN id, payload) of a frame, as values.
pub type FrameView = (Seq<u8>, Seq<u8>, u16, Seq<u8>);

impl View for EthernetFrame {
    type V = FrameView;

    open spec fn view(&self) -> FrameView {
        (self.dst.0@, self.src.0@, self.vlan, self.payload@)
    }
}

/// The bytes of a frame: a tag `81 00` and the VLAN id are written only for a
/// non-zero VLAN.
pub open spec fn frame_bytes(f: FrameView) -> Seq<u8> {
    f.0 + f.1 + (if f.2 != 0 {
        seq![0x81u8, 0x00u8] + be16(f.2)
    } else {
        Seq::<u8>::empty()
    }) + f.3
}

/// Whether `b` carries an 802.1Q tag where the EtherType stands.
pub open spec fn tagged(b: Seq<u8>) -> bool {
    b[12] == 0x81 && b[13] == 0x00
}

/// What a byte string decodes to: at least 14 bytes, 18 when tagged; the VLAN id is
/// the low 12 bits of the tag's control field.
pub open spec fn parse_frame(b: Seq<u8>) -> Option<FrameView> {
    if b.len() < 14 {
        None
    } else if tagged(b) {
        if b.len() < 18 {
            None
        } else {
            Some((b.subrange(0, 6), b.subrange(6, 12), (val16(b.subrange(14, 16)) % 4096) as u16, b.subrange(16, b.len() as int)))
        }
    } else {
        Some((b.subrange(0, 6), b.subrange(6, 12), 0u16, b.subrange(12, b.len() as int)))
    }
}

/// The frames that survive encoding and decoding unchanged.
pub open spec fn frame_encodable(f: FrameView) -> bool {
    &&& f.0.len() == 6
    &&& f.1.len() == 6
    &&& f.2 < 4096
    &&& f.3.len() >= 2
    &&& (f.2 == 0 ==> !(f.3[0] == 0x81 && f.3[1] == 0x00))
}

fn read_mac(d: &[u8], pos: usize) -> (r: Mac)
    requires
        pos + 6 <= d@.len(),
    ensures
        r.0@ == d@.subrange(pos as int, pos + 6),
{
    let r = Mac([d[pos], d[pos + 1], d[pos + 2], d[pos + 3], d[pos + 4], d[pos + 5]]);
    assert(r.0@ =~= d@.subrange(pos as int, pos + 6));
    r
}

/// The bytes of `d` from `pos` on.
pub fn copy_from(d: &[u8], pos: usize) -> (r: Vec<u8>)
    requires
        pos <= d@.len(),
    ensures
        r@ == d@.subrange(pos as int, d@.len() as int),
{
    let mut r: Vec<u8> = Vec::new();
    let mut i: usize = pos;
    while i < d.len()
        invariant
            pos <= i <= d@.len(),
            r@ == d@.subrange(pos as int, i as int),
        decreases d@.len() - i,
    {
        r.push(d[i]);
        i = i + 1;
        assert(r@ =~= d@.subrange(pos as int, i as int));
    }
    r
}

/// Decodes one Ethernet frame.
pub fn decode(data: &[u8]) -> (r: Result<EthernetFrame, Error>)
    ensures
        match r {
            Ok(f) => parse_frame(data@) == Some(f@),
            Err(e) => parse_frame(data@) is None && e is ParseError,
        },
{
    let n = data.len();
    if n < 14 {
        return Err(Error::ParseError("Frame is too short"));
    }
    let dst = read_mac(data, 0);
    let src = read_mac(data, 6);
    if data[12] == 0x81 && data[13] == 0x00 {
        if n < 18 {
            return Err(Error::ParseError("Vlan frame is too short"));
        }
        let vlan = read_u16(data, 14) % 4096;
        let payload = copy_from(data, 16);
        Ok(EthernetFrame { dst, src, vlan, payload })
    } else {
        let payload = copy_from(data, 12);
        Ok(EthernetFrame { dst, src, vlan: 0, payload })
    }
}

fn push_mac(out: &mut Vec<u8>, m: &Mac)
    ensures
        final(out)@ == old(out)@ + m.0@,
{
    let mut i: usize = 0;
    while i < 6
        invariant
            0 <= i <= 6,
            out@ == old(out)@ + m.0@.subrange(0, i as int),
        decreases 6 - i,
    {
        out.push(m.0[i]);
        i = i + 1;
        assert(out@ =~= old(out)@ + m.0@.subrange(0, i as int));
    }
    assert(m.0@.subrange(0, 6) =~= m.0@);
}

/// Appends the bytes of `frame` to `out`.
pub fn encode(frame: &EthernetFrame, out: &mut Vec<u8>)
    ensures
        final(out)@ == old(out)@ + frame_bytes(frame@),
{
    push_mac(out, &frame.dst);
    push_mac(out, &frame.src);
    let ghost mid = out@;
    if frame.vlan != 0 {
        out.push(0x81);
        out.push(0x00);
        push_u16(out, frame.vlan);
        assert(out@ =~= mid + (seq![0x81u8, 0x00u8] + be16(frame.vlan)));
    } else {
        assert(out@ =~= mid + Seq::<u8>::empty());
    }
    let ghost mid2 = out@;
    let mut i: usize = 0;
    while i < frame.payload.len()
        invariant
            i <= frame.payload@.len(),
            out@ == mid2 + frame.payload@.subrange(0, i as int),
        decreases frame.payload@.len() - i,
    {
        out.push(frame.payload[i]);
        i = i + 1;
        assert(out@ =~= mid2 + frame.payload@.subrange(0, i as int));
    }
    assert(frame.payload@.subrange(0, i as int) =~= frame.payload@);
    assert(out@ =~= old(out)@ + frame_bytes(frame@));
}

/// Decoding the bytes of a frame gives the frame back, for every frame whose VLAN
/// id fits in 12 bits, whose payload holds at least an EtherType, and which, when
/// untagged, does not begin its payload with the tag marker.
pub proof fn lemma_frame_round_trip(f: FrameView)
    requires
        frame_encodable(f),
    ensures
        parse_frame(frame_bytes(f)) == Some(f),
{
    let b = frame_bytes(f);
    assert(b.subrange(0, 6) =~= f.0);
    assert(b.subrange(6, 12) =~= f.1);
    if f.2 != 0 {
        lemma_be16(f.2);
        assert(b.subrange(14, 16) =~= be16(f.2));
        assert(b.subrange(16, b.len() as int) =~= f.3);
        assert(tagged(b));
    } else {
        assert(b.subrange(12, b.len() as int) =~= f.3);
        assert(b[12] == f.3[0] && b[13] == f.3[1]);
    }
}

} // verus!
