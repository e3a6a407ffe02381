//! Big-endian integers on the wire.
use vstd::prelude::*;

verus! {

pub open spec fn be16(x: u16) -> Seq<u8> {
    seq![(x / 256) as u8, (x % 256) as u8]
}

pub open spec fn be32(x: u32) -> Seq<u8> {
    be16((x / 0x1_0000) as u16) + be16((x % 0x1_0000) as u16)
}

pub open spec fn be64(x: u64) -> Seq<u8> {
    be32((x / 0x1_0000_0000) as u32) + be32((x % 0x1_0000_0000) as u32)
}

pub open spec fn be128(x: u128) -> Seq<u8> {
    be64((x / 0x1_0000_0000_0000_0000) as u64) + be64((x % 0x1_0000_0000_0000_0000) as u64)
}

/// The integer that the first two bytes of `s` spell.
pub open spec fn val16(s: Seq<u8>) -> u16 {
    (s[0] as int * 256 + s[1] as int) as u16
}

pub open spec fn val32(s: Seq<u8>) -> u32 {
    (val16(s.subrange(0, 2)) as int * 0x1_0000 + val16(s.subrange(2, 4)) as int) as u32
}

pub open spec fn val64(s: Seq<u8>) -> u64 {
    (val32(s.subrange(0, 4)) as int * 0x1_0000_0000 + val32(s.subrange(4, 8)) as int) as u64
}

pub open spec fn val128(s: Seq<u8>) -> u128 {
    (val64(s.subrange(0, 8)) as int * 0x1_0000_0000_0000_0000 + val64(s.subrange(8, 16)) as int) as u128
}

pub proof fn lemma_be16(x: u16)
    ensures
        be16(x).len() == 2,
        val16(be16(x)) == x,
{
}

pub proof fn lemma_be32(x: u32)
    ensures
        be32(x).len() == 4,
        val32(be32(x)) == x,
{
    let s = be32(x);
    lemma_be16((x / 0x1_0000) as u16);
    lemma_be16((x % 0x1_0000) as u16);
    assert(s.subrange(0, 2) =~= be16((x / 0x1_0000) as u16));
    assert(s.subrange(2, 4) =~= be16((x % 0x1_0000) as u16));
}

pub proof fn lemma_be64(x: u64)
    ensures
        be64(x).len() == 8,
        val64(be64(x)) == x,
{
    let s = be64(x);
    lemma_be32((x / 0x1_0000_0000) as u32);
    lemma_be32((x % 0x1_0000_0000) as u32);
    assert(s.subrange(0, 4) =~= be32((x / 0x1_0000_0000) as u32));
    assert(s.subrange(4, 8) =~= be32((x % 0x1_0000_0000) as u32));
}

pub proof fn lemma_be128(x: u128)
    ensures
        be128(x).len() == 16,
        val128(be128(x)) == x,
{
    let s = be128(x);
    lemma_be64((x / 0x1_0000_0000_0000_0000) as u64);
    lemma_be64((x % 0x1_0000_0000_0000_0000) as u64);
    assert(s.subrange(0, 8) =~= be64((x / 0x1_0000_0000_0000_0000) as u64));
    assert(s.subrange(8, 16) =~= be64((x % 0x1_0000_0000_0000_0000) as u64));
}

pub fn push_u16(out: &mut Vec<u8>, x: u16)
    ensures
        final(out)@ == old(out)@ + be16(x),
{
    out.push((x / 256) as u8);
    out.push((x % 256) as u8);
    assert(final(out)@ =~= old(out)@ + be16(x));
}

pub fn push_u32(out: &mut Vec<u8>, x: u32)
    ensures
        final(out)@ == old(out)@ + be32(x),
{
    push_u16(out, (x / 0x1_0000) as u16);
    push_u16(out, (x % 0x1_0000) as u16);
    assert(final(out)@ =~= old(out)@ + be32(x));
}

pub fn push_u64(out: &mut Vec<u8>, x: u64)
    ensures
        final(out)@ == old(out)@ + be64(x),
{
    push_u32(out, (x / 0x1_0000_0000) as u32);
    push_u32(out, (x % 0x1_0000_0000) as u32);
    assert(final(out)@ =~= old(out)@ + be64(x));
}

pub fn push_u128(out: &mut Vec<u8>, x: u128)
    ensures
        final(out)@ == old(out)@ + be128(x),
{
    push_u64(out, (x / 0x1_0000_0000_0000_0000) as u64);
    push_u64(out, (x % 0x1_0000_0000_0000_0000) as u64);
    assert(final(out)@ =~= old(out)@ + be128(x));
}

pub fn read_u16(d: &[u8], pos: usize) -> (r: u16)
    requires
        pos + 2 <= d@.len(),
        d@.len() <= usize::MAX,
    ensures
        r == val16(d@.subrange(pos as int, pos + 2)),
{
    (d[pos] as u16) * 256 + d[pos + 1] as u16
}

pub fn read_u32(d: &[u8], pos: usize) -> (r: u32)
    requires
        pos + 4 <= d@.len(),
        d@.len() <= usize::MAX,
    ensures
        r == val32(d@.subrange(pos as int, pos + 4)),
{
    let hi = read_u16(d, pos);
    let lo = read_u16(d, pos + 2);
    let ghost s = d@.subrange(pos as int, pos + 4);
    assert(s.subrange(0, 2) =~= d@.subrange(pos as int, pos + 2));
    assert(s.subrange(2, 4) =~= d@.subrange(pos + 2, pos + 4));
    (hi as u32) * 0x1_0000 + lo as u32
}

pub fn read_u64(d: &[u8], pos: usize) -> (r: u64)
    requires
        pos + 8 <= d@.len(),
        d@.len() <= usize::MAX,
    ensures
        r == val64(d@.subrange(pos as int, pos + 8)),
{
    let hi = read_u32(d, pos);
    let lo = read_u32(d, pos + 4);
    let ghost s = d@.subrange(pos as int, pos + 8);
    assert(s.subrange(0, 4) =~= d@.subrange(pos as int, pos + 4));
    assert(s.subrange(4, 8) =~= d@.subrange(pos + 4, pos + 8));
    (hi as u64) * 0x1_0000_0000 + lo as u64
}

pub fn read_u128(d: &[u8], pos: usize) -> (r: u128)
    requires
        pos + 16 <= d@.len(),
        d@.len() <= usize::MAX,
    ensures
        r == val128(d@.subrange(pos as int, pos + 16)),
{
    let hi = read_u64(d, pos);
    let lo = read_u64(d, pos + 8);
    let ghost s = d@.subrange(pos as int, pos + 16);
    assert(s.subrange(0, 8) =~= d@.subrange(pos as int, pos + 8));
    assert(s.subrange(8, 16) =~= d@.subrange(pos + 8, pos + 16));
    (hi as u128) * 0x1_0000_0000_0000_0000 + lo as u128
}

} // verus!
