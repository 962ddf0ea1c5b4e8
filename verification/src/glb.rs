//! Byte-level helpers of the GLB container writer.
use vstd::prelude::*;

verus! {

/// Bytes needed to bring a length of `n` to a multiple of four.
pub open spec fn padding(n: int) -> int {
    (4 - n % 4) % 4
}

fn pad_with(v: &mut Vec<u8>, byte: u8)
    ensures
        final(v)@ == old(v)@ + Seq::new(padding(old(v)@.len() as int) as nat, |i: int| byte),
        final(v)@.len() % 4 == 0,
{
    let ghost start = v@;
    while v.len() % 4 != 0
        invariant
            start.len() <= v@.len() <= start.len() + 3,
            v@ == start + Seq::new((v@.len() - start.len()) as nat, |i: int| byte),
            (v@.len() - start.len()) <= padding(start.len() as int),
            v@.len() % 4 == 0 ==> v@.len() - start.len() == padding(start.len() as int),
            v@.len() % 4 != 0 ==> v@.len() - start.len() < padding(start.len() as int),
        decreases 4 - (v@.len() - start.len()),
    {
        let ghost before = v@;
        v.push(byte);
        proof {
            assert(v@ =~= start + Seq::new((v@.len() - start.len()) as nat, |i: int| byte));
        }
    }
}

/// Zero-pads a binary GLB chunk to a four-byte boundary.
pub fn align_binary(v: &mut Vec<u8>)
    ensures
        final(v)@ == old(v)@ + Seq::new(padding(old(v)@.len() as int) as nat, |i: int| 0u8),
        final(v)@.len() % 4 == 0,
{
    pad_with(v, 0);
}

/// Space-pads a JSON GLB chunk to a four-byte boundary.
pub fn align_json(v: &mut Vec<u8>)
    ensures
        final(v)@ == old(v)@ + Seq::new(padding(old(v)@.len() as int) as nat, |i: int| 32u8),
        final(v)@.len() % 4 == 0,
{
    pad_with(v, 32);
}

/// Little-endian bytes of a `u32`.
pub open spec fn u32_le_bytes(x: u32) -> Seq<u8> {
    seq![(x % 256) as u8, ((x / 256) % 256) as u8, ((x / 65536) % 256) as u8, (x / 16777216) as u8]
}

/// Appends the little-endian bytes of `x`.
pub fn u32le(v: &mut Vec<u8>, x: u32)
    ensures
        final(v)@ == old(v)@ + u32_le_bytes(x),
{
    v.push((x % 256) as u8);
    v.push(((x / 256) % 256) as u8);
    v.push(((x / 65536) % 256) as u8);
    v.push((x / 16777216) as u8);
    proof {
        assert(final(v)@ =~= old(v)@ + u32_le_bytes(x));
    }
}

} // verus!
