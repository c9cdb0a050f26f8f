//! Little-endian byte encodings.
use vstd::prelude::*;

verus! {

/// The two low bytes of `x`, least significant first.
pub open spec fn le_bytes2(x: int) -> Seq<u8> {
    seq![(x % 256) as u8, ((x / 256) % 256) as u8]
}

/// The four low bytes of `x`, least significant first.
pub open spec fn le_bytes4(x: int) -> Seq<u8> {
    seq![
        (x % 256) as u8,
        ((x / 256) % 256) as u8,
        ((x / 65536) % 256) as u8,
        ((x / 16777216) % 256) as u8,
    ]
}

/// Appends `x` as two little-endian bytes (`u16::to_le_bytes`).
pub fn push_u16_le(buf: &mut Vec<u8>, x: u16)
    ensures
        final(buf)@ == old(buf)@ + le_bytes2(x as int),
{
    buf.push((x % 256) as u8);
    buf.push((x / 256) as u8);
    assert(buf@ =~= old(buf)@ + le_bytes2(x as int)) by {
        assert(x / 256 < 256);
    }
}

/// Appends `x` as four little-endian bytes (`u32::to_le_bytes`).
pub fn push_u32_le(buf: &mut Vec<u8>, x: u32)
    ensures
        final(buf)@ == old(buf)@ + le_bytes4(x as int),
{
    buf.push((x % 256) as u8);
    buf.push(((x / 256) % 256) as u8);
    buf.push(((x / 65536) % 256) as u8);
    buf.push((x / 16777216) as u8);
    assert(buf@ =~= old(buf)@ + le_bytes4(x as int)) by {
        assert(x / 16777216 < 256);
    }
}

/// Appends every byte of `data`.
pub fn push_all(buf: &mut Vec<u8>, data: &[u8])
    ensures
        final(buf)@ == old(buf)@ + data@,
{
    let mut i: usize = 0;
    while i < data.len()
        invariant
            i <= data@.len(),
            buf@ == old(buf)@ + data@.subrange(0, i as int),
        decreases data.len() - i,
    {
        buf.push(data[i]);
        assert(data@.subrange(0, i + 1) == data@.subrange(0, i as int).push(data@[i as int]));
        i = i + 1;
    }
    assert(data@.subrange(0, data@.len() as int) == data@);
}

/// The little-endian 32-bit value at `at`.
pub open spec fn le32(bytes: Seq<u8>, at: int) -> int {
    bytes[at] + 256 * bytes[at + 1] + 65536 * bytes[at + 2] + 16777216 * bytes[at + 3]
}

/// The little-endian 16-bit value at `at`.
pub open spec fn le16(bytes: Seq<u8>, at: int) -> int {
    bytes[at] + 256 * bytes[at + 1]
}

/// The little-endian 32-bit value at `at`.
pub fn read_u32(bytes: &[u8], at: usize) -> (r: u32)
    requires
        at + 4 <= bytes@.len(),
    ensures
        r == le32(bytes@, at as int),
{
    bytes[at] as u32 + (bytes[at + 1] as u32) * 256 + (bytes[at + 2] as u32) * 65536 + (bytes[at
        + 3] as u32) * 16777216
}

/// The little-endian 16-bit value at `at`.
pub fn read_u16(bytes: &[u8], at: usize) -> (r: u16)
    requires
        at + 2 <= bytes@.len(),
    ensures
        r == le16(bytes@, at as int),
{
    bytes[at] as u16 + (bytes[at + 1] as u16) * 256
}

/// `base + offset` in the address space, wrapping as pointer arithmetic does.
pub open spec fn wrap_address(base: int, offset: int) -> int {
    (base + offset) % (usize::MAX as int + 1)
}

/// The address `offset` bytes after `base`, wrapping around the address space.
pub fn address_at(base: usize, offset: u32) -> (r: usize)
    ensures
        r == wrap_address(base as int, offset as int),
{
    let r = base.wrapping_add(offset as usize);
    proof {
        let m = usize::MAX as int + 1;
        let sum = base as int + offset as int;
        if sum > usize::MAX {
            vstd::arithmetic::div_mod::lemma_mod_multiples_vanish(-1, sum, m);
            vstd::arithmetic::div_mod::lemma_small_mod((sum - m) as nat, m as nat);
        } else {
            vstd::arithmetic::div_mod::lemma_small_mod(sum as nat, m as nat);
        }
    }
    r
}

} // verus!
