//! Byte-level helpers: positioned little-endian reads and writes into byte
//! buffers.

use vstd::prelude::*;

use vstd::bytes::*;
use vstd::slice::slice_subrange;

verus! {

/// Writes a slice at `pos`, leaving every other byte unchanged.
pub fn write_bytes_at(data: &mut Vec<u8>, pos: usize, src: &[u8])
    requires
        pos + src@.len() <= old(data)@.len(),
    ensures
        final(data)@.len() == old(data)@.len(),
        final(data)@.subrange(pos as int, pos + src@.len()) == src@,
        forall|k: int|
            0 <= k < final(data)@.len() && !(pos <= k < pos + src@.len()) ==> final(data)@[k]
                == old(data)@[k],
{
    let n = src.len();
    let total = data.len();
    let mut i: usize = 0;
    while i < n
        invariant
            0 <= i <= n,
            n == src@.len(),
            pos + n <= total,
            total == data@.len(),
            data@.len() == old(data)@.len(),
            forall|k: int| pos <= k < pos + i ==> data@[k] == src@[k - pos],
            forall|k: int|
                0 <= k < data@.len() && !(pos <= k < pos + n) ==> data@[k] == old(data)@[k],
        decreases n - i,
    {
        data[pos + i] = src[i];
        i = i + 1;
    }
    proof {
        assert(data@.subrange(pos as int, pos + src@.len()) =~= src@);
    }
}

/// Writes `x` at `pos` as four little-endian bytes.
pub fn write_u32_at(data: &mut Vec<u8>, pos: usize, x: u32)
    requires
        pos + 4 <= old(data)@.len(),
    ensures
        final(data)@.len() == old(data)@.len(),
        final(data)@.subrange(pos as int, pos + 4) == spec_u32_to_le_bytes(x),
        forall|k: int|
            0 <= k < final(data)@.len() && !(pos <= k < pos + 4) ==> final(data)@[k] == old(
                data,
            )@[k],
{
    proof {
        lemma_auto_spec_u32_to_from_le_bytes();
    }
    let b = u32_to_le_bytes(x);
    write_bytes_at(data, pos, b.as_slice());
}

/// Writes `x` at `pos` as eight little-endian bytes.
pub fn write_u64_at(data: &mut Vec<u8>, pos: usize, x: u64)
    requires
        pos + 8 <= old(data)@.len(),
    ensures
        final(data)@.len() == old(data)@.len(),
        final(data)@.subrange(pos as int, pos + 8) == spec_u64_to_le_bytes(x),
        forall|k: int|
            0 <= k < final(data)@.len() && !(pos <= k < pos + 8) ==> final(data)@[k] == old(
                data,
            )@[k],
{
    proof {
        lemma_auto_spec_u64_to_from_le_bytes();
    }
    let b = u64_to_le_bytes(x);
    write_bytes_at(data, pos, b.as_slice());
}

/// Reads four little-endian bytes at `pos`.
pub fn read_u32_at(data: &[u8], pos: usize) -> (r: u32)
    requires
        pos + 4 <= data@.len(),
    ensures
        r == spec_u32_from_le_bytes(data@.subrange(pos as int, pos + 4)),
{
    let total = data.len();
    u32_from_le_bytes(slice_subrange(data, pos, pos + 4))
}

/// Reads eight little-endian bytes at `pos`.
pub fn read_u64_at(data: &[u8], pos: usize) -> (r: u64)
    requires
        pos + 8 <= data@.len(),
    ensures
        r == spec_u64_from_le_bytes(data@.subrange(pos as int, pos + 8)),
{
    let total = data.len();
    u64_from_le_bytes(slice_subrange(data, pos, pos + 8))
}

/// Writes one byte at `pos`.
pub fn write_u8_at(data: &mut Vec<u8>, pos: usize, x: u8)
    requires
        pos < old(data)@.len(),
    ensures
        final(data)@.len() == old(data)@.len(),
        final(data)@ == old(data)@.update(pos as int, x),
{
    data[pos] = x;
    proof {
        assert(data@ =~= old(data)@.update(pos as int, x));
    }
}

} // verus!
