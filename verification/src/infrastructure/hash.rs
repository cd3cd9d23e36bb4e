//! Hash functions over strings and byte strings.

use vstd::prelude::*;

use vstd::utf8::encode_utf8;

verus! {

/// FNV-1a offset basis.
pub const FNV_OFFSET_BASIS: u64 = 14695981039346656037;

/// FNV-1a prime.
pub const FNV_PRIME: u64 = 1099511628211;

/// The FNV-1a hash of a byte string: starting from the offset basis, each
/// byte is folded in by xor followed by a wrapping multiply with the prime.
pub open spec fn spec_fnv1a(s: Seq<u8>) -> u64
    decreases s.len(),
{
    if s.len() == 0 {
        FNV_OFFSET_BASIS
    } else {
        vstd::wrapping::u64_specs::wrapping_mul(
            spec_fnv1a(s.drop_last()) ^ (s.last() as u64),
            FNV_PRIME,
        )
    }
}

/// The djb2 hash of a byte string: starting from 5381, each byte is folded
/// in as `hash * 33 + byte`, wrapping.
pub open spec fn spec_djb2(s: Seq<u8>) -> u64
    decreases s.len(),
{
    if s.len() == 0 {
        5381
    } else {
        vstd::wrapping::u64_specs::wrapping_add(
            vstd::wrapping::u64_specs::wrapping_add(
                vstd::wrapping::u64_specs::wrapping_shl(spec_djb2(s.drop_last()), 5),
                spec_djb2(s.drop_last()),
            ),
            s.last() as u64,
        )
    }
}

/// The FNV-1a hash of a byte string.
pub fn fnv1a_hash_bytes(s: &[u8]) -> (r: u64)
    ensures
        r == spec_fnv1a(s@),
{
    let mut hash: u64 = FNV_OFFSET_BASIS;
    let n = s.len();
    let mut i: usize = 0;
    proof {
        assert(s@.take(0) =~= Seq::<u8>::empty());
    }
    while i < n
        invariant
            0 <= i <= n,
            n == s@.len(),
            hash == spec_fnv1a(s@.take(i as int)),
        decreases n - i,
    {
        hash = (hash ^ (s[i] as u64)).wrapping_mul(FNV_PRIME);
        proof {
            assert(s@.take(i + 1).drop_last() =~= s@.take(i as int));
            assert(s@.take(i + 1).last() == s@[i as int]);
        }
        i = i + 1;
    }
    proof {
        assert(s@.take(n as int) =~= s@);
    }
    hash
}

/// The FNV-1a hash of a string's UTF-8 bytes.
pub fn fnv1a_hash(s: &str) -> (r: u64)
    ensures
        r == spec_fnv1a(encode_utf8(s@)),
{
    fnv1a_hash_bytes(s.as_bytes())
}

/// The djb2 hash of a string's UTF-8 bytes.
pub fn djb2_hash(s: &str) -> (r: u64)
    ensures
        r == spec_djb2(encode_utf8(s@)),
{
    let bytes = s.as_bytes();
    let mut hash: u64 = 5381;
    let n = bytes.len();
    let mut i: usize = 0;
    proof {
        assert(bytes@.take(0) =~= Seq::<u8>::empty());
    }
    while i < n
        invariant
            0 <= i <= n,
            n == bytes@.len(),
            hash == spec_djb2(bytes@.take(i as int)),
        decreases n - i,
    {
        hash = hash.wrapping_shl(5).wrapping_add(hash).wrapping_add(bytes[i] as u64);
        proof {
            assert(bytes@.take(i + 1).drop_last() =~= bytes@.take(i as int));
            assert(bytes@.take(i + 1).last() == bytes@[i as int]);
        }
        i = i + 1;
    }
    proof {
        assert(bytes@.take(n as int) =~= bytes@);
    }
    hash
}

/// Hashes a string with the engine's default algorithm, FNV-1a.
pub fn hash_string(s: &str) -> (r: u64)
    ensures
        r == spec_fnv1a(encode_utf8(s@)),
{
    fnv1a_hash(s)
}

/// Rotates a 64-bit value left by `k` bits; `k` must be between 1 and 63.
fn rotl64(x: u64, k: u32) -> (r: u64)
    requires
        0 < k < 64,
{
    (x << k as u64) | (x >> (64 - k) as u64)
}

/// A 64-bit result derived from the first half of the 128-bit MurmurHash3
/// of a string's UTF-8 bytes. A diffusion benchmark subject; no caller
/// depends on its value, so nothing further is stated of it.
pub fn murmur3_hash(s: &str) -> u64 {
    let c1: u64 = 0x87c37b91114253d5;
    let c2: u64 = 0x4cf5ad432745937f;
    let data = s.as_bytes();
    let len = data.len() as u64;
    let mut hash: u64 = 0;
    let mut i: usize = 0;
    while data.len() - i >= 16
        invariant
            i <= data@.len(),
        decreases data@.len() - i,
    {
        let mut k1 = crate::codec::read_u64_at(data, i);
        let mut k2 = crate::codec::read_u64_at(data, i + 8);
        k1 = k1.wrapping_mul(c1);
        k1 = rotl64(k1, 31);
        k1 = k1.wrapping_mul(c2);
        hash = hash ^ k1;
        hash = rotl64(hash, 27);
        hash = hash.wrapping_mul(5).wrapping_add(0x52dce729);
        k2 = k2.wrapping_mul(c2);
        k2 = rotl64(k2, 33);
        k2 = k2.wrapping_mul(c1);
        hash = hash ^ k2;
        hash = rotl64(hash, 31);
        hash = hash.wrapping_mul(5).wrapping_add(0x38495ab5);
        i = i + 16;
    }
    let dlen = data.len();
    let remaining = dlen - i;
    if remaining > 0 {
        let mut k1: u64 = 0;
        let mut k2: u64 = 0;
        if remaining > 8 {
            let mut j: usize = 8;
            while j < remaining
                invariant
                    8 <= j <= remaining,
                    remaining <= 16,
                    dlen == data@.len(),
                    i + remaining == dlen,
                decreases remaining - j,
            {
                let byte_pos = ((j - 8) * 8) as u64;
                k2 = k2 ^ ((data[i + j] as u64) << byte_pos);
                j = j + 1;
            }
            k2 = k2.wrapping_mul(c2);
            k2 = rotl64(k2, 33);
            k2 = k2.wrapping_mul(c1);
            hash = hash ^ k2;
        }
        let take = if remaining > 8 {
            8
        } else {
            remaining
        };
        let mut j: usize = 0;
        while j < take
            invariant
                0 <= j <= take,
                take <= 8,
                take <= remaining,
                dlen == data@.len(),
                i + remaining == dlen,
            decreases take - j,
        {
            let byte_pos = (j * 8) as u64;
            k1 = k1 ^ ((data[i + j] as u64) << byte_pos);
            j = j + 1;
        }
        k1 = k1.wrapping_mul(c1);
        k1 = rotl64(k1, 31);
        k1 = k1.wrapping_mul(c2);
        hash = hash ^ k1;
    }
    hash = hash ^ len;
    hash = hash ^ (hash >> 33u64);
    hash = hash.wrapping_mul(0xff51afd7ed558ccd);
    hash = hash ^ (hash >> 33u64);
    hash = hash.wrapping_mul(0xc4ceb9fe1a85ec53);
    hash = hash ^ (hash >> 33u64);
    hash
}

/// A 64-bit digest in the style of XXH64 over a string's UTF-8 bytes.
/// A diffusion benchmark subject; no caller depends on its value, so
/// nothing further is stated of it.
pub fn xxh64_hash(s: &str) -> u64 {
    let prime1: u64 = 0x9E3779B185EBCA87;
    let prime2: u64 = 0xC2B2AE3D27D4EB4F;
    let prime3: u64 = 0x165667B19E3779F9;
    let prime4: u64 = 0x85EBCA77C2B2AE63;
    let prime5: u64 = 0x27D4EB2F165667C5;
    let data = s.as_bytes();
    let len = data.len() as u64;
    let mut i: usize = 0;
    let mut h64: u64;
    if data.len() >= 32 {
        let mut v1: u64 = prime1.wrapping_add(prime2);
        let mut v2: u64 = prime2;
        let mut v3: u64 = 0;
        let mut v4: u64 = 0u64.wrapping_sub(prime1);
        while data.len() - i >= 32
            invariant
                i <= data@.len(),
            decreases data@.len() - i,
        {
            v1 = xxh_round(v1, crate::codec::read_u64_at(data, i), prime1, prime2);
            v2 = xxh_round(v2, crate::codec::read_u64_at(data, i + 8), prime1, prime2);
            v3 = xxh_round(v3, crate::codec::read_u64_at(data, i + 16), prime1, prime2);
            v4 = xxh_round(v4, crate::codec::read_u64_at(data, i + 24), prime1, prime2);
            i = i + 32;
        }
        h64 = rotl64(v1, 1).wrapping_add(rotl64(v2, 7)).wrapping_add(rotl64(v3, 12)).wrapping_add(
            rotl64(v4, 18),
        );
        h64 = xxh_merge(h64, v1, prime1, prime2, prime4);
        h64 = xxh_merge(h64, v2, prime1, prime2, prime4);
        h64 = xxh_merge(h64, v3, prime1, prime2, prime4);
        h64 = xxh_merge(h64, v4, prime1, prime2, prime4);
    } else {
        h64 = prime5;
    }
    h64 = h64 ^ len;
    while data.len() - i >= 8
        invariant
            i <= data@.len(),
        decreases data@.len() - i,
    {
        let mut k1 = crate::codec::read_u64_at(data, i);
        k1 = k1.wrapping_mul(prime2);
        k1 = rotl64(k1, 31);
        k1 = k1.wrapping_mul(prime1);
        h64 = h64 ^ k1;
        h64 = rotl64(h64, 27);
        h64 = h64.wrapping_mul(prime1).wrapping_add(prime4);
        i = i + 8;
    }
    if data.len() - i >= 4 {
        let k1 = crate::codec::read_u32_at(data, i) as u64;
        h64 = h64 ^ k1;
        h64 = rotl64(h64, 23);
        h64 = h64.wrapping_mul(prime2).wrapping_add(prime3);
        i = i + 4;
    }
    while i < data.len()
        invariant
            i <= data.len(),
        decreases data@.len() - i,
    {
        let k1 = data[i] as u64;
        h64 = h64 ^ k1;
        h64 = rotl64(h64, 11);
        h64 = h64.wrapping_mul(prime1);
        i = i + 1;
    }
    h64 = h64 ^ (h64 >> 33u64);
    h64 = h64.wrapping_mul(0xFF51AFD7ED558CCD);
    h64 = h64 ^ (h64 >> 33u64);
    h64 = h64.wrapping_mul(0xC4CEB9FE1A85EC53);
    h64 = h64 ^ (h64 >> 33u64);
    h64
}

/// One accumulator round of the XXH64-style digest.
fn xxh_round(acc: u64, lane: u64, prime1: u64, prime2: u64) -> u64 {
    let mut k = lane.wrapping_mul(prime2);
    k = rotl64(k, 31);
    k = k.wrapping_mul(prime1);
    let mut v = acc ^ k;
    v = rotl64(v, 27);
    v.wrapping_mul(prime1).wrapping_add(prime4_of())
}

/// The fourth prime of the XXH64-style digest.
fn prime4_of() -> u64 {
    0x85EBCA77C2B2AE63
}

/// One merge step of the XXH64-style digest.
fn xxh_merge(h: u64, v: u64, prime1: u64, prime2: u64, prime4: u64) -> u64 {
    let mut k = v.wrapping_mul(prime2);
    k = rotl64(k, 31);
    k = k.wrapping_mul(prime1);
    let h2 = h ^ k;
    h2.wrapping_mul(prime1).wrapping_add(prime4)
}

} // verus!
