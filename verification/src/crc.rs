//! Seeded CRC-32 used for the integrity tail of wire packets.
//!
//! The variant is pinned here: the reflected polynomial `0xEDB8_8320`, with
//! the session's seed as the initial state and no final complement.  The tail
//! appended to a packet consists of the low-order `crc_length` bytes of the
//! checksum, most significant of those first.

use vstd::prelude::*;

use crate::wire::spec_u32_be;

verus! {

/// One shift-and-conditionally-xor round of the reflected CRC-32.
pub open spec fn crc_step(state: u32) -> u32 {
    if state & 1 == 1 {
        (state >> 1) ^ 0xEDB8_8320u32
    } else {
        state >> 1
    }
}

/// `n` rounds of `crc_step`.
pub open spec fn crc_steps(state: u32, n: nat) -> u32
    decreases n,
{
    if n == 0 {
        state
    } else {
        crc_step(crc_steps(state, (n - 1) as nat))
    }
}

/// Folds one byte into the checksum state: xor, then eight rounds.
pub open spec fn crc_push_byte(state: u32, b: u8) -> u32 {
    crc_steps(state ^ (b as u32), 8)
}

/// The checksum state after folding every byte of `data` into `state`.
pub open spec fn spec_crc32_from(state: u32, data: Seq<u8>) -> u32
    decreases data.len(),
{
    if data.len() == 0 {
        state
    } else {
        spec_crc32_from(crc_push_byte(state, data[0]), data.skip(1))
    }
}

/// The CRC-32 of `data` keyed by `seed`.
pub open spec fn spec_crc32(seed: u32, data: Seq<u8>) -> u32 {
    spec_crc32_from(seed, data)
}

/// The integrity tail: the `n` low-order bytes of the checksum, most
/// significant of those first.
pub open spec fn spec_crc_tail(crc: u32, n: nat) -> Seq<u8>
    recommends
        n <= 4,
{
    spec_u32_be(crc).skip(4 - n as int)
}

/// Folding bytes one after another folds their concatenation.
pub proof fn lemma_crc32_from_append(state: u32, a: Seq<u8>, b: Seq<u8>)
    ensures
        spec_crc32_from(state, a + b) == spec_crc32_from(spec_crc32_from(state, a), b),
    decreases a.len(),
{
    if a.len() == 0 {
        assert(a + b =~= b);
    } else {
        assert((a + b).skip(1) =~= a.skip(1) + b);
        assert((a + b)[0] == a[0]);
        lemma_crc32_from_append(crc_push_byte(state, a[0]), a.skip(1), b);
    }
}

/// Computes the CRC-32 of `data` keyed by `seed`.
pub fn crc32(seed: u32, data: &Vec<u8>) -> (r: u32)
    ensures
        r == spec_crc32(seed, data@),
{
    let n: usize = data.len();
    let mut state: u32 = seed;
    let mut i: usize = 0;
    proof {
        assert(data@.skip(0) =~= data@);
    }
    while i < n
        invariant
            i <= n,
            n == data@.len(),
            spec_crc32_from(state, data@.skip(i as int)) == spec_crc32(seed, data@),
        decreases n - i,
    {
        let b = data[i];
        let mut st: u32 = state ^ (b as u32);
        let mut k: usize = 0;
        while k < 8
            invariant
                k <= 8,
                st == crc_steps(state ^ (b as u32), k as nat),
            decreases 8 - k,
        {
            if st & 1 == 1 {
                st = (st >> 1) ^ 0xEDB8_8320u32;
            } else {
                st = st >> 1;
            }
            k = k + 1;
        }
        proof {
            assert(st == crc_push_byte(state, b));
            assert(data@.skip(i as int)[0] == data@[i as int]);
            assert(data@.skip(i as int).skip(1) =~= data@.skip(i as int + 1));
        }
        state = st;
        i = i + 1;
    }
    proof {
        assert(data@.skip(n as int) =~= Seq::<u8>::empty());
    }
    state
}

/// Appends the `crc_length`-byte integrity tail of `crc` to `out`.
pub fn write_crc_tail(out: &mut Vec<u8>, crc: u32, crc_length: u8)
    requires
        crc_length <= 4,
    ensures
        final(out)@ == old(out)@ + spec_crc_tail(crc, crc_length as nat),
{
    if crc_length >= 4 {
        out.push((crc / 0x100_0000) as u8);
    }
    if crc_length >= 3 {
        out.push(((crc / 0x1_0000) % 0x100) as u8);
    }
    if crc_length >= 2 {
        out.push(((crc / 0x100) % 0x100) as u8);
    }
    if crc_length >= 1 {
        out.push((crc % 0x100) as u8);
    }
    proof {
        assert(out@ =~= old(out)@ + spec_crc_tail(crc, crc_length as nat));
    }
}

} // verus!
