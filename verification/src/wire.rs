//! Big-endian encodings of the integer fields used by the wire protocol.

use vstd::prelude::*;

verus! {

/// The two big-endian bytes of a 16-bit integer, most significant first.
pub open spec fn spec_u16_be(x: u16) -> Seq<u8> {
    seq![(x / 0x100) as u8, (x % 0x100) as u8]
}

/// The four big-endian bytes of a 32-bit integer, most significant first.
pub open spec fn spec_u32_be(x: u32) -> Seq<u8> {
    seq![
        (x / 0x100_0000) as u8,
        ((x / 0x1_0000) % 0x100) as u8,
        ((x / 0x100) % 0x100) as u8,
        (x % 0x100) as u8,
    ]
}

/// The eight big-endian bytes of a 64-bit integer, most significant first.
pub open spec fn spec_u64_be(x: u64) -> Seq<u8> {
    spec_u32_be((x / 0x1_0000_0000) as u32) + spec_u32_be((x % 0x1_0000_0000) as u32)
}

/// The 16-bit integer read from two big-endian bytes.
pub open spec fn spec_u16_from_be(b0: u8, b1: u8) -> u16 {
    (b0 * 0x100 + b1) as u16
}

/// The 32-bit integer read from four big-endian bytes.
pub open spec fn spec_u32_from_be(b0: u8, b1: u8, b2: u8, b3: u8) -> u32 {
    (b0 * 0x100_0000 + b1 * 0x1_0000 + b2 * 0x100 + b3) as u32
}

/// The 64-bit integer read from eight big-endian bytes.
pub open spec fn spec_u64_from_be(hi: u32, lo: u32) -> u64 {
    (hi * 0x1_0000_0000 + lo) as u64
}

/// Reading back the two bytes of `spec_u16_be` yields the integer written.
pub proof fn lemma_u16_be_round_trip(x: u16)
    ensures
        spec_u16_from_be(spec_u16_be(x)[0], spec_u16_be(x)[1]) == x,
{
}

/// Reading back the four bytes of `spec_u32_be` yields the integer written.
pub proof fn lemma_u32_be_round_trip(x: u32)
    ensures
        spec_u32_from_be(
            spec_u32_be(x)[0],
            spec_u32_be(x)[1],
            spec_u32_be(x)[2],
            spec_u32_be(x)[3],
        ) == x,
{
}

/// Appends the two big-endian bytes of `x` to `out`.
pub fn write_u16_be(out: &mut Vec<u8>, x: u16)
    ensures
        final(out)@ == old(out)@ + spec_u16_be(x),
{
    out.push((x / 0x100) as u8);
    out.push((x % 0x100) as u8);
    proof {
        assert(out@ =~= old(out)@ + spec_u16_be(x));
    }
}

/// Appends the four big-endian bytes of `x` to `out`.
pub fn write_u32_be(out: &mut Vec<u8>, x: u32)
    ensures
        final(out)@ == old(out)@ + spec_u32_be(x),
{
    out.push((x / 0x100_0000) as u8);
    out.push(((x / 0x1_0000) % 0x100) as u8);
    out.push(((x / 0x100) % 0x100) as u8);
    out.push((x % 0x100) as u8);
    proof {
        assert(out@ =~= old(out)@ + spec_u32_be(x));
    }
}

/// Appends the eight big-endian bytes of `x` to `out`.
pub fn write_u64_be(out: &mut Vec<u8>, x: u64)
    ensures
        final(out)@ == old(out)@ + spec_u64_be(x),
{
    write_u32_be(out, (x / 0x1_0000_0000) as u32);
    write_u32_be(out, (x % 0x1_0000_0000) as u32);
    proof {
        assert(out@ =~= old(out)@ + spec_u64_be(x));
    }
}

/// Reads a 16-bit big-endian integer from `data` at offset `at`.
pub fn read_u16_be(data: &Vec<u8>, at: usize) -> (r: u16)
    requires
        at + 2 <= data@.len(),
    ensures
        r == spec_u16_from_be(data@[at as int], data@[at + 1]),
{
    let n: usize = data.len();
    let b0 = data[at];
    let b1 = data[at + 1];
    b0 as u16 * 0x100 + b1 as u16
}

/// Reads a 32-bit big-endian integer from `data` at offset `at`.
pub fn read_u32_be(data: &Vec<u8>, at: usize) -> (r: u32)
    requires
        at + 4 <= data@.len(),
    ensures
        r == spec_u32_from_be(data@[at as int], data@[at + 1], data@[at + 2], data@[at + 3]),
{
    let n: usize = data.len();
    let b0 = data[at];
    let b1 = data[at + 1];
    let b2 = data[at + 2];
    let b3 = data[at + 3];
    b0 as u32 * 0x100_0000 + b1 as u32 * 0x1_0000 + b2 as u32 * 0x100 + b3 as u32
}

/// Reads a 64-bit big-endian integer from `data` at offset `at`.
pub fn read_u64_be(data: &Vec<u8>, at: usize) -> (r: u64)
    requires
        at + 8 <= data@.len(),
    ensures
        r == spec_u64_from_be(
            spec_u32_from_be(data@[at as int], data@[at + 1], data@[at + 2], data@[at + 3]),
            spec_u32_from_be(data@[at + 4], data@[at + 5], data@[at + 6], data@[at + 7]),
        ),
{
    let n: usize = data.len();
    let hi = read_u32_be(data, at);
    let lo = read_u32_be(data, at + 4);
    hi as u64 * 0x1_0000_0000 + lo as u64
}

/// The two little-endian bytes of a 16-bit integer, least significant first.
pub open spec fn spec_u16_le(x: u16) -> Seq<u8> {
    seq![(x % 0x100) as u8, (x / 0x100) as u8]
}

/// The four little-endian bytes of a 32-bit integer, least significant
/// first.
pub open spec fn spec_u32_le(x: u32) -> Seq<u8> {
    seq![
        (x % 0x100) as u8,
        ((x / 0x100) % 0x100) as u8,
        ((x / 0x1_0000) % 0x100) as u8,
        (x / 0x100_0000) as u8,
    ]
}

/// The eight little-endian bytes of a 64-bit integer, least significant
/// first.
pub open spec fn spec_u64_le(x: u64) -> Seq<u8> {
    spec_u32_le((x % 0x1_0000_0000) as u32) + spec_u32_le((x / 0x1_0000_0000) as u32)
}

/// Appends the two little-endian bytes of `x` to `out`.
pub fn write_u16_le(out: &mut Vec<u8>, x: u16)
    ensures
        final(out)@ == old(out)@ + spec_u16_le(x),
{
    out.push((x % 0x100) as u8);
    out.push((x / 0x100) as u8);
    proof {
        assert(out@ =~= old(out)@ + spec_u16_le(x));
    }
}

/// Appends the four little-endian bytes of `x` to `out`.
pub fn write_u32_le(out: &mut Vec<u8>, x: u32)
    ensures
        final(out)@ == old(out)@ + spec_u32_le(x),
{
    out.push((x % 0x100) as u8);
    out.push(((x / 0x100) % 0x100) as u8);
    out.push(((x / 0x1_0000) % 0x100) as u8);
    out.push((x / 0x100_0000) as u8);
    proof {
        assert(out@ =~= old(out)@ + spec_u32_le(x));
    }
}

/// Appends the eight little-endian bytes of `x` to `out`.
pub fn write_u64_le(out: &mut Vec<u8>, x: u64)
    ensures
        final(out)@ == old(out)@ + spec_u64_le(x),
{
    write_u32_le(out, (x % 0x1_0000_0000) as u32);
    write_u32_le(out, (x / 0x1_0000_0000) as u32);
    proof {
        assert(out@ =~= old(out)@ + spec_u64_le(x));
    }
}

/// Appends the single byte standing for a boolean.
pub fn write_bool(out: &mut Vec<u8>, b: bool)
    ensures
        final(out)@ == old(out)@ + seq![(if b { 1u8 } else { 0u8 })],
{
    out.push(if b { 1 } else { 0 });
    proof {
        assert(out@ =~= old(out)@ + seq![(if b { 1u8 } else { 0u8 })]);
    }
}

/// Appends a length-prefixed UTF-8 string: a 4-byte little-endian byte
/// count, then the bytes.
pub fn write_string_le(out: &mut Vec<u8>, s: &String)
    requires
        vstd::utf8::encode_utf8(s@).len() <= 0xFFFF_FFFF,
    ensures
        final(out)@ == old(out)@ + spec_string_le(s@),
{
    let mut bytes: Vec<u8> = vstd::string::StrSliceExecFns::as_bytes_vec(s.as_str());
    write_u32_le(out, bytes.len() as u32);
    out.append(&mut bytes);
    proof {
        assert(out@ =~= old(out)@ + spec_string_le(s@));
    }
}

/// A length-prefixed UTF-8 string: a 4-byte little-endian byte count, then
/// the bytes.
pub open spec fn spec_string_le(s: Seq<char>) -> Seq<u8> {
    spec_u32_le(vstd::utf8::encode_utf8(s).len() as u32) + vstd::utf8::encode_utf8(s)
}

} // verus!
