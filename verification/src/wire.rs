//! Big-endian scalar encoding: the byte-level primitives that both the
//! record-marking layer and the wire-format semantics build on.

use vstd::prelude::*;

verus! {

/// The four big-endian bytes of a 32-bit word.
pub open spec fn spec_u32_be(x: u32) -> Seq<u8> {
    seq![
        (x >> 24) as u8,
        ((x >> 16) & 0xff) as u8,
        ((x >> 8) & 0xff) as u8,
        (x & 0xff) as u8,
    ]
}

/// The 32-bit word read from four big-endian bytes.
pub open spec fn spec_u32_of_be(b0: u8, b1: u8, b2: u8, b3: u8) -> u32 {
    (((b0 as u32) << 24) | ((b1 as u32) << 16) | ((b2 as u32) << 8) | (b3 as u32)) as u32
}

/// Reading back the four bytes of a word gives the word again.
pub proof fn lemma_u32_be_round_trip(x: u32)
    ensures
        spec_u32_of_be(
            spec_u32_be(x)[0],
            spec_u32_be(x)[1],
            spec_u32_be(x)[2],
            spec_u32_be(x)[3],
        ) == x,
{
    assert(((((x >> 24) as u8) as u32) << 24) | (((((x >> 16) & 0xff) as u8) as u32) << 16) | ((
    (((x >> 8) & 0xff) as u8) as u32) << 8) | (((x & 0xff) as u8) as u32) == x) by (bit_vector);
}

/// The eight big-endian bytes of a 64-bit word: the high half, then the
/// low half.
pub open spec fn spec_u64_be(x: u64) -> Seq<u8> {
    spec_u32_be((x >> 32) as u32) + spec_u32_be(x as u32)
}

/// The 64-bit word read from eight big-endian bytes.
pub open spec fn spec_u64_of_be(b: Seq<u8>) -> u64
    recommends
        b.len() == 8,
{
    let hi = spec_u32_of_be(b[0], b[1], b[2], b[3]);
    let lo = spec_u32_of_be(b[4], b[5], b[6], b[7]);
    (((hi as u64) << 32) | (lo as u64)) as u64
}

/// Reading back the eight bytes of a word gives the word again.
pub proof fn lemma_u64_be_round_trip(x: u64)
    ensures
        spec_u64_of_be(spec_u64_be(x)) == x,
{
    let hi: u32 = (x >> 32) as u32;
    let lo: u32 = x as u32;
    lemma_u32_be_round_trip(hi);
    lemma_u32_be_round_trip(lo);
    let b = spec_u64_be(x);
    assert(b[0] == spec_u32_be(hi)[0] && b[1] == spec_u32_be(hi)[1] && b[2] == spec_u32_be(hi)[2]
        && b[3] == spec_u32_be(hi)[3]);
    assert(b[4] == spec_u32_be(lo)[0] && b[5] == spec_u32_be(lo)[1] && b[6] == spec_u32_be(lo)[2]
        && b[7] == spec_u32_be(lo)[3]);
    assert(((hi as u64) << 32) | (lo as u64) == x) by (bit_vector)
        requires
            hi == (x >> 32) as u32,
            lo == x as u32,
    ;
}

/// A signed 32-bit value keeps its bit pattern on the wire.
pub proof fn lemma_i32_bits_round_trip(x: i32)
    ensures
        (x as u32) as i32 == x,
{
    assert((x as u32) as i32 == x) by (bit_vector);
}

/// A signed 64-bit value keeps its bit pattern on the wire.
pub proof fn lemma_i64_bits_round_trip(x: i64)
    ensures
        (x as u64) as i64 == x,
{
    assert((x as u64) as i64 == x) by (bit_vector);
}

/// Appends the big-endian bytes of a 64-bit word to `out`.
pub fn put_u64_be(out: &mut Vec<u8>, x: u64)
    ensures
        final(out)@ == old(out)@ + spec_u64_be(x),
{
    let hi: u32 = (x >> 32) as u32;
    let lo: u32 = #[verifier::truncate] (x as u32);
    put_u32_be(out, hi);
    put_u32_be(out, lo);
    assert(out@ =~= old(out)@ + spec_u64_be(x));
}

/// Reads the 64-bit word whose big-endian bytes stand at `pos` in `data`.
pub fn get_u64_be(data: &Vec<u8>, pos: usize) -> (r: u64)
    requires
        pos + 8 <= data@.len(),
    ensures
        r == spec_u64_of_be(data@.subrange(pos as int, pos + 8)),
{
    let n: usize = data.len();
    let hi: u32 = get_u32_be(data, pos);
    let lo: u32 = get_u32_be(data, pos + 4);
    let ghost s = data@.subrange(pos as int, pos + 8);
    assert(s[0] == data@[pos as int] && s[1] == data@[pos + 1] && s[2] == data@[pos + 2] && s[3]
        == data@[pos + 3]);
    assert(s[4] == data@[pos + 4] && s[5] == data@[pos + 5] && s[6] == data@[pos + 6] && s[7]
        == data@[pos + 7]);
    ((hi as u64) << 32) | (lo as u64)
}

/// Appends the big-endian bytes of `x` to `out`.
pub fn put_u32_be(out: &mut Vec<u8>, x: u32)
    ensures
        final(out)@ == old(out)@ + spec_u32_be(x),
{
    let b0: u8 = (x >> 24) as u8;
    let b1: u8 = ((x >> 16) & 0xff) as u8;
    let b2: u8 = ((x >> 8) & 0xff) as u8;
    let b3: u8 = (x & 0xff) as u8;
    out.push(b0);
    out.push(b1);
    out.push(b2);
    out.push(b3);
    assert(out@ =~= old(out)@ + spec_u32_be(x));
}

/// Reads the word whose big-endian bytes stand at `pos` in `data`.
pub fn get_u32_be(data: &Vec<u8>, pos: usize) -> (r: u32)
    requires
        pos + 4 <= data@.len(),
    ensures
        r == spec_u32_of_be(data@[pos as int], data@[pos + 1], data@[pos + 2], data@[pos + 3]),
{
    let n: usize = data.len();
    let b0: u8 = data[pos];
    let b1: u8 = data[pos + 1];
    let b2: u8 = data[pos + 2];
    let b3: u8 = data[pos + 3];
    ((b0 as u32) << 24) | ((b1 as u32) << 16) | ((b2 as u32) << 8) | (b3 as u32)
}

} // verus!
