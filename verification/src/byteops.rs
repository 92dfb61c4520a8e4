//! Byte-range and little-endian helpers shared by the page and row codecs.

use vstd::arithmetic::div_mod::{
    lemma_div_denominator, lemma_fundamental_div_mod, lemma_fundamental_div_mod_converse,
    lemma_multiply_divide_lt, lemma_small_mod,
};
use vstd::prelude::*;

verus! {

/// The u32 encoded little-endian by a four-byte sequence.
pub open spec fn spec_u32_le(b: Seq<u8>) -> u32
    recommends
        b.len() == 4,
{
    (b[0] + b[1] * 0x100 + b[2] * 0x10000 + b[3] * 0x1000000) as u32
}

/// The four-byte little-endian encoding of a u32.
pub open spec fn spec_u32_le_bytes(x: u32) -> Seq<u8> {
    seq![
        (x % 0x100) as u8,
        ((x / 0x100) % 0x100) as u8,
        ((x / 0x10000) % 0x100) as u8,
        ((x / 0x1000000) % 0x100) as u8,
    ]
}

/// Decoding inverts encoding.
pub proof fn lemma_u32_le_round_trip(x: u32)
    ensures
        spec_u32_le(spec_u32_le_bytes(x)) == x,
{
    let xi = x as int;
    lemma_fundamental_div_mod(xi, 0x100);
    lemma_fundamental_div_mod(xi / 0x100, 0x100);
    lemma_fundamental_div_mod(xi / 0x10000, 0x100);
    lemma_div_denominator(xi, 0x100, 0x100);
    lemma_div_denominator(xi, 0x10000, 0x100);
    lemma_multiply_divide_lt(xi, 0x1000000, 0x100);
    lemma_small_mod((xi / 0x1000000) as nat, 0x100);
}

/// Encoding inverts decoding: a four-byte sequence is recovered from its u32.
pub proof fn lemma_u32_le_bytes_of(b: Seq<u8>)
    requires
        b.len() == 4,
    ensures
        spec_u32_le_bytes(spec_u32_le(b)) == b,
{
    let x = b[0] + b[1] * 0x100 + b[2] * 0x10000 + b[3] * 0x1000000;
    assert(spec_u32_le(b) == x);
    lemma_fundamental_div_mod_converse(
        x,
        0x100,
        b[1] + b[2] * 0x100 + b[3] * 0x10000,
        b[0] as int,
    );
    lemma_fundamental_div_mod_converse(
        b[1] + b[2] * 0x100 + b[3] * 0x10000,
        0x100,
        b[2] + b[3] * 0x100,
        b[1] as int,
    );
    lemma_fundamental_div_mod_converse(b[2] + b[3] * 0x100, 0x100, b[3] as int, b[2] as int);
    lemma_div_denominator(x, 0x100, 0x100);
    lemma_div_denominator(x, 0x10000, 0x100);
    assert(spec_u32_le_bytes(spec_u32_le(b)) =~= b);
}

/// Reads the u32 stored little-endian at `at`.
pub fn read_u32_le(buf: &Vec<u8>, at: usize) -> (x: u32)
    requires
        at + 4 <= buf@.len(),
    ensures
        x == spec_u32_le(buf@.subrange(at as int, at as int + 4)),
{
    // ties the buffer length to usize so the index sums cannot overflow
    let _n: usize = buf.len();
    let x0 = buf[at] as u32;
    let x1 = buf[at + 1] as u32;
    let x2 = buf[at + 2] as u32;
    let x3 = buf[at + 3] as u32;
    x0 + x1 * 0x100 + x2 * 0x10000 + x3 * 0x1000000
}

/// Stores `x` little-endian at `at`, leaving every other byte unchanged.
pub fn write_u32_le(buf: &mut Vec<u8>, at: usize, x: u32)
    requires
        at + 4 <= old(buf)@.len(),
    ensures
        final(buf)@.len() == old(buf)@.len(),
        final(buf)@.subrange(at as int, at as int + 4) == spec_u32_le_bytes(x),
        spec_u32_le(final(buf)@.subrange(at as int, at as int + 4)) == x,
        forall|i: int|
            0 <= i < old(buf)@.len() && !(at <= i < at + 4) ==> final(buf)@[i] == old(buf)@[i],
{
    // ties the buffer length to usize so the index sums cannot overflow
    let _n: usize = buf.len();
    buf[at] = (x % 0x100) as u8;
    buf[at + 1] = ((x / 0x100) % 0x100) as u8;
    buf[at + 2] = ((x / 0x10000) % 0x100) as u8;
    buf[at + 3] = ((x / 0x1000000) % 0x100) as u8;
    proof {
        assert(buf@.subrange(at as int, at as int + 4) =~= spec_u32_le_bytes(x));
        lemma_u32_le_round_trip(x);
    }
}

/// Copies `src` into `dst` starting at `at`, leaving every other byte unchanged.
pub fn write_range(dst: &mut Vec<u8>, at: usize, src: &Vec<u8>)
    requires
        at + src@.len() <= old(dst)@.len(),
    ensures
        final(dst)@.len() == old(dst)@.len(),
        final(dst)@.subrange(at as int, at as int + src@.len()) == src@,
        forall|i: int|
            0 <= i < old(dst)@.len() && !(at <= i < at + src@.len()) ==> final(dst)@[i] == old(
                dst,
            )@[i],
{
    let n: usize = dst.len();
    let mut j: usize = 0;
    while j < src.len()
        invariant
            j <= src@.len(),
            at + src@.len() <= n,
            n == dst@.len(),
            dst@.len() == old(dst)@.len(),
            forall|i: int| at <= i < at + j ==> dst@[i] == src@[i - at],
            forall|i: int|
                0 <= i < old(dst)@.len() && !(at <= i < at + j) ==> dst@[i] == old(dst)@[i],
        decreases src@.len() - j,
    {
        dst[at + j] = src[j];
        j = j + 1;
    }
    proof {
        assert(dst@.subrange(at as int, at as int + src@.len()) =~= src@);
    }
}

/// Returns a copy of the `len` bytes of `src` starting at `at`.
pub fn copy_range(src: &Vec<u8>, at: usize, len: usize) -> (r: Vec<u8>)
    requires
        at + len <= src@.len(),
    ensures
        r@ == src@.subrange(at as int, at as int + len),
{
    let n: usize = src.len();
    let mut r: Vec<u8> = Vec::new();
    let mut j: usize = 0;
    while j < len
        invariant
            j <= len,
            at + len <= n,
            n == src@.len(),
            r@.len() == j,
            forall|i: int| 0 <= i < j ==> r@[i] == src@[at + i],
        decreases len - j,
    {
        r.push(src[at + j]);
        j = j + 1;
    }
    proof {
        assert(r@ =~= src@.subrange(at as int, at as int + len));
    }
    r
}

} // verus!
