//! A library for reading and writing the GIF image format.
//!
//! The byte-level container (descriptors, color tables, extensions,
//! sub-block chains) and the variable-width LZW coder are implemented
//! here and verified against byte-exact specifications.

use vstd::prelude::*;

pub mod application;
pub mod bitstream;
pub mod block;
pub mod color;
pub mod colorimage;
pub mod fix;
pub mod gif;
pub mod graphiccontrol;
pub mod image;
pub mod imagedescriptor;
pub mod lzw;
pub mod outvec;
pub mod packed;
pub mod palette;
pub mod reader;
pub mod roundtrip;
pub mod screendescriptor;
pub mod version;
pub mod writer;

verus! {

/// The two bytes of `x` in little-endian order.
pub open spec fn spec_u16_le(x: u16) -> Seq<u8> {
    seq![(x & 0xff) as u8, ((x >> 8) & 0xff) as u8]
}

/// The `u16` read from two bytes in little-endian order.
pub open spec fn spec_u16_from_le(lo: u8, hi: u8) -> u16 {
    (lo as u16) | ((hi as u16) << 8)
}

/// Splitting a `u16` into little-endian bytes and reading them back are
/// inverse to each other.
pub proof fn lemma_u16_le_round_trip(x: u16, lo: u8, hi: u8)
    ensures
        spec_u16_from_le((x & 0xff) as u8, ((x >> 8) & 0xff) as u8) == x,
        (spec_u16_from_le(lo, hi) & 0xff) as u8 == lo,
        (spec_u16_from_le(lo, hi) >> 8) & 0xff == hi,
{
    assert(((x & 0xff) as u8 as u16) | ((((x >> 8) & 0xff) as u8 as u16) << 8) == x)
        by (bit_vector);
    assert((((lo as u16) | ((hi as u16) << 8)) & 0xff) as u8 == lo) by (bit_vector);
    assert((((lo as u16) | ((hi as u16) << 8)) >> 8) & 0xff == hi) by (bit_vector);
}

/// The low byte of `x`.
pub(crate) fn u16_lo(x: u16) -> (r: u8)
    ensures
        r == (x & 0xff) as u8,
{
    (x & 0xff) as u8
}

/// The high byte of `x`.
pub(crate) fn u16_hi(x: u16) -> (r: u8)
    ensures
        r == ((x >> 8) & 0xff) as u8,
{
    ((x >> 8) & 0xff) as u8
}

/// The `u16` whose little-endian bytes are `lo`, `hi`.
pub(crate) fn u16_from_le(lo: u8, hi: u8) -> (r: u16)
    ensures
        r == spec_u16_from_le(lo, hi),
{
    (lo as u16) | ((hi as u16) << 8)
}

/// Appends `data[start..end]` to `out`.
pub(crate) fn push_slice_range(out: &mut Vec<u8>, data: &Vec<u8>, start: usize, end: usize)
    requires
        start <= end <= data@.len(),
    ensures
        final(out)@ == old(out)@ + data@.subrange(start as int, end as int),
{
    let mut i: usize = start;
    while i < end
        invariant
            start <= i <= end <= data@.len(),
            out@ == old(out)@ + data@.subrange(start as int, i as int),
        decreases end - i,
    {
        let b = data[i];
        out.push(b);
        proof {
            assert(out@ =~= old(out)@ + data@.subrange(start as int, (i + 1) as int));
        }
        i = i + 1;
    }
}

/// Appends all of `data` to `out`.
pub(crate) fn push_all(out: &mut Vec<u8>, data: &Vec<u8>)
    ensures
        final(out)@ == old(out)@ + data@,
{
    let len = data.len();
    push_slice_range(out, data, 0, len);
    proof {
        assert(data@.subrange(0, data@.len() as int) =~= data@);
    }
}

/// Length of a color table, in colors, described by the three-bit
/// size field of a packed descriptor byte.
pub open spec fn spec_packed_to_color_table_length(packed: u8) -> usize {
    1usize << ((packed & 0b111) + 1) as usize
}

/// Perform the algorithm to get the length of a color table from
/// the value of the packed field. The max value here is 256.
pub(crate) fn packed_to_color_table_length(packed: u8) -> (len: usize)
    requires
        packed < 8,
    ensures
        len == spec_packed_to_color_table_length(packed),
        2 <= len <= 256,
{
    proof {
        assert((packed & 0b111) < 8) by (bit_vector);
        assert(2 <= (1usize << (((packed & 0b111) + 1) as usize)) <= 256) by (bit_vector);
    }
    let size_field: u8 = (packed & 0b111) + 1;
    1usize << (size_field as usize)
}

} // verus!
