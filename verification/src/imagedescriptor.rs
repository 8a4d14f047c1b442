use vstd::prelude::*;

use crate::packed::ImagePacked;
use crate::palette::{spec_packed_len, Palette};
use crate::{spec_packed_to_color_table_length, spec_u16_from_le, spec_u16_le};

verus! {

/// The ten bytes an image descriptor serializes to: the `0x2C`
/// separator, then left, top, width, height (little-endian) and the
/// packed flag byte.
pub open spec fn spec_image_descriptor_bytes(d: ImageDescriptor) -> Seq<u8> {
    seq![0x2Cu8] + spec_u16_le(d.left) + spec_u16_le(d.top) + spec_u16_le(d.width) + spec_u16_le(
        d.height,
    ) + seq![d.packed.raw]
}

/// The descriptor that opens every image block.
#[derive(Clone, Copy, Debug, PartialEq, Eq, Structural)]
pub struct ImageDescriptor {
    pub left: u16,
    pub top: u16,
    pub width: u16,
    pub height: u16,
    pub packed: ImagePacked,
}

impl ImageDescriptor {
    pub open spec fn spec_has_color_table(self) -> bool {
        self.packed.spec_color_table()
    }

    pub open spec fn spec_color_table_size(self) -> usize {
        spec_packed_to_color_table_length(self.packed.spec_color_table_size())
    }

    /// This data structure **does not** contain the color table, only a
    /// flag to indicate if one is present, and its size.
    pub fn set_color_table_metadata(&mut self, table: Option<&Palette>)
        requires
            match table {
                Some(p) => p.wf(),
                None => true,
            },
        ensures
            final(self).left == old(self).left,
            final(self).top == old(self).top,
            final(self).width == old(self).width,
            final(self).height == old(self).height,
            final(self).packed.spec_interlaced() == old(self).packed.spec_interlaced(),
            final(self).packed.spec_sorted() == old(self).packed.spec_sorted(),
            match table {
                Some(p) => final(self).packed.spec_color_table()
                    && final(self).packed.spec_color_table_size() == spec_packed_len(p@.len())
                    && final(self).packed.raw == ((old(self).packed.raw | 0b1000_0000)
                    & 0b1111_1000) | (spec_packed_len(p@.len()) & 0b0000_0111),
                None => !final(self).packed.spec_color_table()
                    && final(self).packed.spec_color_table_size() == 0 && final(self).packed.raw
                    == ((old(self).packed.raw & 0b0111_1111) & 0b1111_1000) | 0,
            },
    {
        match table {
            Some(table) => {
                let size = table.packed_len();
                let ghost mid0 = self.packed;
                self.packed.set_color_table(true);
                let ghost mid1 = self.packed;
                self.packed.set_color_table_size(size);
                proof {
                    crate::packed::lemma_image_packed_setters(mid0, size, true);
                    crate::packed::lemma_image_packed_setters(mid1, size, true);
                    assert(size & 0b0000_0111 == size) by (bit_vector)
                        requires
                            size < 8,
                    ;
                }
            },
            None => {
                let ghost mid0 = self.packed;
                self.packed.set_color_table(false);
                let ghost mid1 = self.packed;
                self.packed.set_color_table_size(0);
                proof {
                    crate::packed::lemma_image_packed_setters(mid0, 0, false);
                    crate::packed::lemma_image_packed_setters(mid1, 0, false);
                    assert(0u8 & 0b0000_0111 == 0) by (bit_vector);
                }
            },
        }
    }

    pub fn has_color_table(&self) -> (r: bool)
        ensures
            r == self.spec_has_color_table(),
    {
        self.packed.color_table()
    }

    /// The color count the table-size field announces: a power of two
    /// that may exceed the logical color count of the table written.
    pub fn color_table_size(&self) -> (r: usize)
        ensures
            r == self.spec_color_table_size(),
            2 <= r <= 256,
    {
        let size = self.packed.color_table_size();
        crate::packed_to_color_table_length(size)
    }

    pub fn as_bytes(&self) -> (r: Vec<u8>)
        ensures
            r@ == spec_image_descriptor_bytes(*self),
            r@.len() == 10,
    {
        let mut v: Vec<u8> = Vec::new();
        v.push(0x2C);
        v.push(crate::u16_lo(self.left));
        v.push(crate::u16_hi(self.left));
        v.push(crate::u16_lo(self.top));
        v.push(crate::u16_hi(self.top));
        v.push(crate::u16_lo(self.width));
        v.push(crate::u16_hi(self.width));
        v.push(crate::u16_lo(self.height));
        v.push(crate::u16_hi(self.height));
        v.push(self.packed.raw);
        proof {
            assert(v@ =~= spec_image_descriptor_bytes(*self));
        }
        v
    }

    /// Reads a descriptor from its nine wire bytes, the ones that
    /// follow the `0x2C` separator.
    pub fn from_bytes(bytes: &Vec<u8>) -> (r: Self)
        requires
            bytes@.len() == 9,
        ensures
            r.left == spec_u16_from_le(bytes@[0], bytes@[1]),
            r.top == spec_u16_from_le(bytes@[2], bytes@[3]),
            r.width == spec_u16_from_le(bytes@[4], bytes@[5]),
            r.height == spec_u16_from_le(bytes@[6], bytes@[7]),
            r.packed.raw == bytes@[8],
    {
        Self {
            left: crate::u16_from_le(bytes[0], bytes[1]),
            top: crate::u16_from_le(bytes[2], bytes[3]),
            width: crate::u16_from_le(bytes[4], bytes[5]),
            height: crate::u16_from_le(bytes[6], bytes[7]),
            packed: ImagePacked { raw: bytes[8] },
        }
    }
}

/// Reading a serialized image descriptor back (past its separator
/// byte) yields the descriptor it was written from.
pub proof fn lemma_image_descriptor_round_trip(d: ImageDescriptor)
    ensures
        ({
            let b = spec_image_descriptor_bytes(d);
            &&& b.len() == 10
            &&& b[0] == 0x2C
            &&& spec_u16_from_le(b[1], b[2]) == d.left
            &&& spec_u16_from_le(b[3], b[4]) == d.top
            &&& spec_u16_from_le(b[5], b[6]) == d.width
            &&& spec_u16_from_le(b[7], b[8]) == d.height
            &&& b[9] == d.packed.raw
        }),
{
    crate::lemma_u16_le_round_trip(d.left, 0, 0);
    crate::lemma_u16_le_round_trip(d.top, 0, 0);
    crate::lemma_u16_le_round_trip(d.width, 0, 0);
    crate::lemma_u16_le_round_trip(d.height, 0, 0);
}

} // verus!
