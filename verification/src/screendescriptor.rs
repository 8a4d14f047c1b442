use vstd::prelude::*;

use crate::packed::ScreenPacked;
use crate::palette::{spec_packed_len, Palette};
use crate::{spec_packed_to_color_table_length, spec_u16_from_le, spec_u16_le};

verus! {

/// The seven bytes of the logical screen descriptor: width, height
/// (little-endian), the packed flag byte, the background color index
/// and the pixel aspect ratio.
pub open spec fn spec_screen_descriptor_bytes(sd: ScreenDescriptor) -> Seq<u8> {
    spec_u16_le(sd.width) + spec_u16_le(sd.height) + seq![
        sd.packed.raw,
        sd.background_color_index,
        sd.pixel_aspect_ratio,
    ]
}

/// The logical screen descriptor that follows the magic bytes.
#[derive(Clone, Copy, Debug, PartialEq, Eq, Structural)]
pub struct ScreenDescriptor {
    pub width: u16,
    pub height: u16,
    pub packed: ScreenPacked,
    pub background_color_index: u8,
    pub pixel_aspect_ratio: u8,
}

impl ScreenDescriptor {
    pub open spec fn spec_has_color_table(self) -> bool {
        self.packed.spec_color_table()
    }

    pub open spec fn spec_color_table_len(self) -> usize {
        spec_packed_to_color_table_length(self.packed.spec_color_table_size())
    }

    pub fn new(width: u16, height: u16) -> (r: Self)
        ensures
            r == (ScreenDescriptor {
                width,
                height,
                packed: ScreenPacked { raw: 0 },
                background_color_index: 0,
                pixel_aspect_ratio: 0,
            }),
    {
        Self {
            width,
            height,
            packed: ScreenPacked { raw: 0 },
            background_color_index: 0,
            pixel_aspect_ratio: 0,
        }
    }

    /// This data structure **does not** contain the color table, only a
    /// flag to indicate if one is present, and its size.
    pub fn set_color_table_metadata(&mut self, table: Option<&Palette>)
        requires
            match table {
                Some(p) => p.wf(),
                None => true,
            },
        ensures
            final(self).width == old(self).width,
            final(self).height == old(self).height,
            final(self).background_color_index == old(self).background_color_index,
            final(self).pixel_aspect_ratio == old(self).pixel_aspect_ratio,
            final(self).packed.spec_color_resolution() == old(self).packed.spec_color_resolution(),
            final(self).packed.spec_sorted() == old(self).packed.spec_sorted(),
            match table {
                Some(p) => final(self).packed.spec_color_table()
                    && final(self).packed.spec_color_table_size() == spec_packed_len(p@.len())
                    && final(self).packed.raw == ((old(self).packed.raw | 0b1000_0000)
                    & 0b1111_1000) | (spec_packed_len(p@.len()) & 0b0000_0111),
                None => !final(self).packed.spec_color_table()
                    && final(self).packed.spec_color_table_size() == 0 && final(self).packed.raw
                    == ((old(self).packed.raw & 0b0111_1111) & 0b1111_1000) | 0,
            },
    {
        match table {
            Some(table) => {
                let size = table.packed_len();
                let ghost mid0 = self.packed;
                self.packed.set_color_table(true);
                let ghost mid1 = self.packed;
                self.packed.set_color_table_size(size);
                proof {
                    crate::packed::lemma_screen_packed_setters(mid0, size, true);
                    crate::packed::lemma_screen_packed_setters(mid1, size, true);
                    assert(size & 0b0000_0111 == size) by (bit_vector)
                        requires
                            size < 8,
                    ;
                }
            },
            None => {
                let ghost mid0 = self.packed;
                self.packed.set_color_table(false);
                let ghost mid1 = self.packed;
                self.packed.set_color_table_size(0);
                proof {
                    crate::packed::lemma_screen_packed_setters(mid0, 0, false);
                    crate::packed::lemma_screen_packed_setters(mid1, 0, false);
                    assert(0u8 & 0b0000_0111 == 0) by (bit_vector);
                }
            },
        }
    }

    pub fn has_color_table(&self) -> (r: bool)
        ensures
            r == self.spec_has_color_table(),
    {
        self.packed.color_table()
    }

    /// The color count the table-size field announces: a power of two
    /// that may exceed the logical color count of the table written.
    pub fn color_table_len(&self) -> (r: usize)
        ensures
            r == self.spec_color_table_len(),
            2 <= r <= 256,
    {
        let size = self.packed.color_table_size();
        crate::packed_to_color_table_length(size)
    }

    pub fn as_bytes(&self) -> (r: Vec<u8>)
        ensures
            r@ == spec_screen_descriptor_bytes(*self),
            r@.len() == 7,
    {
        let mut v: Vec<u8> = Vec::new();
        v.push(crate::u16_lo(self.width));
        v.push(crate::u16_hi(self.width));
        v.push(crate::u16_lo(self.height));
        v.push(crate::u16_hi(self.height));
        v.push(self.packed.raw);
        v.push(self.background_color_index);
        v.push(self.pixel_aspect_ratio);
        proof {
            assert(v@ =~= spec_screen_descriptor_bytes(*self));
        }
        v
    }

    /// Reads the descriptor back from its seven wire bytes.
    pub fn from_bytes(bytes: &Vec<u8>) -> (r: Self)
        requires
            bytes@.len() == 7,
        ensures
            r.width == spec_u16_from_le(bytes@[0], bytes@[1]),
            r.height == spec_u16_from_le(bytes@[2], bytes@[3]),
            r.packed.raw == bytes@[4],
            r.background_color_index == bytes@[5],
            r.pixel_aspect_ratio == bytes@[6],
    {
        Self {
            width: crate::u16_from_le(bytes[0], bytes[1]),
            height: crate::u16_from_le(bytes[2], bytes[3]),
            packed: ScreenPacked { raw: bytes[4] },
            background_color_index: bytes[5],
            pixel_aspect_ratio: bytes[6],
        }
    }
}

/// Reading a serialized screen descriptor back yields the descriptor
/// it was written from.
pub proof fn lemma_screen_descriptor_round_trip(sd: ScreenDescriptor)
    ensures
        ({
            let b = spec_screen_descriptor_bytes(sd);
            &&& b.len() == 7
            &&& spec_u16_from_le(b[0], b[1]) == sd.width
            &&& spec_u16_from_le(b[2], b[3]) == sd.height
            &&& b[4] == sd.packed.raw
            &&& b[5] == sd.background_color_index
            &&& b[6] == sd.pixel_aspect_ratio
        }),
{
    crate::lemma_u16_le_round_trip(sd.width, 0, 0);
    crate::lemma_u16_le_round_trip(sd.height, 0, 0);
}

} // verus!
