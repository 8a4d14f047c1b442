use vstd::prelude::*;

verus! {

// The three packed descriptor bytes of the format. Each field sits in a
// fixed bit region; setters clear the region and then or the new value
// in, so no setter disturbs a neighbouring field.

/// The packed byte of a graphic control extension:
/// `reserved(3) | disposal(3) | user_input(1) | transparent(1)`.
#[derive(Clone, Copy, Debug, PartialEq, Eq, Structural)]
pub struct GraphicPacked {
    pub raw: u8,
}

impl GraphicPacked {
    pub open spec fn spec_reserved(self) -> u8 {
        (self.raw & 0b1110_0000) >> 5
    }

    pub open spec fn spec_disposal_method(self) -> u8 {
        (self.raw & 0b0001_1100) >> 2
    }

    pub open spec fn spec_user_input(self) -> bool {
        self.raw & 0b0000_0010 != 0
    }

    pub open spec fn spec_transparent_flag(self) -> bool {
        self.raw & 0b0000_0001 != 0
    }

    pub(crate) fn new(packed: u8) -> (r: Self)
        ensures
            r.raw == packed,
    {
        Self { raw: packed }
    }

    pub fn reserved(&self) -> (r: u8)
        ensures
            r == self.spec_reserved(),
    {
        (self.raw & 0b1110_0000) >> 5
    }

    pub fn set_reserved(&mut self, reserved: u8)
        ensures
            final(self).raw == (old(self).raw & 0b0001_1111) | ((reserved & 0b0000_0111) << 5),
    {
        self.raw = (self.raw & 0b0001_1111) | ((reserved & 0b0000_0111) << 5);
    }

    pub fn disposal_method(&self) -> (r: u8)
        ensures
            r == self.spec_disposal_method(),
    {
        (self.raw & 0b0001_1100) >> 2
    }

    pub fn set_disposal_method(&mut self, disposal: u8)
        ensures
            final(self).raw == (old(self).raw & 0b1110_0011) | ((disposal & 0b0000_0111) << 2),
    {
        self.raw = (self.raw & 0b1110_0011) | ((disposal & 0b0000_0111) << 2);
    }

    pub fn user_input(&self) -> (r: bool)
        ensures
            r == self.spec_user_input(),
    {
        self.raw & 0b0000_0010 != 0
    }

    pub fn set_user_input(&mut self, flag: bool)
        ensures
            final(self).raw == if flag {
                old(self).raw | 0b0000_0010
            } else {
                old(self).raw & 0b1111_1101
            },
    {
        if flag {
            self.raw = self.raw | 0b0000_0010;
        } else {
            self.raw = self.raw & 0b1111_1101;
        }
    }

    pub fn transparent_flag(&self) -> (r: bool)
        ensures
            r == self.spec_transparent_flag(),
    {
        self.raw & 0b0000_0001 != 0
    }

    pub fn set_transparent_flag(&mut self, flag: bool)
        ensures
            final(self).raw == if flag {
                old(self).raw | 0b0000_0001
            } else {
                old(self).raw & 0b1111_1110
            },
    {
        if flag {
            self.raw = self.raw | 0b0000_0001;
        } else {
            self.raw = self.raw & 0b1111_1110;
        }
    }
}

/// Every setter of [`GraphicPacked`] stores the written value and leaves
/// the other fields of the byte as they were.
pub proof fn lemma_graphic_packed_setters(p: GraphicPacked, v: u8, f: bool)
    ensures
        (GraphicPacked { raw: (p.raw & 0b0001_1111) | ((v & 0b0000_0111) << 5) }).spec_reserved()
            == v & 0b0000_0111,
        (GraphicPacked {
            raw: (p.raw & 0b0001_1111) | ((v & 0b0000_0111) << 5),
        }).spec_disposal_method() == p.spec_disposal_method(),
        (GraphicPacked { raw: (p.raw & 0b0001_1111) | ((v & 0b0000_0111) << 5) }).spec_user_input()
            == p.spec_user_input(),
        (GraphicPacked {
            raw: (p.raw & 0b0001_1111) | ((v & 0b0000_0111) << 5),
        }).spec_transparent_flag() == p.spec_transparent_flag(),
        (GraphicPacked {
            raw: (p.raw & 0b1110_0011) | ((v & 0b0000_0111) << 2),
        }).spec_disposal_method() == v & 0b0000_0111,
        (GraphicPacked { raw: (p.raw & 0b1110_0011) | ((v & 0b0000_0111) << 2) }).spec_reserved()
            == p.spec_reserved(),
        (GraphicPacked { raw: (p.raw & 0b1110_0011) | ((v & 0b0000_0111) << 2) }).spec_user_input()
            == p.spec_user_input(),
        (GraphicPacked {
            raw: (p.raw & 0b1110_0011) | ((v & 0b0000_0111) << 2),
        }).spec_transparent_flag() == p.spec_transparent_flag(),
        (GraphicPacked {
            raw: if f { p.raw | 0b0000_0010 } else { p.raw & 0b1111_1101 },
        }).spec_user_input() == f,
        (GraphicPacked {
            raw: if f { p.raw | 0b0000_0010 } else { p.raw & 0b1111_1101 },
        }).spec_disposal_method() == p.spec_disposal_method(),
        (GraphicPacked { raw: if f { p.raw | 0b0000_0010 } else { p.raw & 0b1111_1101 } }).spec_reserved()
            == p.spec_reserved(),
        (GraphicPacked {
            raw: if f { p.raw | 0b0000_0010 } else { p.raw & 0b1111_1101 },
        }).spec_transparent_flag() == p.spec_transparent_flag(),
        (GraphicPacked {
            raw: if f { p.raw | 0b0000_0001 } else { p.raw & 0b1111_1110 },
        }).spec_transparent_flag() == f,
        (GraphicPacked {
            raw: if f { p.raw | 0b0000_0001 } else { p.raw & 0b1111_1110 },
        }).spec_disposal_method() == p.spec_disposal_method(),
        (GraphicPacked { raw: if f { p.raw | 0b0000_0001 } else { p.raw & 0b1111_1110 } }).spec_reserved()
            == p.spec_reserved(),
        (GraphicPacked {
            raw: if f { p.raw | 0b0000_0001 } else { p.raw & 0b1111_1110 },
        }).spec_user_input() == p.spec_user_input(),
{
    let raw = p.raw;
    assert({
        let sr = (raw & 0b0001_1111) | ((v & 0b0000_0111) << 5);
        let sd = (raw & 0b1110_0011) | ((v & 0b0000_0111) << 2);
        let su = if f { raw | 0b0000_0010 } else { raw & 0b1111_1101 };
        let st = if f { raw | 0b0000_0001 } else { raw & 0b1111_1110 };
        &&& (sr & 0b1110_0000) >> 5 == v & 0b0000_0111
        &&& (sr & 0b0001_1100) >> 2 == (raw & 0b0001_1100) >> 2
        &&& sr & 0b0000_0010 == raw & 0b0000_0010
        &&& sr & 0b0000_0001 == raw & 0b0000_0001
        &&& (sd & 0b0001_1100) >> 2 == v & 0b0000_0111
        &&& (sd & 0b1110_0000) >> 5 == (raw & 0b1110_0000) >> 5
        &&& sd & 0b0000_0010 == raw & 0b0000_0010
        &&& sd & 0b0000_0001 == raw & 0b0000_0001
        &&& (su & 0b0000_0010 != 0) == f
        &&& (su & 0b0001_1100) >> 2 == (raw & 0b0001_1100) >> 2
        &&& (su & 0b1110_0000) >> 5 == (raw & 0b1110_0000) >> 5
        &&& su & 0b0000_0001 == raw & 0b0000_0001
        &&& (st & 0b0000_0001 != 0) == f
        &&& (st & 0b0001_1100) >> 2 == (raw & 0b0001_1100) >> 2
        &&& (st & 0b1110_0000) >> 5 == (raw & 0b1110_0000) >> 5
        &&& st & 0b0000_0010 == raw & 0b0000_0010
    }) by (bit_vector);
}

/// The packed byte of an image descriptor:
/// `has_ct(1) | interlace(1) | sort(1) | reserved(2) | ct_size(3)`.
#[derive(Clone, Copy, Debug, PartialEq, Eq, Structural)]
pub struct ImagePacked {
    pub raw: u8,
}

impl ImagePacked {
    pub open spec fn spec_color_table(self) -> bool {
        self.raw & 0b1000_0000 != 0
    }

    pub open spec fn spec_interlaced(self) -> bool {
        self.raw & 0b0100_0000 != 0
    }

    pub open spec fn spec_sorted(self) -> bool {
        self.raw & 0b0010_0000 != 0
    }

    pub open spec fn spec_reserved_87a(self) -> u8 {
        (self.raw & 0b0011_1000) >> 3
    }

    pub open spec fn spec_reserved_89a(self) -> u8 {
        (self.raw & 0b0001_1000) >> 3
    }

    pub open spec fn spec_color_table_size(self) -> u8 {
        self.raw & 0b0000_0111
    }

    pub(crate) fn new(packed: u8) -> (r: Self)
        ensures
            r.raw == packed,
    {
        Self { raw: packed }
    }

    pub fn color_table(&self) -> (r: bool)
        ensures
            r == self.spec_color_table(),
    {
        self.raw & 0b1000_0000 != 0
    }

    pub fn set_color_table(&mut self, flag: bool)
        ensures
            final(self).raw == if flag {
                old(self).raw | 0b1000_0000
            } else {
                old(self).raw & 0b0111_1111
            },
    {
        if flag {
            self.raw = self.raw | 0b1000_0000;
        } else {
            self.raw = self.raw & 0b0111_1111;
        }
    }

    pub fn interlaced(&self) -> (r: bool)
        ensures
            r == self.spec_interlaced(),
    {
        self.raw & 0b0100_0000 != 0
    }

    pub fn set_interlaced(&mut self, flag: bool)
        ensures
            final(self).raw == if flag {
                old(self).raw | 0b0100_0000
            } else {
                old(self).raw & 0b1011_1111
            },
    {
        if flag {
            self.raw = self.raw | 0b0100_0000;
        } else {
            self.raw = self.raw & 0b1011_1111;
        }
    }

    pub fn sorted(&self) -> (r: bool)
        ensures
            r == self.spec_sorted(),
    {
        self.raw & 0b0010_0000 != 0
    }

    pub fn set_sorted(&mut self, flag: bool)
        ensures
            final(self).raw == if flag {
                old(self).raw | 0b0010_0000
            } else {
                old(self).raw & 0b1101_1111
            },
    {
        if flag {
            self.raw = self.raw | 0b0010_0000;
        } else {
            self.raw = self.raw & 0b1101_1111;
        }
    }

    /// There was no sort flag in the 87a format, so its reserved region
    /// is three bits wide.
    pub fn reserved_87a(&self) -> (r: u8)
        ensures
            r == self.spec_reserved_87a(),
    {
        (self.raw & 0b0011_1000) >> 3
    }

    pub fn set_reserved_87a(&mut self, reserved: u8)
        ensures
            final(self).raw == (old(self).raw & 0b1100_0111) | ((reserved & 0b0000_0111) << 3),
    {
        self.raw = (self.raw & 0b1100_0111) | ((reserved & 0b0000_0111) << 3);
    }

    pub fn reserved_89a(&self) -> (r: u8)
        ensures
            r == self.spec_reserved_89a(),
    {
        (self.raw & 0b0001_1000) >> 3
    }

    pub fn set_reserved_89a(&mut self, reserved: u8)
        ensures
            final(self).raw == (old(self).raw & 0b1110_0111) | ((reserved & 0b0000_0011) << 3),
    {
        self.raw = (self.raw & 0b1110_0111) | ((reserved & 0b0000_0011) << 3);
    }

    pub fn color_table_size(&self) -> (r: u8)
        ensures
            r == self.spec_color_table_size(),
            r < 8,
    {
        proof {
            let raw = self.raw;
            assert(raw & 0b0000_0111 < 8) by (bit_vector);
        }
        self.raw & 0b0000_0111
    }

    pub fn set_color_table_size(&mut self, size: u8)
        ensures
            final(self).raw == (old(self).raw & 0b1111_1000) | (size & 0b0000_0111),
    {
        self.raw = (self.raw & 0b1111_1000) | (size & 0b0000_0111);
    }
}

/// Every setter of [`ImagePacked`] stores the written value and leaves
/// the other fields of the byte as they were; shown here for the two
/// multi-bit regions and the table flag.
pub proof fn lemma_image_packed_setters(p: ImagePacked, v: u8, f: bool)
    ensures
        (ImagePacked {
            raw: (p.raw & 0b1111_1000) | (v & 0b0000_0111),
        }).spec_color_table_size() == v & 0b0000_0111,
        (ImagePacked { raw: (p.raw & 0b1111_1000) | (v & 0b0000_0111) }).spec_color_table()
            == p.spec_color_table(),
        (ImagePacked { raw: (p.raw & 0b1111_1000) | (v & 0b0000_0111) }).spec_interlaced()
            == p.spec_interlaced(),
        (ImagePacked { raw: (p.raw & 0b1111_1000) | (v & 0b0000_0111) }).spec_sorted()
            == p.spec_sorted(),
        (ImagePacked { raw: (p.raw & 0b1111_1000) | (v & 0b0000_0111) }).spec_reserved_89a()
            == p.spec_reserved_89a(),
        (ImagePacked {
            raw: (p.raw & 0b1110_0111) | ((v & 0b0000_0011) << 3),
        }).spec_reserved_89a() == v & 0b0000_0011,
        (ImagePacked {
            raw: (p.raw & 0b1110_0111) | ((v & 0b0000_0011) << 3),
        }).spec_color_table_size() == p.spec_color_table_size(),
        (ImagePacked {
            raw: if f { p.raw | 0b1000_0000 } else { p.raw & 0b0111_1111 },
        }).spec_color_table() == f,
        (ImagePacked {
            raw: if f { p.raw | 0b1000_0000 } else { p.raw & 0b0111_1111 },
        }).spec_interlaced() == p.spec_interlaced(),
        (ImagePacked {
            raw: if f { p.raw | 0b1000_0000 } else { p.raw & 0b0111_1111 },
        }).spec_sorted() == p.spec_sorted(),
        (ImagePacked {
            raw: if f { p.raw | 0b1000_0000 } else { p.raw & 0b0111_1111 },
        }).spec_color_table_size() == p.spec_color_table_size(),
{
    let raw = p.raw;
    assert({
        let ss = (raw & 0b1111_1000) | (v & 0b0000_0111);
        let sv = (raw & 0b1110_0111) | ((v & 0b0000_0011) << 3);
        let sc = if f { raw | 0b1000_0000 } else { raw & 0b0111_1111 };
        &&& ss & 0b0000_0111 == v & 0b0000_0111
        &&& (ss & 0b1000_0000 != 0) == (raw & 0b1000_0000 != 0)
        &&& (ss & 0b0100_0000 != 0) == (raw & 0b0100_0000 != 0)
        &&& (ss & 0b0010_0000 != 0) == (raw & 0b0010_0000 != 0)
        &&& (ss & 0b0001_1000) >> 3 == (raw & 0b0001_1000) >> 3
        &&& (sv & 0b0001_1000) >> 3 == v & 0b0000_0011
        &&& sv & 0b0000_0111 == raw & 0b0000_0111
        &&& (sc & 0b1000_0000 != 0) == f
        &&& (sc & 0b0100_0000 != 0) == (raw & 0b0100_0000 != 0)
        &&& (sc & 0b0010_0000 != 0) == (raw & 0b0010_0000 != 0)
        &&& sc & 0b0000_0111 == raw & 0b0000_0111
    }) by (bit_vector);
}

/// The packed byte of a logical screen descriptor:
/// `has_ct(1) | color_resolution(3) | sort(1) | ct_size(3)`.
#[derive(Clone, Copy, Debug, PartialEq, Eq, Structural)]
pub struct ScreenPacked {
    pub raw: u8,
}

impl ScreenPacked {
    pub open spec fn spec_color_table(self) -> bool {
        self.raw & 0b1000_0000 != 0
    }

    pub open spec fn spec_color_resolution(self) -> u8 {
        (self.raw & 0b0111_0000) >> 4
    }

    pub open spec fn spec_sorted(self) -> bool {
        self.raw & 0b0000_1000 != 0
    }

    pub open spec fn spec_color_table_size(self) -> u8 {
        self.raw & 0b0000_0111
    }

    pub fn color_table(&self) -> (r: bool)
        ensures
            r == self.spec_color_table(),
    {
        self.raw & 0b1000_0000 != 0
    }

    pub fn set_color_table(&mut self, flag: bool)
        ensures
            final(self).raw == if flag {
                old(self).raw | 0b1000_0000
            } else {
                old(self).raw & 0b0111_1111
            },
    {
        if flag {
            self.raw = self.raw | 0b1000_0000;
        } else {
            self.raw = self.raw & 0b0111_1111;
        }
    }

    pub fn color_resolution(&self) -> (r: u8)
        ensures
            r == self.spec_color_resolution(),
    {
        (self.raw & 0b0111_0000) >> 4
    }

    pub fn set_color_resolution(&mut self, resolution: u8)
        ensures
            final(self).raw == (old(self).raw & 0b1000_1111) | ((resolution & 0b0000_0111) << 4),
    {
        self.raw = (self.raw & 0b1000_1111) | ((resolution & 0b0000_0111) << 4);
    }

    pub fn sorted(&self) -> (r: bool)
        ensures
            r == self.spec_sorted(),
    {
        self.raw & 0b0000_1000 != 0
    }

    pub fn set_sorted(&mut self, flag: bool)
        ensures
            final(self).raw == if flag {
                old(self).raw | 0b0000_1000
            } else {
                old(self).raw & 0b1111_0111
            },
    {
        if flag {
            self.raw = self.raw | 0b0000_1000;
        } else {
            self.raw = self.raw & 0b1111_0111;
        }
    }

    pub fn color_table_size(&self) -> (r: u8)
        ensures
            r == self.spec_color_table_size(),
            r < 8,
    {
        proof {
            let raw = self.raw;
            assert(raw & 0b0000_0111 < 8) by (bit_vector);
        }
        self.raw & 0b0000_0111
    }

    pub fn set_color_table_size(&mut self, size: u8)
        ensures
            final(self).raw == (old(self).raw & 0b1111_1000) | (size & 0b0000_0111),
    {
        self.raw = (self.raw & 0b1111_1000) | (size & 0b0000_0111);
    }
}

/// Every setter of [`ScreenPacked`] stores the written value and leaves
/// the other fields of the byte as they were.
pub proof fn lemma_screen_packed_setters(p: ScreenPacked, v: u8, f: bool)
    ensures
        (ScreenPacked {
            raw: (p.raw & 0b1111_1000) | (v & 0b0000_0111),
        }).spec_color_table_size() == v & 0b0000_0111,
        (ScreenPacked { raw: (p.raw & 0b1111_1000) | (v & 0b0000_0111) }).spec_color_table()
            == p.spec_color_table(),
        (ScreenPacked { raw: (p.raw & 0b1111_1000) | (v & 0b0000_0111) }).spec_color_resolution()
            == p.spec_color_resolution(),
        (ScreenPacked { raw: (p.raw & 0b1111_1000) | (v & 0b0000_0111) }).spec_sorted()
            == p.spec_sorted(),
        (ScreenPacked {
            raw: (p.raw & 0b1000_1111) | ((v & 0b0000_0111) << 4),
        }).spec_color_resolution() == v & 0b0000_0111,
        (ScreenPacked {
            raw: (p.raw & 0b1000_1111) | ((v & 0b0000_0111) << 4),
        }).spec_color_table_size() == p.spec_color_table_size(),
        (ScreenPacked { raw: (p.raw & 0b1000_1111) | ((v & 0b0000_0111) << 4) }).spec_color_table()
            == p.spec_color_table(),
        (ScreenPacked { raw: (p.raw & 0b1000_1111) | ((v & 0b0000_0111) << 4) }).spec_sorted()
            == p.spec_sorted(),
        (ScreenPacked {
            raw: if f { p.raw | 0b1000_0000 } else { p.raw & 0b0111_1111 },
        }).spec_color_table() == f,
        (ScreenPacked {
            raw: if f { p.raw | 0b1000_0000 } else { p.raw & 0b0111_1111 },
        }).spec_color_resolution() == p.spec_color_resolution(),
        (ScreenPacked {
            raw: if f { p.raw | 0b1000_0000 } else { p.raw & 0b0111_1111 },
        }).spec_sorted() == p.spec_sorted(),
        (ScreenPacked {
            raw: if f { p.raw | 0b1000_0000 } else { p.raw & 0b0111_1111 },
        }).spec_color_table_size() == p.spec_color_table_size(),
{
    let raw = p.raw;
    assert({
        let ss = (raw & 0b1111_1000) | (v & 0b0000_0111);
        let sr = (raw & 0b1000_1111) | ((v & 0b0000_0111) << 4);
        let sc = if f { raw | 0b1000_0000 } else { raw & 0b0111_1111 };
        &&& ss & 0b0000_0111 == v & 0b0000_0111
        &&& (ss & 0b1000_0000 != 0) == (raw & 0b1000_0000 != 0)
        &&& (ss & 0b0111_0000) >> 4 == (raw & 0b0111_0000) >> 4
        &&& (ss & 0b0000_1000 != 0) == (raw & 0b0000_1000 != 0)
        &&& (sr & 0b0111_0000) >> 4 == v & 0b0000_0111
        &&& sr & 0b0000_0111 == raw & 0b0000_0111
        &&& (sr & 0b1000_0000 != 0) == (raw & 0b1000_0000 != 0)
        &&& (sr & 0b0000_1000 != 0) == (raw & 0b0000_1000 != 0)
        &&& (sc & 0b1000_0000 != 0) == f
        &&& (sc & 0b0111_0000) >> 4 == (raw & 0b0111_0000) >> 4
        &&& (sc & 0b0000_1000 != 0) == (raw & 0b0000_1000 != 0)
        &&& sc & 0b0000_0111 == raw & 0b0000_0111
    }) by (bit_vector);
}

} // verus!
