use vstd::prelude::*;

use crate::color::Color;
use crate::writer::EncodeError;

verus! {

/// The three-bit size field stored for a table of `len` colors:
/// the ceiling of log2 minus one, clamped at 0 for `len <= 2`.
pub open spec fn spec_packed_len(len: nat) -> u8 {
    if len <= 2 {
        0
    } else if len <= 4 {
        1
    } else if len <= 8 {
        2
    } else if len <= 16 {
        3
    } else if len <= 32 {
        4
    } else if len <= 64 {
        5
    } else if len <= 128 {
        6
    } else {
        7
    }
}

/// The number of colors a decoder thinks a table of `len` colors has:
/// `len` rounded up to a power of two, at least 2.
pub open spec fn spec_computed_len(len: nat) -> nat {
    if len <= 2 {
        2
    } else if len <= 4 {
        4
    } else if len <= 8 {
        8
    } else if len <= 16 {
        16
    } else if len <= 32 {
        32
    } else if len <= 64 {
        64
    } else if len <= 128 {
        128
    } else {
        256
    }
}

/// The initial LZW code width minus one for a table of `len` colors:
/// the ceiling of log2, forced to at least 2.
pub open spec fn spec_lzw_code_size(len: nat) -> u8 {
    if len <= 4 {
        2
    } else if len <= 8 {
        3
    } else if len <= 16 {
        4
    } else if len <= 32 {
        5
    } else if len <= 64 {
        6
    } else if len <= 128 {
        7
    } else {
        8
    }
}

/// The serialized color table: the RGB triples in order, zero-padded to
/// three bytes per computed (power-of-two) color count.
pub open spec fn spec_palette_bytes(s: Seq<Color>) -> Seq<u8> {
    Seq::new(
        3 * spec_computed_len(s.len()),
        |i: int|
            if i < 3 * s.len() {
                if i % 3 == 0 {
                    s[i / 3].r
                } else if i % 3 == 1 {
                    s[i / 3].g
                } else {
                    s[i / 3].b
                }
            } else {
                0
            },
    )
}

/// An ordered sequence of colors, at most 256 of them.
#[derive(Clone, Debug)]
pub struct Palette {
    table: Vec<Color>,
}

impl Palette {
    pub closed spec fn view(&self) -> Seq<Color> {
        self.table@
    }

    /// The length bound that every palette keeps.
    pub open spec fn wf(&self) -> bool {
        self@.len() <= 256
    }

    pub fn new() -> (p: Palette)
        ensures
            p@ == Seq::<Color>::empty(),
            p.wf(),
    {
        Palette { table: Vec::new() }
    }

    /// Returns the number of colors in the palette.
    pub fn len(&self) -> (r: usize)
        ensures
            r == self@.len(),
    {
        self.table.len()
    }

    pub fn is_empty(&self) -> (r: bool)
        ensures
            r == (self@.len() == 0),
    {
        self.table.len() == 0
    }

    /// The three-bit table-size field stored in descriptor flag bytes.
    pub fn packed_len(&self) -> (r: u8)
        requires
            self.wf(),
        ensures
            r == spec_packed_len(self@.len()),
            r < 8,
    {
        let n = self.table.len();
        if n <= 2 {
            0
        } else if n <= 4 {
            1
        } else if n <= 8 {
            2
        } else if n <= 16 {
            3
        } else if n <= 32 {
            4
        } else if n <= 64 {
            5
        } else if n <= 128 {
            6
        } else {
            7
        }
    }

    /// The number of colors the decoder *thinks* is in the palette:
    /// `2^(n + 1)` where `n = packed_len`.
    pub fn computed_len(&self) -> (r: usize)
        requires
            self.wf(),
        ensures
            r == spec_computed_len(self@.len()),
            self@.len() <= r <= 256,
    {
        let n = self.table.len();
        if n <= 2 {
            2
        } else if n <= 4 {
            4
        } else if n <= 8 {
            8
        } else if n <= 16 {
            16
        } else if n <= 32 {
            32
        } else if n <= 64 {
            64
        } else if n <= 128 {
            128
        } else {
            256
        }
    }

    /// The initial LZW code size for this palette, always at least 2.
    pub fn lzw_code_size(&self) -> (r: u8)
        requires
            self.wf(),
        ensures
            r == spec_lzw_code_size(self@.len()),
            2 <= r <= 8,
    {
        let n = self.table.len();
        if n <= 4 {
            2
        } else if n <= 8 {
            3
        } else if n <= 16 {
            4
        } else if n <= 32 {
            5
        } else if n <= 64 {
            6
        } else if n <= 128 {
            7
        } else {
            8
        }
    }

    /// Pushes a color on to the end of the table.
    pub fn push(&mut self, color: Color)
        requires
            old(self)@.len() < 256,
        ensures
            final(self)@ == old(self)@.push(color),
            final(self).wf(),
    {
        self.table.push(color);
    }

    pub fn get(&self, index: u8) -> (r: Option<Color>)
        ensures
            r == if index < self@.len() {
                Some(self@[index as int])
            } else {
                Option::<Color>::None
            },
    {
        if (index as usize) < self.table.len() {
            Some(self.table[index as usize])
        } else {
            None
        }
    }

    /// The first index holding `color`, if the palette holds it at all.
    pub fn from_color(&self, color: Color) -> (r: Option<u8>)
        requires
            self.wf(),
        ensures
            match r {
                Some(i) => i < self@.len() && self@[i as int] == color && forall|j: int|
                    0 <= j < i ==> self@[j] != color,
                None => forall|j: int| 0 <= j < self@.len() ==> self@[j] != color,
            },
    {
        let mut i: usize = 0;
        while i < self.table.len()
            invariant
                self.wf(),
                i <= self@.len(),
                forall|j: int| 0 <= j < i ==> self@[j] != color,
            decreases self@.len() - i,
        {
            if self.table[i] == color {
                return Some(i as u8);
            }
            i = i + 1;
        }
        None
    }

    /// How many padding bytes serialization appends: the color table is
    /// written at its power-of-two rounded size.
    fn padding(&self) -> (r: usize)
        requires
            self.wf(),
        ensures
            r == 3 * (spec_computed_len(self@.len()) - self@.len()),
    {
        let comp = self.computed_len();
        (comp - self.table.len()) * 3
    }

    /// The palette bytes, zero-padded to the computed length.
    pub fn as_bytes(&self) -> (r: Vec<u8>)
        requires
            self.wf(),
        ensures
            r@ == spec_palette_bytes(self@),
    {
        let mut bytes: Vec<u8> = Vec::new();
        let mut i: usize = 0;
        while i < self.table.len()
            invariant
                self.wf(),
                i <= self@.len(),
                bytes@.len() == 3 * i,
                forall|j: int| 0 <= j < 3 * i ==> bytes@[j] == spec_palette_bytes(self@)[j],
            decreases self@.len() - i,
        {
            let c = self.table[i];
            bytes.push(c.r);
            bytes.push(c.g);
            bytes.push(c.b);
            i = i + 1;
        }
        let pad = self.padding();
        let mut p: usize = 0;
        while p < pad
            invariant
                self.wf(),
                pad == 3 * (spec_computed_len(self@.len()) - self@.len()),
                p <= pad,
                bytes@.len() == 3 * self@.len() + p,
                forall|j: int| 0 <= j < bytes@.len() ==> bytes@[j] == spec_palette_bytes(self@)[j],
            decreases pad - p,
        {
            bytes.push(0);
            p = p + 1;
        }
        proof {
            assert(bytes@ =~= spec_palette_bytes(self@));
        }
        bytes
    }

    /// Builds a palette from a flat RGB byte sequence; refused unless the
    /// length is a multiple of three or more than 256 colors arrive.
    pub fn try_from_rgb_bytes(value: &[u8]) -> (r: Result<Palette, EncodeError>)
        ensures
            match r {
                Ok(p) => value@.len() % 3 == 0 && value@.len() <= 768 && p@.len() == value@.len()
                    / 3 && p.wf() && forall|i: int|
                    0 <= i < p@.len() ==> p@[i] == (Color {
                        r: value@[3 * i],
                        g: value@[3 * i + 1],
                        b: value@[3 * i + 2],
                    }),
                Err(EncodeError::TooManyColors) => value@.len() % 3 == 0 && value@.len() > 768,
                Err(e) => !(e is TooManyColors) && value@.len() % 3 != 0,
            },
    {
        if value.len() % 3 != 0 {
            return Err(EncodeError::InvalidCodeSize { lzw_code_size: 0 });
        }
        if value.len() > 768 {
            return Err(EncodeError::TooManyColors);
        }
        let count = value.len() / 3;
        let mut table: Vec<Color> = Vec::new();
        let mut i: usize = 0;
        while i < count
            invariant
                value@.len() == 3 * count,
                i <= count,
                count <= 256,
                table@.len() == i,
                forall|k: int| 0 <= k < i ==> table@[k] == (Color {
                    r: value@[3 * k],
                    g: value@[3 * k + 1],
                    b: value@[3 * k + 2],
                }),
            decreases count - i,
        {
            table.push(
                Color { r: value[3 * i], g: value[3 * i + 1], b: value[3 * i + 2] },
            );
            i = i + 1;
        }
        Ok(Palette { table })
    }

    /// Builds a palette from a color vector; refused over 256 colors.
    pub fn try_from_colors(value: Vec<Color>) -> (r: Result<Palette, EncodeError>)
        ensures
            match r {
                Ok(p) => value@.len() <= 256 && p@ == value@ && p.wf(),
                Err(e) => e is TooManyColors && value@.len() > 256,
            },
    {
        if value.len() > 256 {
            Err(EncodeError::TooManyColors)
        } else {
            Ok(Palette { table: value })
        }
    }

    /// Builds a palette from a vector of RGB triples; refused over 256.
    pub fn try_from_triples(value: Vec<(u8, u8, u8)>) -> (r: Result<Palette, EncodeError>)
        ensures
            match r {
                Ok(p) => value@.len() <= 256 && p.wf() && p@.len() == value@.len() && forall|
                    i: int,
                |
                    0 <= i < value@.len() ==> p@[i] == (Color {
                        r: value@[i].0,
                        g: value@[i].1,
                        b: value@[i].2,
                    }),
                Err(e) => e is TooManyColors && value@.len() > 256,
            },
    {
        if value.len() > 256 {
            return Err(EncodeError::TooManyColors);
        }
        let mut table: Vec<Color> = Vec::new();
        let mut i: usize = 0;
        while i < value.len()
            invariant
                i <= value@.len(),
                value@.len() <= 256,
                table@.len() == i,
                forall|k: int| 0 <= k < i ==> table@[k] == (Color {
                    r: value@[k].0,
                    g: value@[k].1,
                    b: value@[k].2,
                }),
            decreases value@.len() - i,
        {
            let t = value[i];
            table.push(Color { r: t.0, g: t.1, b: t.2 });
            i = i + 1;
        }
        Ok(Palette { table })
    }
}

/// The color-for-color comparison the format cares about: same length
/// and every color of `other` appears somewhere in `self`.
impl PartialEq for Palette {
    fn eq(&self, other: &Self) -> (r: bool) {
        if self.table.len() != other.table.len() {
            return false;
        }
        let mut i: usize = 0;
        while i < other.table.len()
            invariant
                self@.len() == other@.len(),
                i <= other@.len(),
                forall|j: int| 0 <= j < i ==> self@.contains(other@[j]),
            decreases other@.len() - i,
        {
            let c = other.table[i];
            let mut found = false;
            let mut k: usize = 0;
            while k < self.table.len()
                invariant
                    k <= self@.len(),
                    found == exists|j: int| 0 <= j < k && self@[j] == c,
                decreases self@.len() - k,
            {
                if self.table[k] == c {
                    found = true;
                }
                k = k + 1;
            }
            if !found {
                return false;
            }
            i = i + 1;
        }
        true
    }
}

impl vstd::std_specs::cmp::PartialEqSpecImpl for Palette {
    open spec fn obeys_eq_spec() -> bool {
        true
    }

    open spec fn eq_spec(&self, other: &Palette) -> bool {
        self@.len() == other@.len() && forall|j: int|
            0 <= j < other@.len() ==> self@.contains(other@[j])
    }
}

/// The serialized palette is three bytes per color rounded up to a power
/// of two: it is `3 * 2^(packed_len + 1)` bytes, at least `3 * len`, and
/// its first `3 * len` bytes are the RGB triples in order.
pub proof fn lemma_palette_bytes_shape(s: Seq<Color>)
    requires
        1 <= s.len() <= 256,
    ensures
        spec_palette_bytes(s).len() == 3 * vstd::arithmetic::power2::pow2(
            (spec_packed_len(s.len()) + 1) as nat,
        ),
        spec_palette_bytes(s).len() >= 3 * s.len(),
        forall|i: int|
            0 <= i < s.len() ==> {
                &&& spec_palette_bytes(s)[3 * i] == s[i].r
                &&& spec_palette_bytes(s)[3 * i + 1] == s[i].g
                &&& spec_palette_bytes(s)[3 * i + 2] == s[i].b
            },
{
    vstd::arithmetic::power2::lemma2_to64();
    assert forall|i: int| 0 <= i < s.len() implies {
        &&& spec_palette_bytes(s)[3 * i] == s[i].r
        &&& spec_palette_bytes(s)[3 * i + 1] == s[i].g
        &&& spec_palette_bytes(s)[3 * i + 2] == s[i].b
    } by {
        assert((3 * i) % 3 == 0 && (3 * i + 1) % 3 == 1 && (3 * i + 2) % 3 == 2) by (nonlinear_arith);
        assert((3 * i) / 3 == i && (3 * i + 1) / 3 == i && (3 * i + 2) / 3 == i) by (nonlinear_arith);
    }
}

} // verus!
