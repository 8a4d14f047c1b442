use vstd::prelude::*;

use crate::color::Color;
use crate::palette::Palette;
use crate::reader::DecodeError;

verus! {

/// Whether every index resolves: it is the transparent one, or it
/// points into the palette.
pub open spec fn spec_indices_resolve(
    indicies: Seq<u8>,
    plt: Seq<Color>,
    trns: Option<u8>,
) -> bool {
    forall|i: int|
        0 <= i < indicies.len() ==> (#[trigger] indicies[i] < plt.len() || trns == Some(
            indicies[i],
        ))
}

/// The RGBA bytes a frame resolves to: four bytes per pixel, the
/// transparent index going to a zeroed pixel, every other index to
/// its palette color with full alpha.
pub open spec fn spec_deindex_rgba(
    indicies: Seq<u8>,
    plt: Seq<Color>,
    trns: Option<u8>,
) -> Seq<u8> {
    Seq::new(
        4 * indicies.len(),
        |i: int|
            {
                let px = indicies[i / 4];
                if trns == Some(px) {
                    0u8
                } else if i % 4 == 0 {
                    plt[px as int].r
                } else if i % 4 == 1 {
                    plt[px as int].g
                } else if i % 4 == 2 {
                    plt[px as int].b
                } else {
                    255u8
                }
            },
    )
}

/// An RGBA, full color image.
#[derive(Debug)]
pub struct RgbaImage {
    pub width: u16,
    pub height: u16,
    pub top: u16,
    pub left: u16,
    pub data: Vec<u8>,
}

impl RgbaImage {
    /// Resolves indices against a palette and a transparent index.
    /// Fails exactly when some non-transparent index is out of the
    /// palette's bounds.
    pub fn from_indicies(
        width: u16,
        height: u16,
        top: u16,
        left: u16,
        indicies: &Vec<u8>,
        table: &Palette,
        transindex: Option<u8>,
    ) -> (r: Result<RgbaImage, DecodeError>)
        ensures
            match r {
                Ok(img) => {
                    &&& spec_indices_resolve(indicies@, table@, transindex)
                    &&& img.width == width && img.height == height && img.top == top && img.left
                        == left
                    &&& img.data@ == spec_deindex_rgba(indicies@, table@, transindex)
                },
                Err(e) => e == DecodeError::ColorIndexOutOfBounds && !spec_indices_resolve(
                    indicies@,
                    table@,
                    transindex,
                ),
            },
    {
        match deindex_rgba(indicies, table, transindex) {
            Ok(data) => Ok(RgbaImage { width, height, top, left, data }),
            Err(e) => Err(e),
        }
    }
}

/// Resolves palette indices to RGBA bytes, the transparent index
/// becoming a fully transparent pixel.
pub fn deindex_rgba(indicies: &Vec<u8>, plt: &Palette, trns: Option<u8>) -> (r: Result<
    Vec<u8>,
    DecodeError,
>)
    ensures
        match r {
            Ok(data) => spec_indices_resolve(indicies@, plt@, trns) && data@ == spec_deindex_rgba(
                indicies@,
                plt@,
                trns,
            ),
            Err(e) => e == DecodeError::ColorIndexOutOfBounds && !spec_indices_resolve(
                indicies@,
                plt@,
                trns,
            ),
        },
{
    let mut data: Vec<u8> = Vec::new();
    let mut i: usize = 0;
    while i < indicies.len()
        invariant
            i <= indicies@.len(),
            data@.len() == 4 * i,
            forall|k: int|
                0 <= k < i ==> (#[trigger] indicies@[k] < plt@.len() || trns == Some(indicies@[k])),
            forall|j: int| 0 <= j < 4 * i ==> data@[j] == spec_deindex_rgba(indicies@, plt@, trns)[j],
        decreases indicies@.len() - i,
    {
        let idx = indicies[i];
        let transparent = match trns {
            Some(t) => t == idx,
            None => false,
        };
        if transparent {
            data.push(0);
            data.push(0);
            data.push(0);
            data.push(0);
        } else {
            match plt.get(idx) {
                Some(color) => {
                    data.push(color.r);
                    data.push(color.g);
                    data.push(color.b);
                    data.push(255);
                },
                None => {
                    return Err(DecodeError::ColorIndexOutOfBounds);
                },
            }
        }
        proof {
            assert forall|j: int| 4 * i <= j < 4 * i + 4 implies data@[j] == spec_deindex_rgba(
                indicies@,
                plt@,
                trns,
            )[j] by {
                assert(j / 4 == i && 0 <= j % 4 < 4) by (nonlinear_arith)
                    requires
                        4 * i <= j < 4 * i + 4 && i >= 0,
                ;
            }
        }
        i = i + 1;
    }
    proof {
        assert(data@ =~= spec_deindex_rgba(indicies@, plt@, trns));
    }
    Ok(data)
}

/// The RGB bytes a frame resolves to, a replacement color standing in
/// for the transparent index.
pub open spec fn spec_deindex_rgb(
    indicies: Seq<u8>,
    plt: Seq<Color>,
    trns: Option<u8>,
    replace: Color,
) -> Seq<u8> {
    Seq::new(
        3 * indicies.len(),
        |i: int|
            {
                let px = indicies[i / 3];
                let c = if trns == Some(px) {
                    replace
                } else {
                    plt[px as int]
                };
                if i % 3 == 0 {
                    c.r
                } else if i % 3 == 1 {
                    c.g
                } else {
                    c.b
                }
            },
    )
}

/// An RGB, full color image.
#[derive(Debug)]
pub struct RgbImage {
    pub width: u16,
    pub height: u16,
    pub top: u16,
    pub left: u16,
    pub data: Vec<u8>,
}

impl RgbImage {
    /// Resolves indices against a palette, painting the transparent
    /// index with a replacement color. Fails exactly when some
    /// non-transparent index is out of the palette's bounds.
    pub fn from_indicies(
        width: u16,
        height: u16,
        top: u16,
        left: u16,
        indicies: &Vec<u8>,
        table: &Palette,
        transindex: Option<u8>,
        transparent_replace: Color,
    ) -> (r: Result<RgbImage, DecodeError>)
        ensures
            match r {
                Ok(img) => {
                    &&& spec_indices_resolve(indicies@, table@, transindex)
                    &&& img.width == width && img.height == height && img.top == top && img.left
                        == left
                    &&& img.data@ == spec_deindex_rgb(
                        indicies@,
                        table@,
                        transindex,
                        transparent_replace,
                    )
                },
                Err(e) => e == DecodeError::ColorIndexOutOfBounds && !spec_indices_resolve(
                    indicies@,
                    table@,
                    transindex,
                ),
            },
    {
        let mut data: Vec<u8> = Vec::new();
        let mut i: usize = 0;
        while i < indicies.len()
            invariant
                i <= indicies@.len(),
                data@.len() == 3 * i,
                forall|k: int|
                    0 <= k < i ==> (#[trigger] indicies@[k] < table@.len() || transindex == Some(
                        indicies@[k],
                    )),
                forall|j: int|
                    0 <= j < 3 * i ==> data@[j] == spec_deindex_rgb(
                        indicies@,
                        table@,
                        transindex,
                        transparent_replace,
                    )[j],
            decreases indicies@.len() - i,
        {
            let idx = indicies[i];
            let transparent = match transindex {
                Some(t) => t == idx,
                None => false,
            };
            if transparent {
                data.push(transparent_replace.r);
                data.push(transparent_replace.g);
                data.push(transparent_replace.b);
            } else {
                match table.get(idx) {
                    Some(color) => {
                        data.push(color.r);
                        data.push(color.g);
                        data.push(color.b);
                    },
                    None => {
                        return Err(DecodeError::ColorIndexOutOfBounds);
                    },
                }
            }
            proof {
                assert forall|j: int| 3 * i <= j < 3 * i + 3 implies data@[j] == spec_deindex_rgb(
                    indicies@,
                    table@,
                    transindex,
                    transparent_replace,
                )[j] by {
                    assert(j / 3 == i && 0 <= j % 3 < 3) by (nonlinear_arith)
                        requires
                            3 * i <= j < 3 * i + 3 && i >= 0,
                    ;
                }
            }
            i = i + 1;
        }
        proof {
            assert(data@ =~= spec_deindex_rgb(indicies@, table@, transindex, transparent_replace));
        }
        Ok(RgbImage { width, height, top, left, data })
    }
}

/// Replaces nearly transparent pixels of an RGBA buffer and flattens
/// it to RGB: a pixel whose alpha is under `tol` becomes `repl`.
pub fn rgba_replace_a(buf: Vec<u8>, repl: (u8, u8, u8), tol: u8) -> (r: Vec<u8>)
    ensures
        r@.len() == 3 * (buf@.len() / 4),
        forall|k: int|
            0 <= k < buf@.len() / 4 ==> {
                let keep = buf@[4 * k + 3] >= tol;
                &&& #[trigger] r@[3 * k] == if keep {
                    buf@[4 * k]
                } else {
                    repl.0
                }
                &&& r@[3 * k + 1] == if keep {
                    buf@[4 * k + 1]
                } else {
                    repl.1
                }
                &&& r@[3 * k + 2] == if keep {
                    buf@[4 * k + 2]
                } else {
                    repl.2
                }
            },
{
    let len = buf.len();
    let count = len / 4;
    let mut r: Vec<u8> = Vec::new();
    let mut k: usize = 0;
    while k < count
        invariant
            len == buf@.len(),
            count == buf@.len() / 4,
            k <= count,
            r@.len() == 3 * k,
            forall|q: int|
                0 <= q < k ==> {
                    let keep = buf@[4 * q + 3] >= tol;
                    &&& #[trigger] r@[3 * q] == if keep {
                        buf@[4 * q]
                    } else {
                        repl.0
                    }
                    &&& r@[3 * q + 1] == if keep {
                        buf@[4 * q + 1]
                    } else {
                        repl.1
                    }
                    &&& r@[3 * q + 2] == if keep {
                        buf@[4 * q + 2]
                    } else {
                        repl.2
                    }
                },
        decreases count - k,
    {
        proof {
            assert(4 * k + 3 < len) by (nonlinear_arith)
                requires
                    k < len / 4 && k >= 0,
            ;
        }
        if buf[4 * k + 3] >= tol {
            r.push(buf[4 * k]);
            r.push(buf[4 * k + 1]);
            r.push(buf[4 * k + 2]);
        } else {
            r.push(repl.0);
            r.push(repl.1);
            r.push(repl.2);
        }
        k = k + 1;
    }
    r
}

/// A full-color frame as loaded from another raster format.
#[derive(Debug)]
pub struct Img {
    pub b: Vec<u8>,
    pub w: u32,
    pub h: u32,
}

} // verus!
