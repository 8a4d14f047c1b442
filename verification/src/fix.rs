use vstd::prelude::*;

use crate::block::Block;
use crate::color::Color;
use crate::gif::Gif;
use crate::image::CompressedImage;
use crate::imagedescriptor::ImageDescriptor;
use crate::packed::ImagePacked;
use crate::palette::Palette;

verus! {

/// The palette comparison the redundancy check uses: same length, and
/// every color of `b` appears somewhere in `a`.
pub open spec fn spec_pal_eq(a: Seq<Color>, b: Seq<Color>) -> bool {
    a.len() == b.len() && forall|j: int| 0 <= j < b.len() ==> a.contains(b[j])
}

/// Whether every color of `a` equals every color of `b`: the blunt
/// index-match test the report applies to equal palettes.
pub open spec fn spec_all_pairs_equal(a: Seq<Color>, b: Seq<Color>) -> bool {
    forall|i: int, j: int| 0 <= i < a.len() && 0 <= j < b.len() ==> a[i] == b[j]
}

/// The local color tables of the image blocks, in file order.
pub open spec fn spec_image_locals(blocks: Seq<Block>) -> Seq<Option<Seq<Color>>>
    decreases blocks.len(),
{
    if blocks.len() == 0 {
        Seq::empty()
    } else {
        let rest = spec_image_locals(blocks.skip(1));
        match blocks[0] {
            Block::CompressedImage(ci) => seq![
                match ci.local_color_table {
                    Some(p) => Some(p@),
                    None => None,
                },
            ] + rest,
            _ => rest,
        }
    }
}

/// The first local palette among the images, if any.
pub open spec fn spec_first_local(locals: Seq<Option<Seq<Color>>>) -> Option<Seq<Color>>
    decreases locals.len(),
{
    if locals.len() == 0 {
        None
    } else {
        match locals[0] {
            Some(p) => Some(p),
            None => spec_first_local(locals.skip(1)),
        }
    }
}

/// The walk the palette report takes: fold over the images' local
/// palettes, comparing each against the palette known so far.
/// The result is `(has_local, local_redundant, local_matching)`.
pub open spec fn spec_palette_report(
    locals: Seq<Option<Seq<Color>>>,
    known: Option<Seq<Color>>,
    has_local: bool,
    matching: bool,
) -> (bool, bool, bool)
    decreases locals.len(),
{
    if locals.len() == 0 {
        (has_local, true, matching)
    } else {
        match locals[0] {
            None => spec_palette_report(locals.skip(1), known, has_local, matching),
            Some(local) => match known {
                None => spec_palette_report(locals.skip(1), Some(local), true, matching),
                Some(k) => if !spec_pal_eq(local, k) {
                    (true, false, false)
                } else {
                    spec_palette_report(
                        locals.skip(1),
                        Some(k),
                        true,
                        matching && spec_all_pairs_equal(k, local),
                    )
                },
            },
        }
    }
}

/// The view of an optional palette.
pub open spec fn spec_opt_palette_view(p: Option<Palette>) -> Option<Seq<Color>> {
    match p {
        Some(p) => Some(p@),
        None => None,
    }
}

/// What the palette check found in a file.
#[derive(Clone, Copy, Debug, PartialEq, Eq, Structural)]
pub struct PaletteReport {
    /// Does the gif even contain local color tables?
    pub has_local: bool,
    /// ... do those color tables always contain the same colors?
    pub local_redundant: bool,
    /// ... and do those colors all have matching indices, making it
    /// possible to simply set the global palette and remove the
    /// locals?
    pub local_matching_indicies: bool,
}

/// Walks the images and reports whether their local palettes are
/// redundant against the global (or first local) palette.
pub fn same_palette(gif: &Gif) -> (r: PaletteReport)
    requires
        gif.wf(),
    ensures
        ({
            let (h, red, m) = spec_palette_report(
                spec_image_locals(gif.blocks@),
                match gif.palette {
                    Some(p) => Some(p@),
                    None => Option::<Seq<Color>>::None,
                },
                false,
                true,
            );
            r.has_local == h && r.local_redundant == red && r.local_matching_indicies == m
        }),
{
    let ghost blocks = gif.blocks@;
    let mut known: Option<&Palette> = gif.palette.as_ref();
    let mut has_local = false;
    let mut matching = true;
    let ghost goal = spec_palette_report(
        spec_image_locals(blocks),
        spec_opt_palette_view(gif.palette),
        false,
        true,
    );
    let mut i: usize = 0;
    proof {
        assert(blocks.skip(0) =~= blocks);
    }
    while i < gif.blocks.len()
        invariant
            gif.wf(),
            blocks == gif.blocks@,
            i <= blocks.len(),
            goal == spec_palette_report(
                spec_image_locals(blocks),
                spec_opt_palette_view(gif.palette),
                false,
                true,
            ),
            goal == spec_palette_report(
                spec_image_locals(blocks.skip(i as int)),
                match known {
                    Some(p) => Some(p@),
                    None => Option::<Seq<Color>>::None,
                },
                has_local,
                matching,
            ),
            match known {
                Some(p) => p.wf(),
                None => true,
            },
        decreases blocks.len() - i,
    {
        proof {
            let s = blocks.skip(i as int);
            assert(s[0] == blocks[i as int]);
            assert(s.skip(1) =~= blocks.skip(i as int + 1));
            assert(gif.blocks@[i as int].wf());
            if blocks[i as int] is CompressedImage {
                let ci0 = blocks[i as int]->CompressedImage_0;
                assert(spec_image_locals(s) == seq![
                    match ci0.local_color_table {
                        Some(p) => Some(p@),
                        None => Option::<Seq<Color>>::None,
                    },
                ] + spec_image_locals(blocks.skip(i as int + 1)));
                assert(spec_image_locals(s)[0] == (match ci0.local_color_table {
                    Some(p) => Some(p@),
                    None => Option::<Seq<Color>>::None,
                }));
                assert(spec_image_locals(s).skip(1) =~= spec_image_locals(
                    blocks.skip(i as int + 1),
                ));
            } else {
                assert(spec_image_locals(s) == spec_image_locals(blocks.skip(i as int + 1)));
            }
        }
        if let Block::CompressedImage(ci) = &gif.blocks[i] {
            if let Some(local) = &ci.local_color_table {
                has_local = true;
                match known {
                    None => {
                        known = Some(local);
                    },
                    Some(known_palette) => {
                        if !palettes_equal(local, known_palette) {
                            proof {
                                let s = blocks.skip(i as int);
                                assert(spec_image_locals(s)[0] == Some(local@));
                                assert(spec_palette_report(
                                    spec_image_locals(s),
                                    Some(known_palette@),
                                    has_local,
                                    matching,
                                ) == (true, false, false));
                                assert(goal == (true, false, false));
                            }
                            return PaletteReport {
                                has_local: true,
                                local_redundant: false,
                                local_matching_indicies: false,
                            };
                        } else if matching {
                            matching = all_pairs_equal(known_palette, local);
                        }
                    },
                }
            }
        }
        i = i + 1;
    }
    proof {
        assert(blocks.skip(blocks.len() as int) =~= Seq::<Block>::empty());
    }
    PaletteReport { has_local, local_redundant: true, local_matching_indicies: matching }
}

/// The unordered palette comparison: equal lengths and containment.
fn palettes_equal(a: &Palette, b: &Palette) -> (r: bool)
    requires
        a.wf(),
        b.wf(),
    ensures
        r == spec_pal_eq(a@, b@),
{
    if a.len() != b.len() {
        return false;
    }
    let mut j: usize = 0;
    while j < b.len()
        invariant
            a.wf(),
            b.wf(),
            a@.len() == b@.len(),
            j <= b@.len(),
            forall|q: int| 0 <= q < j ==> a@.contains(b@[q]),
        decreases b@.len() - j,
    {
        let c = match b.get(j as u8) {
            Some(c) => c,
            None => {
                proof {
                    assert(false);
                }
                Color { r: 0, g: 0, b: 0 }
            },
        };
        match a.from_color(c) {
            Some(idx) => {
                proof {
                    assert(a@[idx as int] == b@[j as int]);
                    assert(a@.contains(b@[j as int]));
                }
            },
            None => {
                proof {
                    assert(!a@.contains(b@[j as int]));
                }
                return false;
            },
        }
        j = j + 1;
    }
    true
}

/// Whether every color of `a` equals every color of `b`.
fn all_pairs_equal(a: &Palette, b: &Palette) -> (r: bool)
    requires
        a.wf(),
        b.wf(),
    ensures
        r == spec_all_pairs_equal(a@, b@),
{
    let mut i: usize = 0;
    while i < a.len()
        invariant
            a.wf(),
            b.wf(),
            i <= a@.len(),
            forall|p: int, q: int| 0 <= p < i && 0 <= q < b@.len() ==> a@[p] == b@[q],
        decreases a@.len() - i,
    {
        let ca = match a.get(i as u8) {
            Some(c) => c,
            None => {
                proof {
                    assert(false);
                }
                Color { r: 0, g: 0, b: 0 }
            },
        };
        let mut j: usize = 0;
        while j < b.len()
            invariant
                a.wf(),
                b.wf(),
                i < a@.len(),
                ca == a@[i as int],
                j <= b@.len(),
                forall|q: int| 0 <= q < j ==> a@[i as int] == b@[q],
            decreases b@.len() - j,
        {
            let cb = match b.get(j as u8) {
                Some(c) => c,
                None => {
                    proof {
                        assert(false);
                    }
                    Color { r: 0, g: 0, b: 0 }
                },
            };
            if ca != cb {
                return false;
            }
            j = j + 1;
        }
        i = i + 1;
    }
    true
}

/// A fresh palette holding the same colors.
pub fn clone_palette(p: &Palette) -> (r: Palette)
    requires
        p.wf(),
    ensures
        r@ == p@,
        r.wf(),
{
    let mut out = Palette::new();
    let len = p.len();
    let mut i: usize = 0;
    while i < len
        invariant
            len == p@.len() <= 256,
            i <= len,
            out@ == p@.take(i as int),
            out.wf(),
        decreases len - i,
    {
        let c = match p.get(i as u8) {
            Some(c) => c,
            None => {
                proof {
                    assert(false);
                }
                Color { r: 0, g: 0, b: 0 }
            },
        };
        out.push(c);
        proof {
            assert(out@ =~= p@.take(i as int + 1));
        }
        i = i + 1;
    }
    proof {
        assert(out@ =~= p@);
    }
    out
}

/// When the report says the locals match the global palette color for
/// color, rewrites the file to carry one global table: every image
/// drops its local table and clears its table flag, and the first
/// local palette becomes the global one if none was present.
pub fn palette_errors(gif: &Gif, report: PaletteReport) -> (r: Option<Gif>)
    requires
        gif.wf(),
    ensures
        match r {
            Some(new) => {
                &&& report.local_matching_indicies
                &&& new.version == gif.version
                &&& new.descriptor == gif.descriptor
                &&& (match (new.palette, gif.palette) {
                    (Some(np), Some(gp)) => np@ == gp@,
                    (Some(np), None) => Some(np@) == spec_first_local(
                        spec_image_locals(gif.blocks@),
                    ),
                    (None, None) => spec_first_local(spec_image_locals(gif.blocks@)) is None,
                    _ => false,
                })
                &&& new.blocks@.len() == gif.blocks@.len()
                &&& forall|i: int|
                    0 <= i < gif.blocks@.len() ==> match #[trigger] gif.blocks@[i] {
                        Block::CompressedImage(ci) => {
                            &&& new.blocks@[i] matches Block::CompressedImage(nc)
                            &&& nc.local_color_table is None
                            &&& nc.lzw_code_size == ci.lzw_code_size
                            &&& nc.spec_chunks() == ci.spec_chunks()
                            &&& nc.image_descriptor.left == ci.image_descriptor.left
                            &&& nc.image_descriptor.top == ci.image_descriptor.top
                            &&& nc.image_descriptor.width == ci.image_descriptor.width
                            &&& nc.image_descriptor.height == ci.image_descriptor.height
                            &&& nc.image_descriptor.packed.raw == ((ci.image_descriptor.packed.raw
                                & 0b0111_1111) & 0b1111_1000) | 0
                        },
                        _ => crate::reader::spec_abs_block(new.blocks@[i])
                            == crate::reader::spec_abs_block(gif.blocks@[i]),
                    }
                &&& new.wf()
            },
            None => !report.local_matching_indicies,
        },
{
    if !report.local_matching_indicies {
        return None;
    }
    let global: Option<Palette> = match &gif.palette {
        Some(p) => Some(clone_palette(p)),
        None => match first_local_palette(gif) {
            Some(p) => Some(clone_palette(p)),
            None => None,
        },
    };
    let mut new_blocks: Vec<Block> = Vec::new();
    let ghost blocks = gif.blocks@;
    let mut i: usize = 0;
    while i < gif.blocks.len()
        invariant
            gif.wf(),
            blocks == gif.blocks@,
            i <= blocks.len(),
            new_blocks@.len() == i,
            match global {
                Some(p) => p.wf(),
                None => true,
            },
            (match (global, gif.palette) {
                (Some(np), Some(gp)) => np@ == gp@,
                (Some(np), None) => Some(np@) == spec_first_local(spec_image_locals(blocks)),
                (None, None) => spec_first_local(spec_image_locals(blocks)) is None,
                _ => false,
            }),
            forall|k: int|
                0 <= k < i ==> match #[trigger] blocks[k] {
                    Block::CompressedImage(ci) => {
                        &&& new_blocks@[k] matches Block::CompressedImage(nc)
                        &&& nc.local_color_table is None
                        &&& nc.lzw_code_size == ci.lzw_code_size
                        &&& nc.spec_chunks() == ci.spec_chunks()
                        &&& nc.image_descriptor.left == ci.image_descriptor.left
                        &&& nc.image_descriptor.top == ci.image_descriptor.top
                        &&& nc.image_descriptor.width == ci.image_descriptor.width
                        &&& nc.image_descriptor.height == ci.image_descriptor.height
                        &&& nc.image_descriptor.packed.raw == ((ci.image_descriptor.packed.raw
                            & 0b0111_1111) & 0b1111_1000) | 0
                    },
                    _ => crate::reader::spec_abs_block(new_blocks@[k])
                        == crate::reader::spec_abs_block(blocks[k]),
                },
            forall|k: int| 0 <= k < i ==> (#[trigger] new_blocks@[k]).wf(),
        decreases blocks.len() - i,
    {
        proof {
            assert(gif.blocks@[i as int].wf());
        }
        match &gif.blocks[i] {
            Block::CompressedImage(comp) => {
                let mut descriptor = comp.image_descriptor;
                descriptor.packed.set_color_table(false);
                descriptor.packed.set_color_table_size(0);
                proof {
                    crate::packed::lemma_image_packed_setters(
                        comp.image_descriptor.packed,
                        0,
                        false,
                    );
                }
                proof {
                    assert(0u8 & 0b0000_0111 == 0) by (bit_vector);
                }
                let chunks = copy_chunks(&comp.blocks);
                let nc = CompressedImage {
                    image_descriptor: descriptor,
                    local_color_table: None,
                    lzw_code_size: comp.lzw_code_size,
                    blocks: chunks,
                };
                proof {
                    assert(nc.spec_chunks() =~= comp.spec_chunks());
                }
                new_blocks.push(Block::CompressedImage(nc));
            },
            Block::GraphicControlExtension(g) => {
                new_blocks.push(Block::GraphicControlExtension(*g));
            },
            Block::CommentExtension(c) => {
                let mut v: Vec<u8> = Vec::new();
                crate::push_all(&mut v, c);
                proof {
                    assert(v@ =~= c@);
                }
                new_blocks.push(Block::CommentExtension(v));
            },
            Block::ApplicationExtension(a) => {
                let mut id: Vec<u8> = Vec::new();
                crate::push_all(&mut id, a.identifier());
                let mut auth: Vec<u8> = Vec::new();
                crate::push_all(&mut auth, a.authentication_code());
                let mut bytes: Vec<u8> = Vec::new();
                crate::push_all(&mut bytes, a.data());
                proof {
                    assert(id@ =~= a.spec_identifier());
                    assert(auth@ =~= a.spec_authentication_code());
                    assert(bytes@ =~= a.spec_data());
                }
                let copy = crate::application::Application::new(id, auth, bytes);
                new_blocks.push(Block::ApplicationExtension(copy));
            },
            Block::LoopingExtension(lc) => {
                new_blocks.push(Block::LoopingExtension(*lc));
            },
        }
        i = i + 1;
    }
    Some(Gif { version: gif.version, descriptor: gif.descriptor, palette: global, blocks: new_blocks })
}

/// The first local color table among the images, if any image has
/// one.
fn first_local_palette(gif: &Gif) -> (r: Option<&Palette>)
    requires
        gif.wf(),
    ensures
        match r {
            Some(p) => spec_first_local(spec_image_locals(gif.blocks@)) == Some(p@) && p.wf(),
            None => spec_first_local(spec_image_locals(gif.blocks@)) is None,
        },
{
    let ghost blocks = gif.blocks@;
    let mut i: usize = 0;
    proof {
        assert(blocks.skip(0) =~= blocks);
    }
    while i < gif.blocks.len()
        invariant
            gif.wf(),
            blocks == gif.blocks@,
            i <= blocks.len(),
            spec_first_local(spec_image_locals(blocks)) == spec_first_local(
                spec_image_locals(blocks.skip(i as int)),
            ),
        decreases blocks.len() - i,
    {
        proof {
            let s = blocks.skip(i as int);
            assert(s[0] == blocks[i as int]);
            assert(s.skip(1) =~= blocks.skip(i as int + 1));
            assert(gif.blocks@[i as int].wf());
            if blocks[i as int] is CompressedImage {
                let ci0 = blocks[i as int]->CompressedImage_0;
                assert(spec_image_locals(s) == seq![
                    match ci0.local_color_table {
                        Some(p) => Some(p@),
                        None => Option::<Seq<Color>>::None,
                    },
                ] + spec_image_locals(blocks.skip(i as int + 1)));
                assert(spec_image_locals(s)[0] == (match ci0.local_color_table {
                    Some(p) => Some(p@),
                    None => Option::<Seq<Color>>::None,
                }));
                assert(spec_image_locals(s).skip(1) =~= spec_image_locals(
                    blocks.skip(i as int + 1),
                ));
            } else {
                assert(spec_image_locals(s) == spec_image_locals(blocks.skip(i as int + 1)));
            }
        }
        if let Block::CompressedImage(ci) = &gif.blocks[i] {
            if let Some(local) = &ci.local_color_table {
                return Some(local);
            }
        }
        i = i + 1;
    }
    proof {
        assert(blocks.skip(blocks.len() as int) =~= Seq::<Block>::empty());
    }
    None
}

/// A fresh copy of stored sub-block chunks.
fn copy_chunks(chunks: &Vec<Vec<u8>>) -> (r: Vec<Vec<u8>>)
    ensures
        crate::lzw::spec_rows(r@) == crate::lzw::spec_rows(chunks@),
        r@.len() == chunks@.len(),
        forall|k: int| 0 <= k < chunks@.len() ==> #[trigger] r@[k]@ == chunks@[k]@,
{
    let mut out: Vec<Vec<u8>> = Vec::new();
    let mut i: usize = 0;
    while i < chunks.len()
        invariant
            i <= chunks@.len(),
            out@.len() == i,
            forall|k: int| 0 <= k < i ==> #[trigger] out@[k]@ == chunks@[k]@,
        decreases chunks@.len() - i,
    {
        let mut c: Vec<u8> = Vec::new();
        crate::push_all(&mut c, &chunks[i]);
        proof {
            assert(c@ =~= chunks@[i as int]@);
        }
        out.push(c);
        i = i + 1;
    }
    proof {
        assert(crate::lzw::spec_rows(out@) =~= crate::lzw::spec_rows(chunks@));
    }
    out
}

/// The image block of frame `k`.
pub open spec fn spec_frame_image(g: Gif, k: int) -> CompressedImage {
    let ps = crate::gif::spec_image_positions(g.blocks@);
    g.blocks@[ps[k]]->CompressedImage_0
}

/// The blocks bundled with frame `k`: everything since the previous
/// frame, the frame's own block included.
pub open spec fn spec_frame_preceding(g: Gif, k: int) -> Seq<Block> {
    let ps = crate::gif::spec_image_positions(g.blocks@);
    let start = if k == 0 {
        0int
    } else {
        ps[k - 1] + 1
    };
    g.blocks@.subrange(start, ps[k] + 1)
}

/// The transparent index governing frame `k`, if its live graphic
/// control names one.
pub open spec fn spec_frame_trns(g: Gif, k: int) -> Option<u8> {
    crate::gif::spec_live_trns(spec_frame_preceding(g, k))
}

/// Whether frame `k` has a palette to resolve against.
pub open spec fn spec_frame_has_palette(g: Gif, k: int) -> bool {
    spec_frame_image(g, k).local_color_table is Some || g.palette is Some
}

/// The palette frame `k` resolves against: its own, else the global.
pub open spec fn spec_frame_palette(g: Gif, k: int) -> Seq<Color> {
    match spec_frame_image(g, k).local_color_table {
        Some(p) => p@,
        None => match g.palette {
            Some(p) => p@,
            None => Seq::empty(),
        },
    }
}

/// The indices frame `k` decompresses to, through the LZW decoder at
/// the frame's code size kept within the format's `2..=8`.
pub open spec fn spec_frame_indices(g: Gif, k: int) -> Option<Seq<u8>> {
    let ci = spec_frame_image(g, k);
    let m = ci.lzw_code_size;
    let cm: u8 = if m < 2 {
        2u8
    } else if m > 8 {
        8u8
    } else {
        m
    };
    crate::lzw::spec_lzw_decode(cm, ci.spec_data())
}

/// What the frame comparison needs of frame `k`: a palette, data the
/// machine can index, and a decompressible stream.
pub open spec fn spec_frame_ok(g: Gif, k: int) -> bool {
    &&& spec_frame_has_palette(g, k)
    &&& spec_frame_image(g, k).spec_data().len() <= 0x0FFF_FFFF
    &&& spec_frame_indices(g, k) is Some
}

/// Whether frames `k..n` of the two files resolve to the same
/// geometry and the same RGBA pixels.
pub open spec fn spec_frames_match(a: Gif, b: Gif, k: int, n: int) -> bool
    decreases n - k,
{
    if k >= n {
        true
    } else {
        let ia = spec_frame_image(a, k);
        let ib = spec_frame_image(b, k);
        if ia.image_descriptor.width != ib.image_descriptor.width
            || ia.image_descriptor.height != ib.image_descriptor.height
            || ia.image_descriptor.left != ib.image_descriptor.left
            || ia.image_descriptor.top != ib.image_descriptor.top {
            false
        } else {
            match (spec_frame_indices(a, k), spec_frame_indices(b, k)) {
                (Some(va), Some(vb)) => {
                    let pa = spec_frame_palette(a, k);
                    let pb = spec_frame_palette(b, k);
                    let ta = spec_frame_trns(a, k);
                    let tb = spec_frame_trns(b, k);
                    if !crate::colorimage::spec_indices_resolve(va, pa, ta)
                        || !crate::colorimage::spec_indices_resolve(vb, pb, tb) {
                        false
                    } else if crate::colorimage::spec_deindex_rgba(va, pa, ta)
                        != crate::colorimage::spec_deindex_rgba(vb, pb, tb) {
                        false
                    } else {
                        spec_frames_match(a, b, k + 1, n)
                    }
                },
                _ => false,
            }
        }
    }
}

/// The number of frames the comparison walks: the shorter count.
pub open spec fn spec_match_count(a: Gif, b: Gif) -> int {
    let ca = crate::gif::spec_image_positions(a.blocks@).len() as int;
    let cb = crate::gif::spec_image_positions(b.blocks@).len() as int;
    if ca <= cb {
        ca
    } else {
        cb
    }
}

/// Whether the two files show exactly the same frames, compared pair
/// by pair up to the shorter frame count: same geometry and the same
/// resolved RGBA pixels.
pub fn images_match_exactly(gifa: &Gif, gifb: &Gif) -> (r: bool)
    requires
        gifa.wf(),
        gifb.wf(),
        forall|k: int|
            0 <= k < spec_match_count(*gifa, *gifb) ==> #[trigger] spec_frame_ok(*gifa, k)
                && spec_frame_ok(*gifb, k),
    ensures
        r == spec_frames_match(*gifa, *gifb, 0, spec_match_count(*gifa, *gifb)),
{
    let a_images = gifa.images();
    let b_images = gifb.images();
    let n = if a_images.len() <= b_images.len() {
        a_images.len()
    } else {
        b_images.len()
    };
    let ghost count = spec_match_count(*gifa, *gifb);
    proof {
        assert(a_images@.len() == crate::gif::spec_image_positions(gifa.blocks@).len());
        assert(b_images@.len() == crate::gif::spec_image_positions(gifb.blocks@).len());
        assert(n == count);
        assert forall|q: int| 0 <= q < count implies #[trigger] spec_frame_ok(*gifa, q)
            && spec_frame_ok(*gifb, q) by {}
        assert forall|q: int| 0 <= q < a_images@.len() implies (#[trigger] a_images@[q]).spec_blocks()
            == spec_frame_preceding(*gifa, q) by {
            let ps = crate::gif::spec_image_positions(gifa.blocks@);
            let start = if q == 0 {
                0int
            } else {
                ps[q - 1] + 1
            };
            assert(a_images@[q].compressed == spec_frame_image(*gifa, q));
            if q > 0 {
                assert(a_images@[q - 1].compressed == spec_frame_image(*gifa, q - 1));
            }
            assert forall|t: int|
                0 <= t < a_images@[q].blocks@.len() implies *(#[trigger] a_images@[q].blocks@[t])
                    == gifa.blocks@[start + t] by {}
            assert(a_images@[q].spec_blocks() =~= spec_frame_preceding(*gifa, q));
        }
        assert forall|q: int| 0 <= q < b_images@.len() implies (#[trigger] b_images@[q]).spec_blocks()
            == spec_frame_preceding(*gifb, q) by {
            let ps = crate::gif::spec_image_positions(gifb.blocks@);
            let start = if q == 0 {
                0int
            } else {
                ps[q - 1] + 1
            };
            assert(b_images@[q].compressed == spec_frame_image(*gifb, q));
            if q > 0 {
                assert(b_images@[q - 1].compressed == spec_frame_image(*gifb, q - 1));
            }
            assert forall|t: int|
                0 <= t < b_images@[q].blocks@.len() implies *(#[trigger] b_images@[q].blocks@[t])
                    == gifb.blocks@[start + t] by {}
            assert(b_images@[q].spec_blocks() =~= spec_frame_preceding(*gifb, q));
        }
    }
    let mut k: usize = 0;
    while k < n
        invariant
            gifa.wf(),
            gifb.wf(),
            forall|q: int|
                0 <= q < count ==> #[trigger] spec_frame_ok(*gifa, q) && spec_frame_ok(*gifb, q),
            count == spec_match_count(*gifa, *gifb),
            n == count,
            k <= n,
            a_images@.len() >= n,
            b_images@.len() >= n,
            forall|q: int|
                0 <= q < a_images@.len() ==> {
                    &&& (#[trigger] a_images@[q]).compressed == spec_frame_image(*gifa, q)
                    &&& a_images@[q].spec_blocks() == spec_frame_preceding(*gifa, q)
                    &&& match a_images@[q].global_palette {
                        Some(gp) => gifa.palette == Some(*gp),
                        None => gifa.palette is None,
                    }
                },
            forall|q: int|
                0 <= q < b_images@.len() ==> {
                    &&& (#[trigger] b_images@[q]).compressed == spec_frame_image(*gifb, q)
                    &&& b_images@[q].spec_blocks() == spec_frame_preceding(*gifb, q)
                    &&& match b_images@[q].global_palette {
                        Some(gp) => gifb.palette == Some(*gp),
                        None => gifb.palette is None,
                    }
                },
            spec_frames_match(*gifa, *gifb, 0, count) == spec_frames_match(
                *gifa,
                *gifb,
                k as int,
                count,
            ),
        decreases n - k,
    {
        let a = &a_images[k];
        let b = &b_images[k];

        if a.width() != b.width() || a.height() != b.height() || a.left() != b.left() || a.top()
            != b.top() {
            return false;
        }

        proof {
            assert(spec_frame_ok(*gifa, k as int) && spec_frame_ok(*gifb, k as int));
        }
        let a_data = a.compressed.data();
        let b_data = b.compressed.data();
        let a_coder = crate::lzw::LZW::new(a.compressed.lzw_code_size);
        let b_coder = crate::lzw::LZW::new(b.compressed.lzw_code_size);
        let a_indices = match a_coder.decode(&a_data) {
            Ok(v) => v,
            Err(_) => {
                proof {
                    assert(spec_frame_ok(*gifa, k as int));
                }
                return false;
            },
        };
        let b_indices = match b_coder.decode(&b_data) {
            Ok(v) => v,
            Err(_) => {
                proof {
                    assert(spec_frame_ok(*gifb, k as int));
                }
                return false;
            },
        };

        let a_plt = a.palette();
        let b_plt = b.palette();

        let a_rgba = match crate::colorimage::deindex_rgba(&a_indices, a_plt, a.transparent_index()) {
            Ok(v) => v,
            Err(_) => {
                return false;
            },
        };
        let b_rgba = match crate::colorimage::deindex_rgba(&b_indices, b_plt, b.transparent_index()) {
            Ok(v) => v,
            Err(_) => {
                return false;
            },
        };

        if !bytes_equal(&a_rgba, &b_rgba) {
            return false;
        }

        k = k + 1;
    }
    true
}

/// Whether every frame of the file can enter the frame comparison:
/// each has a palette to resolve against, data the machine can
/// index, and a decompressible stream. A caller that cannot know
/// this of its input tests it here before comparing.
pub fn frames_decodable(gif: &Gif) -> (r: bool)
    requires
        gif.wf(),
    ensures
        r == (forall|k: int|
            0 <= k < crate::gif::spec_image_positions(gif.blocks@).len()
                ==> #[trigger] spec_frame_ok(*gif, k)),
{
    let images = gif.images();
    let n = images.len();
    let mut k: usize = 0;
    while k < n
        invariant
            gif.wf(),
            n == images@.len(),
            n == crate::gif::spec_image_positions(gif.blocks@).len(),
            k <= n,
            forall|q: int|
                0 <= q < images@.len() ==> {
                    &&& (#[trigger] images@[q]).compressed == spec_frame_image(*gif, q)
                    &&& match images@[q].global_palette {
                        Some(gp) => gif.palette == Some(*gp),
                        None => gif.palette is None,
                    }
                },
            forall|q: int| 0 <= q < k ==> #[trigger] spec_frame_ok(*gif, q),
        decreases n - k,
    {
        let image = &images[k];
        let has_palette = match image.compressed.palette() {
            Some(_) => true,
            None => image.global_palette.is_some(),
        };
        if !has_palette {
            proof {
                assert(!spec_frame_ok(*gif, k as int));
            }
            return false;
        }
        let data = image.compressed.data();
        if data.len() > 0x0FFF_FFFF {
            proof {
                assert(!spec_frame_ok(*gif, k as int));
            }
            return false;
        }
        let coder = crate::lzw::LZW::new(image.compressed.lzw_code_size);
        match coder.decode(&data) {
            Ok(_) => {
            },
            Err(_) => {
                proof {
                    assert(!spec_frame_ok(*gif, k as int));
                }
                return false;
            },
        }
        k = k + 1;
    }
    true
}

/// Byte-for-byte vector equality.
fn bytes_equal(a: &Vec<u8>, b: &Vec<u8>) -> (r: bool)
    ensures
        r == (a@ == b@),
{
    if a.len() != b.len() {
        proof {
            assert(a@ != b@);
        }
        return false;
    }
    let mut i: usize = 0;
    while i < a.len()
        invariant
            a@.len() == b@.len(),
            i <= a@.len(),
            forall|j: int| 0 <= j < i ==> a@[j] == b@[j],
        decreases a@.len() - i,
    {
        if a[i] != b[i] {
            return false;
        }
        i = i + 1;
    }
    proof {
        assert(a@ =~= b@);
    }
    true
}

/// A color sequence with runs of consecutive equal colors collapsed.
pub open spec fn spec_dedup_consecutive(s: Seq<Color>) -> Seq<Color>
    decreases s.len(),
{
    if s.len() == 0 {
        Seq::empty()
    } else if s.len() == 1 {
        s
    } else if s[0] == s[1] {
        spec_dedup_consecutive(s.skip(1))
    } else {
        seq![s[0]] + spec_dedup_consecutive(s.skip(1))
    }
}

/// A working table absorbing one palette's colors: each color not yet
/// present is appended and marks the table as incomplete. The result
/// is the grown table and whether it already contained everything.
pub open spec fn spec_absorb_colors(gct: Seq<Color>, colors: Seq<Color>, contains_all: bool) -> (
    Seq<Color>,
    bool,
)
    decreases colors.len(),
{
    if colors.len() == 0 {
        (gct, contains_all)
    } else if gct.contains(colors[0]) {
        spec_absorb_colors(gct, colors.skip(1), contains_all)
    } else {
        spec_absorb_colors(gct.push(colors[0]), colors.skip(1), false)
    }
}

/// The walk over the images' local palettes that the reindexing
/// analysis takes: the grown table, whether the starting table held
/// every color, and whether any local table was seen.
pub open spec fn spec_analyze_fold(
    locals: Seq<Option<Seq<Color>>>,
    gct: Seq<Color>,
    contains_all: bool,
    has_locals: bool,
) -> (Seq<Color>, bool, bool)
    decreases locals.len(),
{
    if locals.len() == 0 {
        (gct, contains_all, has_locals)
    } else {
        match locals[0] {
            None => spec_analyze_fold(locals.skip(1), gct, contains_all, has_locals),
            Some(p) => {
                let (gct2, all2) = spec_absorb_colors(gct, p, contains_all);
                spec_analyze_fold(locals.skip(1), gct2, all2, true)
            },
        }
    }
}

/// Whether the file can be reindexed to need no local color tables:
/// the global table already holds every color used, or no local
/// tables exist, or the missing colors still fit in 256.
pub open spec fn spec_can_be_a_gct(g: Gif) -> bool {
    let start = match g.palette {
        Some(p) => spec_dedup_consecutive(p@),
        None => Seq::<Color>::empty(),
    };
    let (gct, contains_all, has_locals) = spec_analyze_fold(
        spec_image_locals(g.blocks@),
        start,
        true,
        false,
    );
    contains_all || !has_locals || gct.len() <= 256
}

/// Whether the file can be reindexed to drop every local color table,
/// by the rule [`spec_can_be_a_gct`] states.
pub fn analyze_can_be_a_gct(gread: &Gif) -> (r: bool)
    requires
        gread.wf(),
    ensures
        r == spec_can_be_a_gct(*gread),
{
    let mut gct: Vec<Color> = match &gread.palette {
        Some(p) => dedup_consecutive(p),
        None => Vec::new(),
    };
    let mut contains_all = true;
    let mut has_locals = false;

    let ghost blocks = gread.blocks@;
    let ghost goal = spec_analyze_fold(
        spec_image_locals(blocks),
        gct@,
        true,
        false,
    );
    let mut i: usize = 0;
    proof {
        assert(blocks.skip(0) =~= blocks);
    }
    while i < gread.blocks.len()
        invariant
            gread.wf(),
            blocks == gread.blocks@,
            i <= blocks.len(),
            goal == spec_analyze_fold(
                spec_image_locals(blocks.skip(i as int)),
                gct@,
                contains_all,
                has_locals,
            ),
        decreases blocks.len() - i,
    {
        proof {
            let s = blocks.skip(i as int);
            assert(s[0] == blocks[i as int]);
            assert(s.skip(1) =~= blocks.skip(i as int + 1));
            if blocks[i as int] is CompressedImage {
                let ci0 = blocks[i as int]->CompressedImage_0;
                assert(spec_image_locals(s) == seq![
                    match ci0.local_color_table {
                        Some(p) => Some(p@),
                        None => Option::<Seq<Color>>::None,
                    },
                ] + spec_image_locals(blocks.skip(i as int + 1)));
                assert(spec_image_locals(s)[0] == (match ci0.local_color_table {
                    Some(p) => Some(p@),
                    None => Option::<Seq<Color>>::None,
                }));
                assert(spec_image_locals(s).skip(1) =~= spec_image_locals(
                    blocks.skip(i as int + 1),
                ));
            } else {
                assert(spec_image_locals(s) == spec_image_locals(blocks.skip(i as int + 1)));
            }
        }
        if let Block::CompressedImage(ci) = &gread.blocks[i] {
            if let Some(lct) = &ci.local_color_table {
                has_locals = true;
                let ghost gct_before = gct@;
                let ghost all_before = contains_all;
                let len = lct.len();
                let mut j: usize = 0;
                proof {
                    assert(gread.blocks@[i as int].wf());
                    assert(lct@.skip(0) =~= lct@);
                }
                while j < len
                    invariant
                        lct.wf(),
                        len == lct@.len(),
                        j <= len,
                        spec_absorb_colors(gct_before, lct@, all_before) == spec_absorb_colors(
                            gct@,
                            lct@.skip(j as int),
                            contains_all,
                        ),
                    decreases len - j,
                {
                    proof {
                        let cs = lct@.skip(j as int);
                        assert(cs[0] == lct@[j as int]);
                        assert(cs.skip(1) =~= lct@.skip(j as int + 1));
                    }
                    let color = match lct.get(j as u8) {
                        Some(c) => c,
                        None => {
                            proof {
                                assert(false);
                            }
                            Color { r: 0, g: 0, b: 0 }
                        },
                    };
                    if !vec_contains_color(&gct, color) {
                        contains_all = false;
                        gct.push(color);
                    }
                    j = j + 1;
                }
                proof {
                    assert(lct@.skip(len as int) =~= Seq::<Color>::empty());
                }
            }
        }
        i = i + 1;
    }
    proof {
        assert(blocks.skip(blocks.len() as int) =~= Seq::<Block>::empty());
    }
    contains_all || !has_locals || gct.len() <= 256
}

/// Whether a color vector holds a color.
fn vec_contains_color(v: &Vec<Color>, c: Color) -> (r: bool)
    ensures
        r == v@.contains(c),
{
    let mut i: usize = 0;
    while i < v.len()
        invariant
            i <= v@.len(),
            forall|j: int| 0 <= j < i ==> v@[j] != c,
        decreases v@.len() - i,
    {
        if v[i] == c {
            proof {
                assert(v@.contains(c));
            }
            return true;
        }
        i = i + 1;
    }
    proof {
        assert(forall|j: int| 0 <= j < v@.len() ==> v@[j] != c);
    }
    false
}

/// Collapses runs of consecutive equal colors.
fn dedup_consecutive(p: &Palette) -> (r: Vec<Color>)
    requires
        p.wf(),
    ensures
        r@ == spec_dedup_consecutive(p@),
{
    let mut out: Vec<Color> = Vec::new();
    let len = p.len();
    let mut i: usize = 0;
    proof {
        assert(p@.skip(0) =~= p@);
        assert(Seq::<Color>::empty() + spec_dedup_consecutive(p@) =~= spec_dedup_consecutive(p@));
    }
    while i < len
        invariant
            p.wf(),
            len == p@.len(),
            i <= len,
            spec_dedup_consecutive(p@) == out@ + spec_dedup_consecutive(p@.skip(i as int)),
        decreases len - i,
    {
        proof {
            let s = p@.skip(i as int);
            assert(s[0] == p@[i as int]);
            assert(s.skip(1) =~= p@.skip(i as int + 1));
            if i + 1 < len {
                assert(s[1] == p@[i as int + 1]);
            }
        }
        let c = match p.get(i as u8) {
            Some(c) => c,
            None => {
                proof {
                    assert(false);
                }
                Color { r: 0, g: 0, b: 0 }
            },
        };
        if i + 1 < len {
            let next = match p.get((i + 1) as u8) {
                Some(c) => c,
                None => {
                    proof {
                        assert(false);
                    }
                    Color { r: 0, g: 0, b: 0 }
                },
            };
            if c != next {
                out.push(c);
                proof {
                    assert(out@ + spec_dedup_consecutive(p@.skip(i as int + 1))
                        =~= (out@.drop_last() + seq![c]) + spec_dedup_consecutive(
                        p@.skip(i as int + 1),
                    ));
                }
            }
        } else {
            out.push(c);
            proof {
                assert(p@.skip(i as int) =~= seq![c]);
                assert(out@ =~= out@.drop_last() + seq![c]);
            }
        }
        i = i + 1;
    }
    proof {
        assert(p@.skip(len as int) =~= Seq::<Color>::empty());
        assert(out@ =~= out@ + Seq::<Color>::empty());
    }
    out
}

/// Resolves indices through a palette to RGBA, or nothing when an
/// index misses both the palette and the transparent slot.
pub fn deindex(indicies: &Vec<u8>, plt: &Palette, trns: Option<u8>) -> (r: Option<Vec<u8>>)
    ensures
        match r {
            Some(data) => crate::colorimage::spec_indices_resolve(indicies@, plt@, trns) && data@
                == crate::colorimage::spec_deindex_rgba(indicies@, plt@, trns),
            None => !crate::colorimage::spec_indices_resolve(indicies@, plt@, trns),
        },
{
    match crate::colorimage::deindex_rgba(indicies, plt, trns) {
        Ok(data) => Some(data),
        Err(_) => None,
    }
}

} // verus!
