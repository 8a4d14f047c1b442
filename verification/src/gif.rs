use vstd::prelude::*;

use crate::block::{spec_encode_block, Block};
use crate::color::Color;
use crate::graphiccontrol::{spec_disposal_from_code, DisposalMethod, GraphicControl};
use crate::image::CompressedImage;
use crate::palette::{spec_palette_bytes, Palette};
use crate::screendescriptor::{spec_screen_descriptor_bytes, ScreenDescriptor};
use crate::version::{spec_version_bytes, Version};

verus! {

/// The wire bytes of a block sequence, in order.
pub open spec fn spec_blocks_bytes(blocks: Seq<Block>) -> Seq<u8>
    decreases blocks.len(),
{
    if blocks.len() == 0 {
        Seq::empty()
    } else {
        spec_encode_block(blocks[0]) + spec_blocks_bytes(blocks.skip(1))
    }
}

/// The whole file: magic, screen descriptor, optional global color
/// table, the blocks, and the `0x3B` trailer.
pub open spec fn spec_gif_bytes(g: Gif) -> Seq<u8> {
    spec_version_bytes(g.version) + spec_screen_descriptor_bytes(g.descriptor) + (match g.palette {
        Some(p) => spec_palette_bytes(p@),
        None => Seq::<u8>::empty(),
    }) + spec_blocks_bytes(g.blocks@) + seq![0x3Bu8]
}

/// The positions of the image blocks within a block sequence, in
/// order.
pub open spec fn spec_image_positions(blocks: Seq<Block>) -> Seq<int>
    decreases blocks.len(),
{
    if blocks.len() == 0 {
        Seq::empty()
    } else {
        let rest = spec_image_positions(blocks.drop_last());
        if blocks.last() is CompressedImage {
            rest.push(blocks.len() - 1)
        } else {
            rest
        }
    }
}

/// A complete image: version, screen descriptor, optional global
/// palette and the block sequence. The `0x3B` trailer is implied.
#[derive(Debug)]
pub struct Gif {
    /// Usually [`Version::Gif89a`], but might be [`Version::Gif87a`]
    /// for very simple images.
    pub version: Version,
    pub descriptor: ScreenDescriptor,
    pub palette: Option<Palette>,
    pub blocks: Vec<Block>,
}

impl Gif {
    pub open spec fn wf(&self) -> bool {
        &&& match self.palette {
            Some(p) => p.wf(),
            None => true,
        }
        &&& forall|i: int| 0 <= i < self.blocks@.len() ==> (#[trigger] self.blocks@[i]).wf()
    }

    pub fn set_width(&mut self, width: u16)
        ensures
            final(self).descriptor == (ScreenDescriptor { width, ..old(self).descriptor }),
            final(self).version == old(self).version,
            final(self).palette == old(self).palette,
            final(self).blocks == old(self).blocks,
    {
        self.descriptor.width = width;
    }

    pub fn width(&self) -> (r: u16)
        ensures
            r == self.descriptor.width,
    {
        self.descriptor.width
    }

    pub fn set_height(&mut self, height: u16)
        ensures
            final(self).descriptor == (ScreenDescriptor { height, ..old(self).descriptor }),
            final(self).version == old(self).version,
            final(self).palette == old(self).palette,
            final(self).blocks == old(self).blocks,
    {
        self.descriptor.height = height;
    }

    pub fn height(&self) -> (r: u16)
        ensures
            r == self.descriptor.height,
    {
        self.descriptor.height
    }

    pub fn set_background_color(&mut self, idx: u8)
        ensures
            final(self).descriptor == (ScreenDescriptor {
                background_color_index: idx,
                ..old(self).descriptor
            }),
            final(self).version == old(self).version,
            final(self).palette == old(self).palette,
            final(self).blocks == old(self).blocks,
    {
        self.descriptor.background_color_index = idx;
    }

    /// The background index, meaningful only when a global color
    /// table is present.
    pub fn background_color(&self) -> (r: Option<u8>)
        ensures
            r == if self.descriptor.spec_has_color_table() {
                Some(self.descriptor.background_color_index)
            } else {
                Option::<u8>::None
            },
    {
        if self.descriptor.has_color_table() {
            Some(self.descriptor.background_color_index)
        } else {
            None
        }
    }

    /// Serializes the whole file, trailer included.
    pub fn as_bytes(&self) -> (r: Vec<u8>)
        requires
            self.wf(),
        ensures
            r@ == spec_gif_bytes(*self),
    {
        let mut out = self.version.as_bytes();
        let desc = self.descriptor.as_bytes();
        crate::push_all(&mut out, &desc);

        if let Some(gct) = &self.palette {
            let bytes = gct.as_bytes();
            crate::push_all(&mut out, &bytes);
        }

        let ghost head = out@;
        proof {
            assert(out@.subrange(0, head.len() as int) =~= head);
            assert(out@.skip(head.len() as int) =~= Seq::<u8>::empty());
            assert(self.blocks@.skip(0) =~= self.blocks@);
            assert(Seq::<u8>::empty() + spec_blocks_bytes(self.blocks@) =~= spec_blocks_bytes(
                self.blocks@,
            ));
        }
        let mut i: usize = 0;
        while i < self.blocks.len()
            invariant
                self.wf(),
                i <= self.blocks@.len(),
                out@.len() >= head.len(),
                out@.subrange(0, head.len() as int) == head,
                spec_blocks_bytes(self.blocks@) == out@.skip(head.len() as int)
                    + spec_blocks_bytes(self.blocks@.skip(i as int)),
            decreases self.blocks@.len() - i,
        {
            let ghost pre = out@;
            let encoded = crate::block::encode_block(&self.blocks[i]);
            crate::push_all(&mut out, &encoded);
            proof {
                let s = self.blocks@.skip(i as int);
                assert(s[0] == self.blocks@[i as int]);
                assert(s.skip(1) =~= self.blocks@.skip(i as int + 1));
                assert(out@.subrange(0, head.len() as int) =~= head);
                assert(out@.skip(head.len() as int) =~= pre.skip(head.len() as int)
                    + spec_encode_block(self.blocks@[i as int]));
                assert(out@.skip(head.len() as int) + spec_blocks_bytes(
                    self.blocks@.skip(i as int + 1),
                ) =~= pre.skip(head.len() as int) + spec_blocks_bytes(s));
            }
            i = i + 1;
        }
        proof {
            assert(self.blocks@.skip(self.blocks@.len() as int) =~= Seq::<Block>::empty());
            assert(out@ =~= out@.subrange(0, head.len() as int) + out@.skip(head.len() as int));
        }
        out.push(0x3B);
        proof {
            assert(out@ =~= spec_gif_bytes(*self));
        }
        out
    }

    /// The discrete images in the file, each bundled with the blocks
    /// that precede it back to the previous image. Their number equals
    /// the number of image blocks.
    pub fn images(&self) -> (r: Vec<Image>)
        ensures
            r@.len() == spec_image_positions(self.blocks@).len(),
            forall|k: int|
                0 <= k < r@.len() ==> {
                    let ps = spec_image_positions(self.blocks@);
                    let p = ps[k];
                    let start = if k == 0 {
                        0int
                    } else {
                        ps[k - 1] + 1
                    };
                    &&& 0 <= p < self.blocks@.len()
                    &&& self.blocks@[p] is CompressedImage
                    &&& #[trigger] r@[k].compressed == self.blocks@[p]->CompressedImage_0
                    &&& match r@[k].global_palette {
                        Some(gp) => self.palette == Some(*gp),
                        None => self.palette is None,
                    }
                    &&& r@[k].blocks@.len() == p + 1 - start
                    &&& forall|t: int|
                        0 <= t < r@[k].blocks@.len() ==> *(#[trigger] r@[k].blocks@[t])
                            == self.blocks@[start + t]
                },
    {
        let mut images: Vec<Image> = Vec::new();
        let mut start: usize = 0;
        let mut j: usize = 0;
        proof {
            assert(spec_image_positions(self.blocks@.take(0)) =~= Seq::<int>::empty());
        }
        while j < self.blocks.len()
            invariant
                j <= self.blocks@.len(),
                start <= j,
                images@.len() == spec_image_positions(self.blocks@.take(j as int)).len(),
                start == if images@.len() == 0 {
                    0int
                } else {
                    spec_image_positions(self.blocks@.take(j as int)).last() + 1
                },
                forall|k: int|
                    0 <= k < images@.len() ==> {
                        let ps = spec_image_positions(self.blocks@.take(j as int));
                        let p = ps[k];
                        let st = if k == 0 {
                            0int
                        } else {
                            ps[k - 1] + 1
                        };
                        &&& 0 <= p < j
                        &&& self.blocks@[p] is CompressedImage
                        &&& #[trigger] images@[k].compressed == self.blocks@[p]->CompressedImage_0
                        &&& match images@[k].global_palette {
                            Some(gp) => self.palette == Some(*gp),
                            None => self.palette is None,
                        }
                        &&& images@[k].blocks@.len() == p + 1 - st
                        &&& forall|t: int|
                            0 <= t < images@[k].blocks@.len() ==> *(
                            #[trigger] images@[k].blocks@[t]) == self.blocks@[st + t]
                    },
            decreases self.blocks@.len() - j,
        {
            proof {
                assert(self.blocks@.take(j as int + 1).drop_last() =~= self.blocks@.take(
                    j as int,
                ));
                assert(self.blocks@.take(j as int + 1).last() == self.blocks@[j as int]);
            }
            if let Block::CompressedImage(img) = &self.blocks[j] {
                let mut preceding: Vec<&Block> = Vec::new();
                let end = j + 1;
                let mut t: usize = start;
                while t < end
                    invariant
                        start <= t <= end <= self.blocks@.len(),
                        preceding@.len() == t - start,
                        forall|q: int|
                            0 <= q < preceding@.len() ==> *(#[trigger] preceding@[q])
                                == self.blocks@[start + q],
                    decreases end - t,
                {
                    preceding.push(&self.blocks[t]);
                    t = t + 1;
                }
                images.push(
                    Image { compressed: img, global_palette: self.palette.as_ref(), blocks: preceding },
                );
                start = j + 1;
            }
            j = j + 1;
        }
        proof {
            assert(self.blocks@.take(self.blocks@.len() as int) =~= self.blocks@);
        }
        images
    }
}

/// When the next frame may be shown: after a delay in hundredths of a
/// second, on user input, or on whichever comes first.
#[derive(Clone, Copy, Debug, PartialEq, Eq, Structural)]
pub enum FrameControl {
    Delay(u16),
    Input,
    InputOrDelay(u16),
}

/// One frame of the file: the compressed image, the global palette if
/// the file has one, and the blocks since the previous frame, where
/// the live graphic control extension stands.
pub struct Image<'a> {
    pub compressed: &'a CompressedImage,
    pub global_palette: Option<&'a Palette>,
    pub blocks: Vec<&'a Block>,
}

/// The last graphic control extension among `blocks`, if any: where
/// several precede one image, the last one wins.
pub open spec fn spec_last_gce(blocks: Seq<Block>) -> Option<GraphicControl>
    decreases blocks.len(),
{
    if blocks.len() == 0 {
        None
    } else if blocks.last() is GraphicControlExtension {
        Some(blocks.last()->GraphicControlExtension_0)
    } else {
        spec_last_gce(blocks.drop_last())
    }
}

/// The transparent index the live graphic control of `blocks` names,
/// when its transparency flag is set.
pub open spec fn spec_live_trns(blocks: Seq<Block>) -> Option<u8> {
    match spec_last_gce(blocks) {
        Some(gce) => if gce.packed.spec_transparent_flag() {
            Some(gce.transparency_index)
        } else {
            None
        },
        None => None,
    }
}

impl<'a> Image<'a> {
    /// The blocks bundled with this image, as values.
    pub open spec fn spec_blocks(&self) -> Seq<Block> {
        Seq::new(self.blocks@.len(), |i: int| *self.blocks@[i])
    }

    /// The palette this image resolves against, as colors: its own
    /// when present, else the global one.
    pub open spec fn spec_resolved_palette(&self) -> Seq<Color> {
        match self.compressed.local_color_table {
            Some(p) => p@,
            None => match self.global_palette {
                Some(p) => p@,
                None => Seq::empty(),
            },
        }
    }

    pub fn width(&self) -> (r: u16)
        ensures
            r == self.compressed.image_descriptor.width,
    {
        self.compressed.image_descriptor.width
    }

    pub fn height(&self) -> (r: u16)
        ensures
            r == self.compressed.image_descriptor.height,
    {
        self.compressed.image_descriptor.height
    }

    pub fn top(&self) -> (r: u16)
        ensures
            r == self.compressed.image_descriptor.top,
    {
        self.compressed.image_descriptor.top
    }

    pub fn left(&self) -> (r: u16)
        ensures
            r == self.compressed.image_descriptor.left,
    {
        self.compressed.image_descriptor.left
    }

    /// The graphic control extension governing this image: the most
    /// recent one among the blocks since the previous image — where
    /// several precede the image, the last one wins.
    pub fn graphic_control(&self) -> (r: Option<&GraphicControl>)
        ensures
            match r {
                Some(gce) => spec_last_gce(self.spec_blocks()) == Some(*gce),
                None => spec_last_gce(self.spec_blocks()) is None,
            },
    {
        let ghost bs = self.spec_blocks();
        proof {
            assert(bs.take(bs.len() as int) =~= bs);
        }
        let mut i: usize = self.blocks.len();
        while i > 0
            invariant
                i <= self.blocks@.len(),
                bs == self.spec_blocks(),
                spec_last_gce(bs) == spec_last_gce(bs.take(i as int)),
            decreases i,
        {
            i = i - 1;
            proof {
                let s = bs.take(i as int + 1);
                assert(s.last() == bs[i as int]);
                assert(s.drop_last() =~= bs.take(i as int));
            }
            if let Block::GraphicControlExtension(gce) = self.blocks[i] {
                return Some(gce);
            }
        }
        proof {
            assert(bs.take(0) =~= Seq::<Block>::empty());
        }
        None
    }

    /// The transparent index the live graphic control names, when its
    /// transparency flag is set.
    pub fn transparent_index(&self) -> (r: Option<u8>)
        ensures
            r == spec_live_trns(self.spec_blocks()),
    {
        match self.graphic_control() {
            Some(gce) => gce.transparent_index(),
            None => None,
        }
    }

    /// How the next frame is gated: by delay, by user input, by
    /// either, or not at all.
    pub fn frame_control(&self) -> (r: Option<FrameControl>)
        ensures
            r == match spec_last_gce(self.spec_blocks()) {
                Some(gce) => {
                    let zero = gce.delay == 0;
                    let input = gce.packed.spec_user_input();
                    if zero && input {
                        Some(FrameControl::Input)
                    } else if !zero && input {
                        Some(FrameControl::InputOrDelay(gce.delay))
                    } else if !zero && !input {
                        Some(FrameControl::Delay(gce.delay))
                    } else {
                        Option::<FrameControl>::None
                    }
                },
                None => Option::<FrameControl>::None,
            },
    {
        if let Some(gce) = self.graphic_control() {
            let delay = gce.delay();
            let user_input = gce.user_input();
            match (delay == 0, user_input) {
                (true, true) => Some(FrameControl::Input),
                (false, true) => Some(FrameControl::InputOrDelay(delay)),
                (false, false) => Some(FrameControl::Delay(delay)),
                (true, false) => None,
            }
        } else {
            None
        }
    }

    /// The live disposal method, with `NoAction` standing in for a
    /// missing extension or a reserved code.
    pub fn disposal_method(&self) -> (r: DisposalMethod)
        ensures
            r == match spec_last_gce(self.spec_blocks()) {
                Some(gce) => match spec_disposal_from_code(gce.packed.spec_disposal_method()) {
                    Some(d) => d,
                    None => DisposalMethod::NoAction,
                },
                None => DisposalMethod::NoAction,
            },
    {
        if let Some(gce) = self.graphic_control() {
            match gce.disposal_method() {
                Some(d) => d,
                None => DisposalMethod::NoAction,
            }
        } else {
            DisposalMethod::NoAction
        }
    }

    /// The palette this image resolves against: its own when present,
    /// else the global one, which must then exist.
    pub fn palette(&self) -> (r: &Palette)
        requires
            self.compressed.local_color_table is Some || self.global_palette is Some,
        ensures
            match self.compressed.local_color_table {
                Some(_) => *r == self.compressed.local_color_table->0,
                None => Some(*r) == match self.global_palette {
                    Some(p) => Some(*p),
                    None => None,
                },
            },
    {
        if let Some(plt) = self.compressed.local_color_table.as_ref() {
            plt
        } else {
            match self.global_palette {
                Some(p) => p,
                None => vstd::pervasive::unreached(),
            }
        }
    }

    /// The transparency vector for a raster export: one byte per
    /// palette color, zero at the live transparent index and opaque
    /// everywhere else; nothing when no transparent index is live.
    pub fn png_trns(&self) -> (r: Option<Vec<u8>>)
        requires
            self.compressed.local_color_table is Some || self.global_palette is Some,
        ensures
            match spec_live_trns(self.spec_blocks()) {
                Some(trns) => r matches Some(t) && t@.len() == self.spec_resolved_palette().len()
                    && forall|i: int|
                    0 <= i < t@.len() ==> t@[i] == if i == trns {
                        0u8
                    } else {
                        255u8
                    },
                None => r is None,
            },
    {
        let trans_idx = match self.transparent_index() {
            Some(t) => t,
            None => {
                return None;
            },
        };
        let palette = self.palette();
        let len = palette.len();
        let mut trns: Vec<u8> = Vec::new();
        let mut i: usize = 0;
        while i < len
            invariant
                i <= len,
                trns@.len() == i,
                forall|j: int| 0 <= j < i ==> trns@[j] == if j == trans_idx {
                    0u8
                } else {
                    255u8
                },
            decreases len - i,
        {
            if i == trans_idx as usize {
                trns.push(0);
            } else {
                trns.push(255);
            }
            i = i + 1;
        }
        Some(trns)
    }
}

/// The number of images the view layer yields equals the number of
/// image blocks in the file.
pub proof fn lemma_image_count(blocks: Seq<Block>)
    ensures
        spec_image_positions(blocks).len() == blocks.filter(|b: Block| b is CompressedImage).len(),
    decreases blocks.len(),
{
    reveal(Seq::filter);
    if blocks.len() == 0 {
    } else {
        lemma_image_count(blocks.drop_last());
    }
}

} // verus!
