use vstd::prelude::*;

use crate::block::{spec_encode_block, Block, LoopCount};
use crate::gif::{spec_gif_bytes, Gif};
use crate::graphiccontrol::{DisposalMethod, GraphicControl};
use crate::image::{
    spec_chunks_of, spec_effective_code_size, CompressedImage, IndexedImage,
    spec_compressed_image_bytes,
};
use crate::bitstream::spec_pack_bits;
use crate::lzw::spec_lzw_encode_bits;
use crate::imagedescriptor::ImageDescriptor;
use crate::packed::{ImagePacked, ScreenPacked};
use crate::palette::{spec_lzw_code_size, spec_packed_len, Palette};
use crate::screendescriptor::{spec_screen_descriptor_bytes, ScreenDescriptor};
use crate::version::{spec_version_bytes, Version};

verus! {

/// Everything that can go wrong while building or serializing a GIF.
#[derive(Clone, Copy, Debug, PartialEq, Eq, Structural)]
pub enum EncodeError {
    /// A palette is limited to 256 colors.
    TooManyColors,
    /// An image carried a different number of indices than its
    /// dimensions promise.
    IndicieSizeMismatch { expected: usize, got: usize },
    /// No palette was present to derive an LZW code size from, or the
    /// given one was unusable.
    InvalidCodeSize { lzw_code_size: u8 },
}

/// A compressed image a caller already holds as sub-blocks, one still
/// in index form, or one bundled with its graphic control.
#[derive(Debug)]
pub enum EncodeImage {
    CompressedImage(CompressedImage),
    IndexedImage(IndexedImage),
    BuiltImage(BuiltImage),
}

/// What [`ImageBuilder::build`] produces: the indexed image and the
/// graphic control extension it needs, if it needs one.
#[derive(Debug)]
pub struct BuiltImage {
    pub image: IndexedImage,
    pub gce: Option<GraphicControl>,
}

/// Builds one frame: geometry, palette, and the delay, disposal and
/// transparency that end up in a graphic control extension.
#[derive(Debug)]
pub struct ImageBuilder {
    pub left_offset: u16,
    pub top_offset: u16,
    pub width: u16,
    pub height: u16,
    pub color_table: Option<Palette>,
    pub delay: u16,
    pub disposal_method: DisposalMethod,
    pub transparent_index: Option<u8>,
}

impl ImageBuilder {
    /// Whether this frame needs any 89a-only feature.
    pub open spec fn spec_needs_89a(&self) -> bool {
        self.delay > 0 || self.disposal_method != DisposalMethod::NoAction
            || self.transparent_index is Some
    }

    pub open spec fn wf(&self) -> bool {
        match self.color_table {
            Some(p) => p.wf(),
            None => true,
        }
    }

    pub fn new(width: u16, height: u16) -> (r: Self)
        ensures
            r.left_offset == 0 && r.top_offset == 0 && r.width == width && r.height == height
                && r.color_table is None && r.delay == 0 && r.disposal_method
                == DisposalMethod::NoAction && r.transparent_index is None,
            r.wf(),
    {
        Self {
            left_offset: 0,
            top_offset: 0,
            width,
            height,
            color_table: None,
            delay: 0,
            disposal_method: DisposalMethod::NoAction,
            transparent_index: None,
        }
    }

    pub fn offset(self, left: u16, top: u16) -> (r: Self)
        ensures
            r == (ImageBuilder { left_offset: left, top_offset: top, ..self }),
    {
        Self { left_offset: left, top_offset: top, ..self }
    }

    pub fn palette(self, table: Palette) -> (r: Self)
        ensures
            r == (ImageBuilder { color_table: Some(table), ..self }),
    {
        Self { color_table: Some(table), ..self }
    }

    /// Time to wait, in hundredths of a second, before this image is
    /// drawn.
    pub fn delay(self, hundredths: u16) -> (r: Self)
        ensures
            r == (ImageBuilder { delay: hundredths, ..self }),
    {
        Self { delay: hundredths, ..self }
    }

    pub fn disposal_method(self, method: DisposalMethod) -> (r: Self)
        ensures
            r == (ImageBuilder { disposal_method: method, ..self }),
    {
        Self { disposal_method: method, ..self }
    }

    pub fn transparent_index(self, index: Option<u8>) -> (r: Self)
        ensures
            r == (ImageBuilder { transparent_index: index, ..self }),
    {
        Self { transparent_index: index, ..self }
    }

    /// The oldest version able to express this frame.
    pub fn required_version(&self) -> (r: Version)
        ensures
            r == if self.spec_needs_89a() {
                Version::Gif89a
            } else {
                Version::Gif87a
            },
    {
        if self.delay > 0 || !matches!(self.disposal_method, DisposalMethod::NoAction)
            || self.transparent_index.is_some() {
            Version::Gif89a
        } else {
            Version::Gif87a
        }
    }

    /// The graphic control this frame needs, none when the 87a
    /// feature set suffices.
    pub fn get_graphic_control(&self) -> (r: Option<GraphicControl>)
        ensures
            match r {
                Some(gce) => {
                    &&& self.spec_needs_89a()
                    &&& gce.packed.spec_disposal_method() == self.disposal_method.spec_code()
                    &&& !gce.packed.spec_user_input()
                    &&& gce.packed.spec_transparent_flag() == self.transparent_index is Some
                    &&& gce.packed.spec_reserved() == 0
                    &&& gce.delay == self.delay
                    &&& gce.transparency_index == match self.transparent_index {
                        Some(i) => i,
                        None => 0u8,
                    }
                },
                None => !self.spec_needs_89a(),
            },
    {
        if self.delay > 0 || !matches!(self.disposal_method, DisposalMethod::NoAction)
            || self.transparent_index.is_some() {
            match self.transparent_index {
                Some(transindex) => Some(
                    GraphicControl::new(self.disposal_method, false, true, self.delay, transindex),
                ),
                None => Some(GraphicControl::new(self.disposal_method, false, false, self.delay, 0)),
            }
        } else {
            None
        }
    }

    /// Checks the index count against the geometry and materializes
    /// the frame. Fails exactly when `indicies` is not `width *
    /// height` long.
    pub fn build(self, indicies: Vec<u8>) -> (r: Result<BuiltImage, EncodeError>)
        requires
            self.wf(),
        ensures
            match r {
                Ok(built) => {
                    &&& indicies@.len() == self.width * self.height
                    &&& built.image.image_descriptor.left == self.left_offset
                    &&& built.image.image_descriptor.top == self.top_offset
                    &&& built.image.image_descriptor.width == self.width
                    &&& built.image.image_descriptor.height == self.height
                    &&& built.image.image_descriptor.packed.raw == (match self.color_table {
                        Some(p) => ((0u8 | 0b1000_0000) & 0b1111_1000) | (spec_packed_len(p@.len())
                            & 0b0000_0111),
                        None => ((0u8 & 0b0111_1111) & 0b1111_1000) | 0,
                    })
                    &&& built.image.local_color_table == self.color_table
                    &&& built.image.indicies@ == indicies@
                    &&& built.image.wf()
                    &&& match built.gce {
                        Some(gce) => {
                            &&& self.spec_needs_89a()
                            &&& gce.packed.spec_disposal_method()
                                == self.disposal_method.spec_code()
                            &&& !gce.packed.spec_user_input()
                            &&& gce.packed.spec_transparent_flag() == self.transparent_index
                                is Some
                            &&& gce.delay == self.delay
                            &&& gce.transparency_index == match self.transparent_index {
                                Some(i) => i,
                                None => 0u8,
                            }
                        },
                        None => !self.spec_needs_89a(),
                    }
                },
                Err(e) => {
                    &&& indicies@.len() != self.width * self.height
                    &&& e == (EncodeError::IndicieSizeMismatch {
                        expected: (self.width * self.height) as usize,
                        got: indicies@.len() as usize,
                    })
                },
            },
    {
        proof {
            assert((self.width as int) * (self.height as int) <= 65535int * 65535int)
                by (nonlinear_arith)
                requires
                    self.width <= 65535 && self.height <= 65535,
            ;
        }
        let expected_len: usize = (self.width as usize) * (self.height as usize);
        if indicies.len() != expected_len {
            return Err(
                EncodeError::IndicieSizeMismatch { expected: expected_len, got: indicies.len() },
            );
        }

        let gce = self.get_graphic_control();
        let mut imgdesc = ImageDescriptor {
            left: self.left_offset,
            top: self.top_offset,
            width: self.width,
            height: self.height,
            packed: ImagePacked { raw: 0 },
        };
        imgdesc.set_color_table_metadata(self.color_table.as_ref());

        let image = IndexedImage {
            image_descriptor: imgdesc,
            local_color_table: self.color_table,
            indicies,
        };
        Ok(BuiltImage { image, gce })
    }
}

/// Accumulates blocks in memory and materializes a [`Gif`] value.
pub struct GifBuilder {
    pub version: Version,
    pub width: u16,
    pub height: u16,
    pub background_color_index: u8,
    pub global_color_table: Option<Palette>,
    pub blocks: Vec<BuildBlock>,
}

/// An entry of a [`GifBuilder`]: a finished block, or an indexed
/// image that `build` still has to compress.
pub enum BuildBlock {
    Indexed(IndexedImage),
    Block(Block),
}

impl BuildBlock {
    pub open spec fn wf(&self) -> bool {
        match self {
            BuildBlock::Indexed(img) => img.wf(),
            BuildBlock::Block(b) => b.wf(),
        }
    }
}

impl GifBuilder {
    pub open spec fn wf(&self) -> bool {
        &&& match self.global_color_table {
            Some(p) => p.wf(),
            None => true,
        }
        &&& forall|i: int| 0 <= i < self.blocks@.len() ==> (#[trigger] self.blocks@[i]).wf()
    }

    pub fn new(width: u16, height: u16) -> (r: Self)
        ensures
            r.version == Version::Gif87a,
            r.width == width && r.height == height,
            r.background_color_index == 0,
            r.global_color_table is None,
            r.blocks@.len() == 0,
            r.wf(),
    {
        Self {
            version: Version::Gif87a,
            width,
            height,
            background_color_index: 0,
            global_color_table: None,
            blocks: Vec::new(),
        }
    }

    pub fn palette(self, palette: Palette) -> (r: Self)
        requires
            palette.wf(),
        ensures
            r == (GifBuilder { global_color_table: Some(palette), ..self }),
    {
        Self { global_color_table: Some(palette), ..self }
    }

    pub fn background_index(self, ind: u8) -> (r: Self)
        ensures
            r == (GifBuilder { background_color_index: ind, ..self }),
    {
        Self { background_color_index: ind, ..self }
    }

    pub fn block(self, block: Block) -> (r: Self)
        requires
            block.wf(),
        ensures
            r.version == self.version && r.width == self.width && r.height == self.height
                && r.background_color_index == self.background_color_index
                && r.global_color_table == self.global_color_table,
            r.blocks@ == self.blocks@.push(BuildBlock::Block(block)),
    {
        let mut this = self;
        this.blocks.push(BuildBlock::Block(block));
        this
    }

    pub fn repeat(self, count: LoopCount) -> (r: Self)
        ensures
            r.version == self.version && r.width == self.width && r.height == self.height
                && r.background_color_index == self.background_color_index
                && r.global_color_table == self.global_color_table,
            r.blocks@ == self.blocks@.push(BuildBlock::Block(Block::LoopingExtension(count))),
    {
        let mut this = self;
        this.blocks.push(BuildBlock::Block(Block::LoopingExtension(count)));
        this
    }

    /// Adds an image. A frame that needs a graphic control flips the
    /// version to 89a and pushes the extension first.
    pub fn image(self, img: EncodeImage) -> (r: Self)
        requires
            match img {
                EncodeImage::CompressedImage(ci) => ci.wf(),
                EncodeImage::IndexedImage(ii) => ii.wf(),
                EncodeImage::BuiltImage(b) => b.image.wf(),
            },
        ensures
            r.width == self.width && r.height == self.height && r.background_color_index
                == self.background_color_index && r.global_color_table == self.global_color_table,
            match img {
                EncodeImage::CompressedImage(ci) => r.blocks@ == self.blocks@.push(
                    BuildBlock::Block(Block::CompressedImage(ci)),
                ) && r.version == self.version,
                EncodeImage::IndexedImage(ii) => r.blocks@ == self.blocks@.push(
                    BuildBlock::Indexed(ii),
                ) && r.version == self.version,
                EncodeImage::BuiltImage(b) => match b.gce {
                    Some(gce) => r.blocks@ == self.blocks@.push(
                        BuildBlock::Block(Block::GraphicControlExtension(gce)),
                    ).push(BuildBlock::Indexed(b.image)) && r.version == Version::Gif89a,
                    None => r.blocks@ == self.blocks@.push(BuildBlock::Indexed(b.image))
                        && r.version == self.version,
                },
            },
    {
        let mut this = self;
        match img {
            EncodeImage::CompressedImage(ci) => {
                this.blocks.push(BuildBlock::Block(Block::CompressedImage(ci)));
            },
            EncodeImage::IndexedImage(ii) => {
                this.blocks.push(BuildBlock::Indexed(ii));
            },
            EncodeImage::BuiltImage(built) => {
                if let Some(gce) = built.gce {
                    this.version = Version::Gif89a;
                    this.blocks.push(BuildBlock::Block(Block::GraphicControlExtension(gce)));
                }
                this.blocks.push(BuildBlock::Indexed(built.image));
            },
        }
        this
    }

    /// Materializes the file: sets the screen descriptor's table
    /// metadata and compresses every still-indexed image against the
    /// global palette's code size. Succeeds exactly when every
    /// indexed image has a palette to draw a code size from.
    pub fn build(self) -> (r: Result<Gif, EncodeError>)
        requires
            self.wf(),
        ensures
            match r {
                Ok(g) => {
                    &&& forall|i: int|
                        0 <= i < self.blocks@.len() ==> ((#[trigger] self.blocks@[i])
                            matches BuildBlock::Indexed(img) ==> (img.local_color_table is Some
                            || self.global_color_table is Some))
                    &&& g.version == self.version
                    &&& g.descriptor.width == self.width
                    &&& g.descriptor.height == self.height
                    &&& g.descriptor.background_color_index == self.background_color_index
                    &&& g.descriptor.pixel_aspect_ratio == 0
                    &&& g.descriptor.packed.raw == (match self.global_color_table {
                        Some(p) => ((0u8 | 0b1000_0000) & 0b1111_1000) | (spec_packed_len(p@.len())
                            & 0b0000_0111),
                        None => ((0u8 & 0b0111_1111) & 0b1111_1000) | 0,
                    })
                    &&& g.palette == self.global_color_table
                    &&& g.blocks@.len() == self.blocks@.len()
                    &&& forall|i: int|
                        0 <= i < self.blocks@.len() ==> match #[trigger] self.blocks@[i] {
                            BuildBlock::Block(b) => g.blocks@[i] == b,
                            BuildBlock::Indexed(img) => {
                                &&& g.blocks@[i] matches Block::CompressedImage(ci)
                                &&& spec_effective_code_size(
                                    img.local_color_table,
                                    match self.global_color_table {
                                        Some(p) => Some(spec_lzw_code_size(p@.len())),
                                        None => None,
                                    },
                                ) == Some(ci.lzw_code_size)
                                &&& ci.image_descriptor == img.image_descriptor
                                &&& ci.local_color_table == img.local_color_table
                                &&& ci.spec_chunks() == spec_chunks_of(
                                    spec_pack_bits(
                                        spec_lzw_encode_bits(ci.lzw_code_size, img.indicies@),
                                    ),
                                )
                            },
                        }
                    &&& g.wf()
                },
                Err(e) => {
                    &&& e == (EncodeError::InvalidCodeSize { lzw_code_size: 0u8 })
                    &&& self.global_color_table is None
                    &&& exists|i: int|
                        0 <= i < self.blocks@.len() && ((#[trigger] self.blocks@[i])
                            matches BuildBlock::Indexed(img) && img.local_color_table is None)
                },
            },
    {
        let mut screen_descriptor = ScreenDescriptor {
            width: self.width,
            height: self.height,
            packed: ScreenPacked { raw: 0 },
            background_color_index: self.background_color_index,
            pixel_aspect_ratio: 0,
        };
        screen_descriptor.set_color_table_metadata(self.global_color_table.as_ref());

        let lzw_gct_size: Option<u8> = match &self.global_color_table {
            Some(ct) => Some(ct.lzw_code_size()),
            None => None,
        };

        let mut out_blocks: Vec<Block> = Vec::new();
        let mut blocks = self.blocks;
        let ghost source = blocks@;
        while blocks.len() > 0
            invariant
                source == self.blocks@,
                out_blocks@.len() + blocks@.len() == source.len(),
                blocks@ == source.skip(out_blocks@.len() as int),
                forall|k: int| 0 <= k < source.len() ==> (#[trigger] source[k]).wf(),
                lzw_gct_size == (match self.global_color_table {
                    Some(p) => Some(spec_lzw_code_size(p@.len())),
                    None => Option::<u8>::None,
                }),
                forall|k: int|
                    0 <= k < out_blocks@.len() ==> match #[trigger] source[k] {
                        BuildBlock::Block(b) => out_blocks@[k] == b,
                        BuildBlock::Indexed(img) => {
                            &&& out_blocks@[k] matches Block::CompressedImage(ci)
                            &&& spec_effective_code_size(img.local_color_table, lzw_gct_size)
                                == Some(ci.lzw_code_size)
                            &&& ci.image_descriptor == img.image_descriptor
                            &&& ci.local_color_table == img.local_color_table
                            &&& ci.spec_chunks() == spec_chunks_of(
                                spec_pack_bits(
                                    spec_lzw_encode_bits(ci.lzw_code_size, img.indicies@),
                                ),
                            )
                        },
                    },
                forall|k: int| 0 <= k < out_blocks@.len() ==> (#[trigger] out_blocks@[k]).wf(),
            decreases blocks@.len(),
        {
            let ghost done = out_blocks@.len() as int;
            let entry = blocks.remove(0);
            proof {
                assert(entry == source[done]);
                assert(blocks@ =~= source.skip(done + 1));
            }
            match entry {
                BuildBlock::Indexed(indexed) => {
                    let ghost entry_img = indexed;
                    match indexed.compress(lzw_gct_size) {
                        Ok(compressed) => {
                            out_blocks.push(Block::CompressedImage(compressed));
                        },
                        Err(e) => {
                            proof {
                                assert(0 <= done < source.len());
                                assert(self.blocks@[done] matches BuildBlock::Indexed(img)
                                    && img.local_color_table is None);
                            }
                            return Err(e);
                        },
                    }
                },
                BuildBlock::Block(block) => {
                    out_blocks.push(block);
                },
            }
        }

        Ok(
            Gif {
                version: self.version,
                descriptor: screen_descriptor,
                palette: self.global_color_table,
                blocks: out_blocks,
            },
        )
    }
}


/// Writes a file block by block into an in-memory output buffer; the
/// header goes out on construction, the trailer on [`Writer::done`].
pub struct Writer {
    output: Vec<u8>,
    global_palette: Option<Palette>,
}

impl Writer {
    /// The bytes written so far.
    pub closed spec fn spec_output(&self) -> Seq<u8> {
        self.output@
    }

    pub closed spec fn spec_global_palette(&self) -> Option<Palette> {
        self.global_palette
    }

    pub closed spec fn wf(&self) -> bool {
        match self.global_palette {
            Some(p) => p.wf(),
            None => true,
        }
    }

    /// Write the required bits of a GIF. The version written to the
    /// stream is [`Version::Gif89a`]. If for some reason you need
    /// [`Version::Gif87a`], use [`Writer::from_parts`].
    pub fn new(width: u16, height: u16, global_palette: Option<Palette>) -> (r: Writer)
        requires
            match global_palette {
                Some(p) => p.wf(),
                None => true,
            },
        ensures
            r.wf(),
            r.spec_global_palette() == global_palette,
            ({
                let sd = ScreenDescriptor {
                    width,
                    height,
                    packed: ScreenPacked {
                        raw: match global_palette {
                            Some(p) => ((0u8 | 0b1000_0000) & 0b1111_1000) | (spec_packed_len(
                                p@.len(),
                            ) & 0b0000_0111),
                            None => ((0u8 & 0b0111_1111) & 0b1111_1000) | 0,
                        },
                    },
                    background_color_index: 0,
                    pixel_aspect_ratio: 0,
                };
                r.spec_output() == spec_version_bytes(Version::Gif89a)
                    + spec_screen_descriptor_bytes(sd) + (match global_palette {
                    Some(p) => crate::palette::spec_palette_bytes(p@),
                    None => Seq::<u8>::empty(),
                })
            }),
    {
        let mut screen_descriptor = ScreenDescriptor::new(width, height);
        screen_descriptor.set_color_table_metadata(global_palette.as_ref());
        Writer::from_parts(Version::Gif89a, screen_descriptor, global_palette)
    }

    /// Create a new [`Writer`] from the provided required blocks.
    pub fn from_parts(
        version: Version,
        screen_descriptor: ScreenDescriptor,
        global_palette: Option<Palette>,
    ) -> (r: Writer)
        requires
            match global_palette {
                Some(p) => p.wf(),
                None => true,
            },
        ensures
            r.wf(),
            r.spec_global_palette() == global_palette,
            r.spec_output() == spec_version_bytes(version) + spec_screen_descriptor_bytes(
                screen_descriptor,
            ) + (match global_palette {
                Some(p) => crate::palette::spec_palette_bytes(p@),
                None => Seq::<u8>::empty(),
            }),
    {
        let mut output = version.as_bytes();
        let sd = screen_descriptor.as_bytes();
        crate::push_all(&mut output, &sd);
        if let Some(palette) = &global_palette {
            let pal = palette.as_bytes();
            crate::push_all(&mut output, &pal);
        }
        proof {
            if global_palette is None {
                assert(output@ =~= spec_version_bytes(version) + spec_screen_descriptor_bytes(
                    screen_descriptor,
                ) + Seq::<u8>::empty());
            }
        }
        Writer { output, global_palette }
    }

    /// Appends one block.
    pub fn block(&mut self, block: Block)
        requires
            old(self).wf(),
            block.wf(),
        ensures
            final(self).wf(),
            final(self).spec_global_palette() == old(self).spec_global_palette(),
            final(self).spec_output() == old(self).spec_output() + spec_encode_block(block),
    {
        let encoded = crate::block::encode_block(&block);
        crate::push_all(&mut self.output, &encoded);
    }

    /// Appends a looping extension.
    pub fn repeat(&mut self, count: LoopCount)
        requires
            old(self).wf(),
        ensures
            final(self).wf(),
            final(self).spec_global_palette() == old(self).spec_global_palette(),
            final(self).spec_output() == old(self).spec_output() + spec_encode_block(
                Block::LoopingExtension(count),
            ),
    {
        self.block(Block::LoopingExtension(count));
    }

    /// Appends an image, compressing it first when it arrives in
    /// index form; the code size falls back to the global palette's.
    pub fn image(&mut self, image: EncodeImage) -> (r: Result<(), EncodeError>)
        requires
            old(self).wf(),
            match image {
                EncodeImage::CompressedImage(ci) => ci.wf(),
                EncodeImage::IndexedImage(ii) => ii.wf(),
                EncodeImage::BuiltImage(b) => b.image.wf(),
            },
        ensures
            final(self).wf(),
            final(self).spec_global_palette() == old(self).spec_global_palette(),
            ({
                let gcs = match old(self).spec_global_palette() {
                    Some(p) => Some(spec_lzw_code_size(p@.len())),
                    None => Option::<u8>::None,
                };
                match image {
                    EncodeImage::CompressedImage(ci) => r is Ok && final(self).spec_output()
                        == old(self).spec_output() + spec_compressed_image_bytes(ci),
                    EncodeImage::IndexedImage(ii) => match r {
                        Ok(_) => (ii.local_color_table is Some || gcs is Some) && exists|
                            ci: CompressedImage,
                        |
                            {
                                &&& spec_effective_code_size(ii.local_color_table, gcs) == Some(
                                    ci.lzw_code_size,
                                )
                                &&& ci.image_descriptor == ii.image_descriptor
                                &&& ci.local_color_table == ii.local_color_table
                                &&& ci.spec_chunks() == spec_chunks_of(
                                    spec_pack_bits(
                                        spec_lzw_encode_bits(ci.lzw_code_size, ii.indicies@),
                                    ),
                                )
                                &&& final(self).spec_output() == old(self).spec_output()
                                    + #[trigger] spec_compressed_image_bytes(ci)
                            },
                        Err(e) => e == (EncodeError::InvalidCodeSize { lzw_code_size: 0u8 })
                            && ii.local_color_table is None && gcs is None
                            && final(self).spec_output() == old(self).spec_output(),
                    },
                    EncodeImage::BuiltImage(b) => {
                        let head = match b.gce {
                            Some(gce) => spec_encode_block(Block::GraphicControlExtension(gce)),
                            None => Seq::<u8>::empty(),
                        };
                        match r {
                            Ok(_) => (b.image.local_color_table is Some || gcs is Some) && exists|
                                ci: CompressedImage,
                            |
                                {
                                    &&& spec_effective_code_size(b.image.local_color_table, gcs)
                                        == Some(ci.lzw_code_size)
                                    &&& ci.image_descriptor == b.image.image_descriptor
                                    &&& ci.local_color_table == b.image.local_color_table
                                    &&& ci.spec_chunks() == spec_chunks_of(
                                        spec_pack_bits(
                                            spec_lzw_encode_bits(
                                                ci.lzw_code_size,
                                                b.image.indicies@,
                                            ),
                                        ),
                                    )
                                    &&& final(self).spec_output() == old(self).spec_output() + head
                                        + #[trigger] spec_compressed_image_bytes(ci)
                                },
                            Err(e) => e == (EncodeError::InvalidCodeSize { lzw_code_size: 0u8 })
                                && b.image.local_color_table is None && gcs is None
                                && final(self).spec_output() == old(self).spec_output(),
                        }
                    },
                }
            }),
    {
        let lzw_code_size: Option<u8> = match &self.global_palette {
            Some(p) => Some(p.lzw_code_size()),
            None => None,
        };
        match image {
            EncodeImage::CompressedImage(compressed) => {
                let bytes = compressed.as_bytes();
                crate::push_all(&mut self.output, &bytes);
                Ok(())
            },
            EncodeImage::IndexedImage(indexed) => {
                match indexed.compress(lzw_code_size) {
                    Ok(compressed) => {
                        let bytes = compressed.as_bytes();
                        crate::push_all(&mut self.output, &bytes);
                        Ok(())
                    },
                    Err(e) => Err(e),
                }
            },
            EncodeImage::BuiltImage(built) => {
                // Validate and compress before anything is emitted, so a
                // failure never leaves a half-written frame in the stream.
                match built.image.compress(lzw_code_size) {
                    Ok(compressed) => {
                        if let Some(gce) = &built.gce {
                            self.block(Block::GraphicControlExtension(*gce));
                        }
                        let bytes = compressed.as_bytes();
                        crate::push_all(&mut self.output, &bytes);
                        Ok(())
                    },
                    Err(e) => Err(e),
                }
            },
        }
    }

    /// Writes the trailer and hands the finished bytes back.
    pub fn done(self) -> (r: Vec<u8>)
        ensures
            r@ == self.spec_output() + seq![0x3Bu8],
    {
        let mut output = self.output;
        output.push(0x3B);
        output
    }
}

} // verus!
