use vstd::prelude::*;

use crate::application::Application;
use crate::block::{Block, LoopCount};
use crate::color::Color;
use crate::gif::Gif;
use crate::graphiccontrol::GraphicControl;
use crate::image::CompressedImage;
use crate::imagedescriptor::ImageDescriptor;
use crate::packed::{ImagePacked, ScreenPacked};
use crate::palette::Palette;
use crate::screendescriptor::ScreenDescriptor;
use crate::version::Version;
use crate::{spec_packed_to_color_table_length, spec_u16_from_le};

verus! {

/// Everything that can go wrong while decoding a GIF.
#[derive(Clone, Copy, Debug, PartialEq, Eq, Structural)]
pub enum DecodeError {
    /// The file did not start with a known `GIF87a`/`GIF89a` magic.
    InvalidVersion,
    /// A magic string of the right shape but unknown content.
    UnknownVersionString,
    /// The data ended where the format promises more bytes.
    UnexpectedEof,
    /// An image carried an index past the end of its palette.
    ColorIndexOutOfBounds,
    /// A block introducer that the format does not define.
    UnknownBlock { byte: u8 },
    /// An extension label this library does not recognize.
    UnknownExtension,
    /// The LZW stream used a code before defining it.
    LzwInvalidCode,
}

/// A sub-block chain parsed from `pos`: the chunks up to the
/// zero-length terminator and the position after it, or `None` when
/// the data ends first.
pub open spec fn spec_parse_subblocks(data: Seq<u8>, pos: nat) -> Option<(Seq<Seq<u8>>, nat)>
    decreases data.len() - pos,
{
    if pos >= data.len() {
        None
    } else {
        let n = data[pos as int];
        if n == 0 {
            Some((Seq::empty(), (pos + 1) as nat))
        } else if pos + 1 + n <= data.len() {
            match spec_parse_subblocks(data, (pos + 1 + n) as nat) {
                None => None,
                Some((rest, p)) => Some(
                    (seq![data.subrange(pos as int + 1, pos as int + 1 + n)] + rest, p),
                ),
            }
        } else {
            None
        }
    }
}

/// The color table of `count` colors parsed from `pos`.
pub open spec fn spec_parse_colors(data: Seq<u8>, pos: nat, count: nat) -> Seq<Color> {
    Seq::new(
        count,
        |i: int|
            Color {
                r: data[pos + 3 * i],
                g: data[pos + 3 * i + 1],
                b: data[pos + 3 * i + 2],
            },
    )
}

/// The mathematical shape of one parsed block, with every byte vector
/// abstracted to a sequence.
pub enum ParsedBlock {
    Image {
        desc: ImageDescriptor,
        palette: Option<Seq<Color>>,
        code: u8,
        chunks: Seq<Seq<u8>>,
    },
    Gce(GraphicControl),
    Comment(Seq<u8>),
    App { id: Seq<u8>, auth: Seq<u8>, bytes: Seq<u8> },
    Looping(LoopCount),
}

/// The abstraction of an in-memory block.
pub open spec fn spec_abs_block(b: Block) -> ParsedBlock {
    match b {
        Block::CompressedImage(ci) => ParsedBlock::Image {
            desc: ci.image_descriptor,
            palette: match ci.local_color_table {
                Some(p) => Some(p@),
                None => None,
            },
            code: ci.lzw_code_size,
            chunks: ci.spec_chunks(),
        },
        Block::GraphicControlExtension(g) => ParsedBlock::Gce(g),
        Block::CommentExtension(c) => ParsedBlock::Comment(c@),
        Block::ApplicationExtension(a) => ParsedBlock::App {
            id: a.spec_identifier(),
            auth: a.spec_authentication_code(),
            bytes: a.spec_data(),
        },
        Block::LoopingExtension(lc) => ParsedBlock::Looping(lc),
    }
}

/// The screen descriptor whose seven bytes sit at `pos`.
pub open spec fn spec_screen_descriptor_from(data: Seq<u8>, pos: int) -> ScreenDescriptor {
    ScreenDescriptor {
        width: spec_u16_from_le(data[pos], data[pos + 1]),
        height: spec_u16_from_le(data[pos + 2], data[pos + 3]),
        packed: ScreenPacked { raw: data[pos + 4] },
        background_color_index: data[pos + 5],
        pixel_aspect_ratio: data[pos + 6],
    }
}

/// The image descriptor whose nine bytes (past the separator) sit at
/// `pos`.
pub open spec fn spec_image_descriptor_from(data: Seq<u8>, pos: int) -> ImageDescriptor {
    ImageDescriptor {
        left: spec_u16_from_le(data[pos], data[pos + 1]),
        top: spec_u16_from_le(data[pos + 2], data[pos + 3]),
        width: spec_u16_from_le(data[pos + 4], data[pos + 5]),
        height: spec_u16_from_le(data[pos + 6], data[pos + 7]),
        packed: ImagePacked { raw: data[pos + 8] },
    }
}

/// One block parsed at `pos`: the block and the position after it,
/// `Ok(None)` at the trailer, or the decode error the data forces.
/// A plain-text extension is tolerated and skipped.
pub open spec fn spec_parse_block(data: Seq<u8>, pos: nat) -> Result<
    Option<(ParsedBlock, nat)>,
    DecodeError,
>
    decreases data.len() - pos,
{
    if pos >= data.len() {
        Err(DecodeError::UnexpectedEof)
    } else {
        let introducer = data[pos as int];
        if introducer == 0x2C {
            if pos + 10 > data.len() {
                Err(DecodeError::UnexpectedEof)
            } else {
                let desc = spec_image_descriptor_from(data, pos as int + 1);
                let ct_len: nat = if desc.spec_has_color_table() {
                    spec_packed_to_color_table_length(desc.packed.spec_color_table_size()) as nat
                } else {
                    0
                };
                if pos + 10 + 3 * ct_len > data.len() {
                    Err(DecodeError::UnexpectedEof)
                } else {
                    let palette = if desc.spec_has_color_table() {
                        Some(spec_parse_colors(data, (pos + 10) as nat, ct_len))
                    } else {
                        None
                    };
                    let code_pos = pos + 10 + 3 * ct_len;
                    if code_pos >= data.len() {
                        Err(DecodeError::UnexpectedEof)
                    } else {
                        let code = data[code_pos as int];
                        match spec_parse_subblocks(data, (code_pos + 1) as nat) {
                            None => Err(DecodeError::UnexpectedEof),
                            Some((chunks, p)) => Ok(
                                Some((ParsedBlock::Image { desc, palette, code, chunks }, p)),
                            ),
                        }
                    }
                }
            }
        } else if introducer == 0x21 {
            if pos + 2 > data.len() {
                Err(DecodeError::UnexpectedEof)
            } else {
                let label = data[pos as int + 1];
                if label == 0xF9 {
                    if pos + 8 > data.len() {
                        Err(DecodeError::UnexpectedEof)
                    } else {
                        let gce = GraphicControl {
                            packed: crate::packed::GraphicPacked { raw: data[pos as int + 3] },
                            delay: spec_u16_from_le(data[pos as int + 4], data[pos as int + 5]),
                            transparency_index: data[pos as int + 6],
                        };
                        Ok(Some((ParsedBlock::Gce(gce), (pos + 8) as nat)))
                    }
                } else if label == 0xFE {
                    match spec_parse_subblocks(data, (pos + 2) as nat) {
                        None => Err(DecodeError::UnexpectedEof),
                        Some((chunks, p)) => Ok(Some((ParsedBlock::Comment(chunks.flatten()), p))),
                    }
                } else if label == 0xFF {
                    if pos + 14 > data.len() {
                        Err(DecodeError::UnexpectedEof)
                    } else {
                        let id = data.subrange(pos as int + 3, pos as int + 11);
                        let auth = data.subrange(pos as int + 11, pos as int + 14);
                        match spec_parse_subblocks(data, (pos + 14) as nat) {
                            None => Err(DecodeError::UnexpectedEof),
                            Some((chunks, p)) => {
                                let collapsed = chunks.flatten();
                                if id == crate::block::spec_netscape_ident().take(8)
                                    && collapsed.len() >= 3 && collapsed[0] == 0x01 {
                                    let count = spec_u16_from_le(collapsed[1], collapsed[2]);
                                    Ok(
                                        Some(
                                            (
                                                ParsedBlock::Looping(
                                                    if count == 0 {
                                                        LoopCount::Forever
                                                    } else {
                                                        LoopCount::Number(count)
                                                    },
                                                ),
                                                p,
                                            ),
                                        ),
                                    )
                                } else {
                                    Ok(Some((ParsedBlock::App { id, auth, bytes: collapsed }, p)))
                                }
                            },
                        }
                    }
                } else if label == 0x01 {
                    if pos + 3 > data.len() {
                        Err(DecodeError::UnexpectedEof)
                    } else {
                        let n = data[pos as int + 2];
                        if pos + 3 + n > data.len() {
                            Err(DecodeError::UnexpectedEof)
                        } else {
                            match spec_parse_subblocks(data, (pos + 3 + n) as nat) {
                                None => Err(DecodeError::UnexpectedEof),
                                Some((_, p)) => if pos < p <= data.len() {
                                    spec_parse_block(data, p)
                                } else {
                                    Err(DecodeError::UnexpectedEof)
                                },
                            }
                        }
                    }
                } else {
                    Err(DecodeError::UnknownExtension)
                }
            }
        } else if introducer == 0x3B {
            Ok(None)
        } else {
            Err(DecodeError::UnknownBlock { byte: introducer })
        }
    }
}

/// The block sequence from `pos` to the trailer; bytes after the
/// trailer are ignored.
pub open spec fn spec_parse_blocks(data: Seq<u8>, pos: nat) -> Result<
    Seq<ParsedBlock>,
    DecodeError,
>
    decreases data.len() - pos,
{
    match spec_parse_block(data, pos) {
        Err(e) => Err(e),
        Ok(None) => Ok(Seq::empty()),
        Ok(Some((b, p))) => if pos < p <= data.len() {
            match spec_parse_blocks(data, p) {
                Err(e) => Err(e),
                Ok(rest) => Ok(seq![b] + rest),
            }
        } else {
            Err(DecodeError::UnexpectedEof)
        },
    }
}

/// The file header: version, screen descriptor, optional global color
/// table as colors, and the position just past them.
pub open spec fn spec_parse_header(data: Seq<u8>) -> Result<
    (Version, ScreenDescriptor, Option<Seq<Color>>, nat),
    DecodeError,
> {
    if data.len() < 6 {
        Err(DecodeError::UnexpectedEof)
    } else {
        let magic = data.subrange(0, 6);
        if magic != crate::version::spec_version_bytes(Version::Gif87a) && magic
            != crate::version::spec_version_bytes(Version::Gif89a) {
            Err(DecodeError::InvalidVersion)
        } else {
            let version = if magic == crate::version::spec_version_bytes(Version::Gif87a) {
                Version::Gif87a
            } else {
                Version::Gif89a
            };
            if data.len() < 13 {
                Err(DecodeError::UnexpectedEof)
            } else {
                let sd = spec_screen_descriptor_from(data, 6);
                if sd.spec_has_color_table() {
                    let ct_len = sd.spec_color_table_len() as nat;
                    if 13 + 3 * ct_len > data.len() {
                        Err(DecodeError::UnexpectedEof)
                    } else {
                        Ok((version, sd, Some(spec_parse_colors(data, 13, ct_len)), (13 + 3
                            * ct_len) as nat))
                    }
                } else {
                    Ok((version, sd, None, 13))
                }
            }
        }
    }
}

/// A parsed sub-block chain ends past where it began and within the
/// data.
pub proof fn lemma_parse_subblocks_advances(data: Seq<u8>, pos: nat)
    ensures
        match spec_parse_subblocks(data, pos) {
            Some((chunks, p)) => pos < p <= data.len(),
            None => true,
        },
    decreases data.len() - pos,
{
    if pos >= data.len() {
    } else {
        let n = data[pos as int];
        if n == 0 {
        } else if pos + 1 + n <= data.len() {
            lemma_parse_subblocks_advances(data, (pos + 1 + n) as nat);
        }
    }
}

/// An input byte source with an explicit cursor; the whole input is
/// held in memory.
pub struct SmartReader {
    inner: Vec<u8>,
    position: usize,
}

impl SmartReader {
    pub closed spec fn spec_data(&self) -> Seq<u8> {
        self.inner@
    }

    pub closed spec fn spec_pos(&self) -> nat {
        self.position as nat
    }

    pub closed spec fn wf(&self) -> bool {
        self.position <= self.inner@.len()
    }

    pub fn new(data: Vec<u8>) -> (r: SmartReader)
        ensures
            r.wf(),
            r.spec_data() == data@,
            r.spec_pos() == 0,
    {
        SmartReader { inner: data, position: 0 }
    }

    /// How many bytes have been consumed so far.
    pub fn bytes_read(&self) -> (r: usize)
        ensures
            r == self.spec_pos(),
    {
        self.position
    }

    /// The next byte.
    pub fn u8(&mut self) -> (r: Result<u8, DecodeError>)
        requires
            old(self).wf(),
        ensures
            final(self).wf(),
            final(self).spec_data() == old(self).spec_data(),
            match r {
                Ok(b) => old(self).spec_pos() < old(self).spec_data().len() && b == old(
                    self,
                ).spec_data()[old(self).spec_pos() as int] && final(self).spec_pos() == old(
                    self,
                ).spec_pos() + 1,
                Err(e) => e == DecodeError::UnexpectedEof && old(self).spec_pos() >= old(
                    self,
                ).spec_data().len() && final(self).spec_pos() == old(self).spec_pos(),
            },
    {
        if self.position < self.inner.len() {
            let b = self.inner[self.position];
            self.position = self.position + 1;
            Ok(b)
        } else {
            Err(DecodeError::UnexpectedEof)
        }
    }

    /// The next two bytes as a little-endian `u16`.
    pub fn u16(&mut self) -> (r: Result<u16, DecodeError>)
        requires
            old(self).wf(),
        ensures
            final(self).wf(),
            final(self).spec_data() == old(self).spec_data(),
            match r {
                Ok(v) => old(self).spec_pos() + 2 <= old(self).spec_data().len() && v
                    == spec_u16_from_le(
                    old(self).spec_data()[old(self).spec_pos() as int],
                    old(self).spec_data()[old(self).spec_pos() + 1 as int],
                ) && final(self).spec_pos() == old(self).spec_pos() + 2,
                Err(e) => e == DecodeError::UnexpectedEof && old(self).spec_pos() + 2 > old(
                    self,
                ).spec_data().len() && final(self).spec_pos() == old(self).spec_pos(),
            },
    {
        if self.inner.len() - self.position >= 2 {
            let lo = self.inner[self.position];
            let hi = self.inner[self.position + 1];
            self.position = self.position + 2;
            Ok(crate::u16_from_le(lo, hi))
        } else {
            Err(DecodeError::UnexpectedEof)
        }
    }

    /// Advances the cursor without reading, clamped to the end.
    pub fn skip(&mut self, size: usize)
        requires
            old(self).wf(),
        ensures
            final(self).wf(),
            final(self).spec_data() == old(self).spec_data(),
            final(self).spec_pos() == if old(self).spec_pos() + size <= old(
                self,
            ).spec_data().len() {
                (old(self).spec_pos() + size) as int
            } else {
                old(self).spec_data().len() as int
            },
    {
        if self.inner.len() - self.position >= size {
            self.position = self.position + size;
        } else {
            self.position = self.inner.len();
        }
    }

    /// The next `size` bytes as an owned vector.
    pub fn take_vec(&mut self, size: usize) -> (r: Result<Vec<u8>, DecodeError>)
        requires
            old(self).wf(),
        ensures
            final(self).wf(),
            final(self).spec_data() == old(self).spec_data(),
            match r {
                Ok(v) => old(self).spec_pos() + size <= old(self).spec_data().len() && v@ == old(
                    self,
                ).spec_data().subrange(
                    old(self).spec_pos() as int,
                    old(self).spec_pos() + size,
                ) && final(self).spec_pos() == old(self).spec_pos() + size,
                Err(e) => e == DecodeError::UnexpectedEof && old(self).spec_pos() + size > old(
                    self,
                ).spec_data().len() && final(self).spec_pos() == old(self).spec_pos(),
            },
    {
        if self.inner.len() - self.position >= size {
            let mut v: Vec<u8> = Vec::new();
            let start = self.position;
            crate::push_slice_range(&mut v, &self.inner, start, start + size);
            self.position = self.position + size;
            proof {
                assert(Seq::<u8>::empty() + self.spec_data().subrange(
                    start as int,
                    start + size,
                ) =~= self.spec_data().subrange(start as int, start + size));
            }
            Ok(v)
        } else {
            Err(DecodeError::UnexpectedEof)
        }
    }

    /// Exactly `size` bytes, or [`DecodeError::UnexpectedEof`].
    pub fn read_exact(&mut self, size: usize) -> (r: Result<Vec<u8>, DecodeError>)
        requires
            old(self).wf(),
        ensures
            final(self).wf(),
            final(self).spec_data() == old(self).spec_data(),
            match r {
                Ok(v) => old(self).spec_pos() + size <= old(self).spec_data().len() && v@ == old(
                    self,
                ).spec_data().subrange(
                    old(self).spec_pos() as int,
                    old(self).spec_pos() + size,
                ) && final(self).spec_pos() == old(self).spec_pos() + size,
                Err(e) => e == DecodeError::UnexpectedEof && old(self).spec_pos() + size > old(
                    self,
                ).spec_data().len() && final(self).spec_pos() == old(self).spec_pos(),
            },
    {
        self.take_vec(size)
    }

    /// The sub-block chain at the cursor, one vector per chunk.
    pub fn take_data_subblocks(&mut self) -> (r: Result<Vec<Vec<u8>>, DecodeError>)
        requires
            old(self).wf(),
        ensures
            final(self).wf(),
            final(self).spec_data() == old(self).spec_data(),
            match r {
                Ok(blocks) => {
                    &&& spec_parse_subblocks(old(self).spec_data(), old(self).spec_pos())
                        == Some((crate::lzw::spec_rows(blocks@), final(self).spec_pos()))
                    &&& forall|i: int|
                        0 <= i < blocks@.len() ==> 1 <= #[trigger] blocks@[i]@.len() <= 255
                },
                Err(e) => e == DecodeError::UnexpectedEof && spec_parse_subblocks(
                    old(self).spec_data(),
                    old(self).spec_pos(),
                ) is None,
            },
    {
        let ghost data = self.spec_data();
        let ghost pos0 = self.spec_pos();
        let mut blocks: Vec<Vec<u8>> = Vec::new();
        proof {
            assert(crate::lzw::spec_rows(blocks@) =~= Seq::<Seq<u8>>::empty());
        }
        loop
            invariant
                self.wf(),
                data == old(self).spec_data(),
                pos0 == old(self).spec_pos(),
                self.spec_data() == data,
                pos0 <= self.spec_pos(),
                forall|i: int| 0 <= i < blocks@.len() ==> 1 <= #[trigger] blocks@[i]@.len() <= 255,
                match spec_parse_subblocks(data, self.spec_pos()) {
                    None => spec_parse_subblocks(data, pos0) is None,
                    Some((rest, p)) => spec_parse_subblocks(data, pos0) == Some(
                        (crate::lzw::spec_rows(blocks@) + rest, p),
                    ),
                },
            decreases data.len() - self.spec_pos(),
        {
            let ghost pos_here = self.spec_pos();
            let block_size = match self.u8() {
                Ok(b) => b,
                Err(e) => {
                    return Err(e);
                },
            };
            if block_size == 0 {
                proof {
                    assert(spec_parse_subblocks(data, pos_here) == Some(
                        (Seq::<Seq<u8>>::empty(), self.spec_pos()),
                    ));
                    assert(crate::lzw::spec_rows(blocks@) + Seq::<Seq<u8>>::empty()
                        =~= crate::lzw::spec_rows(blocks@));
                }
                return Ok(blocks);
            }
            let ghost pre = blocks@;
            let block = match self.take_vec(block_size as usize) {
                Ok(v) => v,
                Err(e) => {
                    return Err(e);
                },
            };
            blocks.push(block);
            proof {
                assert(crate::lzw::spec_rows(blocks@) =~= crate::lzw::spec_rows(pre) + seq![
                    data.subrange(pos_here as int + 1, pos_here as int + 1 + block_size),
                ]);
                if let Some((rest, p)) = spec_parse_subblocks(data, self.spec_pos()) {
                    assert(crate::lzw::spec_rows(pre) + (seq![
                        data.subrange(pos_here as int + 1, pos_here as int + 1 + block_size),
                    ] + rest) =~= crate::lzw::spec_rows(blocks@) + rest);
                }
            }
        }
    }

    /// The sub-block chain at the cursor, chunks concatenated.
    pub fn take_and_collapse_subblocks(&mut self) -> (r: Result<Vec<u8>, DecodeError>)
        requires
            old(self).wf(),
        ensures
            final(self).wf(),
            final(self).spec_data() == old(self).spec_data(),
            match r {
                Ok(v) => match spec_parse_subblocks(old(self).spec_data(), old(self).spec_pos()) {
                    Some((chunks, p)) => v@ == chunks.flatten() && final(self).spec_pos() == p,
                    None => false,
                },
                Err(e) => e == DecodeError::UnexpectedEof && spec_parse_subblocks(
                    old(self).spec_data(),
                    old(self).spec_pos(),
                ) is None,
            },
    {
        let blocks = match self.take_data_subblocks() {
            Ok(b) => b,
            Err(e) => {
                return Err(e);
            },
        };
        let mut ret: Vec<u8> = Vec::new();
        proof {
            assert(crate::lzw::spec_rows(blocks@).subrange(0, 0) =~= Seq::<Seq<u8>>::empty());
            assert(Seq::<Seq<u8>>::empty().flatten() =~= Seq::<u8>::empty());
        }
        let mut i: usize = 0;
        while i < blocks.len()
            invariant
                i <= blocks@.len(),
                ret@ == crate::lzw::spec_rows(blocks@).subrange(0, i as int).flatten(),
            decreases blocks@.len() - i,
        {
            crate::push_all(&mut ret, &blocks[i]);
            proof {
                let rows = crate::lzw::spec_rows(blocks@);
                rows.subrange(0, i as int).lemma_flatten_push(rows[i as int]);
                assert(rows.subrange(0, i as int + 1) =~= rows.subrange(0, i as int).push(
                    rows[i as int],
                ));
            }
            i = i + 1;
        }
        proof {
            assert(crate::lzw::spec_rows(blocks@).subrange(0, blocks@.len() as int)
                =~= crate::lzw::spec_rows(blocks@));
        }
        Ok(ret)
    }

    /// A color table of `count` colors.
    pub fn read_palette(&mut self, count: usize) -> (r: Result<Palette, DecodeError>)
        requires
            old(self).wf(),
            count <= 256,
        ensures
            final(self).wf(),
            final(self).spec_data() == old(self).spec_data(),
            match r {
                Ok(p) => {
                    &&& old(self).spec_pos() + 3 * count <= old(self).spec_data().len()
                    &&& p@ == spec_parse_colors(old(self).spec_data(), old(self).spec_pos(), count as nat)
                    &&& p.wf()
                    &&& final(self).spec_pos() == old(self).spec_pos() + 3 * count
                },
                Err(e) => e == DecodeError::UnexpectedEof && old(self).spec_pos() + 3 * count > old(
                    self,
                ).spec_data().len() && final(self).spec_pos() == old(self).spec_pos(),
            },
    {
        let bytes = match self.take_vec(3 * count) {
            Ok(v) => v,
            Err(e) => {
                return Err(e);
            },
        };
        let mut palette = Palette::new();
        let mut i: usize = 0;
        while i < count
            invariant
                i <= count <= 256,
                bytes@.len() == 3 * count,
                palette.wf(),
                palette@.len() == i,
                forall|k: int| 0 <= k < i ==> palette@[k] == (Color {
                    r: bytes@[3 * k],
                    g: bytes@[3 * k + 1],
                    b: bytes@[3 * k + 2],
                }),
            decreases count - i,
        {
            palette.push(Color { r: bytes[3 * i], g: bytes[3 * i + 1], b: bytes[3 * i + 2] });
            i = i + 1;
        }
        proof {
            let data = old(self).spec_data();
            let pos = old(self).spec_pos();
            assert forall|k: int| 0 <= k < count implies palette@[k] == spec_parse_colors(
                data,
                pos,
                count as nat,
            )[k] by {
                assert(bytes@[3 * k] == data[pos + 3 * k]);
                assert(bytes@[3 * k + 1] == data[pos + 3 * k + 1]);
                assert(bytes@[3 * k + 2] == data[pos + 3 * k + 2]);
            }
            assert(palette@ =~= spec_parse_colors(data, pos, count as nat));
        }
        Ok(palette)
    }
}

/// The abstractions of a vector of blocks, in order.
pub open spec fn spec_abs_blocks(blocks: Seq<Block>) -> Seq<ParsedBlock> {
    Seq::new(blocks.len(), |i: int| spec_abs_block(blocks[i]))
}

/// The whole parse of a file: header, then blocks to the trailer.
pub open spec fn spec_parse_gif(data: Seq<u8>) -> Result<
    (Version, ScreenDescriptor, Option<Seq<Color>>, Seq<ParsedBlock>),
    DecodeError,
> {
    match spec_parse_header(data) {
        Err(e) => Err(e),
        Ok((v, sd, gp, p)) => match spec_parse_blocks(data, p) {
            Err(e) => Err(e),
            Ok(bs) => Ok((v, sd, gp, bs)),
        },
    }
}

/// One block as it was read, with the byte range `[start, end)` it
/// occupied.
pub struct ReadBlock {
    pub start: usize,
    pub end: usize,
    pub block: Block,
}

/// A streaming reader past the header: the version, screen descriptor
/// and global color table already read, and a cursor over the block
/// stream.
pub struct Reader {
    pub version: Version,
    pub screen_descriptor: ScreenDescriptor,
    pub palette: Option<Palette>,
    pub reader: SmartReader,
    pub saw_trailer: bool,
}

impl Reader {
    pub open spec fn spec_data(&self) -> Seq<u8> {
        self.reader.spec_data()
    }

    pub open spec fn spec_pos(&self) -> nat {
        self.reader.spec_pos()
    }

    pub open spec fn spec_saw_trailer(&self) -> bool {
        self.saw_trailer
    }

    pub open spec fn wf(&self) -> bool {
        &&& self.reader.wf()
        &&& match self.palette {
            Some(p) => p.wf(),
            None => true,
        }
    }

    pub fn width(&self) -> (r: u16)
        ensures
            r == self.screen_descriptor.width,
    {
        self.screen_descriptor.width
    }

    pub fn height(&self) -> (r: u16)
        ensures
            r == self.screen_descriptor.height,
    {
        self.screen_descriptor.height
    }

    /// The next block of the stream, `Ok(None)` once the trailer has
    /// been seen.
    pub fn block(&mut self) -> (r: Result<Option<ReadBlock>, DecodeError>)
        requires
            old(self).wf(),
        ensures
            final(self).wf(),
            final(self).spec_data() == old(self).spec_data(),
            final(self).version == old(self).version,
            final(self).screen_descriptor == old(self).screen_descriptor,
            final(self).palette == old(self).palette,
            match r {
                Ok(Some(rb)) => {
                    &&& !old(self).spec_saw_trailer()
                    &&& spec_parse_block(old(self).spec_data(), old(self).spec_pos())
                        == Ok::<Option<(ParsedBlock, nat)>, DecodeError>(
                        Some((spec_abs_block(rb.block), final(self).spec_pos())),
                    )
                    &&& rb.start == old(self).spec_pos()
                    &&& rb.end == final(self).spec_pos()
                    &&& old(self).spec_pos() < final(self).spec_pos()
                    &&& rb.block.wf()
                    &&& !final(self).spec_saw_trailer()
                },
                Ok(None) => old(self).spec_saw_trailer() || (spec_parse_block(
                    old(self).spec_data(),
                    old(self).spec_pos(),
                ) == Ok::<Option<(ParsedBlock, nat)>, DecodeError>(Option::<(ParsedBlock, nat)>::None) && final(self).spec_saw_trailer()),
                Err(e) => !old(self).spec_saw_trailer() && spec_parse_block(
                    old(self).spec_data(),
                    old(self).spec_pos(),
                ) == Err::<Option<(ParsedBlock, nat)>, DecodeError>(e),
            },
    {
        if self.saw_trailer {
            return Ok(None);
        }
        let ghost data = self.spec_data();
        let ghost pos0 = self.spec_pos();
        let before = self.reader.bytes_read();
        loop
            invariant
                self.wf(),
                !self.saw_trailer,
                !old(self).spec_saw_trailer(),
                data == old(self).spec_data(),
                pos0 == old(self).spec_pos(),
                before == pos0,
                self.version == old(self).version,
                self.screen_descriptor == old(self).screen_descriptor,
                self.palette == old(self).palette,
                self.spec_data() == data,
                pos0 <= self.spec_pos(),
                spec_parse_block(data, pos0) == spec_parse_block(data, self.spec_pos()),
            decreases data.len() - self.spec_pos(),
        {
            let ghost pos = self.spec_pos();
            let introducer = match self.reader.u8() {
                Ok(b) => b,
                Err(e) => {
                    return Err(e);
                },
            };
            if introducer == 0x2C {
                let desc_bytes = match self.reader.read_exact(9) {
                    Ok(v) => v,
                    Err(e) => {
                        proof {
                            assert(spec_parse_block(data, pos) == Err::<
                                Option<(ParsedBlock, nat)>,
                                DecodeError,
                            >(DecodeError::UnexpectedEof));
                        }
                        return Err(e);
                    },
                };
                let descriptor = ImageDescriptor::from_bytes(&desc_bytes);
                proof {
                    assert(descriptor == spec_image_descriptor_from(data, pos as int + 1));
                }
                let palette: Option<Palette> = if descriptor.has_color_table() {
                    let count = descriptor.color_table_size();
                    match self.reader.read_palette(count) {
                        Ok(p) => Some(p),
                        Err(e) => {
                            return Err(e);
                        },
                    }
                } else {
                    None
                };
                let lzw_code_size = match self.reader.u8() {
                    Ok(b) => b,
                    Err(e) => {
                        return Err(e);
                    },
                };
                let ghost subpos: nat = self.reader.spec_pos();
                let blocks = match self.reader.take_data_subblocks() {
                    Ok(b) => b,
                    Err(e) => {
                        return Err(e);
                    },
                };
                let after = self.reader.bytes_read();
                proof {
                    lemma_parse_subblocks_advances(data, subpos);
                }
                let ci = CompressedImage {
                    image_descriptor: descriptor,
                    local_color_table: palette,
                    lzw_code_size,
                    blocks,
                };
                proof {
                    assert(ci.spec_chunks() =~= crate::lzw::spec_rows(ci.blocks@));
                    assert(match ci.local_color_table {
                        Some(p) => p@ =~= spec_parse_colors(
                            data,
                            (pos + 10) as nat,
                            spec_packed_to_color_table_length(
                                descriptor.packed.spec_color_table_size(),
                            ) as nat,
                        ),
                        None => true,
                    });
                    assert(spec_parse_block(data, pos) == Ok::<
                        Option<(ParsedBlock, nat)>,
                        DecodeError,
                    >(Some((spec_abs_block(Block::CompressedImage(ci)), after as nat))));
                }
                return Ok(
                    Some(ReadBlock { start: before, end: after, block: Block::CompressedImage(ci) }),
                );
            } else if introducer == 0x21 {
                let label = match self.reader.u8() {
                    Ok(b) => b,
                    Err(e) => {
                        return Err(e);
                    },
                };
                if label == 0xF9 {
                    let _block_len = match self.reader.u8() {
                        Ok(b) => b,
                        Err(e) => {
                            return Err(e);
                        },
                    };
                    let buf = match self.reader.read_exact(4) {
                        Ok(v) => v,
                        Err(e) => {
                            return Err(e);
                        },
                    };
                    let _terminator = match self.reader.u8() {
                        Ok(b) => b,
                        Err(e) => {
                            return Err(e);
                        },
                    };
                    let gce = GraphicControl::from_bytes(&buf);
                    let after = self.reader.bytes_read();
                    proof {
                        assert(gce == (GraphicControl {
                            packed: crate::packed::GraphicPacked { raw: data[pos as int + 3] },
                            delay: spec_u16_from_le(data[pos as int + 4], data[pos as int + 5]),
                            transparency_index: data[pos as int + 6],
                        }));
                        assert(spec_parse_block(data, pos) == Ok::<
                            Option<(ParsedBlock, nat)>,
                            DecodeError,
                        >(Some((spec_abs_block(Block::GraphicControlExtension(gce)), after as nat))));
                    }
                    return Ok(
                        Some(
                            ReadBlock {
                                start: before,
                                end: after,
                                block: Block::GraphicControlExtension(gce),
                            },
                        ),
                    );
                } else if label == 0xFE {
                    let ghost subpos: nat = self.reader.spec_pos();
                    let comment = match self.reader.take_and_collapse_subblocks() {
                        Ok(v) => v,
                        Err(e) => {
                            return Err(e);
                        },
                    };
                    let after = self.reader.bytes_read();
                    proof {
                        lemma_parse_subblocks_advances(data, subpos);
                        assert(spec_parse_block(data, pos) == Ok::<
                            Option<(ParsedBlock, nat)>,
                            DecodeError,
                        >(Some((spec_abs_block(Block::CommentExtension(comment)), after as nat))));
                    }
                    return Ok(
                        Some(
                            ReadBlock {
                                start: before,
                                end: after,
                                block: Block::CommentExtension(comment),
                            },
                        ),
                    );
                } else if label == 0xFF {
                    let _block_len = match self.reader.u8() {
                        Ok(b) => b,
                        Err(e) => {
                            return Err(e);
                        },
                    };
                    let app_id = match self.reader.read_exact(8) {
                        Ok(v) => v,
                        Err(e) => {
                            return Err(e);
                        },
                    };
                    let auth = match self.reader.read_exact(3) {
                        Ok(v) => v,
                        Err(e) => {
                            return Err(e);
                        },
                    };
                    let ghost subpos: nat = self.reader.spec_pos();
                    let bytes = match self.reader.take_and_collapse_subblocks() {
                        Ok(v) => v,
                        Err(e) => {
                            return Err(e);
                        },
                    };
                    let after = self.reader.bytes_read();
                    proof {
                        lemma_parse_subblocks_advances(data, subpos);
                    }
                    if is_netscape(&app_id) && bytes.len() >= 3 && bytes[0] == 0x01 {
                        let count = crate::u16_from_le(bytes[1], bytes[2]);
                        let looping = if count == 0 {
                            LoopCount::Forever
                        } else {
                            LoopCount::Number(count)
                        };
                        proof {
                            assert(spec_parse_block(data, pos) == Ok::<
                                Option<(ParsedBlock, nat)>,
                                DecodeError,
                            >(
                                Some(
                                    (spec_abs_block(Block::LoopingExtension(looping)), after as nat),
                                ),
                            ));
                        }
                        return Ok(
                            Some(
                                ReadBlock {
                                    start: before,
                                    end: after,
                                    block: Block::LoopingExtension(looping),
                                },
                            ),
                        );
                    }
                    let app = Application::new(app_id, auth, bytes);
                    proof {
                        assert(spec_parse_block(data, pos) == Ok::<
                            Option<(ParsedBlock, nat)>,
                            DecodeError,
                        >(Some((spec_abs_block(Block::ApplicationExtension(app)), after as nat))));
                    }
                    return Ok(
                        Some(
                            ReadBlock {
                                start: before,
                                end: after,
                                block: Block::ApplicationExtension(app),
                            },
                        ),
                    );
                } else if label == 0x01 {
                    let n = match self.reader.u8() {
                        Ok(b) => b,
                        Err(e) => {
                            return Err(e);
                        },
                    };
                    let _skipped = match self.reader.take_vec(n as usize) {
                        Ok(v) => v,
                        Err(e) => {
                            return Err(e);
                        },
                    };
                    let _chain = match self.reader.take_data_subblocks() {
                        Ok(b) => b,
                        Err(e) => {
                            return Err(e);
                        },
                    };
                    proof {
                        lemma_parse_subblocks_advances(data, (pos + 3 + n) as nat);
                    }
                } else {
                    return Err(DecodeError::UnknownExtension);
                }
            } else if introducer == 0x3B {
                self.saw_trailer = true;
                return Ok(None);
            } else {
                return Err(DecodeError::UnknownBlock { byte: introducer });
            }
        }
    }
}

/// Whether eight identifier bytes spell `NETSCAPE`.
fn is_netscape(id: &Vec<u8>) -> (r: bool)
    requires
        id@.len() == 8,
    ensures
        r == (id@ == crate::block::spec_netscape_ident().take(8)),
{
    let r = id[0] == 0x4E && id[1] == 0x45 && id[2] == 0x54 && id[3] == 0x53 && id[4] == 0x43
        && id[5] == 0x41 && id[6] == 0x50 && id[7] == 0x45;
    proof {
        if r {
            assert(id@ =~= crate::block::spec_netscape_ident().take(8));
        } else {
            assert(id@ != crate::block::spec_netscape_ident().take(8));
        }
    }
    r
}

/// Decodes a byte vector holding a whole file.
pub struct Decoder {
    reader: SmartReader,
}

impl Decoder {
    pub closed spec fn spec_data(&self) -> Seq<u8> {
        self.reader.spec_data()
    }

    pub closed spec fn spec_pos(&self) -> nat {
        self.reader.spec_pos()
    }

    pub fn new(data: Vec<u8>) -> (r: Decoder)
        ensures
            r.spec_data() == data@,
            r.spec_pos() == 0,
    {
        Decoder { reader: SmartReader::new(data) }
    }

    /// Reads the header and hands back a streaming [`Reader`]
    /// positioned at the first block.
    pub fn read(self) -> (r: Result<Reader, DecodeError>)
        requires
            self.spec_pos() == 0,
        ensures
            match r {
                Ok(rd) => {
                    &&& rd.wf()
                    &&& !rd.spec_saw_trailer()
                    &&& rd.spec_data() == self.spec_data()
                    &&& spec_parse_header(self.spec_data()) == Ok::<
                        (Version, ScreenDescriptor, Option<Seq<Color>>, nat),
                        DecodeError,
                    >(
                        (
                            rd.version,
                            rd.screen_descriptor,
                            match rd.palette {
                                Some(p) => Some(p@),
                                None => Option::<Seq<Color>>::None,
                            },
                            rd.spec_pos(),
                        ),
                    )
                },
                Err(e) => spec_parse_header(self.spec_data()) == Err::<
                    (Version, ScreenDescriptor, Option<Seq<Color>>, nat),
                    DecodeError,
                >(e),
            },
    {
        let ghost data = self.spec_data();
        let mut reader = self.reader;
        let magic = match reader.read_exact(6) {
            Ok(v) => v,
            Err(e) => {
                return Err(e);
            },
        };
        let version = if magic[0] == 0x47 && magic[1] == 0x49 && magic[2] == 0x46 && magic[3]
            == 0x38 && magic[4] == 0x37 && magic[5] == 0x61 {
            proof {
                assert(magic@ =~= crate::version::spec_version_bytes(Version::Gif87a));
                assert(magic@ != crate::version::spec_version_bytes(Version::Gif89a));
            }
            Version::Gif87a
        } else if magic[0] == 0x47 && magic[1] == 0x49 && magic[2] == 0x46 && magic[3] == 0x38
            && magic[4] == 0x39 && magic[5] == 0x61 {
            proof {
                assert(magic@ =~= crate::version::spec_version_bytes(Version::Gif89a));
                assert(magic@ != crate::version::spec_version_bytes(Version::Gif87a));
            }
            Version::Gif89a
        } else {
            proof {
                assert(magic@ != crate::version::spec_version_bytes(Version::Gif87a));
                assert(magic@ != crate::version::spec_version_bytes(Version::Gif89a));
            }
            return Err(DecodeError::InvalidVersion);
        };
        let sd_bytes = match reader.read_exact(7) {
            Ok(v) => v,
            Err(e) => {
                return Err(e);
            },
        };
        let screen_descriptor = ScreenDescriptor::from_bytes(&sd_bytes);
        proof {
            assert(screen_descriptor == spec_screen_descriptor_from(data, 6));
        }
        let palette: Option<Palette> = if screen_descriptor.has_color_table() {
            let count = screen_descriptor.color_table_len();
            match reader.read_palette(count) {
                Ok(p) => Some(p),
                Err(e) => {
                    return Err(e);
                },
            }
        } else {
            None
        };
        Ok(Reader { version, screen_descriptor, palette, reader, saw_trailer: false })
    }

    /// Reads the whole file into a [`Gif`] value.
    pub fn read_all(self) -> (r: Result<Gif, DecodeError>)
        requires
            self.spec_pos() == 0,
        ensures
            match r {
                Ok(g) => {
                    &&& g.wf()
                    &&& spec_parse_gif(self.spec_data()) == Ok::<
                        (Version, ScreenDescriptor, Option<Seq<Color>>, Seq<ParsedBlock>),
                        DecodeError,
                    >(
                        (
                            g.version,
                            g.descriptor,
                            match g.palette {
                                Some(p) => Some(p@),
                                None => Option::<Seq<Color>>::None,
                            },
                            spec_abs_blocks(g.blocks@),
                        ),
                    )
                },
                Err(e) => spec_parse_gif(self.spec_data()) == Err::<
                    (Version, ScreenDescriptor, Option<Seq<Color>>, Seq<ParsedBlock>),
                    DecodeError,
                >(e),
            },
    {
        let ghost data = self.spec_data();
        let mut decoder = match self.read() {
            Ok(d) => d,
            Err(e) => {
                return Err(e);
            },
        };
        let ghost p0 = decoder.spec_pos();
        let mut blocks: Vec<Block> = Vec::new();
        proof {
            assert(spec_abs_blocks(blocks@) =~= Seq::<ParsedBlock>::empty());
        }
        loop
            invariant
                decoder.wf(),
                data == self.spec_data(),
                decoder.spec_data() == data,
                !decoder.spec_saw_trailer(),
                p0 <= decoder.spec_pos(),
                spec_parse_header(data) matches Ok((v, sd, gp, p)) && v == decoder.version && sd
                    == decoder.screen_descriptor && p == p0 && gp == (match decoder.palette {
                    Some(pl) => Some(pl@),
                    None => Option::<Seq<Color>>::None,
                }),
                match decoder.palette {
                    Some(pl) => pl.wf(),
                    None => true,
                },
                forall|i: int| 0 <= i < blocks@.len() ==> (#[trigger] blocks@[i]).wf(),
                match spec_parse_blocks(data, decoder.spec_pos()) {
                    Err(e) => spec_parse_blocks(data, p0) == Err::<Seq<ParsedBlock>, DecodeError>(
                        e,
                    ),
                    Ok(rest) => spec_parse_blocks(data, p0) == Ok::<Seq<ParsedBlock>, DecodeError>(
                        spec_abs_blocks(blocks@) + rest,
                    ),
                },
            decreases data.len() - decoder.spec_pos(),
        {
            let ghost pos_here = decoder.spec_pos();
            let ghost pre = blocks@;
            match decoder.block() {
                Err(e) => {
                    return Err(e);
                },
                Ok(None) => {
                    proof {
                        assert(spec_parse_blocks(data, pos_here) == Ok::<
                            Seq<ParsedBlock>,
                            DecodeError,
                        >(Seq::empty()));
                        assert(spec_abs_blocks(blocks@) + Seq::<ParsedBlock>::empty()
                            =~= spec_abs_blocks(blocks@));
                    }
                    return Ok(
                        Gif {
                            version: decoder.version,
                            descriptor: decoder.screen_descriptor,
                            palette: decoder.palette,
                            blocks,
                        },
                    );
                },
                Ok(Some(rb)) => {
                    blocks.push(rb.block);
                    proof {
                        assert(spec_abs_blocks(blocks@) =~= spec_abs_blocks(pre).push(
                            spec_abs_block(blocks@[pre.len() as int]),
                        ));
                        if let Ok(rest) = spec_parse_blocks(data, decoder.spec_pos()) {
                            assert(spec_abs_blocks(pre) + (seq![
                                spec_abs_block(blocks@[pre.len() as int]),
                            ] + rest) =~= spec_abs_blocks(blocks@) + rest);
                        }
                    }
                },
            }
        }
    }
}

} // verus!
