use vstd::prelude::*;

use crate::imagedescriptor::{spec_image_descriptor_bytes, ImageDescriptor};
use crate::lzw::{spec_lzw_decode, spec_lzw_encode_bits, LZW};
use crate::bitstream::spec_pack_bits;
use crate::palette::{spec_lzw_code_size, spec_palette_bytes, Palette};
use crate::reader::DecodeError;
use crate::writer::EncodeError;

verus! {

/// A byte stream split into chunks of 255 bytes, the last chunk
/// holding whatever remains. Empty data gives no chunks.
pub open spec fn spec_chunks_of(data: Seq<u8>) -> Seq<Seq<u8>>
    decreases data.len(),
{
    if data.len() == 0 {
        Seq::empty()
    } else if data.len() <= 255 {
        seq![data]
    } else {
        seq![data.take(255)] + spec_chunks_of(data.skip(255))
    }
}

/// The initial code size an image compresses with: from its own
/// palette when it has one, else from the caller's override. A low
/// override is raised to the format's minimum of 2; one above 8 is
/// out of the format's range and yields nothing.
pub open spec fn spec_effective_code_size(
    local: Option<Palette>,
    over: Option<u8>,
) -> Option<u8> {
    match local {
        Some(p) => Some(spec_lzw_code_size(p@.len())),
        None => match over {
            Some(m) => if m > 8 {
                None
            } else if m < 2 {
                Some(2)
            } else {
                Some(m)
            },
            None => None,
        },
    }
}

/// An image whose pixel data is a flat vector of palette indices,
/// row by row, `width * height` of them.
#[derive(Clone, Debug)]
pub struct IndexedImage {
    pub image_descriptor: ImageDescriptor,
    pub local_color_table: Option<Palette>,
    pub indicies: Vec<u8>,
}

impl IndexedImage {
    pub open spec fn wf(&self) -> bool {
        match self.local_color_table {
            Some(p) => p.wf(),
            None => true,
        }
    }

    pub fn left(&self) -> (r: u16)
        ensures
            r == self.image_descriptor.left,
    {
        self.image_descriptor.left
    }

    pub fn top(&self) -> (r: u16)
        ensures
            r == self.image_descriptor.top,
    {
        self.image_descriptor.top
    }

    pub fn width(&self) -> (r: u16)
        ensures
            r == self.image_descriptor.width,
    {
        self.image_descriptor.width
    }

    pub fn height(&self) -> (r: u16)
        ensures
            r == self.image_descriptor.height,
    {
        self.image_descriptor.height
    }

    pub fn palette(&self) -> (r: Option<&Palette>)
        ensures
            match r {
                Some(p) => self.local_color_table is Some && p == self.local_color_table->0,
                None => self.local_color_table is None,
            },
    {
        self.local_color_table.as_ref()
    }

    /// Compresses the pixel data. The initial code size comes from the
    /// local palette if there is one; otherwise `lzw_code_size` must
    /// provide it: a low override is raised to 2, one above the
    /// format's ceiling of 8 is refused eagerly.
    pub fn compress(self, lzw_code_size: Option<u8>) -> (r: Result<CompressedImage, EncodeError>)
        requires
            self.wf(),
        ensures
            match r {
                Ok(ci) => {
                    &&& spec_effective_code_size(self.local_color_table, lzw_code_size) == Some(
                        ci.lzw_code_size,
                    )
                    &&& ci.image_descriptor == self.image_descriptor
                    &&& ci.local_color_table == self.local_color_table
                    &&& ci.spec_chunks() == spec_chunks_of(
                        spec_pack_bits(spec_lzw_encode_bits(ci.lzw_code_size, self.indicies@)),
                    )
                    &&& ci.wf()
                },
                Err(e) => {
                    &&& self.local_color_table is None
                    &&& match lzw_code_size {
                        None => e == (EncodeError::InvalidCodeSize { lzw_code_size: 0u8 }),
                        Some(m) => m > 8 && e == (EncodeError::InvalidCodeSize {
                            lzw_code_size: m,
                        }),
                    }
                },
            },
    {
        let mcs: u8 = match &self.local_color_table {
            Some(palette) => palette.lzw_code_size(),
            None => match lzw_code_size {
                None => {
                    return Err(EncodeError::InvalidCodeSize { lzw_code_size: 0 });
                },
                Some(m) => {
                    if m > 8 {
                        return Err(EncodeError::InvalidCodeSize { lzw_code_size: m });
                    } else if m < 2 {
                        2
                    } else {
                        m
                    }
                },
            },
        };
        let coder = LZW::new(mcs);
        let compressed = coder.encode(&self.indicies);
        let blocks = chunk_255(&compressed);
        Ok(
            CompressedImage {
                image_descriptor: self.image_descriptor,
                local_color_table: self.local_color_table,
                lzw_code_size: mcs,
                blocks,
            },
        )
    }
}

/// Splits a byte stream into stored chunks of at most 255 bytes.
fn chunk_255(data: &Vec<u8>) -> (r: Vec<Vec<u8>>)
    ensures
        crate::lzw::spec_rows(r@) == spec_chunks_of(data@),
        forall|i: int| 0 <= i < r@.len() ==> 1 <= #[trigger] r@[i]@.len() <= 255,
{
    let mut chunks: Vec<Vec<u8>> = Vec::new();
    proof {
        assert(crate::lzw::spec_rows(chunks@) =~= Seq::<Seq<u8>>::empty());
        assert(data@.skip(0) =~= data@);
        assert(Seq::<Seq<u8>>::empty() + spec_chunks_of(data@) =~= spec_chunks_of(data@));
    }
    let mut off: usize = 0;
    while data.len() - off > 255
        invariant
            off <= data@.len(),
            forall|i: int| 0 <= i < chunks@.len() ==> 1 <= #[trigger] chunks@[i]@.len() <= 255,
            spec_chunks_of(data@) == crate::lzw::spec_rows(chunks@) + spec_chunks_of(
                data@.skip(off as int),
            ),
        decreases data@.len() - off,
    {
        let ghost pre = chunks@;
        let mut c: Vec<u8> = Vec::new();
        crate::push_slice_range(&mut c, data, off, off + 255);
        proof {
            assert(c@ =~= data@.skip(off as int).take(255));
        }
        chunks.push(c);
        proof {
            let s = data@.skip(off as int);
            assert(s.skip(255) =~= data@.skip(off as int + 255));
            assert(crate::lzw::spec_rows(chunks@) =~= crate::lzw::spec_rows(pre) + seq![s.take(
                255,
            )]);
            assert(crate::lzw::spec_rows(chunks@) + spec_chunks_of(data@.skip(off as int + 255))
                =~= crate::lzw::spec_rows(pre) + spec_chunks_of(s));
        }
        off = off + 255;
    }
    if data.len() - off > 0 {
        let ghost pre = chunks@;
        let len = data.len();
        let mut c: Vec<u8> = Vec::new();
        crate::push_slice_range(&mut c, data, off, len);
        proof {
            assert(c@ =~= data@.skip(off as int));
        }
        chunks.push(c);
        proof {
            let s = data@.skip(off as int);
            assert(crate::lzw::spec_rows(chunks@) =~= crate::lzw::spec_rows(pre) + seq![s]);
            assert(crate::lzw::spec_rows(chunks@) =~= crate::lzw::spec_rows(pre) + spec_chunks_of(
                s,
            ));
        }
    } else {
        proof {
            assert(data@.skip(off as int) =~= Seq::<u8>::empty());
            assert(crate::lzw::spec_rows(chunks@) + spec_chunks_of(Seq::<u8>::empty())
                =~= crate::lzw::spec_rows(chunks@));
        }
    }
    chunks
}

/// The stored data sub-blocks of an image, each written as a length
/// byte followed by its bytes. The terminating zero chunk is appended
/// by the callers.
pub open spec fn spec_stored_blocks_bytes(blocks: Seq<Seq<u8>>) -> Seq<u8>
    decreases blocks.len(),
{
    if blocks.len() == 0 {
        Seq::empty()
    } else {
        seq![blocks[0].len() as u8] + blocks[0] + spec_stored_blocks_bytes(blocks.skip(1))
    }
}

/// The wire form of a compressed image: descriptor, optional local
/// color table, the initial LZW code size, the data sub-blocks and the
/// zero terminator.
pub open spec fn spec_compressed_image_bytes(img: CompressedImage) -> Seq<u8> {
    spec_image_descriptor_bytes(img.image_descriptor) + (match img.local_color_table {
        Some(p) => spec_palette_bytes(p@),
        None => Seq::<u8>::empty(),
    }) + seq![img.lzw_code_size] + spec_stored_blocks_bytes(
        Seq::new(img.blocks@.len(), |i: int| img.blocks@[i]@),
    ) + seq![0x00u8]
}

/// An image still in its compressed wire form: the descriptor, an
/// optional local palette, the initial LZW code size, and the data
/// sub-blocks as read or written.
#[derive(Clone, Debug)]
pub struct CompressedImage {
    pub image_descriptor: ImageDescriptor,
    pub local_color_table: Option<Palette>,
    pub lzw_code_size: u8,
    pub blocks: Vec<Vec<u8>>,
}

impl CompressedImage {
    /// Every stored sub-block fits its length byte and none is empty,
    /// since an empty chunk would read as the chain terminator.
    pub open spec fn wf(&self) -> bool {
        &&& match self.local_color_table {
            Some(p) => p.wf(),
            None => true,
        }
        &&& forall|i: int| 0 <= i < self.blocks@.len() ==> 1 <= #[trigger] self.blocks@[i]@.len() <= 255
    }

    /// The data sub-blocks as one mathematical sequence of chunks.
    pub open spec fn spec_chunks(&self) -> Seq<Seq<u8>> {
        Seq::new(self.blocks@.len(), |i: int| self.blocks@[i]@)
    }

    /// The compressed LZW byte stream: all chunks concatenated.
    pub open spec fn spec_data(&self) -> Seq<u8> {
        self.spec_chunks().flatten()
    }

    pub fn left(&self) -> (r: u16)
        ensures
            r == self.image_descriptor.left,
    {
        self.image_descriptor.left
    }

    pub fn top(&self) -> (r: u16)
        ensures
            r == self.image_descriptor.top,
    {
        self.image_descriptor.top
    }

    pub fn width(&self) -> (r: u16)
        ensures
            r == self.image_descriptor.width,
    {
        self.image_descriptor.width
    }

    pub fn height(&self) -> (r: u16)
        ensures
            r == self.image_descriptor.height,
    {
        self.image_descriptor.height
    }

    pub fn palette(&self) -> (r: Option<&Palette>)
        ensures
            match r {
                Some(p) => self.local_color_table is Some && p == self.local_color_table->0,
                None => self.local_color_table is None,
            },
    {
        self.local_color_table.as_ref()
    }

    /// Serializes the image block, sub-block chain and terminator
    /// included.
    pub fn as_bytes(&self) -> (r: Vec<u8>)
        requires
            self.wf(),
        ensures
            r@ == spec_compressed_image_bytes(*self),
    {
        let mut ret = self.image_descriptor.as_bytes();

        if let Some(palette) = &self.local_color_table {
            let pal_bytes = palette.as_bytes();
            crate::push_all(&mut ret, &pal_bytes);
        }

        ret.push(self.lzw_code_size);

        let ghost head = ret@;
        proof {
            let chunks = self.spec_chunks();
            assert(ret@.subrange(0, head.len() as int) =~= head);
            assert(ret@.skip(head.len() as int) =~= Seq::<u8>::empty());
            assert(chunks.skip(0) =~= chunks);
            assert(Seq::<u8>::empty() + spec_stored_blocks_bytes(chunks) =~= spec_stored_blocks_bytes(
                chunks,
            ));
        }
        let mut i: usize = 0;
        while i < self.blocks.len()
            invariant
                self.wf(),
                i <= self.blocks@.len(),
                ret@.len() >= head.len(),
                ret@.subrange(0, head.len() as int) == head,
                spec_stored_blocks_bytes(self.spec_chunks()) == ret@.skip(head.len() as int)
                    + spec_stored_blocks_bytes(self.spec_chunks().skip(i as int)),
            decreases self.blocks@.len() - i,
        {
            let ghost pre = ret@;
            let block_len = self.blocks[i].len();
            ret.push(block_len as u8);
            crate::push_slice_range(&mut ret, &self.blocks[i], 0, block_len);
            proof {
                let chunks = self.spec_chunks();
                let s = chunks.skip(i as int);
                let bi = self.blocks@[i as int]@;
                assert(s[0] =~= bi);
                assert(s.skip(1) =~= chunks.skip(i as int + 1));
                assert(bi.subrange(0, block_len as int) =~= bi);
                assert(ret@ =~= pre + seq![block_len as u8] + bi);
                assert(ret@.subrange(0, head.len() as int) =~= head);
                assert(ret@.skip(head.len() as int) =~= pre.skip(head.len() as int) + (seq![
                    block_len as u8,
                ] + bi));
                assert(ret@.skip(head.len() as int) + spec_stored_blocks_bytes(
                    chunks.skip(i as int + 1),
                ) =~= pre.skip(head.len() as int) + spec_stored_blocks_bytes(s));
            }
            i = i + 1;
        }

        let ghost pre_trailer = ret@;
        ret.push(0x00);
        // (the sub-block chain ends with its zero-length chunk)

        proof {
            let chunks = self.spec_chunks();
            assert(chunks.skip(self.blocks@.len() as int) =~= Seq::<Seq<u8>>::empty());
            assert(spec_stored_blocks_bytes(chunks) =~= pre_trailer.skip(head.len() as int));
            assert(pre_trailer =~= pre_trailer.subrange(0, head.len() as int) + pre_trailer.skip(
                head.len() as int,
            ));
            assert(ret@ =~= head + spec_stored_blocks_bytes(chunks) + seq![0x00u8]);
            assert(ret@ =~= spec_compressed_image_bytes(*self));
        }
        ret
    }

    /// The compressed byte stream: all data sub-blocks concatenated.
    pub fn data(&self) -> (r: Vec<u8>)
        ensures
            r@ == self.spec_data(),
    {
        let mut data: Vec<u8> = Vec::new();
        proof {
            assert(self.spec_chunks().subrange(0, 0) =~= Seq::<Seq<u8>>::empty());
            assert(Seq::<Seq<u8>>::empty().flatten() =~= Seq::<u8>::empty());
        }
        let mut i: usize = 0;
        while i < self.blocks.len()
            invariant
                i <= self.blocks@.len(),
                data@ == self.spec_chunks().subrange(0, i as int).flatten(),
            decreases self.blocks@.len() - i,
        {
            crate::push_all(&mut data, &self.blocks[i]);
            proof {
                let chunks = self.spec_chunks();
                chunks.subrange(0, i as int).lemma_flatten_push(chunks[i as int]);
                assert(chunks.subrange(0, i as int + 1) =~= chunks.subrange(0, i as int).push(
                    chunks[i as int],
                ));
            }
            i = i + 1;
        }
        proof {
            assert(self.spec_chunks().subrange(0, self.blocks@.len() as int)
                =~= self.spec_chunks());
        }
        data
    }

    /// Decompresses the pixel data with this image's initial code
    /// size, kept within the format's `2..=8`.
    pub fn decompress(self) -> (r: Result<IndexedImage, DecodeError>)
        requires
            self.spec_data().len() <= 0x0FFF_FFFF,
        ensures
            ({
                let m = self.lzw_code_size;
                let cm: u8 = if m < 2 {
                    2u8
                } else if m > 8 {
                    8u8
                } else {
                    m
                };
                match r {
                    Ok(img) => {
                        &&& spec_lzw_decode(cm, self.spec_data()) == Some(img.indicies@)
                        &&& img.image_descriptor == self.image_descriptor
                        &&& img.local_color_table == self.local_color_table
                    },
                    Err(e) => e == DecodeError::LzwInvalidCode && spec_lzw_decode(
                        cm,
                        self.spec_data(),
                    ) is None,
                }
            }),
    {
        let data = self.data();
        let coder = LZW::new(self.lzw_code_size);
        match coder.decode(&data) {
            Ok(indicies) => Ok(
                IndexedImage {
                    image_descriptor: self.image_descriptor,
                    local_color_table: self.local_color_table,
                    indicies,
                },
            ),
            Err(e) => Err(e),
        }
    }
}

} // verus!
