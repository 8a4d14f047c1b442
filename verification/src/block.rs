use vstd::prelude::*;

use crate::application::Application;
use crate::graphiccontrol::GraphicControl;
use crate::image::{spec_compressed_image_bytes, CompressedImage};
use crate::spec_u16_le;

verus! {

/// A byte payload split into length-prefixed chunks of at most 255
/// bytes each. The terminating zero-length chunk is *not* part of this
/// sequence; the callers append it.
pub open spec fn spec_data_subblocks(data: Seq<u8>) -> Seq<u8>
    decreases data.len(),
{
    if data.len() == 0 {
        Seq::empty()
    } else if data.len() <= 255 {
        seq![data.len() as u8] + data
    } else {
        seq![255u8] + data.take(255) + spec_data_subblocks(data.skip(255))
    }
}

/// Appends the sub-block chunking of `data` to `out`, without the
/// terminating zero chunk.
pub(crate) fn append_data_subblocks(out: &mut Vec<u8>, data: &Vec<u8>)
    ensures
        final(out)@ == old(out)@ + spec_data_subblocks(data@),
{
    let ghost base = out@;
    proof {
        assert(out@.subrange(0, base.len() as int) =~= base);
        assert(out@.skip(base.len() as int) =~= Seq::<u8>::empty());
        assert(data@.skip(0) =~= data@);
        assert(Seq::<u8>::empty() + spec_data_subblocks(data@) =~= spec_data_subblocks(data@));
    }
    let mut off: usize = 0;
    while data.len() - off > 255
        invariant
            off <= data@.len(),
            out@.len() >= base.len(),
            out@.subrange(0, base.len() as int) == base,
            spec_data_subblocks(data@) == out@.skip(base.len() as int) + spec_data_subblocks(
                data@.skip(off as int),
            ),
        decreases data@.len() - off,
    {
        let ghost pre = out@;
        out.push(255);
        crate::push_slice_range(out, data, off, off + 255);
        proof {
            let s = data@.skip(off as int);
            assert(s.take(255) =~= data@.subrange(off as int, off as int + 255));
            assert(s.skip(255) =~= data@.skip(off as int + 255));
            assert(out@ =~= pre + seq![255u8] + data@.subrange(off as int, off as int + 255));
            assert(out@.subrange(0, base.len() as int) =~= base);
            assert(out@.skip(base.len() as int) =~= pre.skip(base.len() as int) + (seq![255u8]
                + data@.subrange(off as int, off as int + 255)));
            assert(out@.skip(base.len() as int) + spec_data_subblocks(data@.skip(off as int + 255))
                =~= pre.skip(base.len() as int) + spec_data_subblocks(s));
        }
        off = off + 255;
    }
    if data.len() - off > 0 {
        let ghost pre = out@;
        let chunk_len = data.len() - off;
        out.push(chunk_len as u8);
        let len = data.len();
        crate::push_slice_range(out, data, off, len);
        proof {
            let s = data@.skip(off as int);
            assert(s =~= data@.subrange(off as int, data@.len() as int));
            assert(out@ =~= pre + seq![chunk_len as u8] + data@.subrange(
                off as int,
                data@.len() as int,
            ));
            assert(out@.subrange(0, base.len() as int) =~= base);
            assert(out@.skip(base.len() as int) =~= pre.skip(base.len() as int) + (seq![
                chunk_len as u8,
            ] + data@.subrange(off as int, data@.len() as int)));
            assert(out@ =~= out@.subrange(0, base.len() as int) + out@.skip(base.len() as int));
        }
    } else {
        proof {
            assert(data@.skip(off as int) =~= Seq::<u8>::empty());
            assert(spec_data_subblocks(Seq::<u8>::empty()) =~= Seq::<u8>::empty());
            assert(out@ =~= out@.subrange(0, base.len() as int) + out@.skip(base.len() as int));
            assert(out@ =~= base + spec_data_subblocks(data@));
        }
    }
}

/// How many times an animation plays.
#[derive(Clone, Copy, Debug, PartialEq, Eq, Structural)]
pub enum LoopCount {
    /// Played without end; stored as a count of zero.
    Forever,
    Number(u16),
}

impl LoopCount {
    /// The count stored on the wire: zero means forever.
    pub open spec fn spec_count(self) -> u16 {
        match self {
            LoopCount::Forever => 0,
            LoopCount::Number(n) => n,
        }
    }

    /// Set a fixed loop count. A value of 0 means forever, which you
    /// should probably use [`LoopCount::Forever`] for.
    pub fn count(count: u16) -> (r: Self)
        ensures
            r == LoopCount::Number(count),
    {
        LoopCount::Number(count)
    }
}

/// One block of the stream between the screen descriptor and the
/// trailer: an image, or one of the extensions this library models.
#[derive(Clone, Debug)]
pub enum Block {
    CompressedImage(CompressedImage),
    GraphicControlExtension(GraphicControl),
    CommentExtension(Vec<u8>),
    ApplicationExtension(Application),
    LoopingExtension(LoopCount),
}

impl Block {
    /// What every serializable block satisfies.
    pub open spec fn wf(&self) -> bool {
        match self {
            Block::CompressedImage(img) => img.wf(),
            Block::ApplicationExtension(app) => app.wf(),
            _ => true,
        }
    }
}

/// The ASCII bytes `NETSCAPE2.0`.
pub open spec fn spec_netscape_ident() -> Seq<u8> {
    seq![0x4Eu8, 0x45, 0x54, 0x53, 0x43, 0x41, 0x50, 0x45, 0x32, 0x2E, 0x30]
}

/// The wire form of each block, exactly as `encode_block` writes it.
pub open spec fn spec_encode_block(b: Block) -> Seq<u8> {
    match b {
        Block::CompressedImage(img) => spec_compressed_image_bytes(img),
        Block::GraphicControlExtension(gce) => seq![0x21u8, 0xF9, 0x04, gce.packed.raw]
            + spec_u16_le(gce.delay) + seq![gce.transparency_index, 0x00u8],
        Block::CommentExtension(comment) => seq![0x21u8, 0xFE] + spec_data_subblocks(comment@)
            + seq![0x00u8],
        Block::ApplicationExtension(app) => seq![0x21u8, 0xFF, 0x0B] + app.spec_identifier()
            + app.spec_authentication_code() + spec_data_subblocks(app.spec_data()) + seq![0x00u8],
        Block::LoopingExtension(lc) => seq![0x21u8, 0xFF, 0x0B] + spec_netscape_ident() + seq![
            0x03u8,
            0x01,
        ] + spec_u16_le(lc.spec_count()) + seq![0x00u8],
    }
}

/// Serializes one block to its wire bytes.
pub fn encode_block(block: &Block) -> (r: Vec<u8>)
    requires
        block.wf(),
    ensures
        r@ == spec_encode_block(*block),
{
    match block {
        Block::CompressedImage(img) => img.as_bytes(),
        _ => encode_extension(block),
    }
}

/// Serializes an extension block: the `0x21` introducer, the label,
/// the payload, and the terminating zero chunk.
fn encode_extension(block: &Block) -> (r: Vec<u8>)
    requires
        block.wf(),
        !(block is CompressedImage),
    ensures
        r@ == spec_encode_block(*block),
{
    let mut vec: Vec<u8> = Vec::new();
    vec.push(0x21);

    match block {
        Block::CompressedImage(_) => {
        },
        Block::GraphicControlExtension(gce) => {
            vec.push(0xF9);
            vec.push(0x04);
            vec.push(gce.packed.raw);
            vec.push(crate::u16_lo(gce.delay));
            vec.push(crate::u16_hi(gce.delay));
            vec.push(gce.transparency_index);
            vec.push(0x00);
            proof {
                assert(vec@ =~= spec_encode_block(*block));
            }
        },
        Block::CommentExtension(comment) => {
            vec.push(0xFE);
            append_data_subblocks(&mut vec, comment);
            vec.push(0x00);
            proof {
                assert(vec@ =~= spec_encode_block(*block));
            }
        },
        Block::ApplicationExtension(app) => {
            vec.push(0xFF);
            vec.push(0x0B);
            crate::push_all(&mut vec, app.identifier());
            crate::push_all(&mut vec, app.authentication_code());
            append_data_subblocks(&mut vec, app.data());
            vec.push(0x00);
            proof {
                assert(vec@ =~= spec_encode_block(*block));
            }
        },
        Block::LoopingExtension(lc) => {
            vec.push(0xFF);
            vec.push(0x0B);
            let ident: Vec<u8> = vec![
                0x4E,
                0x45,
                0x54,
                0x53,
                0x43,
                0x41,
                0x50,
                0x45,
                0x32,
                0x2E,
                0x30,
            ];
            proof {
                assert(ident@ =~= spec_netscape_ident());
            }
            crate::push_all(&mut vec, &ident);
            vec.push(0x03);
            vec.push(0x01);
            let count: u16 = match lc {
                LoopCount::Forever => 0,
                LoopCount::Number(count) => *count,
            };
            vec.push(crate::u16_lo(count));
            vec.push(crate::u16_hi(count));
            vec.push(0x00);
            proof {
                assert(vec@ =~= spec_encode_block(*block));
            }
        },
    }

    vec
}

} // verus!
