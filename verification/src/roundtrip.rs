use vstd::prelude::*;

use crate::block::{spec_data_subblocks, spec_encode_block, spec_netscape_ident, Block, LoopCount};
use crate::color::Color;
use crate::image::{spec_chunks_of, spec_stored_blocks_bytes};
use crate::reader::{
    spec_abs_block, spec_parse_block, spec_parse_colors, spec_parse_subblocks, ParsedBlock,
};

verus! {

// What ties the writer to the reader: a serialized block, parsed
// back, is the block it came from, up to what the wire format cannot
// carry (a palette's zero padding, the NETSCAPE canonical form).

/// The chunks of a byte stream flatten back to the stream.
pub proof fn lemma_chunks_flatten(d: Seq<u8>)
    ensures
        spec_chunks_of(d).flatten() == d,
    decreases d.len(),
{
    if d.len() == 0 {
        assert(spec_chunks_of(d) =~= Seq::<Seq<u8>>::empty());
        assert(Seq::<Seq<u8>>::empty().flatten() =~= Seq::<u8>::empty());
        assert(d =~= Seq::<u8>::empty());
    } else if d.len() <= 255 {
        let chunks = spec_chunks_of(d);
        assert(chunks =~= seq![d]);
        chunks.lemma_flatten_one_element();
    } else {
        lemma_chunks_flatten(d.skip(255));
        let chunks = spec_chunks_of(d);
        let rest = spec_chunks_of(d.skip(255));
        assert(chunks =~= seq![d.take(255)] + rest);
        assert(chunks.first() == d.take(255));
        assert(chunks.drop_first() =~= rest);
        assert(chunks.flatten() == d.take(255) + rest.flatten());
        assert(d.take(255) + d.skip(255) =~= d);
    }
}

/// A sub-block chain written for `d` parses back to exactly the
/// 255-byte chunks of `d`, consuming the chain and its terminator.
pub proof fn lemma_subblocks_round_trip(data: Seq<u8>, pos: nat, d: Seq<u8>)
    requires
        pos + spec_data_subblocks(d).len() + 1 <= data.len(),
        data.subrange(pos as int, pos as int + spec_data_subblocks(d).len() + 1) == spec_data_subblocks(
            d,
        ) + seq![0u8],
    ensures
        spec_parse_subblocks(data, pos) == Some(
            (spec_chunks_of(d), (pos + spec_data_subblocks(d).len() + 1) as nat),
        ),
    decreases d.len(),
{
    let enc = spec_data_subblocks(d);
    let window = data.subrange(pos as int, pos as int + enc.len() + 1);
    if d.len() == 0 {
        assert(enc =~= Seq::<u8>::empty());
        assert(data[pos as int] == window[0]);
        assert(window[0] == 0);
        assert(spec_chunks_of(d) =~= Seq::<Seq<u8>>::empty());
    } else if d.len() <= 255 {
        let n = d.len() as u8;
        assert(enc == seq![n] + d);
        assert(data[pos as int] == window[0]);
        assert(window[0] == n);
        assert(n != 0);
        assert(pos + 1 + n <= data.len());
        assert(data.subrange(pos as int + 1, pos as int + 1 + n as int) =~= d) by {
            assert forall|t: int| 0 <= t < n implies data[pos + 1 + t] == d[t] by {
                assert(data[pos + 1 + t] == window[1 + t]);
            }
        }
        // The byte after the single chunk is the terminator.
        assert(data[pos + 1 + n as int] == window[enc.len() as int]);
        assert(window[enc.len() as int] == 0);
        let pos2 = (pos + 1 + n as nat) as nat;
        assert(spec_parse_subblocks(data, pos2) == Some(
            (Seq::<Seq<u8>>::empty(), (pos2 + 1) as nat),
        ));
        assert(spec_chunks_of(d) =~= seq![d]);
        assert(seq![data.subrange(pos as int + 1, pos as int + 1 + n as int)]
            + Seq::<Seq<u8>>::empty() =~= seq![d]);
    } else {
        let tail = d.skip(255);
        let enc_tail = spec_data_subblocks(tail);
        assert(enc == seq![255u8] + d.take(255) + enc_tail);
        assert(data[pos as int] == window[0]);
        assert(window[0] == 255);
        assert(pos + 1 + 255 <= data.len());
        assert(data.subrange(pos as int + 1, pos as int + 256) =~= d.take(255)) by {
            assert forall|t: int| 0 <= t < 255 implies data[pos + 1 + t] == d.take(255)[t] by {
                assert(data[pos + 1 + t] == window[1 + t]);
            }
        }
        let pos2 = (pos + 256) as nat;
        assert(data.subrange(pos2 as int, pos2 as int + enc_tail.len() + 1) =~= enc_tail + seq![0u8])
            by {
            assert forall|t: int| 0 <= t < enc_tail.len() + 1 implies data[pos2 + t] == (enc_tail
                + seq![0u8])[t] by {
                assert(data[pos2 + t] == window[256 + t]);
                assert(window[256 + t] == (enc_tail + seq![0u8])[t]);
            }
        }
        lemma_subblocks_round_trip(data, pos2, tail);
        assert(spec_chunks_of(d) == seq![d.take(255)] + spec_chunks_of(tail));
        assert(seq![data.subrange(pos as int + 1, pos as int + 256)] + spec_chunks_of(tail)
            =~= spec_chunks_of(d));
    }
}

/// Stored image chunks, written out as length-prefixed sub-blocks,
/// parse back to the same chunks.
pub proof fn lemma_stored_blocks_round_trip(data: Seq<u8>, pos: nat, chunks: Seq<Seq<u8>>)
    requires
        forall|i: int| 0 <= i < chunks.len() ==> 1 <= #[trigger] chunks[i].len() <= 255,
        pos + spec_stored_blocks_bytes(chunks).len() + 1 <= data.len(),
        data.subrange(pos as int, pos as int + spec_stored_blocks_bytes(chunks).len() + 1)
            == spec_stored_blocks_bytes(chunks) + seq![0u8],
    ensures
        spec_parse_subblocks(data, pos) == Some(
            (chunks, (pos + spec_stored_blocks_bytes(chunks).len() + 1) as nat),
        ),
    decreases chunks.len(),
{
    let enc = spec_stored_blocks_bytes(chunks);
    let window = data.subrange(pos as int, pos as int + enc.len() + 1);
    if chunks.len() == 0 {
        assert(enc =~= Seq::<u8>::empty());
        assert(data[pos as int] == window[0]);
        assert(window[0] == 0);
        assert(chunks =~= Seq::<Seq<u8>>::empty());
    } else {
        let head = chunks[0];
        let n = head.len() as u8;
        let enc_tail = spec_stored_blocks_bytes(chunks.skip(1));
        assert(enc == seq![n] + head + enc_tail);
        assert(data[pos as int] == window[0]);
        assert(window[0] == n);
        assert(n != 0);
        assert(pos + 1 + n <= data.len());
        assert(data.subrange(pos as int + 1, pos as int + 1 + n as int) =~= head) by {
            assert forall|t: int| 0 <= t < n implies data[pos + 1 + t] == head[t] by {
                assert(data[pos + 1 + t] == window[1 + t]);
            }
        }
        let pos2 = (pos + 1 + n as nat) as nat;
        assert(data.subrange(pos2 as int, pos2 as int + enc_tail.len() + 1) =~= enc_tail + seq![0u8])
            by {
            assert forall|t: int| 0 <= t < enc_tail.len() + 1 implies data[pos2 + t] == (enc_tail
                + seq![0u8])[t] by {
                assert(data[pos2 + t] == window[1 + n + t]);
                assert(window[1 + n + t] == (enc_tail + seq![0u8])[t]);
            }
        }
        lemma_stored_blocks_round_trip(data, pos2, chunks.skip(1));
        assert(seq![data.subrange(pos as int + 1, pos as int + 1 + n as int)] + chunks.skip(1)
            =~= chunks);
    }
}

/// Whether a block survives parsing as itself: an application
/// extension that spells the NETSCAPE looping form is re-read as a
/// looping block instead, and a counted loop of zero reads back as
/// forever.
pub open spec fn spec_parses_as_itself(b: Block) -> bool {
    match b {
        Block::ApplicationExtension(a) => !(a.spec_identifier() == spec_netscape_ident().take(8)
            && a.spec_data().len() >= 3 && a.spec_data()[0] == 0x01),
        Block::LoopingExtension(lc) => !(lc matches LoopCount::Number(n) && n == 0),
        _ => true,
    }
}

/// Whether an image block's descriptor agrees with the palette it
/// carries: the flag set exactly when a table is present, and the
/// size field holding that table's packed length. Every image the
/// builders produce is in this form.
pub open spec fn spec_wire_consistent(b: Block) -> bool {
    match b {
        Block::CompressedImage(ci) => {
            &&& ci.image_descriptor.spec_has_color_table() == ci.local_color_table is Some
            &&& match ci.local_color_table {
                Some(p) => ci.image_descriptor.packed.spec_color_table_size()
                    == crate::palette::spec_packed_len(p@.len()),
                None => true,
            }
        },
        _ => true,
    }
}

/// The announced power-of-two table length of a packed-length field
/// is the computed length of the table it was derived from.
pub proof fn lemma_packed_len_matches_computed(len: nat)
    requires
        len <= 256,
    ensures
        crate::spec_packed_to_color_table_length(crate::palette::spec_packed_len(len))
            == crate::palette::spec_computed_len(len),
{
    assert((1usize << ((0u8 & 0b111) + 1) as usize) == 2 && (1usize << ((1u8 & 0b111) + 1) as usize)
        == 4 && (1usize << ((2u8 & 0b111) + 1) as usize) == 8 && (1usize << ((3u8 & 0b111)
        + 1) as usize) == 16 && (1usize << ((4u8 & 0b111) + 1) as usize) == 32 && (1usize << ((5u8
        & 0b111) + 1) as usize) == 64 && (1usize << ((6u8 & 0b111) + 1) as usize) == 128 && (1usize
        << ((7u8 & 0b111) + 1) as usize) == 256) by (bit_vector);
}

/// Parsing a serialized block yields the block it came from, with a
/// local color table padded to its power-of-two wire size.
pub open spec fn spec_abs_after_round_trip(b: Block) -> ParsedBlock {
    match b {
        Block::CompressedImage(ci) => ParsedBlock::Image {
            desc: ci.image_descriptor,
            palette: match ci.local_color_table {
                Some(p) => Some(
                    spec_parse_colors(
                        crate::palette::spec_palette_bytes(p@),
                        0,
                        crate::palette::spec_computed_len(p@.len()),
                    ),
                ),
                None => None,
            },
            code: ci.lzw_code_size,
            chunks: ci.spec_chunks(),
        },
        _ => spec_abs_block(b),
    }
}

/// A serialized block, parsed back, is the block it was written from:
/// for every well-formed block whose image descriptor agrees with its
/// palette and which is not one of the two canonicalized forms, the
/// parser run on `encode_block`'s bytes yields the block's own
/// abstraction — with a local color table read back at its padded
/// power-of-two size — and consumes exactly the written bytes.
pub proof fn lemma_block_round_trip(data: Seq<u8>, pos: nat, b: Block)
    requires
        b.wf(),
        spec_parses_as_itself(b),
        spec_wire_consistent(b),
        pos + spec_encode_block(b).len() <= data.len(),
        data.subrange(pos as int, pos as int + spec_encode_block(b).len()) == spec_encode_block(b),
    ensures
        spec_parse_block(data, pos) == Ok::<Option<(ParsedBlock, nat)>, crate::reader::DecodeError>(
            Some((spec_abs_after_round_trip(b), (pos + spec_encode_block(b).len()) as nat)),
        ),
{
    let enc = spec_encode_block(b);
    let window = data.subrange(pos as int, pos as int + enc.len());
    assert forall|t: int| 0 <= t < enc.len() implies data[pos + t] == enc[t] by {
        assert(data[pos + t] == window[t]);
    }
    match b {
        Block::GraphicControlExtension(gce) => {
            assert(enc == seq![0x21u8, 0xF9, 0x04, gce.packed.raw] + crate::spec_u16_le(gce.delay)
                + seq![gce.transparency_index, 0x00u8]);
            assert(enc.len() == 8);
            assert(data[pos as int] == 0x21) by {
                assert(data[pos as int + 0] == window[0]);
            }
            assert(data[pos as int + 1] == 0xF9) by {
                assert(data[pos as int + 1] == window[1]);
            }
            assert(data[pos as int + 3] == gce.packed.raw) by {
                assert(data[pos as int + 3] == window[3]);
            }
            assert(data[pos as int + 4] == (gce.delay & 0xff) as u8) by {
                assert(data[pos as int + 4] == window[4]);
            }
            assert(data[pos as int + 5] == ((gce.delay >> 8) & 0xff) as u8) by {
                assert(data[pos as int + 5] == window[5]);
            }
            assert(data[pos as int + 6] == gce.transparency_index) by {
                assert(data[pos as int + 6] == window[6]);
            }
            crate::lemma_u16_le_round_trip(gce.delay, 0, 0);
            assert(spec_abs_after_round_trip(b) == ParsedBlock::Gce(gce));
        },
        Block::CommentExtension(c) => {
            let sb = spec_data_subblocks(c@);
            assert(enc == seq![0x21u8, 0xFE] + sb + seq![0x00u8]);
            assert(data[pos as int] == 0x21) by {
                assert(data[pos as int + 0] == window[0]);
            }
            assert(data[pos as int + 1] == 0xFE) by {
                assert(data[pos as int + 1] == window[1]);
            }
            assert(data.subrange(pos as int + 2, pos as int + 2 + sb.len() + 1) =~= sb + seq![
                0x00u8,
            ]) by {
                assert forall|t: int| 0 <= t < sb.len() + 1 implies data[pos + 2 + t] == (sb + seq![
                    0x00u8,
                ])[t] by {
                    assert(data[pos + 2 + t] == window[2 + t]);
                }
            }
            lemma_subblocks_round_trip(data, (pos + 2) as nat, c@);
            lemma_chunks_flatten(c@);
            assert(spec_abs_after_round_trip(b) == ParsedBlock::Comment(c@));
        },
        Block::ApplicationExtension(a) => {
            let sb = spec_data_subblocks(a.spec_data());
            assert(enc == seq![0x21u8, 0xFF, 0x0B] + a.spec_identifier()
                + a.spec_authentication_code() + sb + seq![0x00u8]);
            assert(data[pos as int] == 0x21) by {
                assert(data[pos as int + 0] == window[0]);
            }
            assert(data[pos as int + 1] == 0xFF) by {
                assert(data[pos as int + 1] == window[1]);
            }
            assert(data[pos as int + 2] == 0x0B) by {
                assert(data[pos as int + 2] == window[2]);
            }
            assert(enc.len() == 15 + sb.len());
            assert(data.subrange(pos as int + 3, pos as int + 11) =~= a.spec_identifier()) by {
                assert forall|t: int| 0 <= t < 8 implies data[pos + 3 + t] == a.spec_identifier()[t]
                    by {
                    assert(data[pos + 3 + t] == window[3 + t]);
                }
            }
            assert(data.subrange(pos as int + 11, pos as int + 14)
                =~= a.spec_authentication_code()) by {
                assert forall|t: int|
                    0 <= t < 3 implies data[pos + 11 + t] == a.spec_authentication_code()[t] by {
                    assert(data[pos + 11 + t] == window[11 + t]);
                }
            }
            assert(data.subrange(pos as int + 14, pos as int + 14 + sb.len() + 1) =~= sb + seq![
                0x00u8,
            ]) by {
                assert forall|t: int|
                    0 <= t < sb.len() + 1 implies data[pos + 14 + t] == (sb + seq![0x00u8])[t] by {
                    assert(data[pos + 14 + t] == window[14 + t]);
                }
            }
            lemma_subblocks_round_trip(data, (pos + 14) as nat, a.spec_data());
            lemma_chunks_flatten(a.spec_data());
            assert(spec_abs_after_round_trip(b) == (ParsedBlock::App {
                id: a.spec_identifier(),
                auth: a.spec_authentication_code(),
                bytes: a.spec_data(),
            }));
        },
        Block::LoopingExtension(lc) => {
            let payload = seq![0x01u8] + crate::spec_u16_le(lc.spec_count());
            let sb = spec_data_subblocks(payload);
            assert(enc == seq![0x21u8, 0xFF, 0x0B] + spec_netscape_ident() + seq![0x03u8, 0x01]
                + crate::spec_u16_le(lc.spec_count()) + seq![0x00u8]);
            assert(enc.len() == 19);
            assert(data[pos as int] == 0x21) by {
                assert(data[pos as int + 0] == window[0]);
            }
            assert(data[pos as int + 1] == 0xFF) by {
                assert(data[pos as int + 1] == window[1]);
            }
            assert(data[pos as int + 2] == 0x0B) by {
                assert(data[pos as int + 2] == window[2]);
            }
            assert(data.subrange(pos as int + 3, pos as int + 11) =~= spec_netscape_ident().take(
                8,
            )) by {
                assert forall|t: int|
                    0 <= t < 8 implies data[pos + 3 + t] == spec_netscape_ident().take(8)[t] by {
                    assert(data[pos + 3 + t] == window[3 + t]);
                }
            }
            assert(sb =~= seq![3u8] + payload);
            assert(data.subrange(pos as int + 14, pos as int + 14 + sb.len() + 1) =~= sb + seq![
                0x00u8,
            ]) by {
                assert forall|t: int|
                    0 <= t < sb.len() + 1 implies data[pos + 14 + t] == (sb + seq![0x00u8])[t] by {
                    assert(data[pos + 14 + t] == window[14 + t]);
                }
            }
            lemma_subblocks_round_trip(data, (pos + 14) as nat, payload);
            lemma_chunks_flatten(payload);
            crate::lemma_u16_le_round_trip(lc.spec_count(), 0, 0);
            assert(payload[0] == 0x01 && payload.len() == 3);
            assert(crate::spec_u16_from_le(payload[1], payload[2]) == lc.spec_count());
            assert(lc.spec_count() != 0 ==> spec_abs_after_round_trip(b) == ParsedBlock::Looping(
                LoopCount::Number(lc.spec_count()),
            ));
            assert(lc.spec_count() == 0 ==> spec_abs_after_round_trip(b) == ParsedBlock::Looping(
                LoopCount::Forever,
            ));
        },
        Block::CompressedImage(ci) => {
            let desc_bytes = crate::imagedescriptor::spec_image_descriptor_bytes(
                ci.image_descriptor,
            );
            let pal_bytes: Seq<u8> = match ci.local_color_table {
                Some(p) => crate::palette::spec_palette_bytes(p@),
                None => Seq::empty(),
            };
            let stored = spec_stored_blocks_bytes(ci.spec_chunks());
            assert(enc == desc_bytes + pal_bytes + seq![ci.lzw_code_size] + stored + seq![0x00u8]);
            assert(desc_bytes.len() == 10);
            crate::imagedescriptor::lemma_image_descriptor_round_trip(ci.image_descriptor);
            assert(data[pos as int] == 0x2C) by {
                assert(data[pos as int + 0] == window[0]);
                assert(window[0] == desc_bytes[0]);
            }
            let parsed_desc = crate::reader::spec_image_descriptor_from(data, pos as int + 1);
            assert(parsed_desc == ci.image_descriptor) by {
                assert forall|t: int| 1 <= t < 10 implies data[pos + t] == desc_bytes[t] by {
                    assert(data[pos + t] == window[t]);
                    assert(window[t] == desc_bytes[t]);
                }
                assert(data[pos as int + 1] == desc_bytes[1]);
                assert(data[pos as int + 2] == desc_bytes[2]);
                assert(data[pos as int + 3] == desc_bytes[3]);
                assert(data[pos as int + 4] == desc_bytes[4]);
                assert(data[pos as int + 5] == desc_bytes[5]);
                assert(data[pos as int + 6] == desc_bytes[6]);
                assert(data[pos as int + 7] == desc_bytes[7]);
                assert(data[pos as int + 8] == desc_bytes[8]);
                assert(data[pos as int + 9] == desc_bytes[9]);
            }
            match ci.local_color_table {
                Some(p) => {
                    lemma_packed_len_matches_computed(p@.len());
                    let computed = crate::palette::spec_computed_len(p@.len());
                    assert(pal_bytes.len() == 3 * computed);
                    let ct_len: nat = crate::spec_packed_to_color_table_length(
                        parsed_desc.packed.spec_color_table_size(),
                    ) as nat;
                    assert(ct_len == computed);
                    assert(spec_parse_colors(data, (pos + 10) as nat, ct_len) =~= spec_parse_colors(
                        pal_bytes,
                        0,
                        computed,
                    )) by {
                        assert forall|j: int|
                            0 <= j < computed implies spec_parse_colors(
                            data,
                            (pos + 10) as nat,
                            ct_len,
                        )[j] == spec_parse_colors(pal_bytes, 0, computed)[j] by {
                            assert(data[pos + 10 + 3 * j] == window[10 + 3 * j]);
                            assert(data[pos + 10 + 3 * j + 1] == window[10 + 3 * j + 1]);
                            assert(data[pos + 10 + 3 * j + 2] == window[10 + 3 * j + 2]);
                            assert(window[10 + 3 * j] == pal_bytes[3 * j]);
                            assert(window[10 + 3 * j + 1] == pal_bytes[3 * j + 1]);
                            assert(window[10 + 3 * j + 2] == pal_bytes[3 * j + 2]);
                        }
                    }
                    let code_pos = pos + 10 + 3 * ct_len;
                    assert(data[code_pos as int] == window[10 + pal_bytes.len() as int]) by {
                        assert(data[pos + (10 + pal_bytes.len() as int)] == window[10
                            + pal_bytes.len() as int]);
                    }
                    assert(window[10 + pal_bytes.len() as int] == ci.lzw_code_size);
                    assert(data.subrange(
                        code_pos as int + 1,
                        code_pos as int + 1 + stored.len() + 1,
                    ) =~= stored + seq![0x00u8]) by {
                        assert forall|t: int|
                            0 <= t < stored.len() + 1 implies data[code_pos + 1 + t] == (stored
                            + seq![0x00u8])[t] by {
                            assert(data[pos + (11 + pal_bytes.len() as int + t)] == window[11 + pal_bytes.len() as int + t]);
                        }
                    }
                    lemma_stored_blocks_round_trip(data, (code_pos + 1) as nat, ci.spec_chunks());
                },
                None => {
                    assert(pal_bytes =~= Seq::<u8>::empty());
                    let code_pos = pos + 10;
                    assert(data[code_pos as int] == window[10]) by {
                        assert(data[pos as int + 10] == window[10]);
                    }
                    assert(window[10] == ci.lzw_code_size);
                    assert(data.subrange(
                        code_pos as int + 1,
                        code_pos as int + 1 + stored.len() + 1,
                    ) =~= stored + seq![0x00u8]) by {
                        assert forall|t: int|
                            0 <= t < stored.len() + 1 implies data[code_pos + 1 + t] == (stored
                            + seq![0x00u8])[t] by {
                            assert(data[pos + (11 + t)] == window[11 + t]);
                        }
                    }
                    lemma_stored_blocks_round_trip(data, (code_pos + 1) as nat, ci.spec_chunks());
                },
            }
        },
    }
}

/// No block serializes to fewer than three bytes.
pub proof fn lemma_encode_block_len(b: Block)
    ensures
        spec_encode_block(b).len() >= 3,
{
    match b {
        Block::CompressedImage(ci) => {
            assert(spec_encode_block(b).len() >= 12);
        },
        Block::GraphicControlExtension(_) => {
            assert(spec_encode_block(b).len() == 8);
        },
        Block::CommentExtension(c) => {
            assert(spec_encode_block(b).len() >= 3);
        },
        Block::ApplicationExtension(a) => {
            assert(spec_encode_block(b).len() >= 4);
        },
        Block::LoopingExtension(_) => {
            assert(spec_encode_block(b).len() == 19);
        },
    }
}

/// The abstractions a serialized block sequence parses back to.
pub open spec fn spec_abs_blocks_round_trip(blocks: Seq<Block>) -> Seq<ParsedBlock> {
    Seq::new(blocks.len(), |i: int| spec_abs_after_round_trip(blocks[i]))
}

/// A serialized block sequence followed by the trailer parses back to
/// its blocks' abstractions, in order.
pub proof fn lemma_blocks_round_trip(data: Seq<u8>, pos: nat, blocks: Seq<Block>)
    requires
        forall|i: int|
            0 <= i < blocks.len() ==> (#[trigger] blocks[i]).wf() && spec_parses_as_itself(
                blocks[i],
            ) && spec_wire_consistent(blocks[i]),
        pos + crate::gif::spec_blocks_bytes(blocks).len() + 1 <= data.len(),
        data.subrange(pos as int, pos as int + crate::gif::spec_blocks_bytes(blocks).len() + 1)
            == crate::gif::spec_blocks_bytes(blocks) + seq![0x3Bu8],
    ensures
        crate::reader::spec_parse_blocks(data, pos) == Ok::<
            Seq<ParsedBlock>,
            crate::reader::DecodeError,
        >(spec_abs_blocks_round_trip(blocks)),
    decreases blocks.len(),
{
    let enc = crate::gif::spec_blocks_bytes(blocks);
    let window = data.subrange(pos as int, pos as int + enc.len() + 1);
    if blocks.len() == 0 {
        assert(enc =~= Seq::<u8>::empty());
        assert(data[pos as int] == window[0]);
        assert(window[0] == 0x3B);
        assert(spec_parse_block(data, pos) == Ok::<
            Option<(ParsedBlock, nat)>,
            crate::reader::DecodeError,
        >(None));
        assert(spec_abs_blocks_round_trip(blocks) =~= Seq::<ParsedBlock>::empty());
    } else {
        let b0 = blocks[0];
        let enc0 = spec_encode_block(b0);
        let enc_rest = crate::gif::spec_blocks_bytes(blocks.skip(1));
        assert(enc == enc0 + enc_rest);
        lemma_encode_block_len(b0);
        assert(data.subrange(pos as int, pos as int + enc0.len()) =~= enc0) by {
            assert forall|t: int| 0 <= t < enc0.len() implies data[pos + t] == enc0[t] by {
                assert(data[pos + t] == window[t]);
                assert(window[t] == enc0[t]);
            }
        }
        lemma_block_round_trip(data, pos, b0);
        let pos2 = (pos + enc0.len()) as nat;
        assert(data.subrange(pos2 as int, pos2 as int + enc_rest.len() + 1) =~= enc_rest + seq![
            0x3Bu8,
        ]) by {
            assert forall|t: int|
                0 <= t < enc_rest.len() + 1 implies data[pos2 + t] == (enc_rest + seq![0x3Bu8])[t]
                by {
                assert(data[pos + (enc0.len() + t)] == window[enc0.len() + t]);
                assert(window[enc0.len() + t] == (enc_rest + seq![0x3Bu8])[t]);
            }
        }
        assert(forall|i: int|
            0 <= i < blocks.skip(1).len() ==> (#[trigger] blocks.skip(1)[i]).wf()
                && spec_parses_as_itself(blocks.skip(1)[i]) && spec_wire_consistent(
                blocks.skip(1)[i],
            ));
        lemma_blocks_round_trip(data, pos2, blocks.skip(1));
        assert(seq![spec_abs_after_round_trip(b0)] + spec_abs_blocks_round_trip(blocks.skip(1))
            =~= spec_abs_blocks_round_trip(blocks));
    }
}

/// Whether the screen descriptor agrees with the global color table:
/// the flag set exactly when a table is present, and the size field
/// holding that table's packed length.
pub open spec fn spec_screen_wire_consistent(g: crate::gif::Gif) -> bool {
    &&& g.descriptor.spec_has_color_table() == g.palette is Some
    &&& match g.palette {
        Some(p) => g.descriptor.packed.spec_color_table_size() == crate::palette::spec_packed_len(
            p@.len(),
        ),
        None => true,
    }
}

/// A whole serialized file parses back to the file it was written
/// from: the same version and screen descriptor, the global color
/// table padded to its power-of-two wire size, and every block's
/// abstraction in order. This holds for every well-formed file whose
/// descriptors agree with their palettes and whose blocks are in the
/// wire's canonical form.
pub proof fn lemma_gif_round_trip(g: crate::gif::Gif)
    requires
        g.wf(),
        spec_screen_wire_consistent(g),
        forall|i: int|
            0 <= i < g.blocks@.len() ==> spec_parses_as_itself(#[trigger] g.blocks@[i])
                && spec_wire_consistent(g.blocks@[i]),
    ensures
        crate::reader::spec_parse_gif(crate::gif::spec_gif_bytes(g)) == Ok::<
            (
                crate::version::Version,
                crate::screendescriptor::ScreenDescriptor,
                Option<Seq<Color>>,
                Seq<ParsedBlock>,
            ),
            crate::reader::DecodeError,
        >(
            (
                g.version,
                g.descriptor,
                match g.palette {
                    Some(p) => Some(
                        spec_parse_colors(
                            crate::palette::spec_palette_bytes(p@),
                            0,
                            crate::palette::spec_computed_len(p@.len()),
                        ),
                    ),
                    None => None,
                },
                spec_abs_blocks_round_trip(g.blocks@),
            ),
        ),
{
    let data = crate::gif::spec_gif_bytes(g);
    let magic = crate::version::spec_version_bytes(g.version);
    let sd_bytes = crate::screendescriptor::spec_screen_descriptor_bytes(g.descriptor);
    let pal_bytes: Seq<u8> = match g.palette {
        Some(p) => crate::palette::spec_palette_bytes(p@),
        None => Seq::empty(),
    };
    let blocks_bytes = crate::gif::spec_blocks_bytes(g.blocks@);
    assert(data == magic + sd_bytes + pal_bytes + blocks_bytes + seq![0x3Bu8]);
    assert(magic.len() == 6 && sd_bytes.len() == 7);

    // The magic picks out exactly the version it was written from.
    assert(data.subrange(0, 6) =~= magic) by {
        assert forall|t: int| 0 <= t < 6 implies data[t] == magic[t] by {}
    }
    assert(crate::version::spec_version_bytes(crate::version::Version::Gif87a)[4] == 0x37);
    assert(crate::version::spec_version_bytes(crate::version::Version::Gif89a)[4] == 0x39);
    assert(crate::version::spec_version_bytes(crate::version::Version::Gif87a)
        != crate::version::spec_version_bytes(crate::version::Version::Gif89a));

    // The screen descriptor reads back as itself.
    crate::screendescriptor::lemma_screen_descriptor_round_trip(g.descriptor);
    assert(crate::reader::spec_screen_descriptor_from(data, 6) == g.descriptor) by {
        assert forall|t: int| 0 <= t < 7 implies data[6 + t] == sd_bytes[t] by {}
    }

    // The global color table reads back at its wire size.
    let p0: nat = match g.palette {
        Some(p) => {
            lemma_packed_len_matches_computed(p@.len());
            let computed = crate::palette::spec_computed_len(p@.len());
            assert(pal_bytes.len() == 3 * computed);
            assert(spec_parse_colors(data, 13, computed) =~= spec_parse_colors(
                pal_bytes,
                0,
                computed,
            )) by {
                assert forall|j: int|
                    0 <= j < computed implies spec_parse_colors(data, 13, computed)[j]
                        == spec_parse_colors(pal_bytes, 0, computed)[j] by {
                    assert(data[13 + 3 * j] == pal_bytes[3 * j]);
                    assert(data[13 + 3 * j + 1] == pal_bytes[3 * j + 1]);
                    assert(data[13 + 3 * j + 2] == pal_bytes[3 * j + 2]);
                }
            }
            (13 + 3 * computed) as nat
        },
        None => 13,
    };

    // The block stream reads back block by block.
    assert(data.subrange(p0 as int, p0 as int + blocks_bytes.len() + 1) =~= blocks_bytes + seq![
        0x3Bu8,
    ]) by {
        assert forall|t: int|
            0 <= t < blocks_bytes.len() + 1 implies data[p0 + t] == (blocks_bytes + seq![0x3Bu8])[t]
            by {}
    }
    lemma_blocks_round_trip(data, p0, g.blocks@);
}

} // verus!
