use gifed::block::Block;
use gifed::color::Color;
use gifed::reader::{DecodeError, Decoder, SmartReader};
use gifed::version::Version;
use gifed::fix::{palette_errors, same_palette};
use gifed::writer::{EncodeImage, GifBuilder, ImageBuilder};

fn sample_gif87a() -> Vec<u8> {
    vec![
        0x47, 0x49, 0x46, 0x38, 0x37, 0x61, 0x04, 0x00, 0x04, 0x00, 0b1000_0000, 0x00, 0x00, 1,
        2, 3, 253, 254, 255, 0x2C, 0x00, 0x00, 0x00, 0x00, 0x04, 0x00, 0x04, 0x00, 0b1000_0000,
        0, 0, 0, 128, 0, 255, 0x02, 0x05, 0x84, 0x1D, 0x81, 0x7A, 0x50, 0x00, 0x2C, 0x00, 0x00,
        0x00, 0x00, 0x04, 0x00, 0x04, 0x00, 0b0000_0000, 0x02, 0x05, 0x84, 0x1D, 0x81, 0x7A,
        0x50, 0x00, 0x3B,
    ]
}

#[test]
fn decodes_the_two_frame_file() {
    let gif = Decoder::new(sample_gif87a()).read_all().unwrap();

    assert_eq!(gif.version, Version::Gif87a);
    assert_eq!(gif.descriptor.width, 4);
    assert_eq!(gif.descriptor.height, 4);
    let global = gif.palette.as_ref().unwrap();
    assert_eq!(global.len(), 2);
    assert_eq!(global.get(0), Some(Color::new(1, 2, 3)));
    assert_eq!(global.get(1), Some(Color::new(253, 254, 255)));

    let images = gif.images();
    assert_eq!(images.len(), 2);
    for image in &images {
        assert_eq!(image.width(), 4);
        assert_eq!(image.height(), 4);
        assert_eq!(image.top(), 0);
        assert_eq!(image.left(), 0);
    }
    // Frame 0 carries its own palette; frame 1 falls through to the
    // global one.
    assert_eq!(images[0].palette().len(), 2);
    assert_eq!(images[0].palette().get(1), Some(Color::new(128, 0, 255)));
    assert_eq!(images[1].palette().get(1), Some(Color::new(253, 254, 255)));
}

#[test]
fn decode_then_encode_is_identity() {
    let bytes = sample_gif87a();
    let gif = Decoder::new(bytes.clone()).read_all().unwrap();
    assert_eq!(gif.as_bytes(), bytes);
}

#[test]
fn decoded_frames_decompress_to_the_indices() {
    let gif = Decoder::new(sample_gif87a()).read_all().unwrap();
    for block in gif.blocks {
        if let Block::CompressedImage(ci) = block {
            let img = ci.decompress().unwrap();
            assert_eq!(
                img.indicies,
                vec![0, 0, 0, 0, 0, 1, 1, 0, 0, 1, 1, 0, 0, 0, 0, 0]
            );
        }
    }
}

#[test]
fn trailing_garbage_after_trailer_is_ignored() {
    let mut bytes = sample_gif87a();
    bytes.extend_from_slice(&[0xDE, 0xAD, 0xBE, 0xEF]);
    let gif = Decoder::new(bytes).read_all().unwrap();
    assert_eq!(gif.images().len(), 2);
}

#[test]
fn bad_magic_is_invalid_version() {
    let err = Decoder::new(vec![0x47, 0x49, 0x46, 0x38, 0x36, 0x61, 0, 0, 0, 0, 0, 0, 0])
        .read_all()
        .unwrap_err();
    assert_eq!(err, DecodeError::InvalidVersion);
}

#[test]
fn truncated_header_is_unexpected_eof() {
    let err = Decoder::new(vec![0x47, 0x49, 0x46]).read_all().unwrap_err();
    assert_eq!(err, DecodeError::UnexpectedEof);
}

#[test]
fn missing_trailer_is_unexpected_eof() {
    let mut bytes = sample_gif87a();
    bytes.pop();
    let err = Decoder::new(bytes).read_all().unwrap_err();
    assert_eq!(err, DecodeError::UnexpectedEof);
}

#[test]
fn unknown_introducer_is_unknown_block() {
    let mut bytes = sample_gif87a();
    let trailer = bytes.len() - 1;
    bytes[trailer] = 0x7E;
    let err = Decoder::new(bytes).read_all().unwrap_err();
    assert_eq!(err, DecodeError::UnknownBlock { byte: 0x7E });
}

#[test]
fn unknown_extension_label_is_reported() {
    let mut bytes = Vec::new();
    bytes.extend_from_slice(&[0x47, 0x49, 0x46, 0x38, 0x39, 0x61]);
    bytes.extend_from_slice(&[0x02, 0x00, 0x02, 0x00, 0x00, 0x00, 0x00]);
    bytes.extend_from_slice(&[0x21, 0xAB, 0x00]);
    bytes.push(0x3B);
    let err = Decoder::new(bytes).read_all().unwrap_err();
    assert_eq!(err, DecodeError::UnknownExtension);
}

#[test]
fn netscape_extension_becomes_a_looping_block() {
    let mut bytes = Vec::new();
    bytes.extend_from_slice(&[0x47, 0x49, 0x46, 0x38, 0x39, 0x61]);
    bytes.extend_from_slice(&[0x02, 0x00, 0x02, 0x00, 0x00, 0x00, 0x00]);
    bytes.extend_from_slice(&[
        0x21, 0xFF, 0x0B, 0x4E, 0x45, 0x54, 0x53, 0x43, 0x41, 0x50, 0x45, 0x32, 0x2E, 0x30,
        0x03, 0x01, 0x00, 0x00, 0x00,
    ]);
    bytes.push(0x3B);
    let gif = Decoder::new(bytes).read_all().unwrap();
    assert_eq!(gif.blocks.len(), 1);
    assert!(matches!(
        gif.blocks[0],
        Block::LoopingExtension(gifed::block::LoopCount::Forever)
    ));
}

#[test]
fn plain_text_extension_is_skipped() {
    let mut bytes = Vec::new();
    bytes.extend_from_slice(&[0x47, 0x49, 0x46, 0x38, 0x39, 0x61]);
    bytes.extend_from_slice(&[0x02, 0x00, 0x02, 0x00, 0x00, 0x00, 0x00]);
    // Plain text: label 0x01, 12-byte header, one sub-block, terminator.
    bytes.extend_from_slice(&[0x21, 0x01, 0x0C]);
    bytes.extend_from_slice(&[0; 12]);
    bytes.extend_from_slice(&[0x02, 0x41, 0x42, 0x00]);
    // Then a comment so the file is not empty.
    bytes.extend_from_slice(&[0x21, 0xFE, 0x02, 0x68, 0x69, 0x00]);
    bytes.push(0x3B);
    let gif = Decoder::new(bytes).read_all().unwrap();
    assert_eq!(gif.blocks.len(), 1);
    match &gif.blocks[0] {
        Block::CommentExtension(c) => assert_eq!(c, &vec![0x68, 0x69]),
        other => panic!("expected a comment, got {:?}", other),
    }
}

#[test]
fn streaming_reader_reports_offsets() {
    let mut decoder = Decoder::new(sample_gif87a()).read().unwrap();
    assert_eq!(decoder.width(), 4);
    assert_eq!(decoder.height(), 4);

    let first = decoder.block().unwrap().unwrap();
    assert_eq!(first.start, 19);
    assert_eq!(first.end, 43);
    assert!(matches!(first.block, Block::CompressedImage(_)));

    let second = decoder.block().unwrap().unwrap();
    assert_eq!(second.start, 43);
    assert_eq!(second.end, 61);

    assert!(decoder.block().unwrap().is_none());
    assert!(decoder.block().unwrap().is_none());
}

#[test]
fn smart_reader_primitives() {
    let mut reader = SmartReader::new(vec![0x10, 0x34, 0x12, 0xAA, 0xBB, 0x02, 0x05, 0x06, 0x00]);
    assert_eq!(reader.u8().unwrap(), 0x10);
    assert_eq!(reader.u16().unwrap(), 0x1234);
    let taken = reader.take_vec(2).unwrap();
    assert_eq!(taken, vec![0xAA, 0xBB]);
    let chain = reader.take_and_collapse_subblocks().unwrap();
    assert_eq!(chain, vec![0x05, 0x06]);
    assert_eq!(reader.bytes_read(), 9);
    assert_eq!(reader.u8().unwrap_err(), DecodeError::UnexpectedEof);
}

#[test]
fn color_index_out_of_bounds_is_reported() {
    let plt = gifed::palette::Palette::try_from_triples(vec![(1, 1, 1), (2, 2, 2)]).unwrap();
    let bad = gifed::fix::deindex(&vec![0, 1, 2], &plt, None);
    assert!(bad.is_none());
    let ok = gifed::fix::deindex(&vec![0, 1, 2], &plt, Some(2)).unwrap();
    assert_eq!(
        ok,
        vec![1, 1, 1, 255, 2, 2, 2, 255, 0, 0, 0, 0]
    );
}

#[test]
fn palette_report_spots_redundant_locals() {
    let table =
        gifed::palette::Palette::try_from_triples(vec![(1, 2, 3), (4, 5, 6)]).unwrap();
    let table_again =
        gifed::palette::Palette::try_from_triples(vec![(1, 2, 3), (4, 5, 6)]).unwrap();
    let gif = GifBuilder::new(2, 2)
        .image(EncodeImage::BuiltImage(
            ImageBuilder::new(2, 2)
                .palette(table)
                .build(vec![0, 1, 1, 0])
                .unwrap(),
        ))
        .image(EncodeImage::BuiltImage(
            ImageBuilder::new(2, 2)
                .palette(table_again)
                .build(vec![1, 0, 0, 1])
                .unwrap(),
        ))
        .build()
        .unwrap();

    let report = same_palette(&gif);
    assert!(report.has_local);
    assert!(report.local_redundant);
    // The blunt pair test refuses palettes with two distinct colors.
    assert!(!report.local_matching_indicies);
    assert!(palette_errors(&gif, report).is_none());
}

#[test]
fn palette_errors_moves_the_local_table_up() {
    let table = gifed::palette::Palette::try_from_triples(vec![(9, 9, 9)]).unwrap();
    let gif = GifBuilder::new(1, 1)
        .image(EncodeImage::BuiltImage(
            ImageBuilder::new(1, 1).palette(table).build(vec![0]).unwrap(),
        ))
        .build()
        .unwrap();

    let report = same_palette(&gif);
    assert!(report.has_local);
    assert!(report.local_matching_indicies);
    let fixed = palette_errors(&gif, report).unwrap();
    let global = fixed.palette.as_ref().unwrap();
    assert_eq!(global.get(0), Some(Color::new(9, 9, 9)));
    match &fixed.blocks[0] {
        Block::CompressedImage(ci) => {
            assert!(ci.local_color_table.is_none());
            assert!(!ci.image_descriptor.has_color_table());
        }
        other => panic!("expected an image, got {:?}", other),
    }
}

#[test]
fn rgba_replace_a_flattens_and_replaces() {
    let buf = vec![10, 20, 30, 200, 1, 2, 3, 7];
    let out = gifed::colorimage::rgba_replace_a(buf, (9, 8, 7), 128);
    assert_eq!(out, vec![10, 20, 30, 9, 8, 7]);
}

#[test]
fn matching_frames_compare_equal() {
    let table = gifed::palette::Palette::try_from_triples(vec![(1, 2, 3), (4, 5, 6)]).unwrap();
    let table_again =
        gifed::palette::Palette::try_from_triples(vec![(1, 2, 3), (4, 5, 6)]).unwrap();
    let a = GifBuilder::new(2, 2)
        .image(EncodeImage::BuiltImage(
            ImageBuilder::new(2, 2)
                .palette(table)
                .build(vec![0, 1, 1, 0])
                .unwrap(),
        ))
        .build()
        .unwrap();
    let b = GifBuilder::new(2, 2)
        .image(EncodeImage::BuiltImage(
            ImageBuilder::new(2, 2)
                .palette(table_again)
                .build(vec![0, 1, 1, 0])
                .unwrap(),
        ))
        .build()
        .unwrap();
    assert!(gifed::fix::images_match_exactly(&a, &b));

    let table_other =
        gifed::palette::Palette::try_from_triples(vec![(1, 2, 3), (9, 9, 9)]).unwrap();
    let c = GifBuilder::new(2, 2)
        .image(EncodeImage::BuiltImage(
            ImageBuilder::new(2, 2)
                .palette(table_other)
                .build(vec![0, 1, 1, 0])
                .unwrap(),
        ))
        .build()
        .unwrap();
    assert!(!gifed::fix::images_match_exactly(&a, &c));
}

#[test]
fn analyze_spots_globalizable_palettes() {
    let global = gifed::palette::Palette::try_from_triples(vec![(1, 1, 1), (2, 2, 2)]).unwrap();
    let local_subset =
        gifed::palette::Palette::try_from_triples(vec![(2, 2, 2), (1, 1, 1)]).unwrap();
    let gif = GifBuilder::new(2, 2)
        .palette(global)
        .image(EncodeImage::BuiltImage(
            ImageBuilder::new(2, 2)
                .palette(local_subset)
                .build(vec![0, 1, 1, 0])
                .unwrap(),
        ))
        .build()
        .unwrap();
    assert!(gifed::fix::analyze_can_be_a_gct(&gif));

    // 255 distinct global colors plus a disjoint two-color local
    // table exceed the 256-color budget.
    let big: Vec<(u8, u8, u8)> = (0..255u16).map(|x| (x as u8, 0, 0)).collect();
    let big_global = gifed::palette::Palette::try_from_triples(big).unwrap();
    let disjoint =
        gifed::palette::Palette::try_from_triples(vec![(0, 9, 9), (0, 8, 8)]).unwrap();
    let over = GifBuilder::new(2, 2)
        .palette(big_global)
        .image(EncodeImage::BuiltImage(
            ImageBuilder::new(2, 2)
                .palette(disjoint)
                .build(vec![0, 1, 1, 0])
                .unwrap(),
        ))
        .build()
        .unwrap();
    assert!(!gifed::fix::analyze_can_be_a_gct(&over));
}
