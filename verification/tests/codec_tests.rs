use gifed::block::{Block, LoopCount};
use gifed::color::Color;
use gifed::gif::FrameControl;
use gifed::graphiccontrol::{DisposalMethod, GraphicControl};
use gifed::palette::Palette;
use gifed::version::Version;
use gifed::writer::{EncodeError, EncodeImage, GifBuilder, ImageBuilder, Writer};

fn gct() -> Palette {
    Palette::try_from_colors(vec![Color::new(1, 2, 3), Color::new(253, 254, 255)]).unwrap()
}

fn local_table() -> Palette {
    Palette::try_from_colors(vec![Color::new(0, 0, 0), Color::new(128, 0, 255)]).unwrap()
}

fn indicies() -> Vec<u8> {
    vec![0, 0, 0, 0, 0, 1, 1, 0, 0, 1, 1, 0, 0, 0, 0, 0]
}

fn expected_gif87a() -> Vec<u8> {
    vec![
        0x47, 0x49, 0x46, 0x38, 0x37, 0x61, // Version - GIF87a
        0x04, 0x00, 0x04, 0x00, 0b1000_0000, 0x00, 0x00, // Logical Screen Descriptor
        1, 2, 3, 253, 254, 255, // Global Color Table
        0x2C, 0x00, 0x00, 0x00, 0x00, 0x04, 0x00, 0x04, 0x00,
        0b1000_0000, // Image Descriptor 1
        0, 0, 0, 128, 0, 255, // Color Table
        0x02, 0x05, 0x84, 0x1D, 0x81, 0x7A, 0x50, 0x00, // Image Data 1
        0x2C, 0x00, 0x00, 0x00, 0x00, 0x04, 0x00, 0x04, 0x00,
        0b0000_0000, // Image Descriptor 2
        0x02, 0x05, 0x84, 0x1D, 0x81, 0x7A, 0x50, 0x00, // Image Data 2
        0x3B, // Trailer
    ]
}

#[test]
fn to_vec_gif87a() {
    let actual = GifBuilder::new(4, 4)
        .palette(gct())
        .image(EncodeImage::BuiltImage(
            ImageBuilder::new(4, 4)
                .palette(local_table())
                .build(indicies())
                .unwrap(),
        ))
        .image(EncodeImage::BuiltImage(
            ImageBuilder::new(4, 4).build(indicies()).unwrap(),
        ));

    let bytes = actual.build().unwrap().as_bytes();
    assert_eq!(bytes, expected_gif87a());
}

#[test]
fn to_vec_gif89a() {
    let expected_out = vec![
        71, 73, 70, 56, 57, 97, 4, 0, 4, 0, 128, 0, 0, 1, 2, 3, 253, 254, 255, 33, 249, 4, 8, 64,
        0, 0, 0, 44, 0, 0, 0, 0, 4, 0, 4, 0, 128, 0, 0, 0, 128, 0, 255, 2, 5, 132, 29, 129, 122,
        80, 0, 44, 0, 0, 0, 0, 4, 0, 4, 0, 0, 2, 5, 132, 29, 129, 122, 80, 0, 59,
    ];

    let actual_out = GifBuilder::new(4, 4)
        .palette(gct())
        .image(EncodeImage::BuiltImage(
            ImageBuilder::new(4, 4)
                .palette(local_table())
                .disposal_method(DisposalMethod::RestoreBackground)
                .delay(64)
                .build(indicies())
                .unwrap(),
        ))
        .image(EncodeImage::BuiltImage(
            ImageBuilder::new(4, 4).build(indicies()).unwrap(),
        ))
        .build()
        .unwrap()
        .as_bytes();

    assert_eq!(actual_out, expected_out);
}

#[test]
fn graphic_control_on_the_wire() {
    let gce = GraphicControl::new(DisposalMethod::RestoreBackground, false, false, 64, 0);
    assert_eq!(gce.packed().raw, 0x08);
    let bytes = gifed::block::encode_block(&Block::GraphicControlExtension(gce));
    assert_eq!(bytes, vec![0x21, 0xF9, 0x04, 0x08, 0x40, 0x00, 0x00, 0x00]);
}

#[test]
fn netscape_loop_forever_on_the_wire() {
    let bytes = gifed::block::encode_block(&Block::LoopingExtension(LoopCount::Forever));
    assert_eq!(
        bytes,
        vec![
            0x21, 0xFF, 0x0B, 0x4E, 0x45, 0x54, 0x53, 0x43, 0x41, 0x50, 0x45, 0x32, 0x2E, 0x30,
            0x03, 0x01, 0x00, 0x00, 0x00
        ]
    );
}

#[test]
fn netscape_loop_count_on_the_wire() {
    let bytes = gifed::block::encode_block(&Block::LoopingExtension(LoopCount::count(7)));
    assert_eq!(
        bytes,
        vec![
            0x21, 0xFF, 0x0B, 0x4E, 0x45, 0x54, 0x53, 0x43, 0x41, 0x50, 0x45, 0x32, 0x2E, 0x30,
            0x03, 0x01, 0x07, 0x00, 0x00
        ]
    );
}

#[test]
fn comment_is_chunked_and_terminated() {
    let comment: Vec<u8> = (0..300u16).map(|x| (x % 251) as u8).collect();
    let bytes = gifed::block::encode_block(&Block::CommentExtension(comment.clone()));
    assert_eq!(bytes[0], 0x21);
    assert_eq!(bytes[1], 0xFE);
    assert_eq!(bytes[2], 255);
    assert_eq!(&bytes[3..258], &comment[..255]);
    assert_eq!(bytes[258], 45);
    assert_eq!(&bytes[259..304], &comment[255..]);
    assert_eq!(bytes[304], 0x00);
    assert_eq!(bytes.len(), 305);
}

#[test]
fn image_builder_checks_the_index_count() {
    let err = ImageBuilder::new(4, 4).build(vec![0; 15]).unwrap_err();
    assert_eq!(
        err,
        EncodeError::IndicieSizeMismatch {
            expected: 16,
            got: 15
        }
    );
}

#[test]
fn compress_without_any_palette_is_refused() {
    let built = ImageBuilder::new(4, 4).build(indicies()).unwrap();
    let err = built.image.compress(None).unwrap_err();
    assert_eq!(err, EncodeError::InvalidCodeSize { lzw_code_size: 0 });
}

#[test]
fn compress_decompress_round_trips() {
    let built = ImageBuilder::new(4, 4)
        .palette(local_table())
        .build(indicies())
        .unwrap();
    let compressed = built.image.compress(None).unwrap();
    let decompressed = compressed.decompress().unwrap();
    assert_eq!(decompressed.indicies, indicies());
}

#[test]
fn required_version_tracks_features() {
    assert_eq!(
        ImageBuilder::new(2, 2).required_version(),
        Version::Gif87a
    );
    assert_eq!(
        ImageBuilder::new(2, 2).delay(1).required_version(),
        Version::Gif89a
    );
    assert_eq!(
        ImageBuilder::new(2, 2)
            .transparent_index(Some(0))
            .required_version(),
        Version::Gif89a
    );
}

#[test]
fn streaming_writer_matches_builder() {
    let mut writer = Writer::from_parts(
        gifed::version::Version::Gif87a,
        {
            let mut sd = gifed::screendescriptor::ScreenDescriptor::new(4, 4);
            sd.set_color_table_metadata(Some(&gct()));
            sd
        },
        Some(gct()),
    );
    writer
        .image(EncodeImage::BuiltImage(
            ImageBuilder::new(4, 4)
                .palette(local_table())
                .build(indicies())
                .unwrap(),
        ))
        .unwrap();
    writer
        .image(EncodeImage::BuiltImage(
            ImageBuilder::new(4, 4).build(indicies()).unwrap(),
        ))
        .unwrap();
    let bytes = writer.done();
    assert_eq!(bytes, expected_gif87a());
}

#[test]
fn frame_control_reads_the_live_extension() {
    let gif = GifBuilder::new(4, 4)
        .palette(gct())
        .image(EncodeImage::BuiltImage(
            ImageBuilder::new(4, 4).delay(64).build(indicies()).unwrap(),
        ))
        .build()
        .unwrap();
    let images = gif.images();
    assert_eq!(images.len(), 1);
    assert_eq!(images[0].frame_control(), Some(FrameControl::Delay(64)));
    assert_eq!(
        images[0].disposal_method(),
        DisposalMethod::NoAction
    );
    assert_eq!(images[0].transparent_index(), None);
}

#[test]
fn last_graphic_control_wins() {
    // Two graphic controls precede the frame: the earlier one carries
    // transparency, a delay and a disposal; the later one only a
    // delay. Every accessor must answer from the later one.
    let earlier = GraphicControl::new(DisposalMethod::DoNotDispose, false, true, 10, 1);
    let gif = GifBuilder::new(2, 2)
        .palette(gct())
        .block(Block::GraphicControlExtension(earlier))
        .image(EncodeImage::BuiltImage(
            ImageBuilder::new(2, 2).delay(64).build(vec![0, 1, 1, 0]).unwrap(),
        ))
        .build()
        .unwrap();
    let images = gif.images();
    assert_eq!(images.len(), 1);
    assert_eq!(images[0].frame_control(), Some(FrameControl::Delay(64)));
    assert_eq!(images[0].transparent_index(), None);
    assert_eq!(images[0].disposal_method(), DisposalMethod::NoAction);
}

#[test]
fn compress_refuses_an_override_past_the_format() {
    let built = ImageBuilder::new(4, 4).build(indicies()).unwrap();
    let err = built.image.compress(Some(9)).unwrap_err();
    assert_eq!(err, EncodeError::InvalidCodeSize { lzw_code_size: 9 });

    // A low override is still raised to the format's minimum of 2.
    let built = ImageBuilder::new(4, 4).build(indicies()).unwrap();
    let ok = built.image.compress(Some(1)).unwrap();
    assert_eq!(ok.lzw_code_size, 2);
}

#[test]
fn png_trns_marks_the_transparent_slot() {
    let gif = GifBuilder::new(2, 2)
        .palette(gct())
        .image(EncodeImage::BuiltImage(
            ImageBuilder::new(2, 2)
                .transparent_index(Some(1))
                .build(vec![0, 1, 1, 0])
                .unwrap(),
        ))
        .image(EncodeImage::BuiltImage(
            ImageBuilder::new(2, 2).build(vec![0, 0, 0, 0]).unwrap(),
        ))
        .build()
        .unwrap();
    let images = gif.images();
    assert_eq!(images[0].png_trns(), Some(vec![255, 0]));
    assert_eq!(images[1].png_trns(), None);
}
