use gifed::color::Color;
use gifed::palette::Palette;

fn vec_tuple_test(vec: Vec<(u8, u8, u8)>, expected: &[u8]) {
    let plt: Palette = Palette::try_from_triples(vec).unwrap();
    let bytes = plt.as_bytes();

    assert_eq!(expected, bytes.as_slice())
}

#[test]
fn writes_one_with_padding() {
    vec_tuple_test(vec![(1, 2, 3)], &[1, 2, 3, 0, 0, 0])
}

#[test]
fn writes_two_without_padding() {
    vec_tuple_test(vec![(1, 2, 3), (4, 5, 6)], &[1, 2, 3, 4, 5, 6])
}

fn test_n_with_padding(real_count: usize, exected_padding_bytes: usize) {
    let mut palette = Palette::new();
    let mut expected = vec![];

    for x in 0..real_count {
        let x = x as u8;
        palette.push(Color { r: x, g: x, b: x });
        expected.extend_from_slice(&[x, x, x])
    }

    for _ in 0..exected_padding_bytes {
        expected.push(0x00);
    }

    let bytes = palette.as_bytes();
    assert_eq!(expected, bytes.as_slice())
}

fn test_n_with_padding_range(real_count_low: u8, real_count_high: u8, next_padstop: usize) {
    for x in real_count_low..=real_count_high {
        test_n_with_padding(x as usize, (next_padstop - x as usize) * 3)
    }
}

#[test]
fn writes_three_with_padding() {
    test_n_with_padding(3, 3);
}

#[test]
fn writes_four_without_padding() {
    test_n_with_padding(4, 0);
}

#[test]
fn writes_five_to_seven_with_padding() {
    test_n_with_padding_range(5, 7, 8);
}

#[test]
fn writes_eight_without_padding() {
    test_n_with_padding(8, 0);
}

#[test]
fn writes_nine_to_fifteen_with_padding() {
    test_n_with_padding_range(9, 15, 16);
}

#[test]
fn writes_sixteen_without_padding() {
    test_n_with_padding(16, 0);
}

#[test]
fn writes_seventeen_to_thirtyone_with_padding() {
    test_n_with_padding_range(17, 31, 32);
}

#[test]
fn writes_thirtytwo_without_padding() {
    test_n_with_padding(32, 0);
}

#[test]
fn writes_thirtythree_to_sixtythree_with_padding() {
    test_n_with_padding_range(33, 63, 64);
}

#[test]
fn writes_sixtyfour_without_padding() {
    test_n_with_padding(64, 0);
}

#[test]
fn writes_sixtyfive_to_onehundredtwentyseven_with_padding() {
    test_n_with_padding_range(65, 127, 128);
}

#[test]
fn writes_onetwentyeight_without_padding() {
    test_n_with_padding(128, 0);
}

#[test]
fn writes_onetwentynine_to_twofiftyfive_with_padding() {
    test_n_with_padding_range(129, 255, 256);
}

#[test]
fn writes_256_without_padding() {
    test_n_with_padding(256, 0);
}

#[test]
fn packed_len_are_correct() {
    let black = Color::new(0, 0, 0);
    let mut palette = Palette::new();

    // Nothing is nothing
    assert_eq!(0, palette.packed_len());

    // One color is still 0 because the formula is
    // 2 ^ (len + 1)
    // which means we should increase at 3
    palette.push(black);
    assert_eq!(0, palette.packed_len());

    palette.push(black);
    assert_eq!(0, palette.packed_len());
}

#[test]
fn too_many_colors_is_refused() {
    let colors: Vec<Color> = (0..257).map(|_| Color::new(0, 0, 0)).collect();
    assert_eq!(
        Palette::try_from_colors(colors).unwrap_err(),
        gifed::writer::EncodeError::TooManyColors
    );
}

#[test]
fn palette_lookup_finds_first_index() {
    let plt =
        Palette::try_from_triples(vec![(1, 1, 1), (2, 2, 2), (1, 1, 1)]).unwrap();
    assert_eq!(plt.from_color(Color::new(2, 2, 2)), Some(1));
    assert_eq!(plt.from_color(Color::new(1, 1, 1)), Some(0));
    assert_eq!(plt.from_color(Color::new(9, 9, 9)), None);
    assert_eq!(plt.get(2), Some(Color::new(1, 1, 1)));
    assert_eq!(plt.get(3), None);
}
