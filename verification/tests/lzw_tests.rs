use gifed::lzw::LZW;

/// A small deterministic generator standing in for a random source,
/// so the reference comparisons cover large, irregular inputs.
fn pseudo_random_indices(length: usize, lzw_size: u8, seed: u64) -> Vec<u8> {
    let mask = ((1u16 << lzw_size) - 1) as u8;
    let mut state = seed;
    let mut out = Vec::with_capacity(length);
    for _ in 0..length {
        state = state
            .wrapping_mul(6364136223846793005)
            .wrapping_add(1442695040888963407);
        out.push(((state >> 33) as u8) & mask);
    }
    out
}

fn rand_against_weezl(length: usize, lzw_size: u8, seed: u64) {
    let indices = pseudo_random_indices(length, lzw_size, seed);
    let weezl = weezl::encode::Encoder::new(weezl::BitOrder::Lsb, lzw_size)
        .encode(&indices)
        .unwrap();
    let us = LZW::new(lzw_size).encode(&indices);

    let weezl_decode = weezl::decode::Decoder::new(weezl::BitOrder::Lsb, lzw_size)
        .decode(&weezl)
        .unwrap();

    let us_decode = weezl::decode::Decoder::new(weezl::BitOrder::Lsb, lzw_size)
        .decode(&us)
        .unwrap();

    assert_eq!(us_decode, weezl_decode);
    assert_eq!(us_decode, indices);
}

#[test]
fn fortyk_against_weezl() {
    rand_against_weezl(40_000, 2, 11);
}

#[test]
fn thirtyeightk_against_weezl() {
    rand_against_weezl(38_000, 2, 22);
}

#[test]
fn thirtyeightk_against_weezl_full_codesize() {
    rand_against_weezl(38_000, 8, 33);
}

#[test]
fn twentyk_against_weezl_repeated() {
    for round in 0..100 {
        rand_against_weezl(20_000, 2, 44 + round)
    }
}

/// The decoder fed weezl-encoded data yields the original buffer.
#[test]
fn decode_weezl_output() {
    for &(len, size, seed) in &[(4_000usize, 2u8, 5u64), (4_000, 5, 6), (4_000, 8, 7)] {
        let indices = pseudo_random_indices(len, size, seed);
        let encoded = weezl::encode::Encoder::new(weezl::BitOrder::Lsb, size)
            .encode(&indices)
            .unwrap();
        let ours = LZW::new(size).decode(&encoded).unwrap();
        assert_eq!(ours, indices);
    }
}

/// Our decoder inverts our encoder over irregular buffers.
#[test]
fn encode_decode_round_trip() {
    for &(len, size, seed) in &[
        (1usize, 2u8, 1u64),
        (16, 2, 2),
        (5_000, 3, 3),
        (40_000, 2, 4),
        (10_000, 8, 5),
    ] {
        let indices = pseudo_random_indices(len, size, seed);
        let coder = LZW::new(size);
        let encoded = coder.encode(&indices);
        let decoded = coder.decode(&encoded).unwrap();
        assert_eq!(decoded, indices);
    }
}

#[test]
fn lzw_encode() {
    let indicies = vec![0, 0, 0, 0, 0, 1, 1, 0, 0, 1, 1, 0, 0, 0, 0, 0];
    let output = vec![0x84, 0x1D, 0x81, 0x7A, 0x50];

    let lzout = LZW::new(2).encode(&indicies);

    assert_eq!(lzout, output);
}

#[test]
fn empty_input_is_clear_then_end() {
    // With a minimum code size of 2 the clear code is 4 and the end
    // code 5, both three bits wide: 100 then 101 LSB-first.
    let out = LZW::new(2).encode(&Vec::<u8>::new());
    assert_eq!(out, vec![0b00_101_100]);
}

#[test]
fn invalid_code_is_reported() {
    // 0xFF 0xFF: the first 3-bit code is 7, past the last defined
    // code 5, with nothing defined since the last reset.
    let r = LZW::new(2).decode(&vec![0xFF, 0xFF]);
    assert_eq!(r.unwrap_err(), gifed::reader::DecodeError::LzwInvalidCode);
}

#[test]
fn trailing_bytes_after_end_are_ignored() {
    let indicies = vec![0, 0, 0, 0, 0, 1, 1, 0, 0, 1, 1, 0, 0, 0, 0, 0];
    let mut encoded = LZW::new(2).encode(&indicies);
    encoded.push(0xAA);
    encoded.push(0x55);
    let decoded = LZW::new(2).decode(&encoded).unwrap();
    assert_eq!(decoded, indicies);
}
