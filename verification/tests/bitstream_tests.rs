use gifed::bitstream::{BitReader, BitStream};
use gifed::color::Color;
use gifed::outvec::OutVec;

#[test]
fn lzw_short_push() {
    let mut bs = BitStream::new();
    bs.push_bits(2, 3);
    bs.push_bits(2, 3);
    bs.push_bits(3, 1);
    bs.push_bits(2, 3);

    let bsvec = bs.vec();

    assert_eq!(bsvec, vec![0b1001_1111, 0b0000_0001]);
}

#[test]
fn lzw_long_push() {
    let mut bs = BitStream::new();
    bs.push_bits(1, 1);
    bs.push_bits(12, 2049);

    let bsvec = bs.vec();

    assert_eq!(bsvec, vec![0b0000_0011, 0b0001_0000]);
}

#[test]
fn push_then_pop_round_trips() {
    let mut bs = BitStream::new();
    let values: [(u8, u16); 6] = [(3, 5), (12, 2049), (1, 1), (8, 255), (16, 0xBEEF), (5, 19)];
    for &(count, value) in &values {
        bs.push_bits(count, value);
    }
    let bytes = bs.vec();

    let mut reader = BitReader::new(bytes);
    for &(count, value) in &values {
        assert_eq!(reader.pop_bits(count), value);
    }
}

#[test]
fn pop_reads_lsb_first() {
    let mut reader = BitReader::new(vec![0b1001_1111, 0b0000_0001]);
    assert_eq!(reader.pop_bits(2), 3);
    assert_eq!(reader.pop_bits(2), 3);
    assert_eq!(reader.pop_bits(3), 1);
    assert_eq!(reader.pop_bits(2), 3);
}

#[test]
fn outvec_writes_little_endian() {
    let mut out = OutVec::new();
    out.push_u8(0xAB);
    out.push_u16(0x1234);
    out.push_u32(0xDEADBEEF);
    out.push_u64(0x0102030405060708);
    out.push_slice(&vec![9, 9]);
    out.push_color(&Color::new(1, 2, 3));
    out.push_colors(&vec![Color::new(4, 5, 6), Color::new(7, 8, 9)]);
    assert_eq!(
        out.vec(),
        vec![
            0xAB, 0x34, 0x12, 0xEF, 0xBE, 0xAD, 0xDE, 0x08, 0x07, 0x06, 0x05, 0x04, 0x03, 0x02,
            0x01, 9, 9, 1, 2, 3, 4, 5, 6, 7, 8, 9
        ]
    );
}
