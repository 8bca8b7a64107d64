//! Tests of the bit-level reader: cursor behaviour, zero-width reads, and
//! the auxiliary bit lookups.

use dependency_descriptor::BitStream;

#[test]
fn read_bit_walks_msb_first() {
    let bytes = [0b1010_0001u8];
    let mut bs = BitStream::new(&bytes);
    assert_eq!(bs.read_bit(), Some(true));
    assert_eq!(bs.read_bit(), Some(false));
    assert_eq!(bs.read_bit(), Some(true));
    assert_eq!(bs.read_bit(), Some(false));
    assert_eq!(bs.read_bit(), Some(false));
    assert_eq!(bs.read_bit(), Some(false));
    assert_eq!(bs.read_bit(), Some(false));
    assert!(!bs.is_empty());
    assert_eq!(bs.read_bit(), Some(true));
    assert!(bs.is_empty());
    assert_eq!(bs.read_bit(), None);
}

#[test]
fn read_u32_spans_bytes() {
    let bytes = [0xABu8, 0xCD, 0xEF, 0x12];
    let mut bs = BitStream::new(&bytes);
    assert_eq!(bs.read_u32(4), Some(0xA));
    assert_eq!(bs.read_u32(12), Some(0xBCD));
    assert_eq!(bs.read_u32(16), Some(0xEF12));
    assert!(bs.is_empty());
}

#[test]
fn read_u32_whole_word() {
    let bytes = [0xDEu8, 0xAD, 0xBE, 0xEF];
    let mut bs = BitStream::new(&bytes);
    assert_eq!(bs.read_u32(32), Some(0xDEAD_BEEF));
}

#[test]
fn read_u32_fails_past_end() {
    let bytes = [0xFFu8];
    let mut bs = BitStream::new(&bytes);
    assert_eq!(bs.read_u32(9), None);
}

#[test]
fn read_u32_zero_bits_yields_zero_anywhere() {
    // A zero-width read succeeds with zero whatever the cursor position,
    // even on an empty buffer.
    let mut empty = BitStream::new(&[]);
    assert_eq!(empty.read_u32(0), Some(0));

    let bytes = [0xFFu8, 0xFF];
    let mut bs = BitStream::new(&bytes);
    assert_eq!(bs.read_u32(3), Some(0b111));
    assert_eq!(bs.read_u32(0), Some(0));
    assert_eq!(bs.read_u32(13), Some(0x1FFF));
    assert_eq!(bs.read_u32(0), Some(0));
}

#[test]
fn ls_bit_of_u32() {
    assert_eq!(BitStream::read_ls_bit_of_u32(0b100, 2), Some(true));
    assert_eq!(BitStream::read_ls_bit_of_u32(0b100, 1), Some(false));
    assert_eq!(BitStream::read_ls_bit_of_u32(u32::MAX, 31), Some(true));
    assert_eq!(BitStream::read_ls_bit_of_u32(u32::MAX, 32), None);
}

#[test]
fn ms_bit_of_byte() {
    assert_eq!(BitStream::read_ms_bit_of_byte(0x80, 0), Some(true));
    assert_eq!(BitStream::read_ms_bit_of_byte(0x80, 1), Some(false));
    assert_eq!(BitStream::read_ms_bit_of_byte(0x01, 7), Some(true));
    assert_eq!(BitStream::read_ms_bit_of_byte(0x01, 8), None);
}

#[test]
fn ms_bits_of_byte() {
    assert_eq!(BitStream::read_ms_bits_of_byte(0b1011_0110, 0, 4), Some(0b1011));
    assert_eq!(BitStream::read_ms_bits_of_byte(0b1011_0110, 2, 7), Some(0b11011));
    assert_eq!(BitStream::read_ms_bits_of_byte(0b1011_0110, 0, 8), Some(0b1011_0110));
    assert_eq!(BitStream::read_ms_bits_of_byte(0b1011_0110, 0, 9), None);
    assert_eq!(BitStream::read_ms_bits_of_byte(0b1011_0110, 0, 0), None);
}

#[test]
fn aligned_byte_reads() {
    let bytes = [0x12u8, 0x34, 0x56];
    let mut bs = BitStream::new(&bytes);
    assert_eq!(bs.read_u32_from_aligned_bytes(2), Some(0x1234));
    // Misaligned reads are refused.
    let mut bs2 = BitStream::new(&bytes);
    assert_eq!(bs2.read_u32(4), Some(1));
    assert_eq!(bs2.read_aligned_bytes(1), None);
    assert_eq!(BitStream::u32_from_bytes(&[0xAA, 0xBB]), 0xAABB);
    assert_eq!(BitStream::u32_from_bytes(&[]), 0);
}
