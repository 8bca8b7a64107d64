//! Tests of the non-symmetric integer decoder `ns(n)`.

use dependency_descriptor::ParseError;
use dependency_descriptor::parser::Parser;

/// Append bits to a byte vector, most significant bit of each byte first.
struct BitWriter {
    bytes: Vec<u8>,
    bits_in_last: u8,
}

impl BitWriter {
    fn new() -> Self {
        BitWriter { bytes: Vec::new(), bits_in_last: 0 }
    }

    fn push_bits(&mut self, value: u32, count: u8) {
        for i in (0..count).rev() {
            let bit = (value >> i) & 1;
            if self.bits_in_last == 0 {
                self.bytes.push(0);
            }
            let last = self.bytes.len() - 1;
            self.bytes[last] |= (bit as u8) << (7 - self.bits_in_last);
            self.bits_in_last = (self.bits_in_last + 1) % 8;
        }
    }

    fn finish(self) -> Vec<u8> {
        self.bytes
    }
}

fn ceil_log2(n: u8) -> u8 {
    let mut bits = 0u8;
    while (1u16 << bits) < n as u16 {
        bits += 1;
    }
    bits
}

#[test]
fn ns_zero_values_is_zero() {
    let bytes = [0xFFu8];
    let mut parser = Parser::new(&bytes);
    assert_eq!(parser.ns(0), Ok(0));
}

#[test]
fn ns_one_value_consumes_nothing() {
    let mut parser = Parser::new(&[]);
    assert_eq!(parser.ns(1), Ok(0));
}

#[test]
fn ns_covers_exactly_the_range() {
    // Decoding every input of ceil(log2(n)) bits yields exactly the values
    // 0..n, nothing outside the range, and every full-width codeword decodes
    // to a distinct value.
    for n in 1u8..=64 {
        let width = ceil_log2(n);
        let mut seen = vec![0usize; n as usize];
        for pattern in 0..(1u32 << width) {
            let mut w = BitWriter::new();
            w.push_bits(pattern, width);
            let bytes = w.finish();
            let mut parser = Parser::new(&bytes);
            match parser.ns(n) {
                Ok(v) => {
                    assert!(v < n, "ns({}) yielded {}", n, v);
                    seen[v as usize] += 1;
                }
                Err(e) => panic!("ns({}) failed on pattern {}: {:?}", n, pattern, e),
            }
        }
        for v in 0..n as usize {
            assert!(seen[v] > 0, "ns({}) never produced {}", n, v);
        }
    }
}

#[test]
fn ns_fails_on_empty_input() {
    let mut parser = Parser::new(&[]);
    assert_eq!(parser.ns(2), Err(ParseError::NotEnoughBits));
}

#[test]
fn ns_known_codewords() {
    // For n = 6: width 3, spare space m = 2.  Codewords 00 and 01 decode to
    // 0 and 1 in two bits; 100..111 decode to 2..5 in three bits.
    let cases: [(u8, u8, u8); 6] = [
        (0b000_00000, 2, 0),
        (0b010_00000, 2, 1),
        (0b100_00000, 3, 2),
        (0b101_00000, 3, 3),
        (0b110_00000, 3, 4),
        (0b111_00000, 3, 5),
    ];
    for (byte, _len, expected) in cases {
        let bytes = [byte];
        let mut parser = Parser::new(&bytes);
        assert_eq!(parser.ns(6), Ok(expected));
    }
}
