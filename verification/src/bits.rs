//! Reader of fixed-width unsigned integers and single bits from a borrowed
//! byte slice, at arbitrary bit offsets, most significant bit first.

use vstd::arithmetic::div_mod::{
    lemma_div_denominator, lemma_fundamental_div_mod, lemma_fundamental_div_mod_converse,
    lemma_mod_breakdown,
};
use vstd::arithmetic::power2::{
    lemma2_to64, lemma_pow2_adds, lemma_pow2_pos, lemma_pow2_strictly_increases, pow2,
};
use vstd::bits::{
    lemma_low_bits_mask_values, lemma_u32_low_bits_mask_is_mod, lemma_u32_shr_is_div,
    lemma_u8_low_bits_mask_is_mod, lemma_u8_shl_is_mul, lemma_u8_shr_is_div,
};
use vstd::prelude::*;
use vstd::slice::slice_subrange;

verus! {

/// The bit of `byte` at position `i`, counting the most significant bit as
/// position 0.
pub open spec fn bit_of_byte(byte: u8, i: int) -> bool
    recommends
        0 <= i < 8,
{
    (byte as nat / pow2((7 - i) as nat)) % 2 == 1
}

/// The bit at offset `i` of a byte sequence, most significant bit of each
/// byte first.
pub open spec fn stream_bit(s: Seq<u8>, i: int) -> bool
    recommends
        0 <= i < s.len() * 8,
{
    bit_of_byte(s[i / 8], i % 8)
}

/// The big-endian value of the `n` bits of `s` starting at bit offset `pos`.
pub open spec fn bits_value(s: Seq<u8>, pos: int, n: nat) -> nat
    decreases n,
{
    if n == 0 {
        0
    } else {
        bits_value(s, pos, (n - 1) as nat) * 2 + (if stream_bit(s, pos + n - 1) {
            1nat
        } else {
            0nat
        })
    }
}

/// The value of bits `start..end` of one byte, most significant bit first.
pub open spec fn byte_bits(byte: u8, start: int, end: int) -> nat
    recommends
        0 <= start <= end <= 8,
{
    (byte as nat / pow2((8 - end) as nat)) % pow2((end - start) as nat)
}

/// A run of bits is worth less than two to the power of its width.
pub proof fn lemma_bits_value_bound(s: Seq<u8>, pos: int, n: nat)
    ensures
        bits_value(s, pos, n) < pow2(n),
    decreases n,
{
    if n == 0 {
        lemma_pow2_pos(0);
    } else {
        lemma_bits_value_bound(s, pos, (n - 1) as nat);
        lemma_pow2_adds((n - 1) as nat, 1);
        lemma2_to64();
    }
}

/// Reading `a + b` bits is reading `a` bits and then `b` bits.
pub proof fn lemma_bits_value_concat(s: Seq<u8>, pos: int, a: nat, b: nat)
    ensures
        bits_value(s, pos, a + b) == bits_value(s, pos, a) * pow2(b) + bits_value(
            s,
            pos + a,
            b,
        ),
    decreases b,
{
    if b == 0 {
        lemma2_to64();
        assert(bits_value(s, pos, a) * 1 == bits_value(s, pos, a));
    } else {
        lemma_bits_value_concat(s, pos, a, (b - 1) as nat);
        lemma_pow2_adds((b - 1) as nat, 1);
        lemma2_to64();
        let x = bits_value(s, pos, a);
        let y = bits_value(s, pos + a, (b - 1) as nat);
        let c: nat = if stream_bit(s, pos + a + b - 1) {
            1nat
        } else {
            0nat
        };
        assert((x * pow2((b - 1) as nat) + y) * 2 + c == x * (pow2((b - 1) as nat) * 2) + (y * 2
            + c)) by (nonlinear_arith);
        assert(bits_value(s, pos, a + b) == bits_value(s, pos, (a + b - 1) as nat) * 2 + c);
    }
}

/// Within one byte, the stream value of bits `start..end` is `byte_bits`.
pub proof fn lemma_bits_value_in_byte(s: Seq<u8>, k: int, start: int, end: int)
    requires
        0 <= k < s.len(),
        0 <= start <= end <= 8,
    ensures
        bits_value(s, 8 * k + start, (end - start) as nat) == byte_bits(s[k], start, end),
    decreases end - start,
{
    let b = s[k];
    if end == start {
        lemma_pow2_pos((8 - end) as nat);
        lemma2_to64();
        assert(byte_bits(b, start, end) == (b as nat / pow2((8 - end) as nat)) % 1);
    } else {
        lemma_bits_value_in_byte(s, k, start, end - 1);
        // The final bit of the run is bit `end - 1` of byte `k`.
        lemma_fundamental_div_mod_converse(8 * k + end - 1, 8, k, end - 1);
        assert(stream_bit(s, 8 * k + end - 1) == bit_of_byte(b, end - 1));
        let y = b as nat / pow2((8 - end) as nat);
        // Dividing by the next power of two is halving the quotient.
        lemma_pow2_pos((8 - end) as nat);
        lemma_pow2_adds((8 - end) as nat, 1);
        lemma2_to64();
        lemma_div_denominator(b as int, pow2((8 - end) as nat) as int, 2);
        assert(b as nat / pow2((9 - end) as nat) == y / 2);
        lemma_pow2_pos((end - 1 - start) as nat);
        lemma_mod_breakdown(y as int, 2, pow2((end - 1 - start) as nat) as int);
        lemma_pow2_adds((end - 1 - start) as nat, 1);
        assert(pow2((end - start) as nat) == pow2((end - 1 - start) as nat) * 2);
        assert(byte_bits(b, start, end) == 2 * ((y / 2) % pow2((end - 1 - start) as nat)) + y
            % 2);
        assert(bit_of_byte(b, end - 1) == (y % 2 == 1));
    }
}

/// A whole aligned byte reads back as itself.
pub proof fn lemma_bits_value_whole_byte(s: Seq<u8>, k: int)
    requires
        0 <= k < s.len(),
    ensures
        bits_value(s, 8 * k, 8) == s[k],
{
    lemma_bits_value_in_byte(s, k, 0, 8);
    lemma2_to64();
    assert(pow2(0) == 1 && pow2(8) == 256);
    assert(s[k] as nat / 1 == s[k] as nat);
    assert(byte_bits(s[k], 0, 8) == (s[k] as nat / 1) % 256);
    assert(bits_value(s, 8 * k + 0, (8 - 0) as nat) == bits_value(s, 8 * k, 8));
}

/// The big-endian value of a whole byte sequence.
pub open spec fn be_bytes_value(s: Seq<u8>) -> nat
    decreases s.len(),
{
    if s.len() == 0 {
        0
    } else {
        be_bytes_value(s.drop_last()) * 256 + s.last() as nat
    }
}

/// A byte sequence is worth less than two to the power of eight times its
/// length.
pub proof fn lemma_be_bytes_value_bound(s: Seq<u8>)
    ensures
        be_bytes_value(s) < pow2(8 * s.len()),
    decreases s.len(),
{
    if s.len() == 0 {
        lemma_pow2_pos(0);
    } else {
        lemma_be_bytes_value_bound(s.drop_last());
        lemma_pow2_adds(8 * (s.len() - 1) as nat, 8);
        lemma2_to64();
        assert(be_bytes_value(s.drop_last()) * 256 + s.last() < pow2(8 * (s.len() - 1) as nat)
            * 256) by (nonlinear_arith)
            requires
                be_bytes_value(s.drop_last()) < pow2(8 * (s.len() - 1) as nat),
                s.last() < 256,
        ;
    }
}

/// Aligned whole bytes read back as their big-endian value.
pub proof fn lemma_bits_value_bytes(s: Seq<u8>, k: int, m: nat)
    requires
        0 <= k,
        k + m <= s.len(),
    ensures
        bits_value(s, 8 * k, 8 * m) == be_bytes_value(s.subrange(k, k + m)),
    decreases m,
{
    if m == 0 {
        assert(s.subrange(k, k).len() == 0);
    } else {
        lemma_bits_value_bytes(s, k, (m - 1) as nat);
        lemma_bits_value_concat(s, 8 * k, 8 * (m - 1) as nat, 8);
        lemma_bits_value_whole_byte(s, k + m - 1);
        lemma2_to64();
        let q = s.subrange(k, k + m);
        assert(q.drop_last() =~= s.subrange(k, k + m - 1));
        assert(q.last() == s[k + m - 1]);
        assert(8 * k + 8 * (m - 1) == 8 * (k + m - 1));
        assert(bits_value(s, 8 * k, 8 * m) == bits_value(s, 8 * k, 8 * (m - 1) as nat) * pow2(8)
            + bits_value(s, 8 * (k + m - 1), 8));
    }
}

/// The bit of `word` at position `i`, counting the least significant bit as
/// position 0.
pub open spec fn u32_ls_bit(word: u32, i: int) -> bool
    recommends
        0 <= i < 32,
{
    (word as nat / pow2(i as nat)) % 2 == 1
}

/// Reader state: a borrowed byte slice with a cursor measured in bits.
pub struct BitStream<'a> {
    bytes: &'a [u8],
    byte_cursor: usize,
    bit_index: u8,
}

impl<'a> BitStream<'a> {
    /// The whole underlying byte sequence.
    pub closed spec fn data(&self) -> Seq<u8> {
        self.bytes@
    }

    /// The reading position, in bits from the start of the data.
    pub closed spec fn cursor(&self) -> int {
        8 * self.byte_cursor + self.bit_index
    }

    /// The cursor lies on or before the end of the data, and a finished byte
    /// is always accounted to `byte_cursor` rather than left as eight bits.
    pub closed spec fn wf(&self) -> bool {
        &&& self.bit_index < 8
        &&& self.byte_cursor <= self.bytes@.len()
        &&& (self.byte_cursor == self.bytes@.len() ==> self.bit_index == 0)
    }

    pub fn new(bytes: &'a [u8]) -> (r: Self)
        ensures
            r.wf(),
            r.data() == bytes@,
            r.cursor() == 0,
    {
        BitStream { bytes, byte_cursor: 0, bit_index: 0 }
    }

    /// A well-formed reader's cursor never lies outside its data — so, in
    /// particular, a zero-width read succeeds at every position.
    pub proof fn lemma_cursor_in_bounds(&self)
        requires
            self.wf(),
        ensures
            0 <= self.cursor() <= 8 * self.data().len(),
    {
    }

    /// True when every byte has been consumed down to the last bit.
    pub fn is_empty(&self) -> (r: bool)
        requires
            self.wf(),
        ensures
            r <==> self.cursor() == 8 * self.data().len(),
    {
        self.byte_cursor >= self.bytes.len()
    }

    /// The bit of `byte` at `bit_index`, most significant first; `None` when
    /// the index runs past the byte.
    pub fn read_ms_bit_of_byte(byte: u8, bit_index: u8) -> (r: Option<bool>)
        ensures
            r == if bit_index <= 7 {
                Some(bit_of_byte(byte, bit_index as int))
            } else {
                None::<bool>
            },
    {
        if bit_index > 7 {
            return None;
        }
        proof {
            lemma_u8_shr_is_div(byte, (7 - bit_index) as u8);
            lemma_u8_low_bits_mask_is_mod(byte >> ((7 - bit_index) as u8), 1);
            lemma_low_bits_mask_values();
            lemma2_to64();
        }
        Some(((byte >> (7 - bit_index)) & 1) > 0)
    }

    /// Consume and return the bit under the cursor.
    pub fn read_bit(&mut self) -> (r: Option<bool>)
        requires
            old(self).wf(),
        ensures
            final(self).wf(),
            final(self).data() == old(self).data(),
            if old(self).cursor() < 8 * old(self).data().len() {
                r == Some(stream_bit(old(self).data(), old(self).cursor())) && final(self).cursor()
                    == old(self).cursor() + 1
            } else {
                r == None::<bool> && final(self).cursor() == old(self).cursor()
            },
    {
        if self.byte_cursor >= self.bytes.len() {
            return None;
        }
        let byte0 = self.bytes[self.byte_cursor];
        let bit = Self::read_ms_bit_of_byte(byte0, self.bit_index);
        proof {
            lemma_fundamental_div_mod_converse(
                8 * self.byte_cursor + self.bit_index,
                8,
                self.byte_cursor as int,
                self.bit_index as int,
            );
        }
        self.bit_index = self.bit_index + 1;
        if self.bit_index >= 8 {
            self.byte_cursor = self.byte_cursor + 1;
            self.bit_index = 0;
        }
        bit
    }

    /// The bits of `byte` from `bit_index_start` up to `bit_index_end`,
    /// most significant first; `None` when the range runs past the byte.
    pub fn read_ms_bits_of_byte(byte: u8, bit_index_start: u8, bit_index_end: u8) -> (r: Option<
        u8,
    >)
        requires
            bit_index_start <= bit_index_end,
        ensures
            r == if 0 < bit_index_end <= 8 {
                Some(byte_bits(byte, bit_index_start as int, bit_index_end as int) as u8)
            } else {
                None::<u8>
            },
    {
        if bit_index_end == 0 || bit_index_end > 8 {
            return None;
        }
        if bit_index_start == bit_index_end {
            proof {
                lemma_pow2_pos((8 - bit_index_end) as nat);
                lemma2_to64();
                assert(byte_bits(byte, bit_index_start as int, bit_index_end as int) == (
                byte as nat / pow2((8 - bit_index_end) as nat)) % 1);
            }
            return Some(0);
        }
        let len: u8 = bit_index_end - bit_index_start;
        let shifted: u8 = byte >> (8 - bit_index_end);
        proof {
            lemma_u8_shr_is_div(byte, (8 - bit_index_end) as u8);
        }
        let bits: u8 = shifted & (0xff >> (8 - len));
        proof {
            if len == 8 {
                lemma2_to64();
                assert(byte as nat / 1 == byte as nat);
                assert(shifted == byte);
                assert(0xffu8 >> 0u8 == 0xff) by (bit_vector);
                assert(byte & 0xff == byte) by (bit_vector);
                assert(bit_index_start == 0 && bit_index_end == 8);
                assert((0xffu8 >> (8 - len) as u8) == 0xff);
                assert(bits == byte);
                assert(byte_bits(byte, 0, 8) == (byte as nat / 1) % 256);
                vstd::arithmetic::div_mod::lemma_small_mod(byte as nat, 256);
                assert(byte_bits(byte, bit_index_start as int, bit_index_end as int)
                    == byte as nat);
            } else {
                assert((0xffu8 >> vstd::prelude::sub(8, len)) == vstd::prelude::sub(
                    1u8 << len,
                    1,
                )) by (bit_vector)
                    requires
                        1 <= len && len <= 7,
                ;
                lemma_pow2_strictly_increases(len as nat, 8);
                lemma2_to64();
                lemma_u8_shl_is_mul(1, len);
                assert((1u8 << len) == pow2(len as nat));
                lemma_u8_low_bits_mask_is_mod(shifted, len as nat);
                assert(vstd::bits::low_bits_mask(len as nat) == pow2(len as nat) - 1);
                assert((0xffu8 >> (8 - len) as u8) == (vstd::bits::low_bits_mask(
                    len as nat,
                ) as u8));
                lemma_pow2_pos(len as nat);
                assert(bits == shifted % (pow2(len as nat) as u8));
                assert(shifted as nat == byte as nat / pow2((8 - bit_index_end) as nat));
                assert(byte_bits(byte, bit_index_start as int, bit_index_end as int) == (
                shifted as nat) % pow2(len as nat));
            }
            assert(bits == byte_bits(byte, bit_index_start as int, bit_index_end as int) as u8);
        }
        Some(bits)
    }

    /// Consume up to `bit_count` bits, all of which must lie within the byte
    /// under the cursor.
    pub fn read_u8_up_until_end_of_byte0(&mut self, bit_count: u8) -> (r: Option<u8>)
        requires
            old(self).wf(),
            bit_count <= 8,
        ensures
            final(self).wf(),
            final(self).data() == old(self).data(),
            if bit_count == 0 {
                r == Some(0u8) && final(self).cursor() == old(self).cursor()
            } else if old(self).cursor() % 8 + bit_count <= 8 && old(self).cursor() + bit_count
                <= 8 * old(self).data().len() {
                r == Some(
                    bits_value(old(self).data(), old(self).cursor(), bit_count as nat) as u8,
                ) && final(self).cursor() == old(self).cursor() + bit_count
            } else {
                r == None::<u8> && final(self).cursor() == old(self).cursor()
            },
    {
        proof {
            lemma_fundamental_div_mod_converse(
                8 * self.byte_cursor + self.bit_index,
                8,
                self.byte_cursor as int,
                self.bit_index as int,
            );
        }
        if bit_count == 0 {
            return Some(0);
        }
        let bit_index_start = self.bit_index;
        let bit_index_end = self.bit_index + bit_count;
        if bit_index_end > 8 {
            return None;
        }
        if self.byte_cursor >= self.bytes.len() {
            return None;
        }
        let byte0 = self.bytes[self.byte_cursor];
        let bits = Self::read_ms_bits_of_byte(byte0, bit_index_start, bit_index_end);
        proof {
            lemma_bits_value_in_byte(
                self.bytes@,
                self.byte_cursor as int,
                bit_index_start as int,
                bit_index_end as int,
            );
        }
        self.bit_index = self.bit_index + bit_count;
        if self.bit_index >= 8 {
            self.byte_cursor = self.byte_cursor + 1;
            self.bit_index = 0;
        }
        bits
    }

    /// Consume `byte_count` whole bytes; the cursor must sit on a byte
    /// boundary.
    pub fn read_aligned_bytes(&mut self, byte_count: usize) -> (r: Option<&'a [u8]>)
        requires
            old(self).wf(),
        ensures
            final(self).wf(),
            final(self).data() == old(self).data(),
            if old(self).cursor() % 8 == 0 && old(self).cursor() + 8 * byte_count <= 8 * old(
                self,
            ).data().len() {
                {
                    let start = old(self).cursor() / 8;
                    r matches Some(out) && out@ == old(self).data().subrange(
                        start,
                        start + byte_count,
                    ) && final(self).cursor() == old(self).cursor() + 8 * byte_count
                }
            } else {
                r == None::<&'a [u8]> && final(self).cursor() == old(self).cursor()
            },
    {
        proof {
            lemma_fundamental_div_mod_converse(
                8 * self.byte_cursor + self.bit_index,
                8,
                self.byte_cursor as int,
                self.bit_index as int,
            );
        }
        if self.bit_index > 0 {
            return None;
        }
        if byte_count > self.bytes.len() - self.byte_cursor {
            return None;
        }
        let out = slice_subrange(self.bytes, self.byte_cursor, self.byte_cursor + byte_count);
        self.byte_cursor = self.byte_cursor + byte_count;
        Some(out)
    }

    /// The big-endian value of at most four whole bytes.
    pub fn u32_from_bytes(bytes: &[u8]) -> (r: u32)
        requires
            bytes@.len() <= 4,
        ensures
            r == be_bytes_value(bytes@),
    {
        let mut result: u32 = 0;
        let mut i: usize = 0;
        while i < bytes.len()
            invariant
                bytes@.len() <= 4,
                i <= bytes@.len(),
                result == be_bytes_value(bytes@.take(i as int)),
            decreases bytes@.len() - i,
        {
            proof {
                lemma_be_bytes_value_bound(bytes@.take(i as int));
                lemma_pow2_strictly_increases(8 * i as nat, 32);
                lemma2_to64();
                assert(bytes@.take(i + 1).drop_last() =~= bytes@.take(i as int));
                assert(bytes@.take(i + 1).last() == bytes@[i as int]);
            }
            result = result * 256 + (bytes[i] as u32);
            i = i + 1;
        }
        proof {
            assert(bytes@.take(bytes@.len() as int) =~= bytes@);
        }
        result
    }

    /// Consume `byte_count` aligned whole bytes as one big-endian value.
    pub fn read_u32_from_aligned_bytes(&mut self, byte_count: usize) -> (r: Option<u32>)
        requires
            old(self).wf(),
            byte_count <= 4,
        ensures
            final(self).wf(),
            final(self).data() == old(self).data(),
            if byte_count == 0 {
                r == Some(0u32) && final(self).cursor() == old(self).cursor()
            } else if old(self).cursor() % 8 == 0 && old(self).cursor() + 8 * byte_count <= 8
                * old(self).data().len() {
                r == Some(
                    bits_value(old(self).data(), old(self).cursor(), (8 * byte_count) as nat)
                        as u32,
                ) && final(self).cursor() == old(self).cursor() + 8 * byte_count
            } else {
                r == None::<u32> && final(self).cursor() == old(self).cursor()
            },
    {
        if byte_count == 0 {
            return Some(0);
        }
        let ghost pre = *self;
        let bytes = match self.read_aligned_bytes(byte_count) {
            None => {
                return None;
            },
            Some(bytes) => bytes,
        };
        proof {
            lemma_bits_value_bytes(pre.data(), pre.cursor() / 8, byte_count as nat);
            lemma_bits_value_bound(pre.data(), pre.cursor(), (8 * byte_count) as nat);
            lemma_pow2_le_max32_all();
            assert(8 * (pre.cursor() / 8) == pre.cursor());
        }
        Some(Self::u32_from_bytes(bytes))
    }

    /// Consume `bit_count` bits as one big-endian value, reading the tail of
    /// the current byte, then whole aligned bytes, then the head of the final
    /// byte.
    pub fn read_u32(&mut self, bit_count: u8) -> (r: Option<u32>)
        requires
            old(self).wf(),
            bit_count <= 32,
        ensures
            final(self).wf(),
            final(self).data() == old(self).data(),
            if old(self).cursor() + bit_count <= 8 * old(self).data().len() {
                r == Some(
                    bits_value(old(self).data(), old(self).cursor(), bit_count as nat) as u32,
                ) && final(self).cursor() == old(self).cursor() + bit_count
            } else {
                r == None::<u32>
            },
    {
        let ghost obc = old(self).byte_cursor as int;
        let ghost obi = old(self).bit_index as int;
        proof {
            lemma_fundamental_div_mod_converse(8 * obc + obi, 8, obc, obi);
        }
        let bit_count_remaining_in_byte0: u8 = 8 - self.bit_index;
        let left_bit_count: u8 = if bit_count_remaining_in_byte0 < bit_count {
            bit_count_remaining_in_byte0
        } else {
            bit_count
        };
        let past_byte0: u8 = bit_count - left_bit_count;
        let right_bit_count: u8 = past_byte0 % 8;
        let middle_bit_count: u8 = bit_count - left_bit_count - right_bit_count;
        let middle_byte_count: u8 = middle_bit_count / 8;
        proof {
            lemma_fundamental_div_mod(past_byte0 as int, 8);
            lemma_fundamental_div_mod(middle_bit_count as int, 8);
            assert(middle_bit_count == 8 * (past_byte0 as int / 8));
            assert((8 * (past_byte0 as int / 8)) / 8 == past_byte0 as int / 8) by (nonlinear_arith);
        }
        let ghost s = old(self).data();
        let ghost pos0 = old(self).cursor();

        let left = match self.read_u8_up_until_end_of_byte0(left_bit_count) {
            None => {
                return None;
            },
            Some(left) => left,
        };
        let ghost pos1 = self.cursor();
        proof {
            if past_byte0 > 0 {
                // The first span filled the byte under the cursor, so the
                // cursor now sits on a byte boundary.
                assert(left_bit_count == 8 - obi);
                assert(pos1 == 8 * (obc + 1));
                lemma_fundamental_div_mod_converse(pos1, 8, obc + 1, 0);
            }
        }
        let middle = match self.read_u32_from_aligned_bytes(middle_byte_count as usize) {
            None => {
                proof {
                    assert(pos0 + bit_count > 8 * s.len());
                }
                return None;
            },
            Some(middle) => middle,
        };
        let ghost pos2 = self.cursor();
        proof {
            if past_byte0 > 0 {
                assert(pos2 == 8 * (obc + 1 + middle_byte_count));
                lemma_fundamental_div_mod_converse(pos2, 8, obc + 1 + middle_byte_count, 0);
            }
        }
        let right = match self.read_u8_up_until_end_of_byte0(right_bit_count) {
            None => {
                proof {
                    assert(pos0 + bit_count > 8 * s.len());
                }
                return None;
            },
            Some(right) => right,
        };

        proof {
            lemma_bits_value_bound(s, pos0, left_bit_count as nat);
            lemma_bits_value_bound(s, pos1, middle_bit_count as nat);
            lemma_bits_value_bound(s, pos2, right_bit_count as nat);
            lemma_bits_value_concat(s, pos0, left_bit_count as nat, middle_bit_count as nat);
            lemma_bits_value_concat(
                s,
                pos0,
                (left_bit_count + middle_bit_count) as nat,
                right_bit_count as nat,
            );
            lemma_pow2_le_max32_all();
            assert(pow2(left_bit_count as nat) <= 256) by {
                if left_bit_count < 8 {
                    lemma_pow2_strictly_increases(left_bit_count as nat, 8);
                }
                lemma2_to64();
            }
            assert(pow2(right_bit_count as nat) <= 256) by {
                if right_bit_count < 8 {
                    lemma_pow2_strictly_increases(right_bit_count as nat, 8);
                }
                lemma2_to64();
            }
            assert((left as u32) == bits_value(s, pos0, left_bit_count as nat));
            assert(middle == bits_value(s, pos1, middle_bit_count as nat));
            assert((right as u32) == bits_value(s, pos2, right_bit_count as nat));
            lemma_shl_or_as_mul_add(left as u32, middle, middle_bit_count, left_bit_count as nat);
            lemma_shl_or_as_mul_add(
                ((left as u32) << (middle_bit_count as u32)) | middle,
                right as u32,
                right_bit_count,
                (left_bit_count + middle_bit_count) as nat,
            );
            lemma_bits_value_bound(s, pos0, bit_count as nat);
            assert(pos1 == pos0 + left_bit_count && pos2 == pos1 + middle_bit_count);
            assert(bits_value(s, pos0, bit_count as nat) == bits_value(
                s,
                pos0,
                (left_bit_count + middle_bit_count) as nat,
            ) * pow2(right_bit_count as nat) + bits_value(s, pos2, right_bit_count as nat));
            assert(bits_value(s, pos0, (left_bit_count + middle_bit_count) as nat) == bits_value(
                s,
                pos0,
                left_bit_count as nat,
            ) * pow2(middle_bit_count as nat) + bits_value(s, pos1, middle_bit_count as nat));
            assert(((((left as u32) << (middle_bit_count as u32)) | middle) << (
            right_bit_count as u32)) | (right as u32) == bits_value(
                s,
                pos0,
                bit_count as nat,
            ) as u32);
        }
        Some(
            ((((left as u32) << (middle_bit_count as u32)) | middle) << (right_bit_count as u32))
                | (right as u32),
        )
    }

    /// The bit of `word` at `bit_index`, least significant first; `None` when
    /// the index runs past the word.
    pub fn read_ls_bit_of_u32(word: u32, bit_index: u8) -> (r: Option<bool>)
        ensures
            r == if bit_index <= 31 {
                Some(u32_ls_bit(word, bit_index as int))
            } else {
                None::<bool>
            },
    {
        if bit_index > 31 {
            return None;
        }
        proof {
            lemma_u32_shr_is_div(word, bit_index as u32);
            lemma_u32_low_bits_mask_is_mod(word >> (bit_index as u32), 1);
            lemma_low_bits_mask_values();
            lemma2_to64();
        }
        Some(((word >> (bit_index as u32)) & 1) > 0)
    }
}

/// A left shift followed by `or` onto a narrower value is multiplication by a
/// power of two followed by addition.
proof fn lemma_shl_or_as_mul_add(x: u32, y: u32, k: u8, xbits: nat)
    requires
        k < 32,
        xbits + k <= 32,
        x < pow2(xbits),
        y < pow2(k as nat),
    ensures
        ((x << (k as u32)) | y) == x * pow2(k as nat) + y,
        x * pow2(k as nat) + y < pow2(xbits + k as nat),
{
    lemma_pow2_adds(xbits, k as nat);
    lemma_pow2_le_max32_all();
    lemma_pow2_pos(k as nat);
    assert(x * pow2(k as nat) + pow2(k as nat) <= pow2(xbits) * pow2(k as nat))
        by (nonlinear_arith)
        requires
            x < pow2(xbits),
            pow2(k as nat) > 0,
    ;
    assert(x * pow2(k as nat) <= u32::MAX);
    vstd::bits::lemma_u32_shl_is_mul(x, k as u32);
    let shifted = x << (k as u32);
    assert(shifted % (pow2(k as nat) as u32) == 0) by {
        vstd::arithmetic::div_mod::lemma_mod_multiples_basic(x as int, pow2(k as nat) as int);
    }
    lemma_u32_or_disjoint_is_add(shifted, y, k as u32);
}

/// When the low `k` bits of `x` are clear and `y` fits in `k` bits, `or` is
/// addition.
proof fn lemma_u32_or_disjoint_is_add(x: u32, y: u32, k: u32)
    requires
        k < 32,
        x % (pow2(k as nat) as u32) == 0,
        y < pow2(k as nat),
    ensures
        (x | y) == x + y,
{
    lemma_pow2_le_max32_all();
    assert((1u32 << k) == pow2(k as nat)) by {
        vstd::bits::lemma_u32_shl_is_mul(1u32, k);
    }
    let p = 1u32 << k;
    assert((x | y) == vstd::prelude::add(x, y)) by (bit_vector)
        requires
            p == 1u32 << k,
            k < 32,
            x % p == 0,
            y < p,
    ;
    // The highest multiple of `p` leaves room for `y` below the type's bound.
    assert(y <= vstd::prelude::sub(0xffff_ffffu32, x)) by (bit_vector)
        requires
            p == 1u32 << k,
            k < 32,
            x % p == 0,
            y < p,
    ;
    assert(x + y <= u32::MAX);
    assert(vstd::prelude::add(x, y) == x + y);
}

/// Every power of two up to the thirty-second fits in a `u32` bound.
proof fn lemma_pow2_le_max32_all()
    ensures
        forall|n: nat| n <= 32 ==> #[trigger] pow2(n) <= 0x1_0000_0000,
        forall|n: nat| n < 32 ==> #[trigger] pow2(n) < 0x1_0000_0000,
{
    assert forall|n: nat| n <= 32 implies #[trigger] pow2(n) <= 0x1_0000_0000 by {
        if n < 32 {
            lemma_pow2_strictly_increases(n, 32);
        }
        lemma2_to64();
    }
    assert forall|n: nat| n < 32 implies #[trigger] pow2(n) < 0x1_0000_0000 by {
        lemma_pow2_strictly_increases(n, 32);
        lemma2_to64();
    }
}

} // verus!
