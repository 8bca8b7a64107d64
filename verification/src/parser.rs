//! The executable parser: a bit stream walked by one method per wire-format
//! section, each proved to read exactly what the wire format states.

use crate::bits::BitStream;
use crate::types::{
    DecodeTarget, DecodeTargetIndication, ParseError, ParseResult, ParsedDependencyDescriptor,
    Resolution, SerializedDepdendencyDescriptor, SharedStructure, SharedStructureTemplate,
};
use crate::wire::{
    spec_dti_row, spec_fdiff_list, spec_frame_fdiff_list, spec_ns, spec_ns_row, spec_prepend,
    spec_read, spec_read_bit, spec_resolution_row, spec_template_chain_diffs,
    spec_template_chains, spec_template_dtis, spec_template_fdiffs, spec_template_layers,
    spec_u16_row, u8_bit_len,
};
use vstd::arithmetic::div_mod::lemma_fundamental_div_mod;
use vstd::arithmetic::power2::{
    lemma2_to64, lemma_pow2_adds, lemma_pow2_pos, lemma_pow2_strictly_increases, pow2,
};
use vstd::prelude::*;
use vstd::std_specs::bits::axiom_u8_leading_zeros;

verus! {

/// For a positive byte, the bit length brackets the value between two
/// neighbouring powers of two.
pub proof fn lemma_u8_bit_len_bounds(n: u8)
    requires
        n > 0,
    ensures
        1 <= u8_bit_len(n) <= 8,
        pow2((u8_bit_len(n) - 1) as nat) <= n < pow2(u8_bit_len(n)),
    decreases n,
{
    lemma2_to64();
    if n == 1 {
    } else {
        lemma_u8_bit_len_bounds(n / 2);
        let w = u8_bit_len(n / 2);
        lemma_pow2_adds((w - 1) as nat, 1);
        lemma_pow2_adds(w, 1);
        lemma_fundamental_div_mod(n as int, 2);
    }
}

/// The bit length agrees with the count of leading zeros.
pub proof fn lemma_u8_bit_len_leading_zeros(n: u8)
    requires
        n > 0,
    ensures
        u8_bit_len(n) == 8 - vstd::std_specs::bits::u8_leading_zeros(n),
{
    axiom_u8_leading_zeros(n);
    let lz = vstd::std_specs::bits::u8_leading_zeros(n);
    vstd::bits::lemma_u8_shr_is_div(n, (7 - lz) as u8);
    vstd::bits::lemma_u8_low_bits_mask_is_mod(n >> ((7 - lz) as u8), 1);
    vstd::bits::lemma_low_bits_mask_values();
    lemma2_to64();
    // The set bit at position `7 - lz` puts `n` at or above that power of
    // two, and the cleared bits above put it below the next one.
    lemma_pow2_pos((7 - lz) as nat);
    lemma_pow2_pos((8 - lz) as nat);
    assert(n as nat / pow2((7 - lz) as nat) % 2 == 1);
    assert(n as nat >= pow2((7 - lz) as nat)) by {
        if (n as nat) < pow2((7 - lz) as nat) {
            vstd::arithmetic::div_mod::lemma_basic_div(n as int, pow2((7 - lz) as nat) as int);
        }
    }
    assert((n as nat) < pow2((8 - lz) as nat)) by {
        if lz == 0 {
            assert(pow2(8) == 256);
        } else {
            vstd::bits::lemma_u8_shr_is_div(n, (8 - lz) as u8);
            assert(n as nat / pow2((8 - lz) as nat) == 0);
            if n as nat >= pow2((8 - lz) as nat) {
                vstd::arithmetic::div_mod::lemma_div_non_zero(
                    n as int,
                    pow2((8 - lz) as nat) as int,
                );
            }
        }
    }
    lemma_u8_bit_len_bounds(n);
    let w = u8_bit_len(n);
    // Two brackets of neighbouring powers of two can only be the same one.
    if w < 8 - lz {
        lemma_pow2_strictly_increases(w, (8 - lz - 1) as nat);
        assert(pow2((8 - lz - 1) as nat) <= n);
        assert(n < pow2(w));
    } else if w > 8 - lz {
        lemma_pow2_strictly_increases((8 - lz) as nat, w);
    }
}

/// A bit stream together with the methods that read the descriptor's
/// sections out of it.
pub struct Parser<'bits> {
    bit_stream: BitStream<'bits>,
}

impl<'bits> Parser<'bits> {
    /// The whole byte sequence under the parser.
    pub closed spec fn s(&self) -> Seq<u8> {
        self.bit_stream.data()
    }

    /// The reading position, in bits.
    pub closed spec fn pos(&self) -> int {
        self.bit_stream.cursor()
    }

    /// The parser's cursor is within bounds.
    pub closed spec fn wf(&self) -> bool {
        self.bit_stream.wf()
    }

    /// A parser at the start of `bytes`.
    pub fn new(bytes: &'bits [u8]) -> (r: Self)
        ensures
            r.wf(),
            r.s() == bytes@,
            r.pos() == 0,
    {
        Parser { bit_stream: BitStream::new(bytes) }
    }

    /// `f(n)`: read `n` bits as a big-endian value.
    pub fn f(&mut self, n: u8) -> (r: ParseResult<u32>)
        requires
            old(self).wf(),
            n <= 32,
        ensures
            final(self).wf(),
            final(self).s() == old(self).s(),
            match r {
                Ok(v) => spec_read(old(self).s(), old(self).pos(), n as nat) == Ok::<
                    (nat, int),
                    ParseError,
                >((v as nat, final(self).pos())),
                Err(e) => spec_read(old(self).s(), old(self).pos(), n as nat) == Err::<
                    (nat, int),
                    ParseError,
                >(e),
            },
    {
        let r = self.bit_stream.read_u32(n);
        proof {
            crate::bits::lemma_bits_value_bound(old(self).s(), old(self).pos(), n as nat);
            assert(pow2(n as nat) <= 0x1_0000_0000) by {
                if n < 32 {
                    lemma_pow2_strictly_increases(n as nat, 32);
                }
                lemma2_to64();
            }
        }
        match r {
            Some(v) => Ok(v),
            None => Err(ParseError::NotEnoughBits),
        }
    }

    /// `f(1)` as a flag bit.
    pub fn f1(&mut self) -> (r: ParseResult<bool>)
        requires
            old(self).wf(),
        ensures
            final(self).wf(),
            final(self).s() == old(self).s(),
            match r {
                Ok(v) => spec_read_bit(old(self).s(), old(self).pos()) == Ok::<
                    (bool, int),
                    ParseError,
                >((v, final(self).pos())),
                Err(e) => spec_read_bit(old(self).s(), old(self).pos()) == Err::<
                    (bool, int),
                    ParseError,
                >(e),
            },
    {
        match self.bit_stream.read_bit() {
            Some(v) => Ok(v),
            None => Err(ParseError::NotEnoughBits),
        }
    }

    /// Whether every bit has been consumed.
    pub fn is_empty(&self) -> (r: bool)
        requires
            self.wf(),
        ensures
            r <==> self.pos() == 8 * self.s().len(),
    {
        self.bit_stream.is_empty()
    }

    /// `ns(n)`: read a non-symmetric integer in `0..n`.
    pub fn ns(&mut self, possible_values_count: u8) -> (r: ParseResult<u8>)
        requires
            old(self).wf(),
        ensures
            final(self).wf(),
            final(self).s() == old(self).s(),
            match r {
                Ok(v) => spec_ns(old(self).s(), old(self).pos(), possible_values_count) == Ok::<
                    (u8, int),
                    ParseError,
                >((v, final(self).pos())),
                Err(e) => spec_ns(old(self).s(), old(self).pos(), possible_values_count) == Err::<
                    (u8, int),
                    ParseError,
                >(e),
            },
    {
        let n = possible_values_count;
        if n == 0 {
            return Ok(0);
        }
        let w: u8 = 8 - (n.leading_zeros() as u8);
        proof {
            axiom_u8_leading_zeros(n);
            lemma_u8_bit_len_leading_zeros(n);
            lemma_u8_bit_len_bounds(n);
            assert(w == u8_bit_len(n));
            lemma2_to64();
            assert(pow2(w as nat) <= 256);
            vstd::bits::lemma_u16_shl_is_mul(1u16, w as u16);
        }
        let m: u16 = (1u16 << (w as u16)) - (n as u16);
        let v: u16 = match self.f(w - 1) {
            Ok(v) => v as u16,
            Err(e) => {
                return Err(e);
            },
        };
        proof {
            crate::bits::lemma_bits_value_bound(
                old(self).s(),
                old(self).pos(),
                (w - 1) as nat,
            );
            assert(pow2((w - 1) as nat) <= 128) by {
                if w - 1 < 7 {
                    lemma_pow2_strictly_increases((w - 1) as nat, 7);
                }
                lemma2_to64();
            }
        }
        if v < m {
            Ok(v as u8)
        } else {
            let extra_bit: u16 = match self.f1() {
                Ok(b) => if b {
                    1
                } else {
                    0
                },
                Err(e) => {
                    return Err(e);
                },
            };
            proof {
                vstd::bits::lemma_u16_shl_is_mul(v, 1);
                lemma2_to64();
                assert((v << 1u16) == 2 * v);
            }
            Ok(((v << 1u16) - m + extra_bit) as u8)
        }
    }

    /// A row of two-bit decode target indications, one per decode target.
    #[verifier::loop_isolation(false)]
    pub fn frame_dtis(&mut self, decode_target_count: u8) -> (r: ParseResult<
        Vec<DecodeTargetIndication>,
    >)
        requires
            old(self).wf(),
        ensures
            final(self).wf(),
            final(self).s() == old(self).s(),
            match r {
                Ok(v) => spec_dti_row(old(self).s(), old(self).pos(), decode_target_count as nat)
                    == Ok::<_, ParseError>((v@, final(self).pos())),
                Err(e) => spec_dti_row(old(self).s(), old(self).pos(), decode_target_count as nat)
                    == Err::<(Seq<DecodeTargetIndication>, int), _>(e),
            },
    {
        let ghost s0 = old(self).s();
        let ghost pos0 = old(self).pos();
        let mut frame_dtis: Vec<DecodeTargetIndication> = Vec::with_capacity(
            decode_target_count as usize,
        );
        let mut i: u8 = 0;
        while i < decode_target_count
            invariant
                self.wf(),
                self.s() == s0,
                i <= decode_target_count,
                frame_dtis@.len() == i as int,
                spec_dti_row(s0, pos0, decode_target_count as nat) == spec_prepend(
                    frame_dtis@,
                    spec_dti_row(s0, self.pos(), (decode_target_count - i) as nat),
                ),
            decreases decode_target_count - i,
        {
            let ghost p = self.pos();
            let ghost acc_prev = frame_dtis@;
            let frame_dti = match self.f(2) {
                Ok(v) => v,
                Err(e) => {
                    proof {
                        assert(spec_dti_row(s0, p, (decode_target_count - i) as nat) == Err::<
                            (Seq<DecodeTargetIndication>, int),
                            _,
                        >(e));
                    }
                    return Err(e);
                },
            };
            proof {
                crate::bits::lemma_bits_value_bound(s0, p, 2);
                lemma2_to64();
            }
            let dti = DecodeTargetIndication::from_u2(frame_dti as u8).unwrap();
            frame_dtis.push(dti);
            i = i + 1;
            proof {
                let inner = spec_dti_row(s0, self.pos(), (decode_target_count - i) as nat);
                assert(spec_dti_row(s0, p, (decode_target_count - i + 1) as nat) == spec_prepend(
                    seq![dti],
                    inner,
                ));
                match inner {
                    Ok((rest, q)) => {
                        assert(acc_prev + (seq![dti] + rest) =~= frame_dtis@ + rest);
                    },
                    Err(_) => {},
                }
            }
        }
        proof {
            assert(frame_dtis@ + Seq::<DecodeTargetIndication>::empty() =~= frame_dtis@);
        }
        Ok(frame_dtis)
    }

    /// A row of fixed-width fields, one per chain or decode target.
    #[verifier::loop_isolation(false)]
    pub fn u16_row(&mut self, count: u8, width: u8) -> (r: ParseResult<Vec<u16>>)
        requires
            old(self).wf(),
            width <= 8,
        ensures
            final(self).wf(),
            final(self).s() == old(self).s(),
            match r {
                Ok(v) => spec_u16_row(old(self).s(), old(self).pos(), count as nat, width as nat)
                    == Ok::<_, ParseError>((v@, final(self).pos())),
                Err(e) => spec_u16_row(old(self).s(), old(self).pos(), count as nat, width as nat)
                    == Err::<(Seq<u16>, int), _>(e),
            },
    {
        let ghost s0 = old(self).s();
        let ghost pos0 = old(self).pos();
        let mut values: Vec<u16> = Vec::with_capacity(count as usize);
        let mut i: u8 = 0;
        while i < count
            invariant
                self.wf(),
                self.s() == s0,
                i <= count,
                width <= 8,
                values@.len() == i as int,
                spec_u16_row(s0, pos0, count as nat, width as nat) == spec_prepend(
                    values@,
                    spec_u16_row(s0, self.pos(), (count - i) as nat, width as nat),
                ),
            decreases count - i,
        {
            let ghost p = self.pos();
            let ghost acc_prev = values@;
            let v = match self.f(width) {
                Ok(v) => v,
                Err(e) => {
                    proof {
                        assert(spec_u16_row(s0, p, (count - i) as nat, width as nat) == Err::<
                            (Seq<u16>, int),
                            _,
                        >(e));
                    }
                    return Err(e);
                },
            };
            proof {
                crate::bits::lemma_bits_value_bound(s0, p, width as nat);
                assert(pow2(width as nat) <= 256) by {
                    if width < 8 {
                        lemma_pow2_strictly_increases(width as nat, 8);
                    }
                    lemma2_to64();
                }
            }
            values.push(v as u16);
            i = i + 1;
            proof {
                let inner = spec_u16_row(s0, self.pos(), (count - i) as nat, width as nat);
                assert(spec_u16_row(s0, p, (count - i + 1) as nat, width as nat) == spec_prepend(
                    seq![(v as u16)],
                    inner,
                ));
                match inner {
                    Ok((rest, q)) => {
                        assert(acc_prev + (seq![(v as u16)] + rest) =~= values@ + rest);
                    },
                    Err(_) => {},
                }
            }
        }
        proof {
            assert(values@ + Seq::<u16>::empty() =~= values@);
        }
        Ok(values)
    }

    /// For every chain, an eight-bit difference to the previous frame in the
    /// chain, carried by packets that override their template's chain diffs.
    pub fn frame_chains(&mut self, chain_count: u8) -> (r: ParseResult<Vec<u16>>)
        requires
            old(self).wf(),
        ensures
            final(self).wf(),
            final(self).s() == old(self).s(),
            match r {
                Ok(v) => spec_u16_row(old(self).s(), old(self).pos(), chain_count as nat, 8)
                    == Ok::<_, ParseError>((v@, final(self).pos())),
                Err(e) => spec_u16_row(old(self).s(), old(self).pos(), chain_count as nat, 8)
                    == Err::<(Seq<u16>, int), _>(e),
            },
    {
        self.u16_row(chain_count, 8)
    }

    /// Read a flag-terminated list of four-bit referred-frame diffs onto the
    /// values already gathered.
    #[verifier::loop_isolation(false)]
    pub fn template_fdiff_list(&mut self, acc: Vec<u16>) -> (r: ParseResult<Vec<u16>>)
        requires
            old(self).wf(),
        ensures
            final(self).wf(),
            final(self).s() == old(self).s(),
            match r {
                Ok(v) => spec_fdiff_list(old(self).s(), old(self).pos(), acc@) == Ok::<
                    _,
                    ParseError,
                >((v@, final(self).pos())),
                Err(e) => spec_fdiff_list(old(self).s(), old(self).pos(), acc@) == Err::<
                    (Seq<u16>, int),
                    _,
                >(e),
            },
    {
        let ghost s0 = old(self).s();
        let ghost pos0 = old(self).pos();
        let ghost acc0 = acc@;
        let mut acc = acc;
        loop
            invariant
                self.wf(),
                self.s() == s0,
                spec_fdiff_list(s0, pos0, acc0) == spec_fdiff_list(s0, self.pos(), acc@),
            decreases 8 * s0.len() - self.pos(),
        {
            let ghost p = self.pos();
            let fdiff_follows_flag = match self.f1() {
                Ok(b) => b,
                Err(e) => {
                    proof {
                        assert(spec_fdiff_list(s0, p, acc@) == Err::<(Seq<u16>, int), _>(e));
                    }
                    return Err(e);
                },
            };
            if !fdiff_follows_flag {
                proof {
                    assert(spec_fdiff_list(s0, p, acc@) == Ok::<_, ParseError>((acc@, p + 1)));
                }
                return Ok(acc);
            }
            let fdiff_minus_one = match self.f(4) {
                Ok(v) => v,
                Err(e) => {
                    proof {
                        assert(spec_fdiff_list(s0, p, acc@) == Err::<(Seq<u16>, int), _>(e));
                    }
                    return Err(e);
                },
            };
            proof {
                crate::bits::lemma_bits_value_bound(s0, p + 1, 4);
                lemma2_to64();
            }
            acc.push((fdiff_minus_one as u16) + 1);
        }
    }

    /// A frame's custom referred-frame diffs: each announced by a two-bit
    /// size and stored minus one in four times that size in bits.
    #[verifier::loop_isolation(false)]
    pub fn frame_fdiffs(&mut self) -> (r: ParseResult<Vec<u16>>)
        requires
            old(self).wf(),
        ensures
            final(self).wf(),
            final(self).s() == old(self).s(),
            match r {
                Ok(v) => spec_frame_fdiff_list(old(self).s(), old(self).pos(), Seq::empty())
                    == Ok::<_, ParseError>((v@, final(self).pos())),
                Err(e) => spec_frame_fdiff_list(old(self).s(), old(self).pos(), Seq::empty())
                    == Err::<(Seq<u16>, int), _>(e),
            },
    {
        let ghost s0 = old(self).s();
        let ghost pos0 = old(self).pos();
        let mut frame_fdiffs: Vec<u16> = Vec::new();
        loop
            invariant
                self.wf(),
                self.s() == s0,
                spec_frame_fdiff_list(s0, pos0, Seq::empty()) == spec_frame_fdiff_list(
                    s0,
                    self.pos(),
                    frame_fdiffs@,
                ),
            decreases 8 * s0.len() - self.pos(),
        {
            let ghost p = self.pos();
            let size = match self.f(2) {
                Ok(v) => v,
                Err(e) => {
                    proof {
                        assert(spec_frame_fdiff_list(s0, p, frame_fdiffs@) == Err::<
                            (Seq<u16>, int),
                            _,
                        >(e));
                    }
                    return Err(e);
                },
            };
            proof {
                crate::bits::lemma_bits_value_bound(s0, p, 2);
                lemma2_to64();
            }
            let frame_diff_size = (size as u8) * 4;
            if frame_diff_size == 0 {
                proof {
                    assert(spec_frame_fdiff_list(s0, p, frame_fdiffs@) == Ok::<_, ParseError>(
                        (frame_fdiffs@, p + 2),
                    ));
                }
                return Ok(frame_fdiffs);
            }
            let fdiff_minus_one = match self.f(frame_diff_size) {
                Ok(v) => v,
                Err(e) => {
                    proof {
                        assert(spec_frame_fdiff_list(s0, p, frame_fdiffs@) == Err::<
                            (Seq<u16>, int),
                            _,
                        >(e));
                    }
                    return Err(e);
                },
            };
            proof {
                crate::bits::lemma_bits_value_bound(s0, p + 2, (4 * size) as nat);
                assert(pow2((4 * size) as nat) <= 4096) by {
                    if 4 * size < 12 {
                        lemma_pow2_strictly_increases((4 * size) as nat, 12);
                    }
                    lemma2_to64();
                }
            }
            frame_fdiffs.push((fdiff_minus_one as u16) + 1);
        }
    }

    /// One render resolution per spatial layer up to the largest spatial id.
    #[verifier::loop_isolation(false)]
    pub fn render_resolutions(&mut self, max_spatial_id: u8) -> (r: ParseResult<Vec<Resolution>>)
        requires
            old(self).wf(),
        ensures
            final(self).wf(),
            final(self).s() == old(self).s(),
            match r {
                Ok(v) => spec_resolution_row(
                    old(self).s(),
                    old(self).pos(),
                    (max_spatial_id + 1) as nat,
                ) == Ok::<_, ParseError>((v@, final(self).pos())),
                Err(e) => spec_resolution_row(
                    old(self).s(),
                    old(self).pos(),
                    (max_spatial_id + 1) as nat,
                ) == Err::<(Seq<Resolution>, int), _>(e),
            },
    {
        let ghost s0 = old(self).s();
        let ghost pos0 = old(self).pos();
        let count: usize = max_spatial_id as usize + 1;
        let mut resolutions: Vec<Resolution> = Vec::with_capacity(count);
        let mut i: usize = 0;
        while i < count
            invariant
                self.wf(),
                self.s() == s0,
                count == max_spatial_id as int + 1,
                i <= count,
                resolutions@.len() == i as int,
                spec_resolution_row(s0, pos0, count as nat) == spec_prepend(
                    resolutions@,
                    spec_resolution_row(s0, self.pos(), (count - i) as nat),
                ),
            decreases count - i,
        {
            let ghost p = self.pos();
            let ghost acc_prev = resolutions@;
            let max_render_width = match self.f(16) {
                Ok(v) => v,
                Err(e) => {
                    proof {
                        assert(spec_resolution_row(s0, p, (count - i) as nat) == Err::<
                            (Seq<Resolution>, int),
                            _,
                        >(e));
                    }
                    return Err(e);
                },
            };
            let max_render_height = match self.f(16) {
                Ok(v) => v,
                Err(e) => {
                    proof {
                        assert(spec_resolution_row(s0, p, (count - i) as nat) == Err::<
                            (Seq<Resolution>, int),
                            _,
                        >(e));
                    }
                    return Err(e);
                },
            };
            proof {
                crate::bits::lemma_bits_value_bound(s0, p, 16);
                crate::bits::lemma_bits_value_bound(s0, p + 16, 16);
                lemma2_to64();
            }
            let resolution = Resolution {
                max_render_width: max_render_width + 1,
                max_render_height: max_render_height + 1,
            };
            resolutions.push(resolution);
            i = i + 1;
            proof {
                let inner = spec_resolution_row(s0, self.pos(), (count - i) as nat);
                assert(spec_resolution_row(s0, p, (count - i + 1) as nat) == spec_prepend(
                    seq![resolution],
                    inner,
                ));
                match inner {
                    Ok((rest, q)) => {
                        assert(acc_prev + (seq![resolution] + rest) =~= resolutions@ + rest);
                    },
                    Err(_) => {},
                }
            }
        }
        proof {
            assert(resolutions@ + Seq::<Resolution>::empty() =~= resolutions@);
        }
        Ok(resolutions)
    }
}

impl<'bits> Parser<'bits> {
    /// A row of values `ns(n)`, one per decode target.
    #[verifier::loop_isolation(false)]
    fn ns_row(&mut self, count: u8, n: u8) -> (r: ParseResult<Vec<u8>>)
        requires
            old(self).wf(),
        ensures
            final(self).wf(),
            final(self).s() == old(self).s(),
            match r {
                Ok(v) => spec_ns_row(old(self).s(), old(self).pos(), count as nat, n) == Ok::<
                    _,
                    ParseError,
                >((v@, final(self).pos())),
                Err(e) => spec_ns_row(old(self).s(), old(self).pos(), count as nat, n) == Err::<
                    (Seq<u8>, int),
                    _,
                >(e),
            },
    {
        let ghost s0 = old(self).s();
        let ghost pos0 = old(self).pos();
        let mut values: Vec<u8> = Vec::with_capacity(count as usize);
        let mut i: u8 = 0;
        while i < count
            invariant
                self.wf(),
                self.s() == s0,
                i <= count,
                values@.len() == i as int,
                spec_ns_row(s0, pos0, count as nat, n) == spec_prepend(
                    values@,
                    spec_ns_row(s0, self.pos(), (count - i) as nat, n),
                ),
            decreases count - i,
        {
            let ghost p = self.pos();
            let ghost acc_prev = values@;
            let v = match self.ns(n) {
                Ok(v) => v,
                Err(e) => {
                    proof {
                        assert(spec_ns_row(s0, p, (count - i) as nat, n) == Err::<
                            (Seq<u8>, int),
                            _,
                        >(e));
                    }
                    return Err(e);
                },
            };
            values.push(v);
            i = i + 1;
            proof {
                let inner = spec_ns_row(s0, self.pos(), (count - i) as nat, n);
                assert(spec_ns_row(s0, p, (count - i + 1) as nat, n) == spec_prepend(
                    seq![v],
                    inner,
                ));
                match inner {
                    Ok((rest, q)) => {
                        assert(acc_prev + (seq![v] + rest) =~= values@ + rest);
                    },
                    Err(_) => {},
                }
            }
        }
        proof {
            assert(values@ + Seq::<u8>::empty() =~= values@);
        }
        Ok(values)
    }

    /// The template table's layers: starting from a single template at the
    /// base layers, two-bit codes append templates until the terminal code.
    #[verifier::loop_isolation(false)]
    pub fn template_layers(&mut self, decode_target_count: u8) -> (r: ParseResult<
        Vec<SharedStructureTemplate>,
    >)
        requires
            old(self).wf(),
        ensures
            final(self).wf(),
            final(self).s() == old(self).s(),
            match r {
                Ok(v) => spec_template_layers(
                    old(self).s(),
                    old(self).pos(),
                    seq![crate::wire::spec_first_template()],
                ) == Ok::<_, ParseError>(
                    (crate::types::views_of(v@), final(self).pos()),
                ) && v@.len() >= 1,
                Err(e) => spec_template_layers(
                    old(self).s(),
                    old(self).pos(),
                    seq![crate::wire::spec_first_template()],
                ) == Err::<(Seq<crate::types::TemplateView>, int), _>(e),
            },
    {
        let ghost s0 = old(self).s();
        let ghost pos0 = old(self).pos();
        let first = SharedStructureTemplate {
            spatial_id: 0,
            temporal_id: 0,
            decode_target_indication_by_decode_target_index: Vec::with_capacity(
                decode_target_count as usize,
            ),
            referred_frame_number_diffs: Vec::new(),
            previous_frame_number_diff_by_chain_index: Vec::new(),
        };
        let mut templates: Vec<SharedStructureTemplate> = Vec::new();
        templates.push(first);
        proof {
            assert(crate::types::views_of(templates@) =~= seq![
                crate::wire::spec_first_template(),
            ]);
        }
        loop
            invariant
                self.wf(),
                self.s() == s0,
                templates@.len() >= 1,
                spec_template_layers(s0, pos0, seq![crate::wire::spec_first_template()])
                    == spec_template_layers(
                    s0,
                    self.pos(),
                    crate::types::views_of(templates@),
                ),
            decreases 8 * s0.len() - self.pos(),
        {
            let ghost p = self.pos();
            let ghost views = crate::types::views_of(templates@);
            let next_layer_idc = match self.f(2) {
                Ok(v) => v,
                Err(e) => {
                    proof {
                        assert(spec_template_layers(s0, p, views) == Err::<
                            (Seq<crate::types::TemplateView>, int),
                            _,
                        >(e));
                    }
                    return Err(e);
                },
            };
            proof {
                crate::bits::lemma_bits_value_bound(s0, p, 2);
                lemma2_to64();
                assert(views.last() == templates@.last()@);
            }
            let last = &templates[templates.len() - 1];
            let next = if next_layer_idc == 0 {
                duplicate_template(last)
            } else if next_layer_idc == 1 {
                if last.temporal_id == 255 {
                    return Err(ParseError::InvalidTemporalId);
                }
                let mut next = duplicate_template(last);
                next.temporal_id = next.temporal_id + 1;
                next
            } else if next_layer_idc == 2 {
                if last.spatial_id == 255 {
                    return Err(ParseError::InvalidSpatialId);
                }
                let mut next = duplicate_template(last);
                next.spatial_id = next.spatial_id + 1;
                next.temporal_id = 0;
                next
            } else {
                proof {
                    assert(spec_template_layers(s0, p, views) == Ok::<_, ParseError>(
                        (views, p + 2),
                    ));
                }
                return Ok(templates);
            };
            templates.push(next);
            proof {
                assert(crate::types::views_of(templates@) =~= views.push(
                    next@,
                ));
            }
        }
    }

    /// Give every template its row of decode target indications.
    #[verifier::loop_isolation(false)]
    #[verifier::rlimit(80)]
    pub fn template_dtis(
        &mut self,
        templates: &mut Vec<SharedStructureTemplate>,
        decode_target_count: u8,
    ) -> (r: ParseResult<()>)
        requires
            old(self).wf(),
        ensures
            final(self).wf(),
            final(self).s() == old(self).s(),
            match r {
                Ok(_) => spec_template_dtis(
                    old(self).s(),
                    old(self).pos(),
                    crate::types::views_of(old(templates)@),
                    0,
                    decode_target_count as nat,
                ) == Ok::<_, ParseError>(
                    (
                        crate::types::views_of(final(templates)@),
                        final(self).pos(),
                    ),
                ) && final(templates)@.len() == old(templates)@.len(),
                Err(e) => spec_template_dtis(
                    old(self).s(),
                    old(self).pos(),
                    crate::types::views_of(old(templates)@),
                    0,
                    decode_target_count as nat,
                ) == Err::<(Seq<crate::types::TemplateView>, int), _>(e),
            },
    {
        let ghost s0 = old(self).s();
        let ghost pos0 = old(self).pos();
        let ghost vs0 = crate::types::views_of(old(templates)@);
        let mut out: Vec<SharedStructureTemplate> = Vec::with_capacity(templates.len());
        proof {
            assert(crate::types::views_of(out@) + vs0.skip(0) =~= vs0);
        }
        let mut j: usize = 0;
        while j < templates.len()
            invariant
                self.wf(),
                self.s() == s0,
                *templates == *old(templates),
                j <= templates@.len(),
                out@.len() == j as int,
                spec_template_dtis(s0, pos0, vs0, 0, decode_target_count as nat)
                    == spec_template_dtis(
                    s0,
                    self.pos(),
                    crate::types::views_of(out@) + vs0.skip(j as int),
                    j as int,
                    decode_target_count as nat,
                ),
            decreases templates@.len() - j,
        {
            let ghost p = self.pos();
            let ghost cur = crate::types::views_of(out@) + vs0.skip(j as int);
            let row = match self.frame_dtis(decode_target_count) {
                Ok(v) => v,
                Err(e) => {
                    proof {
                        assert(spec_template_dtis(
                            s0,
                            p,
                            cur,
                            j as int,
                            decode_target_count as nat,
                        ) == Err::<(Seq<crate::types::TemplateView>, int), _>(e));
                    }
                    return Err(e);
                },
            };
            let t = &templates[j];
            let ghost row0 = row@;
            let mut row = row;
            let mut dtis = copied_dtis(&t.decode_target_indication_by_decode_target_index);
            dtis.append(&mut row);
            let new_t = SharedStructureTemplate {
                spatial_id: t.spatial_id,
                temporal_id: t.temporal_id,
                decode_target_indication_by_decode_target_index: dtis,
                referred_frame_number_diffs: copied_u16s(&t.referred_frame_number_diffs),
                previous_frame_number_diff_by_chain_index: copied_u16s(
                    &t.previous_frame_number_diff_by_chain_index,
                ),
            };
            out.push(new_t);
            j = j + 1;
            proof {
                assert(cur[j - 1] == vs0[j - 1]);
                assert(new_t@.dtis =~= cur[j - 1].dtis + row0);
                assert(new_t@ == crate::types::TemplateView {
                    spatial_id: cur[j - 1].spatial_id,
                    temporal_id: cur[j - 1].temporal_id,
                    dtis: cur[j - 1].dtis + row0,
                    fdiffs: cur[j - 1].fdiffs,
                    chain_diffs: cur[j - 1].chain_diffs,
                });
                assert(crate::types::views_of(out@) + vs0.skip(j as int)
                    =~= cur.update(j - 1, new_t@));
            }
        }
        proof {
            assert(crate::types::views_of(out@) + vs0.skip(
                templates@.len() as int,
            ) =~= crate::types::views_of(out@));
        }
        *templates = out;
        Ok(())
    }

    /// Give every template its referred-frame diff list.
    #[verifier::loop_isolation(false)]
    #[verifier::rlimit(80)]
    pub fn template_fdiffs(&mut self, templates: &mut Vec<SharedStructureTemplate>) -> (r:
        ParseResult<()>)
        requires
            old(self).wf(),
        ensures
            final(self).wf(),
            final(self).s() == old(self).s(),
            match r {
                Ok(_) => spec_template_fdiffs(
                    old(self).s(),
                    old(self).pos(),
                    crate::types::views_of(old(templates)@),
                    0,
                ) == Ok::<_, ParseError>(
                    (
                        crate::types::views_of(final(templates)@),
                        final(self).pos(),
                    ),
                ) && final(templates)@.len() == old(templates)@.len(),
                Err(e) => spec_template_fdiffs(
                    old(self).s(),
                    old(self).pos(),
                    crate::types::views_of(old(templates)@),
                    0,
                ) == Err::<(Seq<crate::types::TemplateView>, int), _>(e),
            },
    {
        let ghost s0 = old(self).s();
        let ghost pos0 = old(self).pos();
        let ghost vs0 = crate::types::views_of(old(templates)@);
        let mut out: Vec<SharedStructureTemplate> = Vec::with_capacity(templates.len());
        proof {
            assert(crate::types::views_of(out@) + vs0.skip(0) =~= vs0);
        }
        let mut j: usize = 0;
        while j < templates.len()
            invariant
                self.wf(),
                self.s() == s0,
                *templates == *old(templates),
                j <= templates@.len(),
                out@.len() == j as int,
                spec_template_fdiffs(s0, pos0, vs0, 0) == spec_template_fdiffs(
                    s0,
                    self.pos(),
                    crate::types::views_of(out@) + vs0.skip(j as int),
                    j as int,
                ),
            decreases templates@.len() - j,
        {
            let ghost p = self.pos();
            let ghost cur = crate::types::views_of(out@) + vs0.skip(j as int);
            proof {
                assert(cur[j as int] == vs0[j as int]);
            }
            let t = &templates[j];
            let acc = copied_u16s(&t.referred_frame_number_diffs);
            let fdiffs = match self.template_fdiff_list(acc) {
                Ok(v) => v,
                Err(e) => {
                    proof {
                        assert(spec_template_fdiffs(s0, p, cur, j as int) == Err::<
                            (Seq<crate::types::TemplateView>, int),
                            _,
                        >(e));
                    }
                    return Err(e);
                },
            };
            let new_t = SharedStructureTemplate {
                spatial_id: t.spatial_id,
                temporal_id: t.temporal_id,
                decode_target_indication_by_decode_target_index: copied_dtis(
                    &t.decode_target_indication_by_decode_target_index,
                ),
                referred_frame_number_diffs: fdiffs,
                previous_frame_number_diff_by_chain_index: copied_u16s(
                    &t.previous_frame_number_diff_by_chain_index,
                ),
            };
            out.push(new_t);
            j = j + 1;
            proof {
                assert(new_t@ == crate::types::TemplateView {
                    spatial_id: cur[j - 1].spatial_id,
                    temporal_id: cur[j - 1].temporal_id,
                    dtis: cur[j - 1].dtis,
                    fdiffs: new_t@.fdiffs,
                    chain_diffs: cur[j - 1].chain_diffs,
                });
                assert(crate::types::views_of(out@) + vs0.skip(j as int)
                    =~= cur.update(j - 1, new_t@));
            }
        }
        proof {
            assert(crate::types::views_of(out@) + vs0.skip(
                templates@.len() as int,
            ) =~= crate::types::views_of(out@));
        }
        *templates = out;
        Ok(())
    }

    /// Give every template its row of four-bit chain diffs.
    #[verifier::loop_isolation(false)]
    #[verifier::rlimit(80)]
    fn template_chain_diffs(
        &mut self,
        templates: &mut Vec<SharedStructureTemplate>,
        chain_count: u8,
    ) -> (r: ParseResult<()>)
        requires
            old(self).wf(),
        ensures
            final(self).wf(),
            final(self).s() == old(self).s(),
            match r {
                Ok(_) => spec_template_chain_diffs(
                    old(self).s(),
                    old(self).pos(),
                    crate::types::views_of(old(templates)@),
                    0,
                    chain_count as nat,
                ) == Ok::<_, ParseError>(
                    (
                        crate::types::views_of(final(templates)@),
                        final(self).pos(),
                    ),
                ) && final(templates)@.len() == old(templates)@.len(),
                Err(e) => spec_template_chain_diffs(
                    old(self).s(),
                    old(self).pos(),
                    crate::types::views_of(old(templates)@),
                    0,
                    chain_count as nat,
                ) == Err::<(Seq<crate::types::TemplateView>, int), _>(e),
            },
    {
        let ghost s0 = old(self).s();
        let ghost pos0 = old(self).pos();
        let ghost vs0 = crate::types::views_of(old(templates)@);
        let mut out: Vec<SharedStructureTemplate> = Vec::with_capacity(templates.len());
        proof {
            assert(crate::types::views_of(out@) + vs0.skip(0) =~= vs0);
        }
        let mut j: usize = 0;
        while j < templates.len()
            invariant
                self.wf(),
                self.s() == s0,
                *templates == *old(templates),
                j <= templates@.len(),
                out@.len() == j as int,
                spec_template_chain_diffs(s0, pos0, vs0, 0, chain_count as nat)
                    == spec_template_chain_diffs(
                    s0,
                    self.pos(),
                    crate::types::views_of(out@) + vs0.skip(j as int),
                    j as int,
                    chain_count as nat,
                ),
            decreases templates@.len() - j,
        {
            let ghost p = self.pos();
            let ghost cur = crate::types::views_of(out@) + vs0.skip(j as int);
            proof {
                assert(cur[j as int] == vs0[j as int]);
            }
            let row = match self.u16_row(chain_count, 4) {
                Ok(v) => v,
                Err(e) => {
                    proof {
                        assert(spec_template_chain_diffs(
                            s0,
                            p,
                            cur,
                            j as int,
                            chain_count as nat,
                        ) == Err::<(Seq<crate::types::TemplateView>, int), _>(e));
                    }
                    return Err(e);
                },
            };
            let t = &templates[j];
            let ghost row0 = row@;
            let mut row = row;
            let mut chain_diffs = copied_u16s(&t.previous_frame_number_diff_by_chain_index);
            chain_diffs.append(&mut row);
            let new_t = SharedStructureTemplate {
                spatial_id: t.spatial_id,
                temporal_id: t.temporal_id,
                decode_target_indication_by_decode_target_index: copied_dtis(
                    &t.decode_target_indication_by_decode_target_index,
                ),
                referred_frame_number_diffs: copied_u16s(&t.referred_frame_number_diffs),
                previous_frame_number_diff_by_chain_index: chain_diffs,
            };
            out.push(new_t);
            j = j + 1;
            proof {
                assert(new_t@.chain_diffs =~= cur[j - 1].chain_diffs + row0);
                assert(new_t@ == crate::types::TemplateView {
                    spatial_id: cur[j - 1].spatial_id,
                    temporal_id: cur[j - 1].temporal_id,
                    dtis: cur[j - 1].dtis,
                    fdiffs: cur[j - 1].fdiffs,
                    chain_diffs: cur[j - 1].chain_diffs + row0,
                });
                assert(crate::types::views_of(out@) + vs0.skip(j as int)
                    =~= cur.update(j - 1, new_t@));
            }
        }
        proof {
            assert(crate::types::views_of(out@) + vs0.skip(
                templates@.len() as int,
            ) =~= crate::types::views_of(out@));
        }
        *templates = out;
        Ok(())
    }

    /// The chain section: the chain count, and, when chains are in use, each
    /// decode target's protecting chain index and each template's chain
    /// diffs.
    pub fn template_chains(
        &mut self,
        templates: &mut Vec<SharedStructureTemplate>,
        decode_target_count: u8,
    ) -> (r: ParseResult<(u8, Vec<crate::types::ChainIndex>)>)
        requires
            old(self).wf(),
            decode_target_count <= 32,
        ensures
            final(self).wf(),
            final(self).s() == old(self).s(),
            match r {
                Ok((chain_count, protecting)) => spec_template_chains(
                    old(self).s(),
                    old(self).pos(),
                    crate::types::views_of(old(templates)@),
                    decode_target_count,
                ) == Ok::<_, ParseError>(
                    (
                        (
                            chain_count,
                            protecting@,
                            crate::types::views_of(final(templates)@),
                        ),
                        final(self).pos(),
                    ),
                ),
                Err(e) => spec_template_chains(
                    old(self).s(),
                    old(self).pos(),
                    crate::types::views_of(old(templates)@),
                    decode_target_count,
                ) == Err::<((u8, Seq<u8>, Seq<crate::types::TemplateView>), int), _>(e),
            },
    {
        let chain_count = match self.ns(decode_target_count + 1) {
            Ok(v) => v,
            Err(e) => {
                return Err(e);
            },
        };
        if chain_count == 0 {
            return Ok((0, Vec::new()));
        }
        let protecting_chain_index_by_decode_target_index = match self.ns_row(
            decode_target_count,
            chain_count,
        ) {
            Ok(v) => v,
            Err(e) => {
                return Err(e);
            },
        };
        match self.template_chain_diffs(templates, chain_count) {
            Ok(_) => {},
            Err(e) => {
                return Err(e);
            },
        }
        Ok((chain_count, protecting_chain_index_by_decode_target_index))
    }

    /// The largest spatial id among the templates.
    #[verifier::loop_isolation(false)]
    pub fn max_spatial_id(templates: &Vec<SharedStructureTemplate>) -> (r: u8)
        ensures
            r == crate::wire::spec_max_spatial_upto(
                crate::types::views_of(templates@),
                templates@.len() as int,
            ),
    {
        let ghost views = crate::types::views_of(templates@);
        let mut max: u8 = 0;
        let mut j: usize = 0;
        while j < templates.len()
            invariant
                j <= templates@.len(),
                max == crate::wire::spec_max_spatial_upto(views, j as int),
            decreases templates@.len() - j,
        {
            if templates[j].spatial_id > max {
                max = templates[j].spatial_id;
            }
            j = j + 1;
        }
        max
    }
}

/// The fields at the head of every packet.
struct MandatoryFields {
    start_of_frame: bool,
    end_of_frame: bool,
    template_id: u8,
    frame_number: u16,
}

/// Which parts of the frame dependency definition the packet overrides.
struct CustomFlags {
    dtis: bool,
    fdiffs: bool,
    chains: bool,
}

/// What the extended section carried, when it was present.
struct ExtendedFields {
    shared_structure: Option<SharedStructure>,
    active_decode_targets_bitmask: Option<u32>,
}

/// The extended section's mathematical value.
spec fn ext_fields_view(cf: CustomFlags, ef: ExtendedFields) -> crate::wire::ExtendedView {
    crate::wire::ExtendedView {
        custom_dtis: cf.dtis,
        custom_fdiffs: cf.fdiffs,
        custom_chains: cf.chains,
        structure: match ef.shared_structure {
            Some(s) => Some(s@),
            None => None,
        },
        mask: ef.active_decode_targets_bitmask,
    }
}

/// The fields a frame takes from its template, with any custom overrides
/// applied.
struct FrameDependencyDefinition {
    spatial_id: u8,
    temporal_id: u8,
    decode_target_indication_by_decode_target_index: Vec<DecodeTargetIndication>,
    referred_frame_number_diffs: Vec<u16>,
    previous_frame_number_diff_by_chain_index: Vec<u16>,
    resolution: Option<Resolution>,
}

impl View for FrameDependencyDefinition {
    type V = crate::wire::FrameDependencyView;

    closed spec fn view(&self) -> crate::wire::FrameDependencyView {
        crate::wire::FrameDependencyView {
            spatial_id: self.spatial_id,
            temporal_id: self.temporal_id,
            dtis: self.decode_target_indication_by_decode_target_index@,
            fdiffs: self.referred_frame_number_diffs@,
            chain_diffs: self.previous_frame_number_diff_by_chain_index@,
            resolution: self.resolution,
        }
    }
}

impl<'bits> Parser<'bits> {
    /// The twenty-four mandatory bits: the frame's first- and last-packet
    /// flags, its template id and its frame number.
    fn mandatory_descriptor_fields(&mut self) -> (r: ParseResult<MandatoryFields>)
        requires
            old(self).wf(),
        ensures
            final(self).wf(),
            final(self).s() == old(self).s(),
            match r {
                Ok(mf) => crate::wire::spec_mandatory(old(self).s(), old(self).pos()) == Ok::<
                    _,
                    ParseError,
                >(
                    (
                        crate::wire::MandatoryView {
                            start_of_frame: mf.start_of_frame,
                            end_of_frame: mf.end_of_frame,
                            template_id: mf.template_id,
                            frame_number: mf.frame_number,
                        },
                        final(self).pos(),
                    ),
                ) && mf.template_id < 64 && final(self).pos() == old(self).pos() + 24,
                Err(e) => crate::wire::spec_mandatory(old(self).s(), old(self).pos()) == Err::<
                    (crate::wire::MandatoryView, int),
                    _,
                >(e),
            },
    {
        let ghost s0 = old(self).s();
        let start_of_frame = match self.f1() {
            Ok(v) => v,
            Err(e) => {
                return Err(e);
            },
        };
        let end_of_frame = match self.f1() {
            Ok(v) => v,
            Err(e) => {
                return Err(e);
            },
        };
        let ghost p2 = self.pos();
        let template_id = match self.f(6) {
            Ok(v) => v,
            Err(e) => {
                return Err(e);
            },
        };
        proof {
            crate::bits::lemma_bits_value_bound(s0, p2, 6);
            lemma2_to64();
        }
        let ghost p3 = self.pos();
        let frame_number = match self.f(16) {
            Ok(v) => v,
            Err(e) => {
                return Err(e);
            },
        };
        proof {
            crate::bits::lemma_bits_value_bound(s0, p3, 16);
            lemma2_to64();
        }
        Ok(
            MandatoryFields {
                start_of_frame,
                end_of_frame,
                template_id: template_id as u8,
                frame_number: frame_number as u16,
            },
        )
    }

    /// The whole template dependency structure carried by a first packet:
    /// offset and decode target count, the template table in its four
    /// passes, then optional render resolutions.
    pub fn template_dependency_structure(&mut self) -> (r: ParseResult<SharedStructure>)
        requires
            old(self).wf(),
        ensures
            final(self).wf(),
            final(self).s() == old(self).s(),
            match r {
                Ok(ss) => crate::wire::spec_structure(old(self).s(), old(self).pos()) == Ok::<
                    _,
                    ParseError,
                >((ss@, final(self).pos())) && ss.wf() && 1 <= ss.decode_target_count <= 32,
                Err(e) => crate::wire::spec_structure(old(self).s(), old(self).pos()) == Err::<
                    (crate::types::StructureView, int),
                    _,
                >(e),
            },
    {
        let ghost s0 = old(self).s();
        let ghost pos0 = old(self).pos();
        let template_id_offset = match self.f(6) {
            Ok(v) => v,
            Err(e) => {
                return Err(e);
            },
        };
        proof {
            crate::bits::lemma_bits_value_bound(s0, pos0, 6);
            lemma2_to64();
        }
        let ghost p1 = self.pos();
        let dt_cnt_minus_one = match self.f(5) {
            Ok(v) => v,
            Err(e) => {
                return Err(e);
            },
        };
        proof {
            crate::bits::lemma_bits_value_bound(s0, p1, 5);
            lemma2_to64();
        }
        let decode_target_count = (dt_cnt_minus_one as u8) + 1;
        let mut template_by_id_minus_offset = match self.template_layers(decode_target_count) {
            Ok(v) => v,
            Err(e) => {
                return Err(e);
            },
        };
        match self.template_dtis(&mut template_by_id_minus_offset, decode_target_count) {
            Ok(_) => {},
            Err(e) => {
                return Err(e);
            },
        }
        match self.template_fdiffs(&mut template_by_id_minus_offset) {
            Ok(_) => {},
            Err(e) => {
                return Err(e);
            },
        }
        let (chain_count, protecting_chain_index_by_decode_target_index) = match self
            .template_chains(&mut template_by_id_minus_offset, decode_target_count) {
            Ok(v) => v,
            Err(e) => {
                return Err(e);
            },
        };
        let resolutions_present_flag = match self.f1() {
            Ok(v) => v,
            Err(e) => {
                return Err(e);
            },
        };
        let resolution_by_spatial_id = if resolutions_present_flag {
            let max_spatial_id = Self::max_spatial_id(&template_by_id_minus_offset);
            let resolutions = match self.render_resolutions(max_spatial_id) {
                Ok(v) => v,
                Err(e) => {
                    return Err(e);
                },
            };
            Some(resolutions)
        } else {
            None
        };
        Ok(
            SharedStructure {
                decode_target_count,
                chain_count,
                protecting_chain_index_by_decode_target_index,
                resolution_by_spatial_id,
                template_by_id_minus_offset,
                template_id_offset: template_id_offset as u8,
            },
        )
    }

    /// The five extended flags, then a new structure and bitmask when
    /// announced.  The bitmask spans the decode target count of the
    /// effective structure: the one this packet carries, else the caller's
    /// cached one.  With a new structure and no explicit bitmask, every
    /// decode target of the structure is made active.
    fn extended_descriptor_fields(
        &mut self,
        latest_shared_structure: Option<&SharedStructure>,
    ) -> (r: ParseResult<(CustomFlags, Option<ExtendedFields>)>)
        requires
            old(self).wf(),
            (latest_shared_structure matches Some(s) ==> s.wf()),
        ensures
            final(self).wf(),
            final(self).s() == old(self).s(),
            match r {
                Ok((cf, ef_opt)) => ef_opt matches Some(ef) && crate::wire::spec_extended(
                    old(self).s(),
                    old(self).pos(),
                    crate::wire::spec_structure_option(latest_shared_structure),
                ) == Ok::<_, ParseError>((ext_fields_view(cf, ef), final(self).pos())) && (
                match ef.shared_structure {
                    Some(ss) => ss.wf() && 1 <= ss.decode_target_count <= 32,
                    None => true,
                }),
                Err(e) => crate::wire::spec_extended(
                    old(self).s(),
                    old(self).pos(),
                    crate::wire::spec_structure_option(latest_shared_structure),
                ) == Err::<(crate::wire::ExtendedView, int), _>(e),
            },
    {
        let ghost s0 = old(self).s();
        let template_dependency_structure_present_flag = match self.f1() {
            Ok(v) => v,
            Err(e) => {
                return Err(e);
            },
        };
        let active_decode_targets_present_flag = match self.f1() {
            Ok(v) => v,
            Err(e) => {
                return Err(e);
            },
        };
        let custom_dtis_flag = match self.f1() {
            Ok(v) => v,
            Err(e) => {
                return Err(e);
            },
        };
        let custom_fdiffs_flag = match self.f1() {
            Ok(v) => v,
            Err(e) => {
                return Err(e);
            },
        };
        let custom_chains_flag = match self.f1() {
            Ok(v) => v,
            Err(e) => {
                return Err(e);
            },
        };
        let mut shared_structure: Option<SharedStructure> = None;
        let mut active_decode_targets_bitmask: Option<u32> = None;
        if template_dependency_structure_present_flag {
            let template_dependency_structure = match self.template_dependency_structure() {
                Ok(v) => v,
                Err(e) => {
                    return Err(e);
                },
            };
            let decode_target_count = template_dependency_structure.decode_target_count;
            shared_structure = Some(template_dependency_structure);
            proof {
                lemma2_to64();
                assert(pow2(decode_target_count as nat) <= 0x1_0000_0000) by {
                    if decode_target_count < 32 {
                        lemma_pow2_strictly_increases(decode_target_count as nat, 32);
                    }
                }
                vstd::bits::lemma_u64_shl_is_mul(1u64, decode_target_count as u64);
            }
            active_decode_targets_bitmask = Some(
                (((1u64 << (decode_target_count as u64)) - 1) as u32),
            );
        }
        if active_decode_targets_present_flag {
            let effective_count: Option<u8> = match &shared_structure {
                Some(ss) => Some(ss.decode_target_count),
                None => match latest_shared_structure {
                    Some(ss) => Some(ss.decode_target_count),
                    None => None,
                },
            };
            if let Some(decode_target_count) = effective_count {
                let ghost pa = self.pos();
                let mask = match self.f(decode_target_count) {
                    Ok(v) => v,
                    Err(e) => {
                        return Err(e);
                    },
                };
                proof {
                    crate::bits::lemma_bits_value_bound(s0, pa, decode_target_count as nat);
                }
                active_decode_targets_bitmask = Some(mask);
            }
        }
        let custom_frame_dependency_flags = CustomFlags {
            chains: custom_chains_flag,
            dtis: custom_dtis_flag,
            fdiffs: custom_fdiffs_flag,
        };
        let extended_descriptor_fields = Some(
            ExtendedFields { shared_structure, active_decode_targets_bitmask },
        );
        Ok((custom_frame_dependency_flags, extended_descriptor_fields))
    }

    /// A packet of only mandatory fields carries no overrides and no new
    /// structure or bitmask.
    fn no_extended_descriptor_fields(&self) -> (r: (CustomFlags, Option<ExtendedFields>))
        ensures
            ({
                let (cf, ef) = r;
                !cf.dtis && !cf.fdiffs && !cf.chains && ef is None
            }),
    {
        let custom_frame_dependency_flags = CustomFlags { chains: false, dtis: false, fdiffs: false };
        let extended_descriptor_fields = None;
        (custom_frame_dependency_flags, extended_descriptor_fields)
    }

    /// Resolve the packet's template reference against the effective
    /// structure and read the custom overrides its flags announce.
    fn frame_dependency_definition(
        &mut self,
        shared_structure: &SharedStructure,
        template_id: u8,
        custom_flags: CustomFlags,
    ) -> (r: ParseResult<FrameDependencyDefinition>)
        requires
            old(self).wf(),
            shared_structure.wf(),
            template_id < 64,
        ensures
            final(self).wf(),
            final(self).s() == old(self).s(),
            match r {
                Ok(fdd) => crate::wire::spec_frame_dependency_definition(
                    old(self).s(),
                    old(self).pos(),
                    shared_structure@,
                    template_id,
                    custom_flags.dtis,
                    custom_flags.fdiffs,
                    custom_flags.chains,
                ) == Ok::<_, ParseError>((fdd@, final(self).pos())),
                Err(e) => crate::wire::spec_frame_dependency_definition(
                    old(self).s(),
                    old(self).pos(),
                    shared_structure@,
                    template_id,
                    custom_flags.dtis,
                    custom_flags.fdiffs,
                    custom_flags.chains,
                ) == Err::<(crate::wire::FrameDependencyView, int), _>(e),
            },
    {
        let template_id_minus_offset = (template_id + 64 - shared_structure.template_id_offset)
            % 64;
        if template_id_minus_offset as usize >= shared_structure.template_by_id_minus_offset.len() {
            return Err(ParseError::InvalidTemplateId);
        }
        let template = &shared_structure.template_by_id_minus_offset[template_id_minus_offset
            as usize];
        proof {
            assert(shared_structure@.templates[template_id_minus_offset as int] == template@);
        }
        let decode_target_indication_by_decode_target_index = if custom_flags.dtis {
            match self.frame_dtis(shared_structure.decode_target_count) {
                Ok(v) => v,
                Err(e) => {
                    return Err(e);
                },
            }
        } else {
            copied_dtis(&template.decode_target_indication_by_decode_target_index)
        };
        let referred_frame_number_diffs = if custom_flags.fdiffs {
            match self.frame_fdiffs() {
                Ok(v) => v,
                Err(e) => {
                    return Err(e);
                },
            }
        } else {
            copied_u16s(&template.referred_frame_number_diffs)
        };
        let previous_frame_number_diff_by_chain_index = if custom_flags.chains {
            match self.frame_chains(shared_structure.chain_count) {
                Ok(v) => v,
                Err(e) => {
                    return Err(e);
                },
            }
        } else {
            copied_u16s(&template.previous_frame_number_diff_by_chain_index)
        };
        let resolution = match &shared_structure.resolution_by_spatial_id {
            Some(resolution_by_spatial_id) => {
                if (template.spatial_id as usize) < resolution_by_spatial_id.len() {
                    Some(resolution_by_spatial_id[template.spatial_id as usize])
                } else {
                    None
                }
            },
            None => None,
        };
        Ok(
            FrameDependencyDefinition {
                spatial_id: template.spatial_id,
                temporal_id: template.temporal_id,
                decode_target_indication_by_decode_target_index,
                referred_frame_number_diffs,
                previous_frame_number_diff_by_chain_index,
                resolution,
            },
        )
    }
}

impl SharedStructure {
    /// The layers (spatial, temporal) of each decode target: the
    /// component-wise maximum over the templates that reference it.
    #[verifier::loop_isolation(false)]
    pub fn decode_target_layers(&self) -> (r: Vec<(crate::types::SpatialId, crate::types::TemporalId)>)
        ensures
            r@ == crate::wire::spec_decode_target_layers(self@),
    {
        let ghost views = self@.templates;
        let mut layer_ids_by_decode_target_index: Vec<(u8, u8)> = Vec::with_capacity(
            self.decode_target_count as usize,
        );
        let mut decode_target_index: u8 = 0;
        while decode_target_index < self.decode_target_count
            invariant
                decode_target_index <= self.decode_target_count,
                layer_ids_by_decode_target_index@.len() == decode_target_index as int,
                forall|k: int|
                    0 <= k < decode_target_index as int
                        ==> layer_ids_by_decode_target_index@[k]
                        == crate::wire::spec_layer_max_upto(views, k, views.len() as int),
            decreases self.decode_target_count - decode_target_index,
        {
            let mut spatial_id: u8 = 0;
            let mut temporal_id: u8 = 0;
            let mut j: usize = 0;
            while j < self.template_by_id_minus_offset.len()
                invariant
                    j <= views.len(),
                    (spatial_id, temporal_id) == crate::wire::spec_layer_max_upto(
                        views,
                        decode_target_index as int,
                        j as int,
                    ),
                decreases views.len() - j,
            {
                let template = &self.template_by_id_minus_offset[j];
                proof {
                    assert(views[j as int] == template@);
                }
                if (decode_target_index as usize)
                    < template.decode_target_indication_by_decode_target_index.len() {
                    let dti = template.decode_target_indication_by_decode_target_index[
                        decode_target_index as usize];
                    if dti != DecodeTargetIndication::NotPresent {
                        if template.spatial_id > spatial_id {
                            spatial_id = template.spatial_id;
                        }
                        if template.temporal_id > temporal_id {
                            temporal_id = template.temporal_id;
                        }
                    }
                }
                j = j + 1;
            }
            layer_ids_by_decode_target_index.push((spatial_id, temporal_id));
            decode_target_index = decode_target_index + 1;
        }
        proof {
            assert(layer_ids_by_decode_target_index@ =~= crate::wire::spec_decode_target_layers(
                self@,
            ));
        }
        layer_ids_by_decode_target_index
    }
}

impl<'bits> Parser<'bits> {
    /// Parse one packet's whole descriptor against the caller's cached
    /// context: the mandatory prefix, the extended section when any byte
    /// follows it, the effective structure and bitmask, the frame dependency
    /// definition, and the derived decode targets.
    #[verifier::loop_isolation(false)]
    #[verifier::rlimit(80)]
    pub fn dependency_descriptor(
        &mut self,
        latest_shared_structure: Option<&SharedStructure>,
        latest_active_decode_targets_bitmask: Option<u32>,
    ) -> (r: ParseResult<ParsedDependencyDescriptor>)
        requires
            old(self).wf(),
            old(self).pos() == 0,
            (latest_shared_structure matches Some(s) ==> s.wf()),
        ensures
            final(self).wf(),
            match r {
                Ok(d) => crate::wire::spec_descriptor(
                    old(self).s(),
                    crate::wire::spec_structure_option(latest_shared_structure),
                    latest_active_decode_targets_bitmask,
                ) == Ok::<crate::types::DescriptorView, ParseError>(d@),
                Err(e) => crate::wire::spec_descriptor(
                    old(self).s(),
                    crate::wire::spec_structure_option(latest_shared_structure),
                    latest_active_decode_targets_bitmask,
                ) == Err::<crate::types::DescriptorView, ParseError>(e),
            },
    {
        let ghost s0 = old(self).s();
        let mandatory_fields = match self.mandatory_descriptor_fields() {
            Ok(v) => v,
            Err(e) => {
                return Err(e);
            },
        };
        let (custom_flags, extended_fields) = if !self.is_empty() {
            match self.extended_descriptor_fields(latest_shared_structure) {
                Ok(v) => v,
                Err(e) => {
                    return Err(e);
                },
            }
        } else {
            self.no_extended_descriptor_fields()
        };
        proof {
            assert((s0.len() > 3) == (extended_fields is Some));
        }
        let ghost ev = match extended_fields {
            Some(ref ef) => ext_fields_view(custom_flags, *ef),
            None => crate::wire::ExtendedView {
                custom_dtis: false,
                custom_fdiffs: false,
                custom_chains: false,
                structure: None,
                mask: None,
            },
        };
        let shared_structure: &SharedStructure = match &extended_fields {
            Some(ef) => match &ef.shared_structure {
                Some(ss) => ss,
                None => match latest_shared_structure {
                    Some(ss) => ss,
                    None => {
                        return Err(ParseError::UnknownSharedStructure);
                    },
                },
            },
            None => match latest_shared_structure {
                Some(ss) => ss,
                None => {
                    return Err(ParseError::UnknownSharedStructure);
                },
            },
        };
        let active_decode_targets_bitmask: u32 = match &extended_fields {
            Some(ef) => match ef.active_decode_targets_bitmask {
                Some(m) => m,
                None => match latest_active_decode_targets_bitmask {
                    Some(m) => m,
                    None => {
                        return Err(ParseError::UnknownActiveDecodeTargetBitmask);
                    },
                },
            },
            None => match latest_active_decode_targets_bitmask {
                Some(m) => m,
                None => {
                    return Err(ParseError::UnknownActiveDecodeTargetBitmask);
                },
            },
        };
        let ghost sv = shared_structure@;
        let frame_dependency_definition = match self.frame_dependency_definition(
            shared_structure,
            mandatory_fields.template_id,
            custom_flags,
        ) {
            Ok(v) => v,
            Err(e) => {
                return Err(e);
            },
        };
        let decode_target_layers = shared_structure.decode_target_layers();
        let ghost fddv = frame_dependency_definition@;
        let ghost mask = active_decode_targets_bitmask;
        let mut decode_targets: Vec<DecodeTarget> = Vec::with_capacity(
            decode_target_layers.len(),
        );
        let mut i: usize = 0;
        while i < decode_target_layers.len()
            invariant
                i <= decode_target_layers@.len(),
                decode_targets@.len() == i as int,
                forall|k: int|
                    0 <= k < i as int ==> decode_targets@[k] == crate::wire::spec_decode_target(
                        sv,
                        fddv,
                        mask,
                        k,
                    ),
            decreases decode_target_layers@.len() - i,
        {
            let (spatial_id, temporal_id) = decode_target_layers[i];
            let active = match BitStream::read_ls_bit_of_u32(
                active_decode_targets_bitmask,
                i as u8,
            ) {
                Some(b) => b,
                None => false,
            };
            let indication = if i
                < frame_dependency_definition.decode_target_indication_by_decode_target_index
                .len() {
                frame_dependency_definition.decode_target_indication_by_decode_target_index[i]
            } else {
                DecodeTargetIndication::NotPresent
            };
            let protecting_chain_index = if i
                < shared_structure.protecting_chain_index_by_decode_target_index.len() {
                Some(shared_structure.protecting_chain_index_by_decode_target_index[i])
            } else {
                None
            };
            decode_targets.push(
                DecodeTarget {
                    spatial_id,
                    temporal_id,
                    active,
                    indication,
                    protecting_chain_index,
                },
            );
            i = i + 1;
        }
        proof {
            assert(decode_targets@ =~= Seq::new(
                sv.decode_target_count as nat,
                |k: int| crate::wire::spec_decode_target(sv, fddv, mask, k),
            ));
        }
        let parsed = ParsedDependencyDescriptor {
            frame_number: mandatory_fields.frame_number,
            spatial_id: frame_dependency_definition.spatial_id,
            temporal_id: frame_dependency_definition.temporal_id,
            resolution: frame_dependency_definition.resolution,
            referred_frame_number_diffs: frame_dependency_definition.referred_frame_number_diffs,
            previous_frame_number_diff_by_chain_index: frame_dependency_definition
                .previous_frame_number_diff_by_chain_index,
            first_packet_of_frame: mandatory_fields.start_of_frame,
            last_packet_of_frame: mandatory_fields.end_of_frame,
            decode_targets,
            updated_active_decode_targets_bitmask: match &extended_fields {
                Some(ef) => ef.active_decode_targets_bitmask,
                None => None,
            },
            updated_shared_structure: match extended_fields {
                Some(ef) => ef.shared_structure,
                None => None,
            },
        };
        Ok(parsed)
    }
}

impl SerializedDepdendencyDescriptor {
    /// Parse the serialized descriptor against the caller's cached shared
    /// structure and active-decode-targets bitmask.  The first packet of a
    /// coded video sequence supplies both; the caller must cache the latest
    /// value of each, reorder-aware, and pass them back for later packets.
    pub fn parse(
        &self,
        latest_shared_structure: Option<&SharedStructure>,
        latest_active_decode_targets_bitmask: Option<u32>,
    ) -> (r: ParseResult<ParsedDependencyDescriptor>)
        requires
            (latest_shared_structure matches Some(s) ==> s.wf()),
        ensures
            match r {
                Ok(d) => crate::wire::spec_descriptor(
                    self@,
                    crate::wire::spec_structure_option(latest_shared_structure),
                    latest_active_decode_targets_bitmask,
                ) == Ok::<crate::types::DescriptorView, ParseError>(d@),
                Err(e) => crate::wire::spec_descriptor(
                    self@,
                    crate::wire::spec_structure_option(latest_shared_structure),
                    latest_active_decode_targets_bitmask,
                ) == Err::<crate::types::DescriptorView, ParseError>(e),
            },
    {
        let mut parser = Parser { bit_stream: BitStream::new(self.as_bytes()) };
        parser.dependency_descriptor(
            latest_shared_structure,
            latest_active_decode_targets_bitmask,
        )
    }
}

/// A fresh template with the same layers, indications and diffs.
fn duplicate_template(t: &SharedStructureTemplate) -> (r: SharedStructureTemplate)
    ensures
        r@ == t@,
{
    SharedStructureTemplate {
        spatial_id: t.spatial_id,
        temporal_id: t.temporal_id,
        decode_target_indication_by_decode_target_index: copied_dtis(
            &t.decode_target_indication_by_decode_target_index,
        ),
        referred_frame_number_diffs: copied_u16s(&t.referred_frame_number_diffs),
        previous_frame_number_diff_by_chain_index: copied_u16s(
            &t.previous_frame_number_diff_by_chain_index,
        ),
    }
}

/// A fresh vector with the same sixteen-bit values.
#[verifier::loop_isolation(false)]
fn copied_u16s(src: &Vec<u16>) -> (r: Vec<u16>)
    ensures
        r@ == src@,
{
    let mut r: Vec<u16> = Vec::with_capacity(src.len());
    let mut i: usize = 0;
    while i < src.len()
        invariant
            i <= src@.len(),
            r@ == src@.take(i as int),
        decreases src@.len() - i,
    {
        r.push(src[i]);
        proof {
            assert(src@.take(i + 1) =~= src@.take(i as int).push(src@[i as int]));
        }
        i = i + 1;
    }
    proof {
        assert(src@.take(src@.len() as int) =~= src@);
    }
    r
}

/// A fresh vector with the same indications.
#[verifier::loop_isolation(false)]
fn copied_dtis(src: &Vec<DecodeTargetIndication>) -> (r: Vec<DecodeTargetIndication>)
    ensures
        r@ == src@,
{
    let mut r: Vec<DecodeTargetIndication> = Vec::with_capacity(src.len());
    let mut i: usize = 0;
    while i < src.len()
        invariant
            i <= src@.len(),
            r@ == src@.take(i as int),
        decreases src@.len() - i,
    {
        r.push(src[i]);
        proof {
            assert(src@.take(i + 1) =~= src@.take(i as int).push(src@[i as int]));
        }
        i = i + 1;
    }
    proof {
        assert(src@.take(src@.len() as int) =~= src@);
    }
    r
}

} // verus!
