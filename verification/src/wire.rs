//! The wire format of the dependency descriptor, stated bit by bit over the
//! packet's byte sequence.  Every function here is specification: it gives
//! each field's value and exact bit position, and names the error when a
//! packet cannot be read.  The executable parser is proved against these
//! functions.

use crate::bits::{bits_value, stream_bit, u32_ls_bit};
use crate::types::{
    DecodeTargetIndication, ParseError, Resolution, SharedStructure, StructureView, TemplateView,
    DecodeTarget, spec_dti_from_u2,
};
use vstd::arithmetic::power2::pow2;
use vstd::prelude::*;

verus! {

/// A partial parse: the value read and the bit position after it, or the
/// error that ended the parse.
pub type SpecParsed<T> = Result<(T, int), ParseError>;

/// The number of bits needed to write `n`, with none for zero.
pub open spec fn u8_bit_len(n: u8) -> nat
    decreases n,
{
    if n == 0 {
        0
    } else {
        1 + u8_bit_len(n / 2)
    }
}

/// Read `n` bits as a big-endian value.
pub open spec fn spec_read(s: Seq<u8>, pos: int, n: nat) -> SpecParsed<nat> {
    if pos + n <= 8 * s.len() {
        Ok((bits_value(s, pos, n), pos + n))
    } else {
        Err(ParseError::NotEnoughBits)
    }
}

/// Read a single bit.
pub open spec fn spec_read_bit(s: Seq<u8>, pos: int) -> SpecParsed<bool> {
    if pos + 1 <= 8 * s.len() {
        Ok((stream_bit(s, pos), pos + 1))
    } else {
        Err(ParseError::NotEnoughBits)
    }
}

/// The non-symmetric integer `ns(n)`: a value in `0..n` written in either one
/// bit less than `n`'s width, when it falls below the spare code space, or in
/// the full width.
pub open spec fn spec_ns(s: Seq<u8>, pos: int, n: u8) -> SpecParsed<u8> {
    if n == 0 {
        Ok((0u8, pos))
    } else {
        let w = u8_bit_len(n);
        let m = (pow2(w) - n) as nat;
        match spec_read(s, pos, (w - 1) as nat) {
            Err(e) => Err(e),
            Ok((v, p)) => if v < m {
                Ok((v as u8, p))
            } else {
                match spec_read_bit(s, p) {
                    Err(e) => Err(e),
                    Ok((b, p2)) => Ok(
                        (((2 * v - m + (if b {
                            1nat
                        } else {
                            0nat
                        })) as u8), p2),
                    ),
                }
            },
        }
    }
}

/// The template every table starts from: base layers and empty lists.
pub open spec fn spec_first_template() -> TemplateView {
    TemplateView {
        spatial_id: 0,
        temporal_id: 0,
        dtis: Seq::empty(),
        fdiffs: Seq::empty(),
        chain_diffs: Seq::empty(),
    }
}

/// Splice a prefix already read onto the rest of a row parse.
pub open spec fn spec_prepend<T>(prefix: Seq<T>, pr: SpecParsed<Seq<T>>) -> SpecParsed<Seq<T>> {
    match pr {
        Ok((rest, q)) => Ok((prefix + rest, q)),
        Err(e) => Err(e),
    }
}

/// The template table's layer expansion: starting from the templates read so
/// far, two-bit codes append templates until the terminal code three.
pub open spec fn spec_template_layers(s: Seq<u8>, pos: int, acc: Seq<TemplateView>) -> SpecParsed<
    Seq<TemplateView>,
>
    recommends
        acc.len() >= 1,
    decreases 8 * s.len() - pos,
{
    match spec_read(s, pos, 2) {
        Err(e) => Err(e),
        Ok((idc, p)) => {
            let last = acc.last();
            if idc == 0 {
                spec_template_layers(s, p, acc.push(last))
            } else if idc == 1 {
                if last.temporal_id == 255 {
                    Err(ParseError::InvalidTemporalId)
                } else {
                    spec_template_layers(
                        s,
                        p,
                        acc.push(
                            TemplateView {
                                spatial_id: last.spatial_id,
                                temporal_id: (last.temporal_id + 1) as u8,
                                dtis: last.dtis,
                                fdiffs: last.fdiffs,
                                chain_diffs: last.chain_diffs,
                            },
                        ),
                    )
                }
            } else if idc == 2 {
                if last.spatial_id == 255 {
                    Err(ParseError::InvalidSpatialId)
                } else {
                    spec_template_layers(
                        s,
                        p,
                        acc.push(
                            TemplateView {
                                spatial_id: (last.spatial_id + 1) as u8,
                                temporal_id: 0,
                                dtis: last.dtis,
                                fdiffs: last.fdiffs,
                                chain_diffs: last.chain_diffs,
                            },
                        ),
                    )
                }
            } else {
                Ok((acc, p))
            }
        },
    }
}

/// A row of `count` two-bit decode target indications.
pub open spec fn spec_dti_row(s: Seq<u8>, pos: int, count: nat) -> SpecParsed<
    Seq<DecodeTargetIndication>,
>
    decreases count,
{
    if count == 0 {
        Ok((Seq::empty(), pos))
    } else {
        match spec_read(s, pos, 2) {
            Err(e) => Err(e),
            Ok((v, p)) => match spec_dti_row(s, p, (count - 1) as nat) {
                Err(e) => Err(e),
                Ok((rest, q)) => Ok((seq![spec_dti_from_u2(v)] + rest, q)),
            },
        }
    }
}

/// A row of `count` fields of `width` bits each.
pub open spec fn spec_u16_row(s: Seq<u8>, pos: int, count: nat, width: nat) -> SpecParsed<Seq<u16>>
    recommends
        width <= 8,
    decreases count,
{
    if count == 0 {
        Ok((Seq::empty(), pos))
    } else {
        match spec_read(s, pos, width) {
            Err(e) => Err(e),
            Ok((v, p)) => match spec_u16_row(s, p, (count - 1) as nat, width) {
                Err(e) => Err(e),
                Ok((rest, q)) => Ok((seq![v as u16] + rest, q)),
            },
        }
    }
}

/// A row of `count` values `ns(n)`.
pub open spec fn spec_ns_row(s: Seq<u8>, pos: int, count: nat, n: u8) -> SpecParsed<Seq<u8>>
    decreases count,
{
    if count == 0 {
        Ok((Seq::empty(), pos))
    } else {
        match spec_ns(s, pos, n) {
            Err(e) => Err(e),
            Ok((v, p)) => match spec_ns_row(s, p, (count - 1) as nat, n) {
                Err(e) => Err(e),
                Ok((rest, q)) => Ok((seq![v] + rest, q)),
            },
        }
    }
}

/// A template's referred-frame diffs: a flag bit announces each four-bit
/// diff-minus-one, and a zero flag ends the list.
pub open spec fn spec_fdiff_list(s: Seq<u8>, pos: int, acc: Seq<u16>) -> SpecParsed<Seq<u16>>
    decreases 8 * s.len() - pos,
{
    match spec_read_bit(s, pos) {
        Err(e) => Err(e),
        Ok((flag, p)) => if !flag {
            Ok((acc, p))
        } else {
            match spec_read(s, p, 4) {
                Err(e) => Err(e),
                Ok((v, q)) => spec_fdiff_list(s, q, acc.push((v + 1) as u16)),
            }
        },
    }
}

/// Give each template from index `i` on its row of decode target
/// indications.
pub open spec fn spec_template_dtis(
    s: Seq<u8>,
    pos: int,
    templates: Seq<TemplateView>,
    i: int,
    count: nat,
) -> SpecParsed<Seq<TemplateView>>
    recommends
        0 <= i <= templates.len(),
    decreases templates.len() - i,
        when 0 <= i <= templates.len()
{
    if i >= templates.len() {
        Ok((templates, pos))
    } else {
        match spec_dti_row(s, pos, count) {
            Err(e) => Err(e),
            Ok((row, p)) => {
                let t = templates[i];
                spec_template_dtis(
                    s,
                    p,
                    templates.update(
                        i,
                        TemplateView {
                            spatial_id: t.spatial_id,
                            temporal_id: t.temporal_id,
                            dtis: t.dtis + row,
                            fdiffs: t.fdiffs,
                            chain_diffs: t.chain_diffs,
                        },
                    ),
                    i + 1,
                    count,
                )
            },
        }
    }
}

/// Give each template from index `i` on its referred-frame diff list.
pub open spec fn spec_template_fdiffs(
    s: Seq<u8>,
    pos: int,
    templates: Seq<TemplateView>,
    i: int,
) -> SpecParsed<Seq<TemplateView>>
    recommends
        0 <= i <= templates.len(),
    decreases templates.len() - i,
        when 0 <= i <= templates.len()
{
    if i >= templates.len() {
        Ok((templates, pos))
    } else {
        match spec_fdiff_list(s, pos, templates[i].fdiffs) {
            Err(e) => Err(e),
            Ok((row, p)) => {
                let t = templates[i];
                spec_template_fdiffs(
                    s,
                    p,
                    templates.update(
                        i,
                        TemplateView {
                            spatial_id: t.spatial_id,
                            temporal_id: t.temporal_id,
                            dtis: t.dtis,
                            fdiffs: row,
                            chain_diffs: t.chain_diffs,
                        },
                    ),
                    i + 1,
                )
            },
        }
    }
}

/// Give each template from index `i` on its row of four-bit chain diffs.
pub open spec fn spec_template_chain_diffs(
    s: Seq<u8>,
    pos: int,
    templates: Seq<TemplateView>,
    i: int,
    chain_count: nat,
) -> SpecParsed<Seq<TemplateView>>
    recommends
        0 <= i <= templates.len(),
    decreases templates.len() - i,
        when 0 <= i <= templates.len()
{
    if i >= templates.len() {
        Ok((templates, pos))
    } else {
        match spec_u16_row(s, pos, chain_count, 4) {
            Err(e) => Err(e),
            Ok((row, p)) => {
                let t = templates[i];
                spec_template_chain_diffs(
                    s,
                    p,
                    templates.update(
                        i,
                        TemplateView {
                            spatial_id: t.spatial_id,
                            temporal_id: t.temporal_id,
                            dtis: t.dtis,
                            fdiffs: t.fdiffs,
                            chain_diffs: t.chain_diffs + row,
                        },
                    ),
                    i + 1,
                    chain_count,
                )
            },
        }
    }
}

/// The chain section: the chain count as `ns(decode_target_count + 1)`, then,
/// when chains are in use, each decode target's protecting chain index and
/// each template's chain diffs.
pub open spec fn spec_template_chains(
    s: Seq<u8>,
    pos: int,
    templates: Seq<TemplateView>,
    decode_target_count: u8,
) -> SpecParsed<(u8, Seq<u8>, Seq<TemplateView>)>
    recommends
        decode_target_count <= 32,
{
    match spec_ns(s, pos, (decode_target_count + 1) as u8) {
        Err(e) => Err(e),
        Ok((chain_count, p)) => if chain_count == 0 {
            Ok(((0u8, Seq::empty(), templates), p))
        } else {
            match spec_ns_row(s, p, decode_target_count as nat, chain_count) {
                Err(e) => Err(e),
                Ok((protecting, q)) => match spec_template_chain_diffs(
                    s,
                    q,
                    templates,
                    0,
                    chain_count as nat,
                ) {
                    Err(e) => Err(e),
                    Ok((ts, r)) => Ok(((chain_count, protecting, ts), r)),
                },
            }
        },
    }
}

/// A row of `count` render resolutions, each two sixteen-bit sides stored
/// minus one.
pub open spec fn spec_resolution_row(s: Seq<u8>, pos: int, count: nat) -> SpecParsed<
    Seq<Resolution>,
>
    decreases count,
{
    if count == 0 {
        Ok((Seq::empty(), pos))
    } else {
        match spec_read(s, pos, 16) {
            Err(e) => Err(e),
            Ok((w, p)) => match spec_read(s, p, 16) {
                Err(e) => Err(e),
                Ok((h, q)) => match spec_resolution_row(s, q, (count - 1) as nat) {
                    Err(e) => Err(e),
                    Ok((rest, r)) => Ok(
                        (
                            seq![
                                Resolution {
                                    max_render_width: (w + 1) as u32,
                                    max_render_height: (h + 1) as u32,
                                },
                            ] + rest,
                            r,
                        ),
                    ),
                },
            },
        }
    }
}

/// The largest spatial id among the first `i` templates.
pub open spec fn spec_max_spatial_upto(templates: Seq<TemplateView>, i: int) -> u8
    recommends
        i <= templates.len(),
    decreases i,
{
    if i <= 0 {
        0
    } else {
        let prev = spec_max_spatial_upto(templates, i - 1);
        if templates[i - 1].spatial_id > prev {
            templates[i - 1].spatial_id
        } else {
            prev
        }
    }
}

/// The whole template dependency structure: offset and decode target count,
/// then the template table in its four passes, then optional resolutions.
pub open spec fn spec_structure(s: Seq<u8>, pos: int) -> SpecParsed<StructureView> {
    match spec_read(s, pos, 6) {
        Err(e) => Err(e),
        Ok((off, p1)) => match spec_read(s, p1, 5) {
            Err(e) => Err(e),
            Ok((dt_cnt_minus_one, p2)) => {
                let count = (dt_cnt_minus_one + 1) as u8;
                match spec_template_layers(s, p2, seq![spec_first_template()]) {
                    Err(e) => Err(e),
                    Ok((ts1, p3)) => match spec_template_dtis(s, p3, ts1, 0, count as nat) {
                        Err(e) => Err(e),
                        Ok((ts2, p4)) => match spec_template_fdiffs(s, p4, ts2, 0) {
                            Err(e) => Err(e),
                            Ok((ts3, p5)) => match spec_template_chains(s, p5, ts3, count) {
                                Err(e) => Err(e),
                                Ok(((chain_count, protecting, ts4), p6)) => match spec_read_bit(
                                    s,
                                    p6,
                                ) {
                                    Err(e) => Err(e),
                                    Ok((resolutions_flag, p7)) => if resolutions_flag {
                                        match spec_resolution_row(
                                            s,
                                            p7,
                                            (spec_max_spatial_upto(ts4, ts4.len() as int)
                                                + 1) as nat,
                                        ) {
                                            Err(e) => Err(e),
                                            Ok((rs, p8)) => Ok(
                                                (
                                                    StructureView {
                                                        decode_target_count: count,
                                                        chain_count,
                                                        protecting,
                                                        resolutions: Some(rs),
                                                        templates: ts4,
                                                        template_id_offset: off as u8,
                                                    },
                                                    p8,
                                                ),
                                            ),
                                        }
                                    } else {
                                        Ok(
                                            (
                                                StructureView {
                                                    decode_target_count: count,
                                                    chain_count,
                                                    protecting,
                                                    resolutions: None,
                                                    templates: ts4,
                                                    template_id_offset: off as u8,
                                                },
                                                p7,
                                            ),
                                        )
                                    },
                                },
                            },
                        },
                    },
                }
            },
        },
    }
}

/// The bitmask with the low `count` bits set.
pub open spec fn spec_all_ones(count: u8) -> u32
    recommends
        count <= 32,
{
    (pow2(count as nat) - 1) as u32
}

/// What the five extended flags announce for one packet.
pub ghost struct ExtendedView {
    pub custom_dtis: bool,
    pub custom_fdiffs: bool,
    pub custom_chains: bool,
    pub structure: Option<StructureView>,
    pub mask: Option<u32>,
}

/// The extended section: five flags, then a new structure when announced,
/// then a fresh bitmask when announced.  The bitmask, when present, spans
/// exactly the decode target count of the effective structure: the one this
/// packet carries, else the caller's cached one.  A packet with a new
/// structure but no explicit bitmask activates every decode target.  When
/// neither the packet nor the cache holds a structure the count is unknown,
/// no bitmask is read, and the parse fails on the missing structure.
pub open spec fn spec_extended(s: Seq<u8>, pos: int, cached: Option<StructureView>) -> SpecParsed<
    ExtendedView,
> {
    match spec_read_bit(s, pos) {
        Err(e) => Err(e),
        Ok((structure_flag, p1)) => match spec_read_bit(s, p1) {
            Err(e) => Err(e),
            Ok((active_flag, p2)) => match spec_read_bit(s, p2) {
                Err(e) => Err(e),
                Ok((dtis_flag, p3)) => match spec_read_bit(s, p3) {
                    Err(e) => Err(e),
                    Ok((fdiffs_flag, p4)) => match spec_read_bit(s, p4) {
                        Err(e) => Err(e),
                        Ok((chains_flag, p5)) => if structure_flag {
                            match spec_structure(s, p5) {
                                Err(e) => Err(e),
                                Ok((sv, p6)) => if active_flag {
                                    match spec_read(s, p6, sv.decode_target_count as nat) {
                                        Err(e) => Err(e),
                                        Ok((mask, p7)) => Ok(
                                            (
                                                ExtendedView {
                                                    custom_dtis: dtis_flag,
                                                    custom_fdiffs: fdiffs_flag,
                                                    custom_chains: chains_flag,
                                                    structure: Some(sv),
                                                    mask: Some(mask as u32),
                                                },
                                                p7,
                                            ),
                                        ),
                                    }
                                } else {
                                    Ok(
                                        (
                                            ExtendedView {
                                                custom_dtis: dtis_flag,
                                                custom_fdiffs: fdiffs_flag,
                                                custom_chains: chains_flag,
                                                structure: Some(sv),
                                                mask: Some(
                                                    spec_all_ones(sv.decode_target_count),
                                                ),
                                            },
                                            p6,
                                        ),
                                    )
                                },
                            }
                        } else if active_flag && cached is Some {
                            match spec_read(
                                s,
                                p5,
                                cached->Some_0.decode_target_count as nat,
                            ) {
                                Err(e) => Err(e),
                                Ok((mask, p6)) => Ok(
                                    (
                                        ExtendedView {
                                            custom_dtis: dtis_flag,
                                            custom_fdiffs: fdiffs_flag,
                                            custom_chains: chains_flag,
                                            structure: None,
                                            mask: Some(mask as u32),
                                        },
                                        p6,
                                    ),
                                ),
                            }
                        } else {
                            Ok(
                                (
                                    ExtendedView {
                                        custom_dtis: dtis_flag,
                                        custom_fdiffs: fdiffs_flag,
                                        custom_chains: chains_flag,
                                        structure: None,
                                        mask: None,
                                    },
                                    p5,
                                ),
                            )
                        },
                    },
                },
            },
        },
    }
}

/// The mandatory twenty-four-bit prefix of every packet.
pub ghost struct MandatoryView {
    pub start_of_frame: bool,
    pub end_of_frame: bool,
    pub template_id: u8,
    pub frame_number: u16,
}

/// Read the mandatory prefix.
pub open spec fn spec_mandatory(s: Seq<u8>, pos: int) -> SpecParsed<MandatoryView> {
    match spec_read_bit(s, pos) {
        Err(e) => Err(e),
        Ok((start_of_frame, p1)) => match spec_read_bit(s, p1) {
            Err(e) => Err(e),
            Ok((end_of_frame, p2)) => match spec_read(s, p2, 6) {
                Err(e) => Err(e),
                Ok((template_id, p3)) => match spec_read(s, p3, 16) {
                    Err(e) => Err(e),
                    Ok((frame_number, p4)) => Ok(
                        (
                            MandatoryView {
                                start_of_frame,
                                end_of_frame,
                                template_id: template_id as u8,
                                frame_number: frame_number as u16,
                            },
                            p4,
                        ),
                    ),
                },
            },
        },
    }
}

/// A frame's custom referred-frame diffs: a two-bit size announces each
/// diff-minus-one of four times that size in bits, and a zero size ends the
/// list.
pub open spec fn spec_frame_fdiff_list(s: Seq<u8>, pos: int, acc: Seq<u16>) -> SpecParsed<Seq<u16>>
    decreases 8 * s.len() - pos,
{
    match spec_read(s, pos, 2) {
        Err(e) => Err(e),
        Ok((size, p)) => if size == 0 {
            Ok((acc, p))
        } else {
            match spec_read(s, p, 4 * size) {
                Err(e) => Err(e),
                Ok((v, q)) => spec_frame_fdiff_list(s, q, acc.push((v + 1) as u16)),
            }
        },
    }
}

/// The fields a frame takes from its template, with any custom overrides.
pub ghost struct FrameDependencyView {
    pub spatial_id: u8,
    pub temporal_id: u8,
    pub dtis: Seq<DecodeTargetIndication>,
    pub fdiffs: Seq<u16>,
    pub chain_diffs: Seq<u16>,
    pub resolution: Option<Resolution>,
}

/// Resolve the packet's template reference against the effective structure
/// and apply the custom overrides that the flags announce.
pub open spec fn spec_frame_dependency_definition(
    s: Seq<u8>,
    pos: int,
    sv: StructureView,
    template_id: u8,
    custom_dtis: bool,
    custom_fdiffs: bool,
    custom_chains: bool,
) -> SpecParsed<FrameDependencyView>
    recommends
        sv.wf(),
        template_id < 64,
{
    let tidx = (template_id + 64 - sv.template_id_offset) % 64;
    if tidx >= sv.templates.len() {
        Err(ParseError::InvalidTemplateId)
    } else {
        let t = sv.templates[tidx];
        match (if custom_dtis {
            spec_dti_row(s, pos, sv.decode_target_count as nat)
        } else {
            Ok((t.dtis, pos))
        }) {
            Err(e) => Err(e),
            Ok((dtis, p1)) => match (if custom_fdiffs {
                spec_frame_fdiff_list(s, p1, Seq::empty())
            } else {
                Ok((t.fdiffs, p1))
            }) {
                Err(e) => Err(e),
                Ok((fdiffs, p2)) => match (if custom_chains {
                    spec_u16_row(s, p2, sv.chain_count as nat, 8)
                } else {
                    Ok((t.chain_diffs, p2))
                }) {
                    Err(e) => Err(e),
                    Ok((chain_diffs, p3)) => Ok(
                        (
                            FrameDependencyView {
                                spatial_id: t.spatial_id,
                                temporal_id: t.temporal_id,
                                dtis,
                                fdiffs,
                                chain_diffs,
                                resolution: match sv.resolutions {
                                    Some(rs) => if t.spatial_id < rs.len() {
                                        Some(rs[t.spatial_id as int])
                                    } else {
                                        None
                                    },
                                    None => None,
                                },
                            },
                            p3,
                        ),
                    ),
                },
            },
        }
    }
}

/// The layers of one decode target: the component-wise maximum of the layers
/// of the first `i` templates that reference target `dt`.
pub open spec fn spec_layer_max_upto(templates: Seq<TemplateView>, dt: int, i: int) -> (u8, u8)
    recommends
        i <= templates.len(),
    decreases i,
{
    if i <= 0 {
        (0u8, 0u8)
    } else {
        let prev = spec_layer_max_upto(templates, dt, i - 1);
        let t = templates[i - 1];
        if 0 <= dt < t.dtis.len() && t.dtis[dt] != DecodeTargetIndication::NotPresent {
            (
                if t.spatial_id > prev.0 {
                    t.spatial_id
                } else {
                    prev.0
                },
                if t.temporal_id > prev.1 {
                    t.temporal_id
                } else {
                    prev.1
                },
            )
        } else {
            prev
        }
    }
}

/// The layers of every decode target of a structure.
pub open spec fn spec_decode_target_layers(sv: StructureView) -> Seq<(u8, u8)> {
    Seq::new(
        sv.decode_target_count as nat,
        |i: int| spec_layer_max_upto(sv.templates, i, sv.templates.len() as int),
    )
}

/// One derived decode target entry: its layers, whether the effective
/// bitmask activates it, the frame's indication for it, and its protecting
/// chain.
pub open spec fn spec_decode_target(
    sv: StructureView,
    fdd: FrameDependencyView,
    mask: u32,
    i: int,
) -> DecodeTarget {
    let layers = spec_layer_max_upto(sv.templates, i, sv.templates.len() as int);
    DecodeTarget {
        spatial_id: layers.0,
        temporal_id: layers.1,
        active: if i <= 31 {
            u32_ls_bit(mask, i)
        } else {
            false
        },
        indication: if 0 <= i < fdd.dtis.len() {
            fdd.dtis[i]
        } else {
            DecodeTargetIndication::NotPresent
        },
        protecting_chain_index: if 0 <= i < sv.protecting.len() {
            Some(sv.protecting[i])
        } else {
            None::<u8>
        },
    }
}

/// The caller's cached structure, as a view.
pub open spec fn spec_structure_option(o: Option<&SharedStructure>) -> Option<StructureView> {
    match o {
        Some(s) => Some(s@),
        None => None,
    }
}

/// The whole descriptor of one packet, parsed against the caller's cached
/// context: the mandatory prefix, the extended section when any byte follows
/// it, the effective structure and bitmask (the packet's own over the cached
/// ones), the frame dependency definition, and the derived decode targets.
/// Trailing zero padding is ignored.
pub open spec fn spec_descriptor(
    s: Seq<u8>,
    latest_structure: Option<StructureView>,
    latest_mask: Option<u32>,
) -> Result<crate::types::DescriptorView, ParseError>
    recommends
        (latest_structure matches Some(sv) ==> sv.wf()),
{
    match spec_mandatory(s, 0) {
        Err(e) => Err(e),
        Ok((mf, p0)) => {
            let ext = if s.len() > 3 {
                spec_extended(s, p0, latest_structure)
            } else {
                Ok(
                    (
                        ExtendedView {
                            custom_dtis: false,
                            custom_fdiffs: false,
                            custom_chains: false,
                            structure: None,
                            mask: None,
                        },
                        p0,
                    ),
                )
            };
            match ext {
                Err(e) => Err(e),
                Ok((ev, p1)) => {
                    let effective_structure = if ev.structure is Some {
                        ev.structure
                    } else {
                        latest_structure
                    };
                    match effective_structure {
                        None => Err(ParseError::UnknownSharedStructure),
                        Some(sv) => {
                            let effective_mask = if ev.mask is Some {
                                ev.mask
                            } else {
                                latest_mask
                            };
                            match effective_mask {
                                None => Err(ParseError::UnknownActiveDecodeTargetBitmask),
                                Some(mask) => match spec_frame_dependency_definition(
                                    s,
                                    p1,
                                    sv,
                                    mf.template_id,
                                    ev.custom_dtis,
                                    ev.custom_fdiffs,
                                    ev.custom_chains,
                                ) {
                                    Err(e) => Err(e),
                                    Ok((fdd, _p2)) => Ok(
                                        crate::types::DescriptorView {
                                            frame_number: mf.frame_number,
                                            spatial_id: fdd.spatial_id,
                                            temporal_id: fdd.temporal_id,
                                            resolution: fdd.resolution,
                                            referred_frame_number_diffs: fdd.fdiffs,
                                            previous_frame_number_diff_by_chain_index: fdd
                                                .chain_diffs,
                                            first_packet_of_frame: mf.start_of_frame,
                                            last_packet_of_frame: mf.end_of_frame,
                                            decode_targets: Seq::new(
                                                sv.decode_target_count as nat,
                                                |i: int| spec_decode_target(sv, fdd, mask, i),
                                            ),
                                            updated_shared_structure: ev.structure,
                                            updated_active_decode_targets_bitmask: ev.mask,
                                        },
                                    ),
                                },
                            }
                        },
                    }
                },
            }
        },
    }
}

} // verus!
