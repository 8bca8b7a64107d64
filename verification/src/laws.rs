//! Properties that hold of every parse, stated and proved over the wire
//! format: how many decode targets come out, when the updated structure and
//! bitmask are present, and the ranges of the diffs.

use crate::bits::stream_bit;
use crate::types::{DecodeTargetIndication, DescriptorView, ParseError, StructureView, TemplateView};
use crate::wire::{
    spec_descriptor, spec_extended, spec_mandatory, spec_ns, u8_bit_len,
};
use vstd::arithmetic::power2::{lemma2_to64, pow2};
use vstd::prelude::*;

verus! {

/// `ns(n)` only ever yields values below `n`, and nothing but zero when `n`
/// is zero.
pub proof fn lemma_spec_ns_range(s: Seq<u8>, pos: int, n: u8, v: u8, p: int)
    requires
        spec_ns(s, pos, n) == Ok::<(u8, int), ParseError>((v, p)),
    ensures
        n > 0 ==> v < n,
        n == 0 ==> v == 0,
{
    if n > 0 {
        crate::parser::lemma_u8_bit_len_bounds(n);
        let w = u8_bit_len(n);
        let m = (pow2(w) - n) as nat;
        match crate::wire::spec_read(s, pos, (w - 1) as nat) {
            Err(_) => {},
            Ok((raw, q)) => {
                crate::bits::lemma_bits_value_bound(s, pos, (w - 1) as nat);
                vstd::arithmetic::power2::lemma_pow2_adds((w - 1) as nat, 1);
                lemma2_to64();
                assert(pow2(w) == pow2((w - 1) as nat) * 2);
                if raw < m {
                } else {
                    assert(2 * raw - m + 1 < n + n + 1 - n);
                }
            },
        }
    }
}

/// Every value below `n` is decoded from its own codeword: the value itself
/// in one bit less than `n`'s width when it falls below the spare code
/// space, else its widened form in the full width.  Together with
/// `lemma_spec_ns_range` this makes `ns(n)` reach exactly the values `0..n`.
pub proof fn lemma_spec_ns_covers(s: Seq<u8>, pos: int, n: u8, v: u8)
    requires
        n > 0,
        v < n,
        0 <= pos,
        pos + u8_bit_len(n) <= 8 * s.len(),
        ({
            let w = u8_bit_len(n);
            let m = (pow2(w) - n) as nat;
            if v < m {
                crate::bits::bits_value(s, pos, (w - 1) as nat) == v
            } else {
                crate::bits::bits_value(s, pos, (w - 1) as nat) == (v + m) / 2 && (stream_bit(
                    s,
                    pos + w - 1,
                ) <==> (v + m) % 2 == 1)
            }
        }),
    ensures
        ({
            let w = u8_bit_len(n);
            let m = (pow2(w) - n) as nat;
            spec_ns(s, pos, n) == Ok::<(u8, int), ParseError>(
                (
                    v,
                    if v < m {
                        pos + w - 1
                    } else {
                        pos + w
                    },
                ),
            )
        }),
{
    crate::parser::lemma_u8_bit_len_bounds(n);
    let w = u8_bit_len(n);
    let m = (pow2(w) - n) as nat;
    let raw = crate::bits::bits_value(s, pos, (w - 1) as nat);
    if v < m {
    } else {
        vstd::arithmetic::div_mod::lemma_fundamental_div_mod((v + m) as int, 2);
        assert(2 * raw + (if (v + m) % 2 == 1 {
            1nat
        } else {
            0nat
        }) == v + m);
        assert(raw >= m) by {
            if raw < m {
                assert(2 * raw + 1 < 2 * m);
            }
        }
    }
}

/// Every successfully parsed descriptor carries one decode target entry per
/// decode target of the effective structure: the one the packet brought,
/// else the caller's cached one.
pub proof fn lemma_decode_target_count(
    s: Seq<u8>,
    ctx: Option<StructureView>,
    mask: Option<u32>,
    d: DescriptorView,
)
    requires
        spec_descriptor(s, ctx, mask) == Ok::<DescriptorView, ParseError>(d),
    ensures
        d.updated_shared_structure is None ==> ctx is Some,
        d.decode_targets.len() == match d.updated_shared_structure {
            Some(sv) => sv.decode_target_count as nat,
            None => ctx->Some_0.decode_target_count as nat,
        },
{
}

/// A parse delivers an updated shared structure exactly when the packet had
/// an extended section whose structure-present flag was set.
pub proof fn lemma_updated_structure_iff(
    s: Seq<u8>,
    ctx: Option<StructureView>,
    mask: Option<u32>,
    d: DescriptorView,
)
    requires
        spec_descriptor(s, ctx, mask) == Ok::<DescriptorView, ParseError>(d),
    ensures
        d.updated_shared_structure is Some <==> (s.len() > 3 && stream_bit(s, 24)),
{
}

/// A parse delivers an updated bitmask exactly when the packet announced
/// one: with a new structure (then all-ones unless the active-present flag
/// overwrote it), or with the active-present flag alone, read over the
/// cached structure's decode target count.
pub proof fn lemma_updated_bitmask(
    s: Seq<u8>,
    ctx: Option<StructureView>,
    mask: Option<u32>,
    d: DescriptorView,
)
    requires
        spec_descriptor(s, ctx, mask) == Ok::<DescriptorView, ParseError>(d),
    ensures
        d.updated_active_decode_targets_bitmask is Some <==> (s.len() > 3 && (stream_bit(s, 24)
            || stream_bit(s, 25))),
        (d.updated_shared_structure is Some && s.len() > 3 && !stream_bit(s, 25))
            ==> d.updated_active_decode_targets_bitmask == Some(
            crate::wire::spec_all_ones(d.updated_shared_structure->Some_0.decode_target_count),
        ),
{
}

/// A template's referred-frame diffs fit `1..=16` and its chain diffs fit
/// the four-bit field.
pub open spec fn template_diffs_in_range(t: TemplateView) -> bool {
    &&& forall|i: int| 0 <= i < t.fdiffs.len() ==> 1 <= #[trigger] t.fdiffs[i] <= 16
    &&& forall|i: int| 0 <= i < t.chain_diffs.len() ==> #[trigger] t.chain_diffs[i] <= 15
}

/// Every template of the structure keeps its diffs in wire range.
pub open spec fn structure_diffs_in_range(sv: StructureView) -> bool {
    forall|j: int|
        0 <= j < sv.templates.len() ==> template_diffs_in_range(#[trigger] sv.templates[j])
}

proof fn lemma_fdiff_list_range(s: Seq<u8>, pos: int, acc: Seq<u16>, v: Seq<u16>, q: int)
    requires
        crate::wire::spec_fdiff_list(s, pos, acc) == Ok::<(Seq<u16>, int), ParseError>((v, q)),
        forall|i: int| 0 <= i < acc.len() ==> 1 <= #[trigger] acc[i] <= 16,
    ensures
        forall|i: int| 0 <= i < v.len() ==> 1 <= #[trigger] v[i] <= 16,
    decreases 8 * s.len() - pos,
{
    match crate::wire::spec_read_bit(s, pos) {
        Err(_) => {},
        Ok((flag, p)) => {
            if flag {
                match crate::wire::spec_read(s, p, 4) {
                    Err(_) => {},
                    Ok((raw, p2)) => {
                        crate::bits::lemma_bits_value_bound(s, p, 4);
                        lemma2_to64();
                        lemma_fdiff_list_range(s, p2, acc.push((raw + 1) as u16), v, q);
                    },
                }
            }
        },
    }
}

proof fn lemma_frame_fdiff_list_range(s: Seq<u8>, pos: int, acc: Seq<u16>, v: Seq<u16>, q: int)
    requires
        crate::wire::spec_frame_fdiff_list(s, pos, acc) == Ok::<(Seq<u16>, int), ParseError>(
            (v, q),
        ),
        forall|i: int| 0 <= i < acc.len() ==> 1 <= #[trigger] acc[i] <= 4096,
    ensures
        forall|i: int| 0 <= i < v.len() ==> 1 <= #[trigger] v[i] <= 4096,
    decreases 8 * s.len() - pos,
{
    match crate::wire::spec_read(s, pos, 2) {
        Err(_) => {},
        Ok((size, p)) => {
            if size != 0 {
                match crate::wire::spec_read(s, p, 4 * size) {
                    Err(_) => {},
                    Ok((raw, p2)) => {
                        crate::bits::lemma_bits_value_bound(s, p, 4 * size);
                        crate::bits::lemma_bits_value_bound(s, pos, 2);
                        assert(pow2(4 * size) <= 4096) by {
                            if 4 * size < 12 {
                                vstd::arithmetic::power2::lemma_pow2_strictly_increases(
                                    4 * size,
                                    12,
                                );
                            }
                            lemma2_to64();
                        }
                        lemma_frame_fdiff_list_range(s, p2, acc.push((raw + 1) as u16), v, q);
                    },
                }
            }
        },
    }
}

proof fn lemma_u16_row_range(s: Seq<u8>, pos: int, count: nat, width: nat, v: Seq<u16>, q: int)
    requires
        crate::wire::spec_u16_row(s, pos, count, width) == Ok::<(Seq<u16>, int), ParseError>(
            (v, q),
        ),
        width <= 8,
    ensures
        forall|i: int| 0 <= i < v.len() ==> #[trigger] v[i] < pow2(width),
    decreases count,
{
    if count != 0 {
        match crate::wire::spec_read(s, pos, width) {
            Err(_) => {},
            Ok((raw, p)) => {
                crate::bits::lemma_bits_value_bound(s, pos, width);
                match crate::wire::spec_u16_row(s, p, (count - 1) as nat, width) {
                    Err(_) => {},
                    Ok((rest, _)) => {
                        lemma_u16_row_range(s, p, (count - 1) as nat, width, rest, q);
                    },
                }
            },
        }
    }
}

proof fn lemma_template_layers_range(
    s: Seq<u8>,
    pos: int,
    acc: Seq<TemplateView>,
    v: Seq<TemplateView>,
    q: int,
)
    requires
        crate::wire::spec_template_layers(s, pos, acc) == Ok::<
            (Seq<TemplateView>, int),
            ParseError,
        >((v, q)),
        acc.len() >= 1,
        forall|j: int| 0 <= j < acc.len() ==> template_diffs_in_range(#[trigger] acc[j]),
    ensures
        forall|j: int| 0 <= j < v.len() ==> template_diffs_in_range(#[trigger] v[j]),
    decreases 8 * s.len() - pos,
{
    match crate::wire::spec_read(s, pos, 2) {
        Err(_) => {},
        Ok((idc, p)) => {
            let last = acc.last();
            if idc == 0 {
                lemma_template_layers_range(s, p, acc.push(last), v, q);
            } else if idc == 1 {
                if last.temporal_id != 255 {
                    lemma_template_layers_range(
                        s,
                        p,
                        acc.push(
                            TemplateView {
                                spatial_id: last.spatial_id,
                                temporal_id: (last.temporal_id + 1) as u8,
                                dtis: last.dtis,
                                fdiffs: last.fdiffs,
                                chain_diffs: last.chain_diffs,
                            },
                        ),
                        v,
                        q,
                    );
                }
            } else if idc == 2 {
                if last.spatial_id != 255 {
                    lemma_template_layers_range(
                        s,
                        p,
                        acc.push(
                            TemplateView {
                                spatial_id: (last.spatial_id + 1) as u8,
                                temporal_id: 0,
                                dtis: last.dtis,
                                fdiffs: last.fdiffs,
                                chain_diffs: last.chain_diffs,
                            },
                        ),
                        v,
                        q,
                    );
                }
            }
        },
    }
}

proof fn lemma_template_dtis_range(
    s: Seq<u8>,
    pos: int,
    ts: Seq<TemplateView>,
    i: int,
    count: nat,
    v: Seq<TemplateView>,
    q: int,
)
    requires
        crate::wire::spec_template_dtis(s, pos, ts, i, count) == Ok::<
            (Seq<TemplateView>, int),
            ParseError,
        >((v, q)),
        0 <= i <= ts.len(),
        forall|j: int| 0 <= j < ts.len() ==> template_diffs_in_range(#[trigger] ts[j]),
    ensures
        forall|j: int| 0 <= j < v.len() ==> template_diffs_in_range(#[trigger] v[j]),
    decreases ts.len() - i,
{
    if i < ts.len() {
        match crate::wire::spec_dti_row(s, pos, count) {
            Err(_) => {},
            Ok((row, p)) => {
                let t = ts[i];
                let updated = ts.update(
                    i,
                    TemplateView {
                        spatial_id: t.spatial_id,
                        temporal_id: t.temporal_id,
                        dtis: t.dtis + row,
                        fdiffs: t.fdiffs,
                        chain_diffs: t.chain_diffs,
                    },
                );
                assert(forall|j: int|
                    0 <= j < updated.len() ==> template_diffs_in_range(#[trigger] updated[j]));
                lemma_template_dtis_range(s, p, updated, i + 1, count, v, q);
            },
        }
    }
}

proof fn lemma_template_fdiffs_range(
    s: Seq<u8>,
    pos: int,
    ts: Seq<TemplateView>,
    i: int,
    v: Seq<TemplateView>,
    q: int,
)
    requires
        crate::wire::spec_template_fdiffs(s, pos, ts, i) == Ok::<
            (Seq<TemplateView>, int),
            ParseError,
        >((v, q)),
        0 <= i <= ts.len(),
        forall|j: int| 0 <= j < ts.len() ==> template_diffs_in_range(#[trigger] ts[j]),
    ensures
        forall|j: int| 0 <= j < v.len() ==> template_diffs_in_range(#[trigger] v[j]),
    decreases ts.len() - i,
{
    if i < ts.len() {
        match crate::wire::spec_fdiff_list(s, pos, ts[i].fdiffs) {
            Err(_) => {},
            Ok((row, p)) => {
                let t = ts[i];
                lemma_fdiff_list_range(s, pos, t.fdiffs, row, p);
                let updated = ts.update(
                    i,
                    TemplateView {
                        spatial_id: t.spatial_id,
                        temporal_id: t.temporal_id,
                        dtis: t.dtis,
                        fdiffs: row,
                        chain_diffs: t.chain_diffs,
                    },
                );
                assert(forall|j: int|
                    0 <= j < updated.len() ==> template_diffs_in_range(#[trigger] updated[j]));
                lemma_template_fdiffs_range(s, p, updated, i + 1, v, q);
            },
        }
    }
}

proof fn lemma_template_chain_diffs_range(
    s: Seq<u8>,
    pos: int,
    ts: Seq<TemplateView>,
    i: int,
    chain_count: nat,
    v: Seq<TemplateView>,
    q: int,
)
    requires
        crate::wire::spec_template_chain_diffs(s, pos, ts, i, chain_count) == Ok::<
            (Seq<TemplateView>, int),
            ParseError,
        >((v, q)),
        0 <= i <= ts.len(),
        forall|j: int| 0 <= j < ts.len() ==> template_diffs_in_range(#[trigger] ts[j]),
    ensures
        forall|j: int| 0 <= j < v.len() ==> template_diffs_in_range(#[trigger] v[j]),
    decreases ts.len() - i,
{
    if i < ts.len() {
        match crate::wire::spec_u16_row(s, pos, chain_count, 4) {
            Err(_) => {},
            Ok((row, p)) => {
                let t = ts[i];
                lemma_u16_row_range(s, pos, chain_count, 4, row, p);
                lemma2_to64();
                let updated = ts.update(
                    i,
                    TemplateView {
                        spatial_id: t.spatial_id,
                        temporal_id: t.temporal_id,
                        dtis: t.dtis,
                        fdiffs: t.fdiffs,
                        chain_diffs: t.chain_diffs + row,
                    },
                );
                assert(forall|j: int|
                    0 <= j < updated.len() ==> template_diffs_in_range(#[trigger] updated[j]));
                lemma_template_chain_diffs_range(s, p, updated, i + 1, chain_count, v, q);
            },
        }
    }
}

/// A shared structure read off the wire keeps every template's diffs in
/// range.
pub proof fn lemma_structure_diffs_in_range(s: Seq<u8>, pos: int, sv: StructureView, q: int)
    requires
        crate::wire::spec_structure(s, pos) == Ok::<(StructureView, int), ParseError>((sv, q)),
    ensures
        structure_diffs_in_range(sv),
{
    match crate::wire::spec_read(s, pos, 6) {
        Err(_) => {},
        Ok((off, p1)) => match crate::wire::spec_read(s, p1, 5) {
            Err(_) => {},
            Ok((dt_cnt_minus_one, p2)) => {
                let count = (dt_cnt_minus_one + 1) as u8;
                let first = crate::wire::spec_first_template();
                assert(template_diffs_in_range(first));
                match crate::wire::spec_template_layers(s, p2, seq![first]) {
                    Err(_) => {},
                    Ok((ts1, p3)) => {
                        lemma_template_layers_range(s, p2, seq![first], ts1, p3);
                        match crate::wire::spec_template_dtis(s, p3, ts1, 0, count as nat) {
                            Err(_) => {},
                            Ok((ts2, p4)) => {
                                lemma_template_dtis_range(s, p3, ts1, 0, count as nat, ts2, p4);
                                match crate::wire::spec_template_fdiffs(s, p4, ts2, 0) {
                                    Err(_) => {},
                                    Ok((ts3, p5)) => {
                                        lemma_template_fdiffs_range(s, p4, ts2, 0, ts3, p5);
                                        match crate::wire::spec_template_chains(
                                            s,
                                            p5,
                                            ts3,
                                            count,
                                        ) {
                                            Err(_) => {},
                                            Ok(((cc, prot, ts4), p6)) => {
                                                if cc != 0 {
                                                    match crate::wire::spec_ns(
                                                        s,
                                                        p5,
                                                        (count + 1) as u8,
                                                    ) {
                                                        Err(_) => {},
                                                        Ok((_, pa)) => {
                                                            match crate::wire::spec_ns_row(
                                                                s,
                                                                pa,
                                                                count as nat,
                                                                cc,
                                                            ) {
                                                                Err(_) => {},
                                                                Ok((_, pb)) => {
                                                                    lemma_template_chain_diffs_range(
                                                                        s,
                                                                        pb,
                                                                        ts3,
                                                                        0,
                                                                        cc as nat,
                                                                        ts4,
                                                                        p6,
                                                                    );
                                                                },
                                                            }
                                                        },
                                                    }
                                                }
                                            },
                                        }
                                    },
                                }
                            },
                        }
                    },
                }
            },
        },
    }
}

/// Every successfully parsed descriptor keeps its referred-frame diffs in
/// `1..=4096` and its per-chain diffs in `0..=255`, as long as any cached
/// structure it drew on kept its templates' diffs in wire range.
pub proof fn lemma_diff_ranges(
    s: Seq<u8>,
    ctx: Option<StructureView>,
    mask: Option<u32>,
    d: DescriptorView,
)
    requires
        spec_descriptor(s, ctx, mask) == Ok::<DescriptorView, ParseError>(d),
        (ctx matches Some(sv) ==> structure_diffs_in_range(sv)),
    ensures
        forall|i: int|
            0 <= i < d.referred_frame_number_diffs.len() ==> 1
                <= #[trigger] d.referred_frame_number_diffs[i] <= 4096,
        forall|i: int|
            0 <= i < d.previous_frame_number_diff_by_chain_index.len()
                ==> #[trigger] d.previous_frame_number_diff_by_chain_index[i] <= 255,
{
    match spec_mandatory(s, 0) {
        Err(_) => {},
        Ok((mf, p0)) => {
            let ext = if s.len() > 3 {
                spec_extended(s, p0, ctx)
            } else {
                Ok::<_, ParseError>(
                    (
                        crate::wire::ExtendedView {
                            custom_dtis: false,
                            custom_fdiffs: false,
                            custom_chains: false,
                            structure: None,
                            mask: None,
                        },
                        p0,
                    ),
                )
            };
            if s.len() > 3 {
                lemma_extended_structure_in_range(s, p0, ctx);
            }
            match ext {
                Err(_) => {},
                Ok((ev, p1)) => {
                    let effective_structure = if ev.structure is Some {
                        ev.structure
                    } else {
                        ctx
                    };
                    match effective_structure {
                        None => {},
                        Some(sv) => {
                            assert(structure_diffs_in_range(sv));
                            match mask_or(ev.mask, mask) {
                                None => {},
                                Some(_) => {
                                    lemma_frame_dependency_ranges(
                                        s,
                                        p1,
                                        sv,
                                        mf.template_id,
                                        ev.custom_dtis,
                                        ev.custom_fdiffs,
                                        ev.custom_chains,
                                    );
                                },
                            }
                        },
                    }
                },
            }
        },
    }
}

/// The effective bitmask: the packet's over the cached one.
spec fn mask_or(a: Option<u32>, b: Option<u32>) -> Option<u32> {
    if a is Some {
        a
    } else {
        b
    }
}

/// A structure carried in the extended section keeps its diffs in range.
proof fn lemma_extended_structure_in_range(s: Seq<u8>, pos: int, cached: Option<StructureView>)
    ensures
        (crate::wire::spec_extended(s, pos, cached) matches Ok((ev, _))
            ==> (ev.structure matches Some(sv) ==> structure_diffs_in_range(sv))),
{
    match crate::wire::spec_extended(s, pos, cached) {
        Err(_) => {},
        Ok((ev, _)) => {
            match crate::wire::spec_structure(s, pos + 5) {
                Err(_) => {},
                Ok((sv, q)) => {
                    lemma_structure_diffs_in_range(s, pos + 5, sv, q);
                },
            }
        },
    }
}

/// The frame dependency definition keeps its diffs in range whichever parts
/// the packet overrides.
proof fn lemma_frame_dependency_ranges(
    s: Seq<u8>,
    pos: int,
    sv: StructureView,
    template_id: u8,
    custom_dtis: bool,
    custom_fdiffs: bool,
    custom_chains: bool,
)
    requires
        structure_diffs_in_range(sv),
    ensures
        (crate::wire::spec_frame_dependency_definition(
            s,
            pos,
            sv,
            template_id,
            custom_dtis,
            custom_fdiffs,
            custom_chains,
        ) matches Ok((fdd, _)) ==> {
            &&& forall|i: int| 0 <= i < fdd.fdiffs.len() ==> 1 <= #[trigger] fdd.fdiffs[i]
                <= 4096
            &&& forall|i: int|
                0 <= i < fdd.chain_diffs.len() ==> #[trigger] fdd.chain_diffs[i] <= 255
        }),
{
    let tidx = (template_id + 64 - sv.template_id_offset) % 64;
    if 0 <= tidx < sv.templates.len() {
        let t = sv.templates[tidx];
        assert(template_diffs_in_range(t));
        if custom_fdiffs {
            match crate::wire::spec_frame_fdiff_list(
                s,
                (if custom_dtis {
                    match crate::wire::spec_dti_row(s, pos, sv.decode_target_count as nat) {
                        Ok((_, p)) => p,
                        Err(_) => pos,
                    }
                } else {
                    pos
                }),
                Seq::empty(),
            ) {
                Err(_) => {},
                Ok((row, p2)) => {
                    lemma_frame_fdiff_list_range(
                        s,
                        (if custom_dtis {
                            match crate::wire::spec_dti_row(
                                s,
                                pos,
                                sv.decode_target_count as nat,
                            ) {
                                Ok((_, p)) => p,
                                Err(_) => pos,
                            }
                        } else {
                            pos
                        }),
                        Seq::empty(),
                        row,
                        p2,
                    );
                },
            }
        }
        if custom_chains {
            assert forall|p2: int, row: Seq<u16>, q: int|
                crate::wire::spec_u16_row(s, p2, sv.chain_count as nat, 8) == Ok::<
                    (Seq<u16>, int),
                    ParseError,
                >((row, q)) implies forall|i: int| 0 <= i < row.len() ==> #[trigger] row[i]
                <= 255 by {
                lemma_u16_row_range(s, p2, sv.chain_count as nat, 8, row, q);
                lemma2_to64();
            }
        }
        lemma2_to64();
    }
}

/// The structural invariants of a shared structure: the counts fit their
/// wire ranges, every per-target and per-chain row has the announced length,
/// chains protect only existing chains, and the resolution table covers the
/// spatial layers.
pub open spec fn structure_shape(sv: StructureView) -> bool {
    &&& 1 <= sv.decode_target_count <= 32
    &&& sv.chain_count <= sv.decode_target_count
    &&& sv.template_id_offset < 64
    &&& sv.templates.len() >= 1
    &&& (forall|j: int|
        0 <= j < sv.templates.len() ==> (#[trigger] sv.templates[j]).dtis.len()
            == sv.decode_target_count)
    &&& (forall|j: int|
        0 <= j < sv.templates.len() ==> (#[trigger] sv.templates[j]).chain_diffs.len()
            == sv.chain_count)
    &&& sv.protecting.len() == (if sv.chain_count == 0 {
        0int
    } else {
        sv.decode_target_count as int
    })
    &&& (forall|i: int| 0 <= i < sv.protecting.len() ==> #[trigger] sv.protecting[i] < sv.chain_count)
    &&& (sv.resolutions matches Some(rs) ==> rs.len() == crate::wire::spec_max_spatial_upto(
        sv.templates,
        sv.templates.len() as int,
    ) + 1)
}

proof fn lemma_dti_row_len(s: Seq<u8>, pos: int, count: nat, v: Seq<DecodeTargetIndication>, q: int)
    requires
        crate::wire::spec_dti_row(s, pos, count) == Ok::<
            (Seq<DecodeTargetIndication>, int),
            ParseError,
        >((v, q)),
    ensures
        v.len() == count,
    decreases count,
{
    if count != 0 {
        match crate::wire::spec_read(s, pos, 2) {
            Err(_) => {},
            Ok((_, p)) => match crate::wire::spec_dti_row(s, p, (count - 1) as nat) {
                Err(_) => {},
                Ok((rest, _)) => {
                    lemma_dti_row_len(s, p, (count - 1) as nat, rest, q);
                },
            },
        }
    }
}

proof fn lemma_u16_row_len(s: Seq<u8>, pos: int, count: nat, width: nat, v: Seq<u16>, q: int)
    requires
        crate::wire::spec_u16_row(s, pos, count, width) == Ok::<(Seq<u16>, int), ParseError>(
            (v, q),
        ),
    ensures
        v.len() == count,
    decreases count,
{
    if count != 0 {
        match crate::wire::spec_read(s, pos, width) {
            Err(_) => {},
            Ok((_, p)) => match crate::wire::spec_u16_row(s, p, (count - 1) as nat, width) {
                Err(_) => {},
                Ok((rest, _)) => {
                    lemma_u16_row_len(s, p, (count - 1) as nat, width, rest, q);
                },
            },
        }
    }
}

proof fn lemma_ns_row_props(s: Seq<u8>, pos: int, count: nat, n: u8, v: Seq<u8>, q: int)
    requires
        crate::wire::spec_ns_row(s, pos, count, n) == Ok::<(Seq<u8>, int), ParseError>((v, q)),
        n > 0,
    ensures
        v.len() == count,
        forall|i: int| 0 <= i < v.len() ==> #[trigger] v[i] < n,
    decreases count,
{
    if count != 0 {
        match spec_ns(s, pos, n) {
            Err(_) => {},
            Ok((head, p)) => {
                lemma_spec_ns_range(s, pos, n, head, p);
                match crate::wire::spec_ns_row(s, p, (count - 1) as nat, n) {
                    Err(_) => {},
                    Ok((rest, _)) => {
                        lemma_ns_row_props(s, p, (count - 1) as nat, n, rest, q);
                    },
                }
            },
        }
    }
}

proof fn lemma_resolution_row_len(
    s: Seq<u8>,
    pos: int,
    count: nat,
    v: Seq<crate::types::Resolution>,
    q: int,
)
    requires
        crate::wire::spec_resolution_row(s, pos, count) == Ok::<
            (Seq<crate::types::Resolution>, int),
            ParseError,
        >((v, q)),
    ensures
        v.len() == count,
    decreases count,
{
    if count != 0 {
        match crate::wire::spec_read(s, pos, 16) {
            Err(_) => {},
            Ok((_, p1)) => match crate::wire::spec_read(s, p1, 16) {
                Err(_) => {},
                Ok((_, p2)) => match crate::wire::spec_resolution_row(s, p2, (count - 1) as nat) {
                    Err(_) => {},
                    Ok((rest, _)) => {
                        lemma_resolution_row_len(s, p2, (count - 1) as nat, rest, q);
                    },
                },
            },
        }
    }
}

proof fn lemma_template_layers_shape(
    s: Seq<u8>,
    pos: int,
    acc: Seq<TemplateView>,
    v: Seq<TemplateView>,
    q: int,
)
    requires
        crate::wire::spec_template_layers(s, pos, acc) == Ok::<
            (Seq<TemplateView>, int),
            ParseError,
        >((v, q)),
        acc.len() >= 1,
        forall|j: int|
            0 <= j < acc.len() ==> (#[trigger] acc[j]).dtis.len() == 0 && acc[j].chain_diffs.len()
                == 0,
    ensures
        v.len() >= 1,
        forall|j: int|
            0 <= j < v.len() ==> (#[trigger] v[j]).dtis.len() == 0 && v[j].chain_diffs.len() == 0,
    decreases 8 * s.len() - pos,
{
    match crate::wire::spec_read(s, pos, 2) {
        Err(_) => {},
        Ok((idc, p)) => {
            let last = acc.last();
            if idc == 0 {
                lemma_template_layers_shape(s, p, acc.push(last), v, q);
            } else if idc == 1 {
                if last.temporal_id != 255 {
                    lemma_template_layers_shape(
                        s,
                        p,
                        acc.push(
                            TemplateView {
                                spatial_id: last.spatial_id,
                                temporal_id: (last.temporal_id + 1) as u8,
                                dtis: last.dtis,
                                fdiffs: last.fdiffs,
                                chain_diffs: last.chain_diffs,
                            },
                        ),
                        v,
                        q,
                    );
                }
            } else if idc == 2 {
                if last.spatial_id != 255 {
                    lemma_template_layers_shape(
                        s,
                        p,
                        acc.push(
                            TemplateView {
                                spatial_id: (last.spatial_id + 1) as u8,
                                temporal_id: 0,
                                dtis: last.dtis,
                                fdiffs: last.fdiffs,
                                chain_diffs: last.chain_diffs,
                            },
                        ),
                        v,
                        q,
                    );
                }
            }
        },
    }
}

proof fn lemma_template_dtis_shape(
    s: Seq<u8>,
    pos: int,
    ts: Seq<TemplateView>,
    i: int,
    count: nat,
    v: Seq<TemplateView>,
    q: int,
)
    requires
        crate::wire::spec_template_dtis(s, pos, ts, i, count) == Ok::<
            (Seq<TemplateView>, int),
            ParseError,
        >((v, q)),
        0 <= i <= ts.len(),
    ensures
        v.len() == ts.len(),
        forall|j: int| 0 <= j < i ==> v[j] == ts[j],
        forall|j: int|
            i <= j < ts.len() ==> (#[trigger] v[j]).dtis.len() == ts[j].dtis.len() + count
                && v[j].chain_diffs == ts[j].chain_diffs,
    decreases ts.len() - i,
{
    if i < ts.len() {
        match crate::wire::spec_dti_row(s, pos, count) {
            Err(_) => {},
            Ok((row, p)) => {
                lemma_dti_row_len(s, pos, count, row, p);
                let t = ts[i];
                let updated = ts.update(
                    i,
                    TemplateView {
                        spatial_id: t.spatial_id,
                        temporal_id: t.temporal_id,
                        dtis: t.dtis + row,
                        fdiffs: t.fdiffs,
                        chain_diffs: t.chain_diffs,
                    },
                );
                lemma_template_dtis_shape(s, p, updated, i + 1, count, v, q);
            },
        }
    }
}

proof fn lemma_template_fdiffs_shape(
    s: Seq<u8>,
    pos: int,
    ts: Seq<TemplateView>,
    i: int,
    v: Seq<TemplateView>,
    q: int,
)
    requires
        crate::wire::spec_template_fdiffs(s, pos, ts, i) == Ok::<
            (Seq<TemplateView>, int),
            ParseError,
        >((v, q)),
        0 <= i <= ts.len(),
    ensures
        v.len() == ts.len(),
        forall|j: int| 0 <= j < i ==> v[j] == ts[j],
        forall|j: int|
            i <= j < ts.len() ==> (#[trigger] v[j]).dtis == ts[j].dtis && v[j].chain_diffs
                == ts[j].chain_diffs && v[j].spatial_id == ts[j].spatial_id && v[j].temporal_id
                == ts[j].temporal_id,
    decreases ts.len() - i,
{
    if i < ts.len() {
        match crate::wire::spec_fdiff_list(s, pos, ts[i].fdiffs) {
            Err(_) => {},
            Ok((row, p)) => {
                let t = ts[i];
                let updated = ts.update(
                    i,
                    TemplateView {
                        spatial_id: t.spatial_id,
                        temporal_id: t.temporal_id,
                        dtis: t.dtis,
                        fdiffs: row,
                        chain_diffs: t.chain_diffs,
                    },
                );
                lemma_template_fdiffs_shape(s, p, updated, i + 1, v, q);
            },
        }
    }
}

proof fn lemma_template_chain_diffs_shape(
    s: Seq<u8>,
    pos: int,
    ts: Seq<TemplateView>,
    i: int,
    chain_count: nat,
    v: Seq<TemplateView>,
    q: int,
)
    requires
        crate::wire::spec_template_chain_diffs(s, pos, ts, i, chain_count) == Ok::<
            (Seq<TemplateView>, int),
            ParseError,
        >((v, q)),
        0 <= i <= ts.len(),
    ensures
        v.len() == ts.len(),
        forall|j: int| 0 <= j < i ==> v[j] == ts[j],
        forall|j: int|
            i <= j < ts.len() ==> (#[trigger] v[j]).chain_diffs.len() == ts[j].chain_diffs.len()
                + chain_count && v[j].dtis == ts[j].dtis && v[j].spatial_id == ts[j].spatial_id
                && v[j].temporal_id == ts[j].temporal_id,
    decreases ts.len() - i,
{
    if i < ts.len() {
        match crate::wire::spec_u16_row(s, pos, chain_count, 4) {
            Err(_) => {},
            Ok((row, p)) => {
                lemma_u16_row_len(s, pos, chain_count, 4, row, p);
                let t = ts[i];
                let updated = ts.update(
                    i,
                    TemplateView {
                        spatial_id: t.spatial_id,
                        temporal_id: t.temporal_id,
                        dtis: t.dtis,
                        fdiffs: t.fdiffs,
                        chain_diffs: t.chain_diffs + row,
                    },
                );
                lemma_template_chain_diffs_shape(s, p, updated, i + 1, chain_count, v, q);
            },
        }
    }
}

/// A shared structure read off the wire satisfies the structural
/// invariants.
pub proof fn lemma_structure_shape(s: Seq<u8>, pos: int, sv: StructureView, q: int)
    requires
        crate::wire::spec_structure(s, pos) == Ok::<(StructureView, int), ParseError>((sv, q)),
    ensures
        structure_shape(sv),
{
    crate::bits::lemma_bits_value_bound(s, pos, 6);
    crate::bits::lemma_bits_value_bound(s, pos + 6, 5);
    lemma2_to64();
    match crate::wire::spec_read(s, pos, 6) {
        Err(_) => {},
        Ok((off, p1)) => match crate::wire::spec_read(s, p1, 5) {
            Err(_) => {},
            Ok((dt_cnt_minus_one, p2)) => {
                let count = (dt_cnt_minus_one + 1) as u8;
                let first = crate::wire::spec_first_template();
                match crate::wire::spec_template_layers(s, p2, seq![first]) {
                    Err(_) => {},
                    Ok((ts1, p3)) => {
                        lemma_template_layers_shape(s, p2, seq![first], ts1, p3);
                        match crate::wire::spec_template_dtis(s, p3, ts1, 0, count as nat) {
                            Err(_) => {},
                            Ok((ts2, p4)) => {
                                lemma_template_dtis_shape(s, p3, ts1, 0, count as nat, ts2, p4);
                                match crate::wire::spec_template_fdiffs(s, p4, ts2, 0) {
                                    Err(_) => {},
                                    Ok((ts3, p5)) => {
                                        lemma_template_fdiffs_shape(s, p4, ts2, 0, ts3, p5);
                                        match crate::wire::spec_ns(s, p5, (count + 1) as u8) {
                                            Err(_) => {},
                                            Ok((cc, pa)) => {
                                                lemma_spec_ns_range(
                                                    s,
                                                    p5,
                                                    (count + 1) as u8,
                                                    cc,
                                                    pa,
                                                );
                                                if cc != 0 {
                                                    match crate::wire::spec_ns_row(
                                                        s,
                                                        pa,
                                                        count as nat,
                                                        cc,
                                                    ) {
                                                        Err(_) => {},
                                                        Ok((prot, pb)) => {
                                                            lemma_ns_row_props(
                                                                s,
                                                                pa,
                                                                count as nat,
                                                                cc,
                                                                prot,
                                                                pb,
                                                            );
                                                            match crate::wire::spec_template_chain_diffs(
                                                                s,
                                                                pb,
                                                                ts3,
                                                                0,
                                                                cc as nat,
                                                            ) {
                                                                Err(_) => {},
                                                                Ok((ts4, p6)) => {
                                                                    lemma_template_chain_diffs_shape(
                                                                        s,
                                                                        pb,
                                                                        ts3,
                                                                        0,
                                                                        cc as nat,
                                                                        ts4,
                                                                        p6,
                                                                    );
                                                                    lemma_structure_shape_tail(
                                                                        s,
                                                                        p6,
                                                                        sv,
                                                                        q,
                                                                        ts4,
                                                                    );
                                                                },
                                                            }
                                                        },
                                                    }
                                                } else {
                                                    lemma_structure_shape_tail(
                                                        s,
                                                        pa,
                                                        sv,
                                                        q,
                                                        ts3,
                                                    );
                                                }
                                            },
                                        }
                                    },
                                }
                            },
                        }
                    },
                }
            },
        },
    }
}

/// The resolution section after the chain section: when the flag is set the
/// row covers every spatial layer.
proof fn lemma_structure_shape_tail(
    s: Seq<u8>,
    p6: int,
    sv: StructureView,
    q: int,
    ts4: Seq<TemplateView>,
)
    requires
        sv.templates == ts4,
    ensures
        (crate::wire::spec_read_bit(s, p6) matches Ok((flag, p7)) ==> (flag
            ==> (crate::wire::spec_resolution_row(
            s,
            p7,
            (crate::wire::spec_max_spatial_upto(ts4, ts4.len() as int) + 1) as nat,
        ) matches Ok((rs, _)) ==> rs.len() == crate::wire::spec_max_spatial_upto(
            ts4,
            ts4.len() as int,
        ) + 1))),
{
    match crate::wire::spec_read_bit(s, p6) {
        Err(_) => {},
        Ok((flag, p7)) => {
            if flag {
                match crate::wire::spec_resolution_row(
                    s,
                    p7,
                    (crate::wire::spec_max_spatial_upto(ts4, ts4.len() as int) + 1) as nat,
                ) {
                    Err(_) => {},
                    Ok((rs, pr)) => {
                        lemma_resolution_row_len(
                            s,
                            p7,
                            (crate::wire::spec_max_spatial_upto(ts4, ts4.len() as int)
                                + 1) as nat,
                            rs,
                            pr,
                        );
                    },
                }
            }
        },
    }
}

} // verus!
