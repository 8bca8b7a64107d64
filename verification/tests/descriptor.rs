//! End-to-end tests of descriptor parsing: the concrete packet scenarios,
//! the error cases, and the caching flow across packets.

use dependency_descriptor::{
    DecodeTargetIndication, ParseError, SerializedDepdendencyDescriptor, Serializer,
    SharedStructure, SharedStructureTemplate,
};

/// Append bits to a byte vector, most significant bit of each byte first.
struct BitWriter {
    bytes: Vec<u8>,
    bits_in_last: u8,
}

impl BitWriter {
    fn new() -> Self {
        BitWriter { bytes: Vec::new(), bits_in_last: 0 }
    }

    fn push_bits(&mut self, value: u32, count: u8) {
        for i in (0..count).rev() {
            let bit = (value >> i) & 1;
            if self.bits_in_last == 0 {
                self.bytes.push(0);
            }
            let last = self.bytes.len() - 1;
            self.bytes[last] |= (bit as u8) << (7 - self.bits_in_last);
            self.bits_in_last = (self.bits_in_last + 1) % 8;
        }
    }

    fn finish(self) -> Vec<u8> {
        self.bytes
    }
}

fn descriptor_of(bytes: &[u8]) -> SerializedDepdendencyDescriptor {
    Serializer.parse_value(bytes)
}

/// Mandatory prefix: start and end flags, template id, frame number.
fn push_mandatory(w: &mut BitWriter, start: bool, end: bool, template_id: u8, frame_number: u16) {
    w.push_bits(start as u32, 1);
    w.push_bits(end as u32, 1);
    w.push_bits(template_id as u32, 6);
    w.push_bits(frame_number as u32, 16);
}

/// The first packet of a sequence with one decode target, one template whose
/// indication is Discardable, no frame diffs, no chains, no resolutions.
fn first_packet_bytes() -> Vec<u8> {
    let mut w = BitWriter::new();
    push_mandatory(&mut w, true, true, 0, 0);
    // Extended flags: structure present, nothing else.
    w.push_bits(0b10000, 5);
    // Structure: offset 0, one decode target.
    w.push_bits(0, 6);
    w.push_bits(0, 5);
    // Template layers: terminal code right away, one template.
    w.push_bits(3, 2);
    // Template indications: Discardable.
    w.push_bits(1, 2);
    // Template frame diffs: none.
    w.push_bits(0, 1);
    // Chain count ns(2) = 0, then no chain section.
    w.push_bits(0, 1);
    // No resolutions.
    w.push_bits(0, 1);
    w.finish()
}

#[test]
fn minimal_packet_without_context_is_refused() {
    let sdd = descriptor_of(&[0xC0, 0x00, 0x00]);
    let r = sdd.parse(None, None);
    assert!(matches!(r, Err(ParseError::UnknownSharedStructure)));
}

#[test]
fn first_packet_of_sequence() {
    let bytes = first_packet_bytes();
    let sdd = descriptor_of(&bytes);
    let d = sdd.parse(None, None).unwrap();
    assert_eq!(d.frame_number, 0);
    assert!(d.first_packet_of_frame);
    assert!(d.last_packet_of_frame);
    assert_eq!(d.spatial_id, 0);
    assert_eq!(d.temporal_id, 0);
    assert_eq!(d.decode_targets.len(), 1);
    assert_eq!(d.decode_targets[0].indication, DecodeTargetIndication::Discardable);
    assert!(d.decode_targets[0].active);
    assert_eq!(d.decode_targets[0].protecting_chain_index, None);
    assert_eq!(d.referred_frame_number_diffs, Vec::<u16>::new());
    assert_eq!(d.previous_frame_number_diff_by_chain_index, Vec::<u16>::new());
    assert_eq!(d.updated_active_decode_targets_bitmask, Some(1));
    let structure = d.updated_shared_structure.expect("structure");
    assert_eq!(structure.decode_target_count, 1);
    assert_eq!(structure.chain_count, 0);
    assert_eq!(structure.template_id_offset, 0);
    assert_eq!(structure.template_by_id_minus_offset.len(), 1);
    let t = &structure.template_by_id_minus_offset[0];
    assert_eq!(t.spatial_id, 0);
    assert_eq!(t.temporal_id, 0);
    assert_eq!(
        t.decode_target_indication_by_decode_target_index,
        vec![DecodeTargetIndication::Discardable]
    );
    assert_eq!(t.referred_frame_number_diffs, Vec::<u16>::new());
    assert_eq!(t.previous_frame_number_diff_by_chain_index, Vec::<u16>::new());
}

#[test]
fn template_only_follow_up_packet() {
    let first = descriptor_of(&first_packet_bytes());
    let d0 = first.parse(None, None).unwrap();
    let structure = d0.updated_shared_structure.unwrap();
    let mask = d0.updated_active_decode_targets_bitmask;

    let sdd = descriptor_of(&[0xC0, 0x00, 0x01]);
    let d = sdd.parse(Some(&structure), mask).unwrap();
    assert_eq!(d.frame_number, 1);
    assert!(d.updated_shared_structure.is_none());
    assert!(d.updated_active_decode_targets_bitmask.is_none());
    assert_eq!(d.decode_targets.len(), 1);
    assert_eq!(d.decode_targets[0].indication, DecodeTargetIndication::Discardable);
    assert!(d.decode_targets[0].active);
}

#[test]
fn custom_dtis_override() {
    let first = descriptor_of(&first_packet_bytes());
    let d0 = first.parse(None, None).unwrap();
    let structure = d0.updated_shared_structure.unwrap();

    let mut w = BitWriter::new();
    push_mandatory(&mut w, true, true, 0, 2);
    // Extended flags: custom indications only.
    w.push_bits(0b00100, 5);
    // One frame indication: Switch.
    w.push_bits(2, 2);
    let bytes = w.finish();
    let sdd = descriptor_of(&bytes);
    let d = sdd.parse(Some(&structure), Some(1)).unwrap();
    assert_eq!(d.decode_targets[0].indication, DecodeTargetIndication::Switch);
    // The template held by the caller keeps its stored indication.
    assert_eq!(
        structure.template_by_id_minus_offset[0]
            .decode_target_indication_by_decode_target_index,
        vec![DecodeTargetIndication::Discardable]
    );
}

#[test]
fn chain_protection() {
    let structure = SharedStructure {
        decode_target_count: 2,
        chain_count: 2,
        protecting_chain_index_by_decode_target_index: vec![0, 1],
        resolution_by_spatial_id: None,
        template_by_id_minus_offset: vec![SharedStructureTemplate {
            spatial_id: 0,
            temporal_id: 0,
            decode_target_indication_by_decode_target_index: vec![
                DecodeTargetIndication::Discardable,
                DecodeTargetIndication::Discardable,
            ],
            referred_frame_number_diffs: vec![],
            previous_frame_number_diff_by_chain_index: vec![0, 0],
        }],
        template_id_offset: 0,
    };
    let sdd = descriptor_of(&[0xC0, 0x00, 0x05]);
    let d = sdd.parse(Some(&structure), Some(0b11)).unwrap();
    assert_eq!(d.decode_targets.len(), 2);
    assert_eq!(d.decode_targets[0].protecting_chain_index, Some(0));
    assert_eq!(d.decode_targets[1].protecting_chain_index, Some(1));
    assert_eq!(d.previous_frame_number_diff_by_chain_index, vec![0, 0]);
}

#[test]
fn truncated_input_runs_out_of_bits() {
    // Mandatory fields, then a structure-present flag whose structure never
    // arrives: the extended section runs off the end of the buffer.
    let sdd = descriptor_of(&[0xC0, 0x00, 0x00, 0x80]);
    let r = sdd.parse(None, None);
    assert!(matches!(r, Err(ParseError::NotEnoughBits)));
}

#[test]
fn missing_bitmask_is_refused() {
    let first = descriptor_of(&first_packet_bytes());
    let d0 = first.parse(None, None).unwrap();
    let structure = d0.updated_shared_structure.unwrap();
    let sdd = descriptor_of(&[0xC0, 0x00, 0x00]);
    let r = sdd.parse(Some(&structure), None);
    assert!(matches!(r, Err(ParseError::UnknownActiveDecodeTargetBitmask)));
}

#[test]
fn template_id_outside_table_is_refused() {
    let first = descriptor_of(&first_packet_bytes());
    let d0 = first.parse(None, None).unwrap();
    let structure = d0.updated_shared_structure.unwrap();
    let sdd = descriptor_of(&[0xC1, 0x00, 0x00]);
    let r = sdd.parse(Some(&structure), Some(1));
    assert!(matches!(r, Err(ParseError::InvalidTemplateId)));
}

fn layer_overflow_packet(idc: u32) -> Vec<u8> {
    let mut w = BitWriter::new();
    push_mandatory(&mut w, true, true, 0, 0);
    w.push_bits(0b10000, 5);
    w.push_bits(0, 6);
    w.push_bits(0, 5);
    // 256 layer advances overflow an eight-bit layer id.
    for _ in 0..256 {
        w.push_bits(idc, 2);
    }
    w.push_bits(3, 2);
    w.finish()
}

#[test]
fn temporal_id_overflow_is_refused() {
    let sdd = descriptor_of(&layer_overflow_packet(1));
    let r = sdd.parse(None, None);
    assert!(matches!(r, Err(ParseError::InvalidTemporalId)));
}

#[test]
fn spatial_id_overflow_is_refused() {
    let sdd = descriptor_of(&layer_overflow_packet(2));
    let r = sdd.parse(None, None);
    assert!(matches!(r, Err(ParseError::InvalidSpatialId)));
}

#[test]
fn layer_expansion_follows_the_table() {
    // Layer codes: same layer would be 0; here one temporal advance, then
    // one spatial advance that resets the temporal id, then the terminator.
    let mut w = BitWriter::new();
    push_mandatory(&mut w, true, true, 0, 0);
    w.push_bits(0b10000, 5);
    w.push_bits(0, 6);
    w.push_bits(0, 5);
    w.push_bits(1, 2);
    w.push_bits(2, 2);
    w.push_bits(3, 2);
    // Three templates, one decode target each: all Required.
    for _ in 0..3 {
        w.push_bits(3, 2);
    }
    // No frame diffs on any template.
    for _ in 0..3 {
        w.push_bits(0, 1);
    }
    // No chains, no resolutions.
    w.push_bits(0, 1);
    w.push_bits(0, 1);
    let sdd = descriptor_of(&w.finish());
    let d = sdd.parse(None, None).unwrap();
    let structure = d.updated_shared_structure.unwrap();
    let layers: Vec<(u8, u8)> = structure
        .template_by_id_minus_offset
        .iter()
        .map(|t| (t.spatial_id, t.temporal_id))
        .collect();
    assert_eq!(layers, vec![(0, 0), (0, 1), (1, 0)]);
    // The decode target's layers are the maximum over referencing templates.
    assert_eq!(d.decode_targets[0].spatial_id, 1);
    assert_eq!(d.decode_targets[0].temporal_id, 1);
}

#[test]
fn decode_target_layers_take_the_maximum_over_templates() {
    let structure = SharedStructure {
        decode_target_count: 2,
        chain_count: 0,
        protecting_chain_index_by_decode_target_index: vec![],
        resolution_by_spatial_id: None,
        template_by_id_minus_offset: vec![
            SharedStructureTemplate {
                spatial_id: 0,
                temporal_id: 1,
                decode_target_indication_by_decode_target_index: vec![
                    DecodeTargetIndication::Required,
                    DecodeTargetIndication::NotPresent,
                ],
                referred_frame_number_diffs: vec![],
                previous_frame_number_diff_by_chain_index: vec![],
            },
            SharedStructureTemplate {
                spatial_id: 2,
                temporal_id: 0,
                decode_target_indication_by_decode_target_index: vec![
                    DecodeTargetIndication::NotPresent,
                    DecodeTargetIndication::Switch,
                ],
                referred_frame_number_diffs: vec![],
                previous_frame_number_diff_by_chain_index: vec![],
            },
        ],
        template_id_offset: 0,
    };
    // Target zero is referenced only by the first template, target one only
    // by the second; a target referenced by no template sits at the base.
    assert_eq!(structure.decode_target_layers(), vec![(0, 1), (2, 0)]);
}

#[test]
fn template_frame_diffs_are_offset_by_one() {
    let mut w = BitWriter::new();
    push_mandatory(&mut w, true, true, 0, 0);
    w.push_bits(0b10000, 5);
    w.push_bits(0, 6);
    w.push_bits(0, 5);
    w.push_bits(3, 2);
    w.push_bits(1, 2);
    // One frame diff stored as fifteen: the largest template diff, sixteen.
    w.push_bits(1, 1);
    w.push_bits(15, 4);
    w.push_bits(0, 1);
    w.push_bits(0, 1);
    w.push_bits(0, 1);
    let sdd = descriptor_of(&w.finish());
    let d = sdd.parse(None, None).unwrap();
    assert_eq!(d.referred_frame_number_diffs, vec![16]);
    let structure = d.updated_shared_structure.unwrap();
    assert_eq!(
        structure.template_by_id_minus_offset[0].referred_frame_number_diffs,
        vec![16]
    );
}

#[test]
fn custom_frame_diffs_use_sized_fields() {
    let first = descriptor_of(&first_packet_bytes());
    let d0 = first.parse(None, None).unwrap();
    let structure = d0.updated_shared_structure.unwrap();

    let mut w = BitWriter::new();
    push_mandatory(&mut w, true, true, 0, 3);
    // Extended flags: custom frame diffs only.
    w.push_bits(0b00010, 5);
    // Size one: four bits, diff 10 stored as 9.
    w.push_bits(1, 2);
    w.push_bits(9, 4);
    // Size two: eight bits, diff 256 stored as 255.
    w.push_bits(2, 2);
    w.push_bits(255, 8);
    // Size three: twelve bits, diff 4096 stored as 4095.
    w.push_bits(3, 2);
    w.push_bits(4095, 12);
    // End of the list.
    w.push_bits(0, 2);
    let sdd = descriptor_of(&w.finish());
    let d = sdd.parse(Some(&structure), Some(1)).unwrap();
    assert_eq!(d.referred_frame_number_diffs, vec![10, 256, 4096]);
}

#[test]
fn custom_chain_diffs_use_eight_bits() {
    let structure = SharedStructure {
        decode_target_count: 2,
        chain_count: 2,
        protecting_chain_index_by_decode_target_index: vec![0, 1],
        resolution_by_spatial_id: None,
        template_by_id_minus_offset: vec![SharedStructureTemplate {
            spatial_id: 0,
            temporal_id: 0,
            decode_target_indication_by_decode_target_index: vec![
                DecodeTargetIndication::Switch,
                DecodeTargetIndication::Required,
            ],
            referred_frame_number_diffs: vec![],
            previous_frame_number_diff_by_chain_index: vec![1, 2],
        }],
        template_id_offset: 0,
    };
    let mut w = BitWriter::new();
    push_mandatory(&mut w, false, false, 0, 9);
    // Extended flags: custom chain diffs only.
    w.push_bits(0b00001, 5);
    w.push_bits(3, 8);
    w.push_bits(200, 8);
    let sdd = descriptor_of(&w.finish());
    let d = sdd.parse(Some(&structure), Some(0b11)).unwrap();
    assert_eq!(d.previous_frame_number_diff_by_chain_index, vec![3, 200]);
    assert!(!d.first_packet_of_frame);
    assert!(!d.last_packet_of_frame);
}

#[test]
fn chain_section_with_protecting_indices() {
    // Two decode targets, two chains; target zero protected by chain one and
    // target one by chain zero; one template with chain diffs five and nine.
    let mut w = BitWriter::new();
    push_mandatory(&mut w, true, true, 0, 0);
    w.push_bits(0b10000, 5);
    w.push_bits(0, 6);
    w.push_bits(1, 5);
    w.push_bits(3, 2);
    // Two indications for the single template.
    w.push_bits(1, 2);
    w.push_bits(1, 2);
    // No template frame diffs.
    w.push_bits(0, 1);
    // Chain count ns(3) = 2: width two, spare one, so code 10 means one...
    // ns(3): m = 1; first bit 0 => 0; else second bit: 10 => 1, 11 => 2.
    w.push_bits(0b11, 2);
    // Protecting chain for each target: ns(2) is one plain bit.
    w.push_bits(1, 1);
    w.push_bits(0, 1);
    // Chain diffs for the template: four bits each.
    w.push_bits(5, 4);
    w.push_bits(9, 4);
    // No resolutions.
    w.push_bits(0, 1);
    let sdd = descriptor_of(&w.finish());
    let d = sdd.parse(None, None).unwrap();
    let structure = d.updated_shared_structure.unwrap();
    assert_eq!(structure.chain_count, 2);
    assert_eq!(structure.protecting_chain_index_by_decode_target_index, vec![1, 0]);
    assert_eq!(
        structure.template_by_id_minus_offset[0].previous_frame_number_diff_by_chain_index,
        vec![5, 9]
    );
    assert_eq!(d.previous_frame_number_diff_by_chain_index, vec![5, 9]);
    assert_eq!(d.decode_targets[0].protecting_chain_index, Some(1));
    assert_eq!(d.decode_targets[1].protecting_chain_index, Some(0));
    // A fresh structure without an explicit bitmask activates both targets.
    assert_eq!(d.updated_active_decode_targets_bitmask, Some(0b11));
    assert!(d.decode_targets[0].active);
    assert!(d.decode_targets[1].active);
}

#[test]
fn render_resolutions_are_offset_by_one() {
    let mut w = BitWriter::new();
    push_mandatory(&mut w, true, true, 0, 0);
    w.push_bits(0b10000, 5);
    w.push_bits(0, 6);
    w.push_bits(0, 5);
    w.push_bits(3, 2);
    w.push_bits(1, 2);
    w.push_bits(0, 1);
    w.push_bits(0, 1);
    // Resolutions present: one spatial layer, 640 by 480 stored minus one.
    w.push_bits(1, 1);
    w.push_bits(639, 16);
    w.push_bits(479, 16);
    let sdd = descriptor_of(&w.finish());
    let d = sdd.parse(None, None).unwrap();
    let r = d.resolution.expect("resolution");
    assert_eq!(r.max_render_width, 640);
    assert_eq!(r.max_render_height, 480);
    let structure = d.updated_shared_structure.unwrap();
    let rs = structure.resolution_by_spatial_id.expect("resolutions");
    assert_eq!(rs.len(), 1);
    assert_eq!(rs[0].max_render_width, 640);
    assert_eq!(rs[0].max_render_height, 480);
}

#[test]
fn active_flag_without_structure_reads_cached_count_bits() {
    // With the active-present flag and no structure in the packet, the
    // bitmask spans the cached structure's decode target count.  Here the
    // packet deactivates the only decode target.
    let first = descriptor_of(&first_packet_bytes());
    let d0 = first.parse(None, None).unwrap();
    let structure = d0.updated_shared_structure.unwrap();

    let mut w = BitWriter::new();
    push_mandatory(&mut w, true, true, 0, 4);
    w.push_bits(0b01000, 5);
    w.push_bits(0, 1);
    let sdd = descriptor_of(&w.finish());
    let d = sdd.parse(Some(&structure), Some(1)).unwrap();
    assert_eq!(d.updated_active_decode_targets_bitmask, Some(0));
    assert!(d.updated_shared_structure.is_none());
    assert!(!d.decode_targets[0].active);
}

#[test]
fn active_flag_bitmask_needs_no_cached_bitmask() {
    // A packet announcing a bitmask supplies the value itself: a cached
    // structure suffices, with no cached bitmask.
    let first = descriptor_of(&first_packet_bytes());
    let d0 = first.parse(None, None).unwrap();
    let structure = d0.updated_shared_structure.unwrap();

    let mut w = BitWriter::new();
    push_mandatory(&mut w, true, true, 0, 4);
    w.push_bits(0b01000, 5);
    w.push_bits(1, 1);
    let sdd = descriptor_of(&w.finish());
    let d = sdd.parse(Some(&structure), None).unwrap();
    assert_eq!(d.updated_active_decode_targets_bitmask, Some(1));
    assert!(d.decode_targets[0].active);
}

#[test]
fn active_flag_without_any_structure_is_refused() {
    // Without a structure in the packet or the cache the bitmask's width is
    // unknowable; the parse fails on the missing structure first.
    let sdd = descriptor_of(&[0xC0, 0x00, 0x00, 0x40]);
    let r = sdd.parse(None, None);
    assert!(matches!(r, Err(ParseError::UnknownSharedStructure)));
}

#[test]
fn active_flag_bitmask_spans_the_cached_count() {
    // With a cached two-target structure the packet's bitmask is two bits;
    // the custom-indications row follows at the shifted offset.
    let structure = SharedStructure {
        decode_target_count: 2,
        chain_count: 0,
        protecting_chain_index_by_decode_target_index: vec![],
        resolution_by_spatial_id: None,
        template_by_id_minus_offset: vec![SharedStructureTemplate {
            spatial_id: 0,
            temporal_id: 0,
            decode_target_indication_by_decode_target_index: vec![
                DecodeTargetIndication::Discardable,
                DecodeTargetIndication::Discardable,
            ],
            referred_frame_number_diffs: vec![],
            previous_frame_number_diff_by_chain_index: vec![],
        }],
        template_id_offset: 0,
    };
    let mut w = BitWriter::new();
    push_mandatory(&mut w, true, true, 0, 7);
    // Active-present and custom-indications together.
    w.push_bits(0b01100, 5);
    // Bitmask over two targets: only target one stays active.
    w.push_bits(0b10, 2);
    // Custom indications: Switch, Required.
    w.push_bits(2, 2);
    w.push_bits(3, 2);
    let sdd = descriptor_of(&w.finish());
    let d = sdd.parse(Some(&structure), None).unwrap();
    assert_eq!(d.updated_active_decode_targets_bitmask, Some(0b10));
    assert!(!d.decode_targets[0].active);
    assert!(d.decode_targets[1].active);
    assert_eq!(d.decode_targets[0].indication, DecodeTargetIndication::Switch);
    assert_eq!(d.decode_targets[1].indication, DecodeTargetIndication::Required);
}

#[test]
fn explicit_bitmask_overrides_the_default() {
    // Two decode targets; the packet carries the structure and then a
    // bitmask that activates only target zero.
    let mut w = BitWriter::new();
    push_mandatory(&mut w, true, true, 0, 0);
    w.push_bits(0b11000, 5);
    w.push_bits(0, 6);
    w.push_bits(1, 5);
    w.push_bits(3, 2);
    w.push_bits(1, 2);
    w.push_bits(1, 2);
    w.push_bits(0, 1);
    w.push_bits(0, 1);
    w.push_bits(0, 1);
    // The bitmask: two bits, low bit of the mask last on the wire.
    w.push_bits(0b01, 2);
    let sdd = descriptor_of(&w.finish());
    let d = sdd.parse(None, None).unwrap();
    assert_eq!(d.updated_active_decode_targets_bitmask, Some(0b01));
    assert!(d.decode_targets[0].active);
    assert!(!d.decode_targets[1].active);
}
