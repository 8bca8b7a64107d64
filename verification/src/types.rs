//! The data model of the dependency descriptor: the parsed descriptor, the
//! shared structure cached across packets, and their mathematical views.

use vstd::prelude::*;

verus! {

/// Identifies a video frame.  Wraps upon reaching the maximum value, so it
/// should be expanded by the caller.
pub type TruncatedFrameNumber = u16;

/// The difference between one frame number and another.
pub type FrameNumberDiff = u16;

/// Realistic range is `0..=3`.
pub type SpatialId = u8;

/// Realistic range is `0..=3`.
pub type TemporalId = u8;

/// Range is `0..=31`.
pub type ChainIndex = u8;

/// The relationship a video frame has to a Decode Target.
#[derive(Clone, PartialEq, Eq, Copy, Debug, Structural)]
pub enum DecodeTargetIndication {
    /// The current frame is not part of the Decode Target.
    NotPresent,
    /// The current frame is part of the Decode Target, but no subsequent
    /// frame of the Decode Target will depend on it, so a forwarder may
    /// discard it.
    Discardable,
    /// The current frame is part of the Decode Target, and every subsequent
    /// frame of the Decode Target will be decodable if this one is, so a
    /// forwarder may switch to the Decode Target here.
    Switch,
    /// The current frame is part of the Decode Target and is neither
    /// discardable nor a switch point.
    Required,
}

/// The indication encoded by a two-bit code.
pub open spec fn spec_dti_from_u2(u2: nat) -> DecodeTargetIndication
    recommends
        u2 < 4,
{
    if u2 == 0 {
        DecodeTargetIndication::NotPresent
    } else if u2 == 1 {
        DecodeTargetIndication::Discardable
    } else if u2 == 2 {
        DecodeTargetIndication::Switch
    } else {
        DecodeTargetIndication::Required
    }
}

impl DecodeTargetIndication {
    /// Decode a two-bit code.
    pub fn from_u2(u2: u8) -> (r: Option<DecodeTargetIndication>)
        ensures
            r == if u2 < 4 {
                Some(spec_dti_from_u2(u2 as nat))
            } else {
                None::<DecodeTargetIndication>
            },
    {
        match u2 {
            0 => Some(DecodeTargetIndication::NotPresent),
            1 => Some(DecodeTargetIndication::Discardable),
            2 => Some(DecodeTargetIndication::Switch),
            3 => Some(DecodeTargetIndication::Required),
            _ => None,
        }
    }
}

/// The maximum render width and height, typically of a spatial layer.
/// Each side is in `1..=65536`.
#[derive(Clone, Copy, Debug)]
pub struct Resolution {
    /// Maximum render width.
    pub max_render_width: u32,
    /// Maximum render height.
    pub max_render_height: u32,
}

/// How the current frame relates to one Decode Target: the subset of frames
/// necessary to decode the stream at one spatial and temporal fidelity.
#[derive(Clone, Copy, Debug)]
pub struct DecodeTarget {
    /// The spatial layer of the Decode Target.
    pub spatial_id: SpatialId,
    /// The temporal layer of the Decode Target.
    pub temporal_id: TemporalId,
    /// Whether the Decode Target is being produced.
    pub active: bool,
    /// How the current frame relates to the Decode Target.
    pub indication: DecodeTargetIndication,
    /// The index of the Chain protecting the Decode Target, if any.
    pub protecting_chain_index: Option<ChainIndex>,
}

/// A template that a frame can reference to save bytes on the wire.
#[derive(Debug)]
pub struct SharedStructureTemplate {
    /// The spatial layer of a frame referencing this template.
    pub spatial_id: SpatialId,
    /// The temporal layer of a frame referencing this template.
    pub temporal_id: TemporalId,
    /// The indication, for every Decode Target, of a frame referencing this
    /// template.
    pub decode_target_indication_by_decode_target_index: Vec<DecodeTargetIndication>,
    /// The dependencies of a frame referencing this template, as differences
    /// between its frame number and each referred frame's number.  Each is in
    /// `1..=16`.
    pub referred_frame_number_diffs: Vec<FrameNumberDiff>,
    /// For each Chain, the difference to the previous frame in the Chain.
    /// Each is in `0..=15`.
    pub previous_frame_number_diff_by_chain_index: Vec<FrameNumberDiff>,
}

/// The mathematical value of a template.
pub ghost struct TemplateView {
    pub spatial_id: SpatialId,
    pub temporal_id: TemporalId,
    pub dtis: Seq<DecodeTargetIndication>,
    pub fdiffs: Seq<FrameNumberDiff>,
    pub chain_diffs: Seq<FrameNumberDiff>,
}

impl View for SharedStructureTemplate {
    type V = TemplateView;

    open spec fn view(&self) -> TemplateView {
        TemplateView {
            spatial_id: self.spatial_id,
            temporal_id: self.temporal_id,
            dtis: self.decode_target_indication_by_decode_target_index@,
            fdiffs: self.referred_frame_number_diffs@,
            chain_diffs: self.previous_frame_number_diff_by_chain_index@,
        }
    }
}

/// Information shared between many frames of a coded video sequence; caching
/// it lets later packets avoid repeating it.
#[derive(Debug)]
pub struct SharedStructure {
    /// The number of Decode Targets.  Range: `1..=32`.
    pub decode_target_count: u8,
    /// The number of Chains.  Range: `0..=32`; zero means protection with
    /// Chains is not used.
    pub chain_count: u8,
    /// For each Decode Target, the index of the Chain protecting it; empty
    /// when Chains are not used.
    pub protecting_chain_index_by_decode_target_index: Vec<ChainIndex>,
    /// For each spatial layer, its resolution; `None` when unknown.
    pub resolution_by_spatial_id: Option<Vec<Resolution>>,
    /// Templates indexed by `(template_id - template_id_offset) % 64`.
    pub template_by_id_minus_offset: Vec<SharedStructureTemplate>,
    /// The template id that the template at index zero answers to.
    /// Range: `0..=63`.
    pub template_id_offset: u8,
}

/// The mathematical value of a shared structure.
pub ghost struct StructureView {
    pub decode_target_count: u8,
    pub chain_count: u8,
    pub protecting: Seq<ChainIndex>,
    pub resolutions: Option<Seq<Resolution>>,
    pub templates: Seq<TemplateView>,
    pub template_id_offset: u8,
}

/// The views of a sequence of templates, in order.
pub open spec fn views_of(v: Seq<SharedStructureTemplate>) -> Seq<TemplateView> {
    v.map_values(|t: SharedStructureTemplate| t@)
}

/// Appending a template appends its view.
pub proof fn lemma_views_of_push(v: Seq<SharedStructureTemplate>, t: SharedStructureTemplate)
    ensures
        views_of(v.push(t)) =~= views_of(v).push(t@),
{
}

impl View for SharedStructure {
    type V = StructureView;

    open spec fn view(&self) -> StructureView {
        StructureView {
            decode_target_count: self.decode_target_count,
            chain_count: self.chain_count,
            protecting: self.protecting_chain_index_by_decode_target_index@,
            resolutions: match self.resolution_by_spatial_id {
                Some(rs) => Some(rs@),
                None => None,
            },
            templates: views_of(self.template_by_id_minus_offset@),
            template_id_offset: self.template_id_offset,
        }
    }
}

impl StructureView {
    /// The template id offset fits its six-bit field and the decode target
    /// count its wire range of one to thirty-two.
    pub open spec fn wf(&self) -> bool {
        &&& self.template_id_offset < 64
        &&& 1 <= self.decode_target_count <= 32
    }
}

impl SharedStructure {
    /// The template id offset fits its six-bit field and the decode target
    /// count its wire range of one to thirty-two.
    pub open spec fn wf(&self) -> bool {
        self@.wf()
    }
}

/// The result of parsing one packet's descriptor against the caller's cached
/// context.
#[derive(Debug)]
pub struct ParsedDependencyDescriptor {
    /// Identifies the current frame; strictly increases in decode order and
    /// is shared by all packets of the frame.
    pub frame_number: TruncatedFrameNumber,
    /// The spatial layer of the current frame.
    pub spatial_id: SpatialId,
    /// The temporal layer of the current frame.
    pub temporal_id: TemporalId,
    /// Maximum render width and height, if known.
    pub resolution: Option<Resolution>,
    /// The positive differences between this frame's number and each referred
    /// frame's number.  Each is in `1..=4096`.
    pub referred_frame_number_diffs: Vec<FrameNumberDiff>,
    /// For every Chain, the difference to the previous frame in the Chain.
    /// Each is in `0..=255`.
    pub previous_frame_number_diff_by_chain_index: Vec<FrameNumberDiff>,
    /// True if and only if this is the first packet of the current frame.
    pub first_packet_of_frame: bool,
    /// True if and only if this is the last packet of the current frame.
    pub last_packet_of_frame: bool,
    /// Every Decode Target and how the current frame relates to it.
    pub decode_targets: Vec<DecodeTarget>,
    /// Present exactly when this packet carried a new shared structure; the
    /// caller must cache the latest value, reorder-aware, and pass it back.
    pub updated_shared_structure: Option<SharedStructure>,
    /// Present exactly when this packet carried a new active-decode-targets
    /// bitmask; cached by the caller like the shared structure.
    pub updated_active_decode_targets_bitmask: Option<u32>,
}

/// The mathematical value of a parsed descriptor.
pub ghost struct DescriptorView {
    pub frame_number: TruncatedFrameNumber,
    pub spatial_id: SpatialId,
    pub temporal_id: TemporalId,
    pub resolution: Option<Resolution>,
    pub referred_frame_number_diffs: Seq<FrameNumberDiff>,
    pub previous_frame_number_diff_by_chain_index: Seq<FrameNumberDiff>,
    pub first_packet_of_frame: bool,
    pub last_packet_of_frame: bool,
    pub decode_targets: Seq<DecodeTarget>,
    pub updated_shared_structure: Option<StructureView>,
    pub updated_active_decode_targets_bitmask: Option<u32>,
}

impl View for ParsedDependencyDescriptor {
    type V = DescriptorView;

    open spec fn view(&self) -> DescriptorView {
        DescriptorView {
            frame_number: self.frame_number,
            spatial_id: self.spatial_id,
            temporal_id: self.temporal_id,
            resolution: self.resolution,
            referred_frame_number_diffs: self.referred_frame_number_diffs@,
            previous_frame_number_diff_by_chain_index: self
                .previous_frame_number_diff_by_chain_index@,
            first_packet_of_frame: self.first_packet_of_frame,
            last_packet_of_frame: self.last_packet_of_frame,
            decode_targets: self.decode_targets@,
            updated_shared_structure: match self.updated_shared_structure {
                Some(ref s) => Some(s@),
                None => None,
            },
            updated_active_decode_targets_bitmask: self.updated_active_decode_targets_bitmask,
        }
    }
}

/// A descriptor in its serialized form: the opaque bytes of one packet's
/// header extension.  Useful when forwarding without parsing; equality and
/// clones go by the bytes.
#[derive(Debug, Clone, Eq, PartialEq)]
pub struct SerializedDepdendencyDescriptor(pub(crate) Vec<u8>);

impl View for SerializedDepdendencyDescriptor {
    type V = Seq<u8>;

    closed spec fn view(&self) -> Seq<u8> {
        self.0@
    }
}

impl SerializedDepdendencyDescriptor {
    /// Wrap the opaque bytes of one packet's header extension.
    pub fn from_bytes(bytes: Vec<u8>) -> (r: Self)
        ensures
            r@ == bytes@,
    {
        SerializedDepdendencyDescriptor(bytes)
    }

    /// The serialized bytes as they came off the wire.
    pub(crate) fn as_bytes(&self) -> (r: &[u8])
        ensures
            r@ == self@,
    {
        self.0.as_slice()
    }
}

/// The things that can go wrong when parsing a dependency descriptor.
#[derive(Clone, PartialEq, Eq, Copy, Debug, Structural)]
pub enum ParseError {
    /// The buffer ran out of bits in the middle of a field.
    NotEnoughBits,
    /// No shared structure was carried in this packet and none was cached.
    UnknownSharedStructure,
    /// No active-decode-targets bitmask was carried in this packet and none
    /// was cached.
    UnknownActiveDecodeTargetBitmask,
    /// The packet's template id falls outside the shared structure's table.
    InvalidTemplateId,
    /// A spatial id overflowed during template layer expansion.
    InvalidSpatialId,
    /// A temporal id overflowed during template layer expansion.
    InvalidTemporalId,
}

/// Parse results carry a `ParseError` on failure.
pub type ParseResult<T> = Result<T, ParseError>;

} // verus!
