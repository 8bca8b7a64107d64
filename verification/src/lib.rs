//! Parser for the AV1 Dependency Descriptor RTP header extension.
//!
//! The descriptor is a compact, bit-packed wire format that describes how a
//! video frame fits into a scalable coding structure: spatial and temporal
//! layers, decode targets, dependency chains and frame templates.  A selective
//! forwarding middlebox parses one descriptor per packet, against a cached
//! shared structure and active-decode-targets bitmask supplied by the caller,
//! and learns whether frames are decodable, switchable or discardable for each
//! downstream viewer.

pub mod bits;
pub mod types;
pub mod wire;
pub mod framing;
pub mod laws;
pub mod parser;

pub use bits::BitStream;
pub use framing::{Serializer, URI};
pub use parser::Parser;
pub use types::{
    ChainIndex, DecodeTarget, DecodeTargetIndication, FrameNumberDiff, ParseError, ParseResult,
    ParsedDependencyDescriptor, Resolution, SerializedDepdendencyDescriptor, SharedStructure,
    SharedStructureTemplate, SpatialId, TemporalId, TruncatedFrameNumber,
};
