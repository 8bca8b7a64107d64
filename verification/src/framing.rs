//! Hooks for an RTP stack to route the descriptor's opaque bytes: one- or
//! two-byte header selection, writing the bytes out, and ingesting them into
//! a lazily parsed value.

use crate::types::SerializedDepdendencyDescriptor;
use vstd::prelude::*;
use vstd::slice::slice_to_vec;

verus! {

/// URI identifying the dependency descriptor RTP header extension.
pub const URI: &'static str =
    "https://aomediacodec.github.io/av1-rtp-spec/#dependency-descriptor-rtp-header-extension";

/// Serializer of the dependency descriptor RTP header extension.
#[derive(Debug)]
pub struct Serializer;

impl Serializer {
    /// The descriptor needs the two-byte extension header form exactly when
    /// its serialized length exceeds sixteen bytes.
    pub fn needs_two_byte_header(&self, value: &SerializedDepdendencyDescriptor) -> (r: bool)
        ensures
            r == (value@.len() > 16),
    {
        value.as_bytes().len() > 16
    }

    /// Copy the serialized bytes onto the head of `buf`.  When `buf` is too
    /// small nothing is written and zero is returned; otherwise the bytes
    /// written are exactly the value's, the rest of `buf` keeps its contents,
    /// and their number is returned.  Writing into a buffer of exactly the
    /// serialized length therefore reproduces the bytes the value was made
    /// from.
    #[verifier::loop_isolation(false)]
    pub fn write_to(&self, buf: &mut Vec<u8>, value: &SerializedDepdendencyDescriptor) -> (r:
        usize)
        ensures
            if old(buf)@.len() < value@.len() {
                r == 0 && final(buf)@ == old(buf)@
            } else {
                r == value@.len() && final(buf)@ == value@ + old(buf)@.skip(value@.len() as int)
            },
    {
        let bytes = value.as_bytes();
        let len = bytes.len();
        if buf.len() < len {
            return 0;
        }
        let mut i: usize = 0;
        while i < len
            invariant
                i <= len,
                buf@.len() == old(buf)@.len(),
                forall|k: int| 0 <= k < i as int ==> buf@[k] == value@[k],
                forall|k: int| i as int <= k < buf@.len() ==> buf@[k] == old(buf)@[k],
            decreases len - i,
        {
            let b = bytes[i];
            buf[i] = b;
            i = i + 1;
        }
        proof {
            assert(buf@ =~= value@ + old(buf)@.skip(value@.len() as int));
        }
        len
    }

    /// Wrap incoming bytes into a serialized descriptor value for the
    /// caller's per-packet extension state.  Ingest always succeeds;
    /// bit-level parsing is deferred until the caller has context.
    pub fn parse_value(&self, buf: &[u8]) -> (r: SerializedDepdendencyDescriptor)
        ensures
            r@ == buf@,
    {
        SerializedDepdendencyDescriptor::from_bytes(slice_to_vec(buf))
    }

    /// The descriptor rides on video streams.
    pub fn is_video(&self) -> (r: bool)
        ensures
            r,
    {
        true
    }

    /// The descriptor does not ride on audio streams.
    pub fn is_audio(&self) -> (r: bool)
        ensures
            !r,
    {
        false
    }
}

} // verus!
