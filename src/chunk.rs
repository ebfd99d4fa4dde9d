//! Chunks as the transport core sees them: opaque wire bytes, and for inbound
//! chunks the header fields that the secure channel extracted.

use vstd::prelude::*;

verus! {

/// One framed chunk of a message, as bytes on the wire.
#[derive(Debug, Clone)]
pub struct MessageChunk {
    pub data: Vec<u8>,
}

/// Whether a chunk ends its message, and how.
#[derive(Debug, Clone, Copy, PartialEq, Eq, Structural)]
pub enum MessageIsFinalType {
    /// More chunks of the same message follow ('C').
    Intermediate,
    /// The last chunk of the message ('F').
    Final,
    /// The sender aborted the message ('A').
    FinalError,
}

/// Header fields of an inbound chunk that reassembly needs.
#[derive(Debug, Clone, Copy, PartialEq, Eq, Structural)]
pub struct ChunkInfo {
    pub request_id: u32,
    pub sequence_number: u32,
    pub is_final: MessageIsFinalType,
    pub body_length: usize,
}

/// An inbound chunk with security removed, and its header fields.
#[derive(Debug, Clone)]
pub struct MessageChunkWithChunkInfo {
    pub header: ChunkInfo,
    pub data_with_header: Vec<u8>,
}

} // verus!
