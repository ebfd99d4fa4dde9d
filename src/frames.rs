//! The framing-level Acknowledge and Error frames, and their encoding.

use crate::status::{spec_code, StatusCode};
use vstd::prelude::*;
use vstd::utf8::encode_utf8;

verus! {

/// Size in bytes of an encoded Acknowledge frame.
pub const ACK_FRAME_SIZE: u32 = 28;

/// Longest reason text an Error frame can carry, so that its size fits the
/// frame's size field and the signed length of the text.
pub const MAX_REASON_LEN: usize = 0x7FFF_FFEF;

/// The little-endian bytes of `x`.
pub open spec fn spec_u32_le(x: u32) -> Seq<u8> {
    seq![
        (x % 256) as u8,
        ((x / 256) % 256) as u8,
        ((x / 65536) % 256) as u8,
        (x / 16777216) as u8,
    ]
}

/// The Acknowledge frame a server sends in reply to Hello.
#[derive(Debug, Clone, Copy, PartialEq, Eq, Structural)]
pub struct AcknowledgeMessage {
    pub protocol_version: u32,
    pub receive_buffer_size: u32,
    pub send_buffer_size: u32,
    pub max_message_size: u32,
    pub max_chunk_count: u32,
}

/// The Error frame that ends a connection.
#[derive(Debug, Clone)]
pub struct ErrorMessage {
    pub error: StatusCode,
    pub reason: String,
}

/// The UTF-8 bytes of the reason of an Error frame.
pub open spec fn spec_reason_bytes(e: ErrorMessage) -> Seq<u8> {
    encode_utf8(e.reason@)
}

/// Wire form of an Acknowledge frame: tag `ACKF`, size, then the five fields.
pub open spec fn spec_ack_bytes(a: AcknowledgeMessage) -> Seq<u8> {
    seq![0x41u8, 0x43u8, 0x4Bu8, 0x46u8] + spec_u32_le(ACK_FRAME_SIZE) + spec_u32_le(
        a.protocol_version,
    ) + spec_u32_le(a.receive_buffer_size) + spec_u32_le(a.send_buffer_size) + spec_u32_le(
        a.max_message_size,
    ) + spec_u32_le(a.max_chunk_count)
}

/// Wire form of an Error frame: tag `ERRF`, size, status code, then the
/// reason as a length-prefixed string.
pub open spec fn spec_error_bytes(e: ErrorMessage) -> Seq<u8> {
    let n = spec_reason_bytes(e).len();
    seq![0x45u8, 0x52u8, 0x52u8, 0x46u8] + spec_u32_le((16 + n) as u32) + spec_u32_le(
        spec_code(e.error),
    ) + spec_u32_le(n as u32) + spec_reason_bytes(e)
}

/// Append the little-endian bytes of `x`.
fn push_u32_le(out: &mut Vec<u8>, x: u32)
    ensures
        final(out)@ == old(out)@ + spec_u32_le(x),
{
    out.push((x % 256) as u8);
    out.push(((x / 256) % 256) as u8);
    out.push(((x / 65536) % 256) as u8);
    out.push((x / 16777216) as u8);
    assert(final(out)@ =~= old(out)@ + spec_u32_le(x));
}

impl AcknowledgeMessage {
    /// The encoded frame.
    pub fn encode(&self) -> (r: Vec<u8>)
        ensures
            r@ == spec_ack_bytes(*self),
            r@.len() == ACK_FRAME_SIZE,
    {
        let mut out: Vec<u8> = Vec::new();
        out.push(0x41);
        out.push(0x43);
        out.push(0x4B);
        out.push(0x46);
        push_u32_le(&mut out, ACK_FRAME_SIZE);
        push_u32_le(&mut out, self.protocol_version);
        push_u32_le(&mut out, self.receive_buffer_size);
        push_u32_le(&mut out, self.send_buffer_size);
        push_u32_le(&mut out, self.max_message_size);
        push_u32_le(&mut out, self.max_chunk_count);
        assert(out@ =~= spec_ack_bytes(*self));
        out
    }
}

impl ErrorMessage {
    /// The encoded frame, or `BadEncodingLimitsExceeded` when the reason is
    /// longer than `MAX_REASON_LEN` bytes.
    pub fn encode(&self) -> (r: Result<Vec<u8>, StatusCode>)
        ensures
            spec_reason_bytes(*self).len() <= MAX_REASON_LEN ==> r is Ok && r->Ok_0@
                == spec_error_bytes(*self),
            spec_reason_bytes(*self).len() > MAX_REASON_LEN ==> r == Err::<Vec<u8>, StatusCode>(
                StatusCode::BadEncodingLimitsExceeded,
            ),
    {
        let bytes = self.reason.as_str().as_bytes();
        let n = bytes.len();
        if n > MAX_REASON_LEN {
            return Err(StatusCode::BadEncodingLimitsExceeded);
        }
        let mut out: Vec<u8> = Vec::new();
        out.push(0x45);
        out.push(0x52);
        out.push(0x52);
        out.push(0x46);
        push_u32_le(&mut out, 16 + n as u32);
        push_u32_le(&mut out, self.error.code());
        push_u32_le(&mut out, n as u32);
        let ghost before = out@;
        let mut i: usize = 0;
        while i < n
            invariant
                n == bytes@.len(),
                i <= n,
                out@ == before + bytes@.take(i as int),
            decreases n - i,
        {
            out.push(bytes[i]);
            i = i + 1;
            assert(out@ =~= before + bytes@.take(i as int));
        }
        assert(bytes@.take(n as int) =~= bytes@);
        assert(out@ =~= spec_error_bytes(*self));
        Ok(out)
    }
}

} // verus!
