//! The message header, which carries no credit.

use vstd::prelude::*;

use crate::bytes::{
    get_u32, le32_at, le32_bytes, lemma_overwrite_twice, overwrite, put_bytes, put_u32,
};
use crate::encoding::align_up;
use crate::message::Format;

verus! {

/// Size of the header of a batch of messages.
pub const BATCH_HEADER_SIZE: usize = 32;

/// Size of a message header: call identifier, payload length.
pub const DC_HEADER_SIZE: usize = 8;

/// Room in the peer's receive ring that requests and responses leave free, so that a batch that
/// only gives credit back always has a place.
pub const CREDIT_RETURN_RESERVE: u64 = 32;

/// Bytes that a message takes in a ring.
pub fn dc_padded_message_size(payload_len: u32) -> (r: u64)
    ensures
        r == Format::Dc.padded(payload_len as int),
        r % 32 == 0,
        32 <= r,
{
    align_up(DC_HEADER_SIZE as u64 + payload_len as u64)
}

/// Writes a message header.
pub fn dc_encode_header(buf: &mut Vec<u8>, at: usize, call_id: u32, payload_len: u32)
    requires
        at + 8 <= old(buf).len(),
    ensures
        final(buf)@ == overwrite(
            old(buf)@,
            at as int,
            Format::Dc.header_bytes(call_id, 0, payload_len as int),
        ),
{
    put_u32(buf, at, call_id);
    put_u32(buf, at + 4, payload_len);
    proof {
        lemma_overwrite_twice(
            old(buf)@,
            at as int,
            le32_bytes(call_id as int),
            le32_bytes(payload_len as int),
        );
    }
}

/// Reads a message header: call identifier, payload length.
pub fn dc_decode_header(buf: &[u8], at: usize) -> (r: (u32, u32))
    requires
        at + 8 <= buf.len(),
    ensures
        r.0 == le32_at(buf@, at as int),
        r.1 == le32_at(buf@, at + 4),
{
    (get_u32(buf, at), get_u32(buf, at + 4))
}

/// Writes a message: its header and, behind that, its payload.
pub fn dc_encode_message(buf: &mut Vec<u8>, at: usize, call_id: u32, data: &[u8])
    requires
        data@.len() <= u32::MAX,
        at + 8 + data@.len() <= old(buf).len(),
    ensures
        final(buf)@ == overwrite(
            old(buf)@,
            at as int,
            Format::Dc.header_bytes(call_id, 0, data@.len() as int) + data@,
        ),
{
    dc_encode_header(buf, at, call_id, data.len() as u32);
    put_bytes(buf, at + DC_HEADER_SIZE, data);
    proof {
        let header = Format::Dc.header_bytes(call_id, 0, data@.len() as int);
        assert(header.len() == 8);
        lemma_overwrite_twice(old(buf)@, at as int, header, data@);
    }
}

} // verus!
