//! The wire format: message headers, batch headers, call identifiers and the immediate value.

use vstd::prelude::*;

use crate::bytes::{
    get_u32, get_u64, le32_at, le32_bytes, le64_at, le64_bytes, lemma_le32_in_part,
    lemma_le32_round_trip,
    lemma_le64_round_trip, lemma_overwrite_twice, overwrite, put_bytes, put_u32, put_u64, zeros,
};
use crate::message::Format;

verus! {

/// Every message and every batch header takes a multiple of this many bytes.
pub const ALIGNMENT: u64 = 32;

/// Size of a message header: call identifier, piggyback, payload length.
pub const HEADER_SIZE: usize = 16;

/// Size of the header of a batch of messages.
pub const FLOW_METADATA_SIZE: usize = 32;

/// Message count of a batch that holds no message and runs to the end of the ring cycle.
pub const WRAP_MESSAGE_COUNT: u32 = 0xffff_ffff;

/// The bit of a call identifier that tells a response from a request.
pub const RESPONSE_FLAG: u32 = 0x8000_0000;

/// The bytes of a batch header: two numbers, a message count and twelve zero bytes.
pub open spec fn batch_header_bytes(first: u64, second: u64, message_count: u32) -> Seq<u8> {
    le64_bytes(first as int) + le64_bytes(second as int) + le32_bytes(message_count as int)
        + zeros(12)
}

/// The call identifier belongs to a response.
pub open spec fn response_id(call_id: int) -> bool {
    call_id >= 0x8000_0000
}

/// The identifier under which the response to request `call_id` travels.
pub open spec fn respond_to(call_id: u32) -> u32 {
    if response_id(call_id as int) {
        call_id
    } else {
        (call_id + 0x8000_0000) as u32
    }
}

/// The identifier of the request that response `call_id` answers.
pub open spec fn request_of(call_id: u32) -> u32 {
    if response_id(call_id as int) {
        (call_id - 0x8000_0000) as u32
    } else {
        call_id
    }
}

/// A batch header reads back as it was written.
pub proof fn law_batch_header_round_trip(
    ring: Seq<u8>,
    at: int,
    first: u64,
    second: u64,
    message_count: u32,
)
    requires
        0 <= at,
        at + 32 <= ring.len(),
    ensures
        ({
            let after = overwrite(ring, at, batch_header_bytes(first, second, message_count));
            &&& le64_at(after, at) == first
            &&& le64_at(after, at + 8) == second
            &&& le32_at(after, at + 16) == message_count
        }),
{
    let bytes = batch_header_bytes(first, second, message_count);
    let after = overwrite(ring, at, bytes);
    assert(bytes.len() == 32);
    assert(after.subrange(at, at + 8) =~= le64_bytes(first as int));
    lemma_le64_round_trip(after, at, first);
    assert(after.subrange(at + 8, at + 16) =~= le64_bytes(second as int));
    lemma_le64_round_trip(after, at + 8, second);
    assert(after.subrange(at + 16, at + 20) =~= le32_bytes(message_count as int));
    lemma_le32_round_trip(after, at + 16, message_count);
}

/// Batches of equal bytes have equal headers.
pub proof fn lemma_header_copied(a: Seq<u8>, at: int, b: Seq<u8>, to: int, span: int)
    requires
        0 <= at,
        0 <= to,
        32 <= span,
        at + span <= a.len(),
        to + span <= b.len(),
        a.subrange(at, at + span) == b.subrange(to, to + span),
    ensures
        le64_at(a, at) == le64_at(b, to),
        le64_at(a, at + 8) == le64_at(b, to + 8),
        le32_at(a, at + 16) == le32_at(b, to + 16),
{
    lemma_le32_in_part(a, at, at + span, 0);
    lemma_le32_in_part(a, at, at + span, 4);
    lemma_le32_in_part(a, at, at + span, 8);
    lemma_le32_in_part(a, at, at + span, 12);
    lemma_le32_in_part(a, at, at + span, 16);
    lemma_le32_in_part(b, to, to + span, 0);
    lemma_le32_in_part(b, to, to + span, 4);
    lemma_le32_in_part(b, to, to + span, 8);
    lemma_le32_in_part(b, to, to + span, 12);
    lemma_le32_in_part(b, to, to + span, 16);
}

/// An immediate value gives back the number of bytes that it was made from: a whole number of
/// blocks, of which a `u32` can count as many.
pub proof fn law_imm_round_trip(delta: int)
    requires
        0 <= delta < 0x20_0000_0000,
        delta % 32 == 0,
    ensures
        imm_of(delta) * 32 == delta,
{
}

/// The response to a request is told from a request, and names the request that it answers.
pub proof fn law_response_id_round_trip(call_id: u32)
    requires
        !response_id(call_id as int),
    ensures
        response_id(respond_to(call_id) as int),
        request_of(respond_to(call_id)) == call_id,
{
}

/// A message takes the smallest multiple of `ALIGNMENT` that holds its header and its payload.
pub proof fn law_padded_is_least(f: Format, payload_len: int, size: int)
    requires
        0 <= payload_len,
        size % 32 == 0,
        f.header() + payload_len <= size,
    ensures
        f.header() + payload_len <= f.padded(payload_len) <= size,
        f.padded(payload_len) % 32 == 0,
{
}

/// Rounds up to a multiple of `ALIGNMENT`.
pub fn align_up(n: u64) -> (r: u64)
    requires
        n <= u64::MAX - 31,
    ensures
        r == (n + 31) / 32 * 32,
{
    let t: u64 = n + (ALIGNMENT - 1);
    assert(t & !31u64 == t / 32 * 32) by (bit_vector);
    t & !(ALIGNMENT - 1)
}

/// Rounds down to a multiple of `ALIGNMENT`.
pub fn align_down(n: u64) -> (r: u64)
    ensures
        r == n / 32 * 32,
{
    assert(n & !31u64 == n / 32 * 32) by (bit_vector);
    n & !(ALIGNMENT - 1)
}

/// Bytes that a message takes in a ring.
pub fn padded_message_size(payload_len: u32) -> (r: u64)
    ensures
        r == Format::Rc.padded(payload_len as int),
        r % 32 == 0,
        32 <= r,
{
    align_up(HEADER_SIZE as u64 + payload_len as u64)
}

/// Writes a message header.
pub fn encode_header(buf: &mut Vec<u8>, at: usize, call_id: u32, piggyback: u64, payload_len: u32)
    requires
        at + 16 <= old(buf).len(),
    ensures
        final(buf)@ == overwrite(
            old(buf)@,
            at as int,
            Format::Rc.header_bytes(call_id, piggyback, payload_len as int),
        ),
{
    put_u32(buf, at, call_id);
    put_u64(buf, at + 4, piggyback);
    put_u32(buf, at + 12, payload_len);
    proof {
        let a = le32_bytes(call_id as int);
        let b = le64_bytes(piggyback as int);
        lemma_overwrite_twice(old(buf)@, at as int, a, b);
        lemma_overwrite_twice(old(buf)@, at as int, a + b, le32_bytes(payload_len as int));
    }
}

/// Writes a message: its header and, behind that, its payload.
pub fn encode_message(buf: &mut Vec<u8>, at: usize, call_id: u32, piggyback: u64, data: &[u8])
    requires
        data@.len() <= u32::MAX,
        at + 16 + data@.len() <= old(buf).len(),
    ensures
        final(buf)@ == overwrite(
            old(buf)@,
            at as int,
            Format::Rc.header_bytes(call_id, piggyback, data@.len() as int) + data@,
        ),
{
    encode_header(buf, at, call_id, piggyback, data.len() as u32);
    put_bytes(buf, at + HEADER_SIZE, data);
    proof {
        let header = Format::Rc.header_bytes(call_id, piggyback, data@.len() as int);
        assert(header.len() == 16);
        lemma_overwrite_twice(old(buf)@, at as int, header, data@);
    }
}

/// Reads a message header: call identifier, piggyback, payload length.
pub fn decode_header(buf: &[u8], at: usize) -> (r: (u32, u64, u32))
    requires
        at + 16 <= buf.len(),
    ensures
        r.0 == le32_at(buf@, at as int),
        r.1 == le64_at(buf@, at + 4),
        r.2 == le32_at(buf@, at + 12),
{
    (get_u32(buf, at), get_u64(buf, at + 4), get_u32(buf, at + 12))
}

/// Writes a batch header.
pub fn encode_batch_header(
    buf: &mut Vec<u8>,
    at: usize,
    first: u64,
    second: u64,
    message_count: u32,
)
    requires
        at + 32 <= old(buf).len(),
    ensures
        final(buf)@ == overwrite(
            old(buf)@,
            at as int,
            batch_header_bytes(first, second, message_count),
        ),
{
    put_u64(buf, at, first);
    put_u64(buf, at + 8, second);
    put_u32(buf, at + 16, message_count);
    put_u32(buf, at + 20, 0);
    put_u64(buf, at + 24, 0);
    proof {
        let a = le64_bytes(first as int);
        let b = le64_bytes(second as int);
        let c = le32_bytes(message_count as int);
        let d = le32_bytes(0);
        let e = le64_bytes(0);
        lemma_overwrite_twice(old(buf)@, at as int, a, b);
        lemma_overwrite_twice(old(buf)@, at as int, a + b, c);
        lemma_overwrite_twice(old(buf)@, at as int, a + b + c, d);
        lemma_overwrite_twice(old(buf)@, at as int, a + b + c + d, e);
        assert(a + b + c + d + e =~= a + b + c + zeros(12));
    }
}

/// Reads a batch header: two numbers and the message count.
pub fn decode_batch_header(buf: &[u8], at: usize) -> (r: (u64, u64, u32))
    requires
        at + 32 <= buf.len(),
    ensures
        r.0 == le64_at(buf@, at as int),
        r.1 == le64_at(buf@, at + 8),
        r.2 == le32_at(buf@, at + 16),
{
    (get_u64(buf, at), get_u64(buf, at + 8), get_u32(buf, at + 16))
}

/// The immediate value that tells the peer how many bytes were written.
pub open spec fn imm_of(delta: int) -> u32 {
    (delta / 32 % 0x1_0000_0000) as u32
}

/// Packs the number of bytes written, in blocks of `ALIGNMENT`, into an immediate value.
pub fn encode_imm(delta: u64) -> (imm: u32)
    ensures
        imm == imm_of(delta as int),
{
    (delta / ALIGNMENT % 0x1_0000_0000) as u32
}

/// The number of bytes that an immediate value stands for.
pub fn decode_imm(imm: u32) -> (delta: u64)
    ensures
        delta == imm * 32,
{
    imm as u64 * ALIGNMENT
}

/// Tells a response from a request.
pub fn is_response(call_id: u32) -> (r: bool)
    ensures
        r == response_id(call_id as int),
{
    assert((call_id & 0x8000_0000u32 != 0) == (call_id >= 0x8000_0000u32)) by (bit_vector);
    call_id & RESPONSE_FLAG != 0
}

/// The identifier of the response to a request.
pub fn to_response_id(call_id: u32) -> (r: u32)
    ensures
        r == respond_to(call_id),
{
    assert(call_id >= 0x8000_0000u32 ==> call_id | 0x8000_0000u32 == call_id) by (bit_vector);
    assert(call_id < 0x8000_0000u32 ==> call_id | 0x8000_0000u32 == call_id + 0x8000_0000u32)
        by (bit_vector);
    call_id | RESPONSE_FLAG
}

/// The identifier of the request that a response answers.
pub fn from_response_id(call_id: u32) -> (r: u32)
    ensures
        r == request_of(call_id),
{
    assert(call_id < 0x8000_0000u32 ==> call_id & !0x8000_0000u32 == call_id) by (bit_vector);
    assert(call_id >= 0x8000_0000u32 ==> call_id & !0x8000_0000u32 == call_id - 0x8000_0000u32)
        by (bit_vector);
    call_id & !RESPONSE_FLAG
}

/// Where each number stands in a batch header: two of eight bytes, the message count, and zeros behind.
pub proof fn law_batch_header_layout(first: u64, second: u64, message_count: u32, i: int)
    requires
        20 <= i < 32,
    ensures
        ({
            let b = batch_header_bytes(first, second, message_count);
            &&& b.len() == 32
            &&& le64_at(b, 0) == first
            &&& le64_at(b, 8) == second
            &&& le32_at(b, 16) == message_count
            &&& b[i] == 0
        }),
{
    let b = batch_header_bytes(first, second, message_count);
    assert(b.subrange(0, 8) =~= le64_bytes(first as int));
    lemma_le64_round_trip(b, 0, first);
    assert(b.subrange(8, 16) =~= le64_bytes(second as int));
    lemma_le64_round_trip(b, 8, second);
    assert(b.subrange(16, 20) =~= le32_bytes(message_count as int));
    lemma_le32_round_trip(b, 16, message_count);
}

/// The topmost of the 32 bits of a call identifier tells a response from a request, and the others tell
/// which request it is for.
pub proof fn law_topmost_bit_tells_response(call_id: u32)
    ensures
        response_id(call_id as int) <==> call_id as int / 0x8000_0000 == 1,
        respond_to(call_id) as int == 0x8000_0000 + call_id as int % 0x8000_0000,
        request_of(call_id) as int == call_id as int % 0x8000_0000,
{
}

/// An immediate value counts blocks of 32 bytes, as far as 32 bits go.
pub proof fn law_imm_counts_blocks(delta: int)
    requires
        0 <= delta,
    ensures
        imm_of(delta) as int == (delta / 32) % 0x1_0000_0000,
{
}

} // verus!
