//! The wire format and the small parts.

use copyrpc::bytes::{get_u32, get_u64, put_bytes, put_u32, put_u64, zeroed};
use copyrpc::encoding::{
    align_down, align_up, decode_batch_header, decode_header, decode_imm, encode_batch_header,
    encode_header, encode_imm, encode_message, from_response_id, is_response, padded_message_size,
    to_response_id, ALIGNMENT, FLOW_METADATA_SIZE, HEADER_SIZE, WRAP_MESSAGE_COUNT,
};
use copyrpc::inbound::{messages_valid, take_messages};
use copyrpc::message::Format;
use copyrpc::pending::PendingCalls;
use copyrpc::ring::{next_power_of_two, ring_offset};

#[test]
fn sizes() {
    assert_eq!(ALIGNMENT, 32);
    assert_eq!(HEADER_SIZE, 16);
    assert_eq!(FLOW_METADATA_SIZE, 32);
    assert_eq!(WRAP_MESSAGE_COUNT, u32::MAX);
    assert_eq!(padded_message_size(0), 32);
    assert_eq!(padded_message_size(16), 32);
    assert_eq!(padded_message_size(17), 64);
    assert_eq!(padded_message_size(32), 64);
    assert_eq!(padded_message_size(u32::MAX), 0x1_0000_0020);
    assert_eq!((align_up(0), align_up(1), align_up(32), align_up(33)), (0, 32, 32, 64));
    assert_eq!((align_down(0), align_down(31), align_down(32), align_down(95)), (0, 0, 32, 64));
}

#[test]
fn headers_read_back() {
    let mut buf = vec![0xeeu8; 64];
    encode_header(&mut buf, 8, 0x0102_0304, 0x1112_1314_1516_1718, 0x2122_2324);
    assert_eq!(
        &buf[8..24],
        &[4, 3, 2, 1, 0x18, 0x17, 0x16, 0x15, 0x14, 0x13, 0x12, 0x11, 0x24, 0x23, 0x22, 0x21]
    );
    assert_eq!((buf[7], buf[24]), (0xee, 0xee));
    assert_eq!(decode_header(&buf, 8), (0x0102_0304, 0x1112_1314_1516_1718, 0x2122_2324));
    encode_batch_header(&mut buf, 16, 1, u64::MAX, 7);
    assert_eq!(decode_batch_header(&buf, 16), (1, u64::MAX, 7));
    assert_eq!(&buf[36..48], &[0; 12]);
    assert_eq!(buf[48], 0xee);
    encode_message(&mut buf, 0, 5, 6, b"abc");
    assert_eq!(decode_header(&buf, 0), (5, 6, 3));
    assert_eq!(&buf[16..19], b"abc");
}

#[test]
fn immediate_values_read_back() {
    for delta in [0u64, 32, 96, 1 << 20, 0x1f_ffff_ffe0] {
        assert_eq!(decode_imm(encode_imm(delta)), delta);
    }
    assert_eq!(encode_imm(96), 3);
    assert_eq!(encode_imm(0x20_0000_0000), 0);
}

#[test]
fn response_identifiers_read_back() {
    for id in [0u32, 1, 77, 0x7fff_ffff] {
        assert!(!is_response(id));
        assert!(is_response(to_response_id(id)));
        assert_eq!(from_response_id(to_response_id(id)), id);
    }
    assert_eq!(to_response_id(5), 0x8000_0005);
}

#[test]
fn bytes_in_buffers() {
    let mut buf = zeroed(16);
    assert_eq!(buf, vec![0u8; 16]);
    put_u32(&mut buf, 1, 0x0403_0201);
    assert_eq!(&buf[..6], &[0, 1, 2, 3, 4, 0]);
    assert_eq!(get_u32(&buf, 1), 0x0403_0201);
    put_u64(&mut buf, 8, 0x0807_0605_0403_0201);
    assert_eq!(get_u64(&buf, 8), 0x0807_0605_0403_0201);
    put_bytes(&mut buf, 2, &[9, 9]);
    assert_eq!(&buf[..6], &[0, 1, 9, 9, 4, 0]);
}

#[test]
fn ring_positions() {
    assert_eq!(ring_offset(0, 64), 0);
    assert_eq!(ring_offset(63, 64), 63);
    assert_eq!(ring_offset(64, 64), 0);
    assert_eq!(ring_offset(u64::MAX, 1 << 63), (1 << 63) - 1);
    assert_eq!(next_power_of_two(0), 1);
    assert_eq!(next_power_of_two(1), 1);
    assert_eq!(next_power_of_two(3), 4);
    assert_eq!(next_power_of_two(4096), 4096);
    assert_eq!(next_power_of_two(4097), 8192);
}

#[test]
fn pending_calls_keep_user_data() {
    let mut pending: PendingCalls<String> = PendingCalls::new();
    assert_eq!(pending.len(), 0);
    assert_eq!(pending.try_remove(0), None);
    let a = pending.insert("a".to_string());
    let b = pending.insert("b".to_string());
    let c = pending.insert("c".to_string());
    assert_eq!((a, b, c), (0, 1, 2));
    assert_eq!(pending.len(), 3);
    assert_eq!(pending.try_remove(b), Some("b".to_string()));
    assert_eq!(pending.try_remove(b), None);
    assert_eq!(pending.try_remove(99), None);
    assert_eq!(pending.len(), 2);
    // A freed key is used again before a new one.
    assert_eq!(pending.insert("d".to_string()), b);
    assert_eq!(pending.insert("e".to_string()), 3);
    assert_eq!(pending.try_remove(b), Some("d".to_string()));
    assert_eq!(pending.try_remove(a), Some("a".to_string()));
    assert_eq!(pending.len(), 2);
}

#[test]
fn messages_are_taken_across_the_end_of_the_ring() {
    // Two messages, the second one at the start of the ring.
    let mut ring = vec![0u8; 128];
    encode_message(&mut ring, 96, 1, 2, b"first");
    encode_message(&mut ring, 0, 2, 0, b"second");
    let mut pending: PendingCalls<u8> = PendingCalls::new();
    assert!(messages_valid(Format::Rc, &ring, 96, 2, &pending));
    let mut responses = Vec::new();
    let mut requests = Vec::new();
    let end = take_messages(
        Format::Rc,
        &ring,
        96,
        2,
        4,
        5,
        &mut pending,
        &mut responses,
        &mut requests,
    );
    assert_eq!(end, 160);
    assert_eq!(responses.len(), 0);
    assert_eq!(requests.len(), 2);
    assert_eq!((requests[0].endpoint, requests[0].id), (4, 5));
    assert_eq!((requests[0].data_offset, requests[0].response_allowance), (112, 64));
    assert_eq!((requests[1].data_offset, requests[1].data_len), (16, 6));
    // A response that runs over the end of the ring is none, where a call waits for it.
    encode_header(&mut ring, 96, 0x8000_0000, 2, 17);
    assert!(messages_valid(Format::Rc, &ring, 96, 1, &pending));
    assert_eq!(pending.insert(1), 0);
    assert!(pending.contains(0) && !pending.contains(1));
    assert!(!messages_valid(Format::Rc, &ring, 96, 1, &pending));
}
