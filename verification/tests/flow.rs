//! Single endpoints on reliable connections: exact values, errors and refusals.

use std::collections::VecDeque;

use copyrpc::cq::{Cqe, CqeOpcode};
use copyrpc::encoding::{decode_batch_header, decode_header, encode_batch_header, encode_message};
use copyrpc::error::{CallError, Error, PostOutcome};
use copyrpc::poll::Completion;
use copyrpc::rc::context::SendCqeBuffer;
use copyrpc::rc::info::QpConnect;
use copyrpc::rc::shared::EndpointsStep;
use copyrpc::rc::state::{RawKind, RAW_RDMA_SENTINEL_QPN};
use copyrpc::rc::step::{CallStage, CallStep, FlushStep, ReplyStage, ReplyStep};
use copyrpc::rc::{RingMemory, DEFAULT_RING_SIZE};
use copyrpc::srq::{replenish, SrqConfig, DEFAULT_CQ_SIZE, DEFAULT_SRQ_SIZE};
use copyrpc::wqe::Sge;
use copyrpc::{
    Context, ContextBuilder, Endpoint, EndpointConfig, RemoteEndpointInfo, RemoteRingInfo, SrqEntry,
};

const SEND_BASE: u64 = 0x10_0000;
const RECV_BASE: u64 = 0x20_0000;
const PEER_BASE: u64 = 0x30_0000;

fn memory(recv_len: u64) -> RingMemory {
    RingMemory {
        send_addr: SEND_BASE,
        send_lkey: 7,
        recv_addr: RECV_BASE,
        recv_rkey: 8,
        recv_len,
    }
}

fn endpoint(ring: usize) -> Endpoint<u32> {
    let config =
        EndpointConfig { send_ring_size: ring, recv_ring_size: ring, ..EndpointConfig::default() };
    let (send_ring, recv_ring) = config.allocate_rings();
    Endpoint::new(&config, 0, 100, send_ring, &memory(recv_ring.len() as u64))
}

fn peer(ring: u64, initial_credit: u64) -> RemoteEndpointInfo {
    RemoteEndpointInfo {
        qp_number: 200,
        packet_sequence_number: 3,
        local_identifier: 4,
        recv_ring_addr: PEER_BASE,
        recv_ring_rkey: 9,
        recv_ring_size: ring,
        initial_credit,
    }
}

fn connected(ring: usize, initial_credit: u64) -> Endpoint<u32> {
    let mut e = endpoint(ring);
    e.connect(&peer(ring as u64, initial_credit), 0, 1);
    e.connect_done();
    e
}

/// A receive ring with one batch at its start.
fn batch_ring(
    len: usize,
    credit_return: u64,
    credit_grant: u64,
    messages: &[(u32, u64, &[u8])],
) -> Vec<u8> {
    let mut ring = vec![0u8; len];
    encode_batch_header(&mut ring, 0, credit_return, credit_grant, messages.len() as u32);
    let mut at = 32;
    for (call_id, piggyback, data) in messages {
        encode_message(&mut ring, at, *call_id, *piggyback, data);
        at += (16 + data.len() + 31) / 32 * 32;
    }
    ring
}

#[test]
fn default_settings() {
    assert_eq!(DEFAULT_RING_SIZE, 1 << 20);
    assert_eq!(DEFAULT_SRQ_SIZE, 1024);
    assert_eq!(DEFAULT_CQ_SIZE, 4096);
    let config = EndpointConfig::default();
    assert_eq!(config.send_ring_size, 1 << 20);
    assert_eq!(config.recv_ring_size, 1 << 20);
    assert_eq!(config.max_resp_reservation, 1 << 18);
    assert_eq!(config.qp_config.max_send_wr, 256);
    assert_eq!(config.qp_config.max_recv_wr, 0);
    assert_eq!(config.qp_config.max_send_sge, 1);
    assert_eq!(config.qp_config.max_recv_sge, 1);
    assert_eq!(config.qp_config.max_inline_data, 256);
    assert!(!config.qp_config.enable_scatter_to_cqe);
    let b: ContextBuilder<u32> = Context::builder();
    assert_eq!((b.device_index, b.port, b.cq_size), (0, 1, 4096));
    assert_eq!(b.srq_config, SrqConfig { max_wr: 1024, max_sge: 1 });
    let b = b.device_index(2).port(3).cq_size(64).srq_config(SrqConfig { max_wr: 6, max_sge: 2 });
    assert_eq!((b.device_index, b.port, b.cq_size), (2, 3, 64));
    let ctx = b.build(17);
    assert_eq!((ctx.port(), ctx.lid()), (3, 17));
}

#[test]
fn ring_sizes_are_rounded_up() {
    let config =
        EndpointConfig { send_ring_size: 1000, recv_ring_size: 4097, ..EndpointConfig::default() };
    let (send_ring, recv_ring) = config.allocate_rings();
    assert_eq!(send_ring, vec![0u8; 1024]);
    assert_eq!(recv_ring, vec![0u8; 8192]);
}

#[test]
fn local_info_offers_a_quarter_of_the_send_ring() {
    let e = endpoint(4096);
    let (info, lid, port) = e.local_info(5, 2);
    assert_eq!((lid, port), (5, 2));
    assert_eq!(info.qp_number, 100);
    assert_eq!(info.recv_ring_addr, RECV_BASE);
    assert_eq!(info.recv_ring_rkey, 8);
    assert_eq!(info.recv_ring_size, 4096);
    assert_eq!(info.initial_credit, 1024);
    // A smaller policy wins.
    let config = EndpointConfig {
        send_ring_size: 4096,
        recv_ring_size: 4096,
        max_resp_reservation: 100,
        ..EndpointConfig::default()
    };
    let e: Endpoint<u32> = Endpoint::new(&config, 0, 1, vec![0; 4096], &memory(4096));
    assert_eq!(e.local_info(0, 0).0.initial_credit, 100);
}

#[test]
fn connect_tells_the_queue_pair() {
    let mut e = endpoint(4096);
    let plain = e.connect(&peer(4096, 512), 77, 2);
    assert_eq!(
        plain,
        QpConnect {
            qp_number: 200,
            packet_sequence_number: 3,
            local_identifier: 4,
            port: 2,
            local_psn: 77,
            max_rd_atomic: 0,
            max_dest_rd_atomic: 0,
            local_write: true,
            remote_write: true,
            remote_read: false,
        }
    );
    let raw = e.connect_ex(&peer(4096, 512), 77, 2, true);
    assert_eq!((raw.max_rd_atomic, raw.max_dest_rd_atomic, raw.remote_read), (16, 16, true));
    let ring = RemoteRingInfo::new(1, 2, 3);
    assert_eq!((ring.addr, ring.rkey, ring.size), (1, 2, 3));
}

#[test]
fn unconnected_endpoint_refuses() {
    let mut e = endpoint(4096);
    let mut queue = VecDeque::new();
    assert!(matches!(
        e.call(&mut queue, &[1], 5, 8),
        CallStep::Done {
            result: Err(CallError::Other(Error::RemoteConsumerUnknown)),
            ring_doorbell: false
        }
    ));
    assert_eq!(
        e.reply(&mut queue, 1, 64, &[1]),
        ReplyStep::Done(Err(Error::RemoteConsumerUnknown))
    );
    assert_eq!(e.emit_raw(), Err(Error::RemoteConsumerUnknown));
    assert!(queue.is_empty());
    assert!(!e.has_pending_send());
}

#[test]
fn call_writes_the_message_and_flush_the_header() {
    let mut e = connected(4096, 1024);
    let mut queue = VecDeque::new();
    // 64 bytes of response: 16 + 64 padded to 96, and a batch header: 128 bytes, four blocks.
    let step = e.call(&mut queue, b"hello", 5, 64);
    assert!(matches!(step, CallStep::Done { result: Ok(0), ring_doorbell: false }));
    assert_eq!(queue, VecDeque::from(vec![0]));
    assert_eq!(decode_header(e.send_ring(), 32), (0, 4, 5));
    assert_eq!(&e.send_ring()[48..53], b"hello");
    assert!(e.has_pending_send());
    // A second call stands behind the first, under the next key, and the endpoint stands once in
    // the queue.
    let step = e.call(&mut queue, &[9; 17], 6, 0);
    assert!(matches!(step, CallStep::Done { result: Ok(1), ring_doorbell: false }));
    assert_eq!(decode_header(e.send_ring(), 64), (1, 2, 17));
    assert_eq!(queue.len(), 1);
    let wqe = match e.flush() {
        FlushStep::Post(wqe) => wqe,
        FlushStep::Done { .. } => panic!("nothing to send"),
    };
    // The policy of 1024 bytes is granted already, so there is no more to grant.
    assert_eq!(decode_batch_header(e.send_ring(), 0), (0, 0, 2));
    assert_eq!(wqe.remote_addr, PEER_BASE);
    assert_eq!(wqe.rkey, 9);
    assert_eq!(wqe.imm, 4);
    assert_eq!((wqe.inline_offset, wqe.inline_len), (0, 128));
    assert_eq!(wqe.sge, None);
    assert_eq!(wqe.signaled, None);
    assert_eq!(e.flush_posted(PostOutcome::Posted), Ok(()));
    assert!(!e.has_pending_send());
    assert_eq!(e.flush(), FlushStep::Done { ring_doorbell: false });
}

#[test]
fn large_batch_is_inline_and_gathered() {
    let mut e = connected(4096, 1024);
    let mut queue = VecDeque::new();
    // 32 + 192 = 224 bytes are more than go inline alone.
    e.call(&mut queue, &[1; 176], 5, 0);
    match e.flush() {
        FlushStep::Post(wqe) => {
            assert_eq!((wqe.inline_offset, wqe.inline_len), (0, 204));
            assert_eq!(wqe.sge, Some(Sge { addr: SEND_BASE + 204, len: 20, lkey: 7 }));
        }
        FlushStep::Done { .. } => panic!("nothing to send"),
    }
    let mut e = connected(4096, 1024);
    // 32 + 160 = 192 bytes go inline.
    e.call(&mut queue, &[1; 144], 5, 0);
    match e.flush() {
        FlushStep::Post(wqe) => {
            assert_eq!((wqe.inline_len, wqe.sge), (192, None));
            assert_eq!(wqe.imm, 6);
        }
        FlushStep::Done { .. } => panic!("nothing to send"),
    }
}

#[test]
fn one_work_request_in_sixty_five_is_signaled() {
    let mut e = connected(1 << 16, 1 << 14);
    let mut queue = VecDeque::new();
    for i in 0..131 {
        assert_eq!(e.reply(&mut queue, i, 0, &[]), ReplyStep::Done(Ok(())));
        match e.flush() {
            FlushStep::Post(wqe) => {
                let expected = if i % 65 == 64 { Some(SrqEntry { qpn: 100 }) } else { None };
                assert_eq!(wqe.signaled, expected);
            }
            FlushStep::Done { .. } => panic!("nothing to send"),
        }
        assert_eq!(e.flush_posted(PostOutcome::Posted), Ok(()));
    }
}

#[test]
fn too_little_credit_is_refused_after_a_flush() {
    let mut e = connected(4096, 100);
    let mut queue = VecDeque::new();
    // Nothing to send: refused at once.
    match e.call(&mut queue, b"x", 9, 64) {
        CallStep::Done { result: Err(CallError::InsufficientCredit(9)), ring_doorbell: false } => {}
        other => panic!("unexpected step: {:?}", other),
    }
    // 64 bytes of credit are enough for an empty response. Then 36 are left.
    assert!(matches!(
        e.call(&mut queue, b"x", 1, 0),
        CallStep::Done { result: Ok(0), .. }
    ));
    // Something to send: it goes out first.
    let pending = match e.call(&mut queue, b"x", 2, 0) {
        CallStep::Post(pending) => pending,
        other => panic!("unexpected step: {:?}", other),
    };
    assert_eq!(pending.stage, CallStage::CreditFlush);
    assert_eq!(pending.allowance, 64);
    match e.call_posted(&mut queue, b"x", pending, PostOutcome::Posted) {
        CallStep::Done { result: Err(CallError::InsufficientCredit(2)), ring_doorbell: true } => {}
        other => panic!("unexpected step: {:?}", other),
    }
    assert!(!e.has_pending_send());
}

#[test]
fn failed_flush_of_a_refused_call_is_an_io_error() {
    let mut e = connected(4096, 64);
    let mut queue = VecDeque::new();
    e.call(&mut queue, b"x", 1, 0);
    let pending = match e.call(&mut queue, b"x", 2, 0) {
        CallStep::Post(pending) => pending,
        other => panic!("unexpected step: {:?}", other),
    };
    match e.call_posted(&mut queue, b"x", pending, PostOutcome::Failed) {
        CallStep::Done { result: Err(CallError::Other(Error::Io)), ring_doorbell: false } => {}
        other => panic!("unexpected step: {:?}", other),
    }
    assert!(e.has_pending_send());
    assert_eq!(e.flush_posted(PostOutcome::QueueFull), Err(Error::Io));
}

#[test]
fn full_ring_is_refused_after_a_flush() {
    // Half of the peer's ring is left beside twice the reservation of a quarter.
    let mut e = connected(1024, 1 << 20);
    let mut queue = VecDeque::new();
    let mut taken = 0u32;
    let pending = loop {
        match e.call(&mut queue, &[0; 48], taken, 0) {
            CallStep::Done { result: Ok(id), .. } => {
                assert_eq!(id, taken);
                taken += 1;
            }
            CallStep::Post(pending) => break pending,
            other => panic!("unexpected step: {:?}", other),
        }
    };
    // 32 + 64 * 7 = 480, and 544 would not leave 512 of 1024.
    assert_eq!(taken, 7);
    assert_eq!(pending.stage, CallStage::SpaceFlush);
    match e.call_posted(&mut queue, &[0; 48], pending, PostOutcome::Posted) {
        CallStep::Done { result: Err(CallError::RingFull(7)), ring_doorbell: true } => {}
        other => panic!("unexpected step: {:?}", other),
    }
    match e.call(&mut queue, &[0; 48], 8, 0) {
        CallStep::Done { result: Err(CallError::RingFull(8)), ring_doorbell: false } => {}
        other => panic!("unexpected step: {:?}", other),
    }
}

#[test]
fn wrap_closes_the_batch_and_skips_to_the_next_cycle() {
    let mut e = connected(1024, 1 << 20);
    let mut queue = VecDeque::new();
    e.call(&mut queue, &[0; 400], 1, 0);
    // The peer reports that it has read 1024 bytes.
    let ring = batch_ring(1024, 1024, 0, &[]);
    let mut requests = Vec::new();
    assert!(e.batch_valid(&ring, 1));
    e.receive(&ring, 1, &mut requests);
    let data = [3u8; 600];
    let pending = match e.call(&mut queue, &data, 2, 0) {
        CallStep::Post(pending) => pending,
        other => panic!("unexpected step: {:?}", other),
    };
    assert_eq!(pending.stage, CallStage::CloseBatch);
    assert_eq!(pending.wqe.imm, 14);
    assert_eq!(decode_batch_header(e.send_ring(), 0), (32, 0, 1));
    let pending = match e.call_posted(&mut queue, &data, pending, PostOutcome::Posted) {
        CallStep::Post(pending) => pending,
        other => panic!("unexpected step: {:?}", other),
    };
    assert_eq!(pending.stage, CallStage::Wrap);
    // The batch took 448 bytes, and 576 are skipped.
    assert_eq!(pending.wqe.imm, 18);
    assert_eq!(pending.wqe.remote_addr, PEER_BASE + 448);
    assert_eq!(decode_batch_header(e.send_ring(), 448), (0, 0, u32::MAX));
    match e.call_posted(&mut queue, &data, pending, PostOutcome::Posted) {
        // Position 1056 plus 640 bytes beside 512 reserved: more than the 1024 of the peer's ring,
        // of which 1024 were read.
        CallStep::Done { result: Err(CallError::RingFull(2)), ring_doorbell: true } => {}
        other => panic!("unexpected step: {:?}", other),
    }
    // A smaller request goes to the start of the new cycle.
    match e.call(&mut queue, &[4; 100], 3, 0) {
        CallStep::Done { result: Ok(1), .. } => {}
        other => panic!("unexpected step: {:?}", other),
    }
    assert_eq!(decode_header(e.send_ring(), 32), (1, 2, 100));
}

#[test]
fn refused_wrap_is_an_io_error_and_is_tried_again() {
    let mut e = connected(256, 1 << 20);
    let mut queue = VecDeque::new();
    for i in 0..2 {
        assert_eq!(e.reply(&mut queue, i, 0, &[0; 16]), ReplyStep::Done(Ok(())));
        e.flush();
        assert_eq!(e.flush_posted(PostOutcome::Posted), Ok(()));
    }
    let data = [5u8; 100];
    let step = e.reply(&mut queue, 2, 0, &data);
    assert!(matches!(step, ReplyStep::Post { stage: ReplyStage::Wrap, .. }));
    assert_eq!(
        e.reply_posted(&mut queue, 2, 0, &data, ReplyStage::Wrap, PostOutcome::Failed),
        ReplyStep::Done(Err(Error::Io))
    );
    let step = e.reply(&mut queue, 2, 0, &data);
    match step {
        ReplyStep::Post { stage: ReplyStage::Wrap, wqe } => {
            assert_eq!(wqe.imm, 4);
            assert_eq!(wqe.remote_addr, PEER_BASE + 128);
        }
        other => panic!("unexpected step: {:?}", other),
    }
    assert_eq!(
        e.reply_posted(&mut queue, 2, 0, &data, ReplyStage::Wrap, PostOutcome::Posted),
        ReplyStep::Done(Ok(()))
    );
    // The response stands behind the header at the start of the cycle, marked as a response.
    assert_eq!(decode_header(e.send_ring(), 32), (0x8000_0002, 0, 100));
}

#[test]
fn reply_behind_a_batch_closes_it() {
    let mut e = connected(256, 1 << 20);
    let mut queue = VecDeque::new();
    assert_eq!(e.reply(&mut queue, 0, 0, &[0; 100]), ReplyStep::Done(Ok(())));
    let data = [5u8; 100];
    let step = e.reply(&mut queue, 1, 0, &data);
    assert!(matches!(step, ReplyStep::Post { stage: ReplyStage::CloseBatch, .. }));
    let step =
        e.reply_posted(&mut queue, 1, 0, &data, ReplyStage::CloseBatch, PostOutcome::Posted);
    assert!(matches!(step, ReplyStep::Post { stage: ReplyStage::Wrap, .. }));
    let step = e.reply_posted(&mut queue, 1, 0, &data, ReplyStage::Wrap, PostOutcome::Posted);
    assert_eq!(step, ReplyStep::Done(Ok(())));
    assert_eq!(&e.send_ring()[48..148], &data);
}

#[test]
fn requests_and_responses_are_told_apart() {
    let mut e = connected(4096, 1024);
    let mut queue = VecDeque::new();
    e.call(&mut queue, b"a", 10, 0);
    e.call(&mut queue, b"b", 11, 0);
    let ring = batch_ring(
        4096,
        64,
        96,
        &[
            (7, 3, b"request"),
            (0x8000_0001, 0, b"for b"),
            (0x8000_0005, 0, b"for nobody"),
            (0x8000_0001, 0, b"for b again"),
            (8, 0, b""),
        ],
    );
    let mut requests = Vec::new();
    let responses = e.receive(&ring, 8, &mut requests);
    assert_eq!(responses.len(), 1);
    assert_eq!(responses[0].user_data, 11);
    assert_eq!(responses[0].data(&ring), b"for b");
    assert_eq!(requests.len(), 2);
    assert_eq!((requests[0].call_id, requests[0].response_allowance), (7, 96));
    let at = requests[0].data_offset;
    assert_eq!(&ring[at..at + requests[0].data_len], b"request");
    assert_eq!((requests[1].call_id, requests[1].data_len), (8, 0));
    // The freed key is given to the next call.
    assert!(matches!(
        e.call(&mut queue, b"c", 12, 0),
        CallStep::Done { result: Ok(1), .. }
    ));
    assert!(matches!(
        e.call(&mut queue, b"d", 13, 0),
        CallStep::Done { result: Ok(2), .. }
    ));
}

#[test]
fn reply_frees_reservation_which_is_granted_again() {
    let mut e = connected(4096, 1024);
    let mut queue = VecDeque::new();
    // The endpoint starts with a reservation of 1024, all of its policy.
    assert_eq!(e.reply(&mut queue, 3, 160, b"ok"), ReplyStep::Done(Ok(())));
    e.flush();
    assert_eq!(decode_batch_header(e.send_ring(), 0), (0, 160, 1));
    assert_eq!(e.flush_posted(PostOutcome::Posted), Ok(()));
    // An allowance beyond the reservation frees all of it, and grants come in whole blocks.
    assert_eq!(e.reply(&mut queue, 4, 5000, b"ok"), ReplyStep::Done(Ok(())));
    e.flush();
    assert_eq!(decode_batch_header(e.send_ring(), 64), (0, 1024, 1));
}

#[test]
fn grant_leaves_room_for_what_is_in_flight() {
    let mut e = connected(1024, 1 << 20);
    let mut queue = VecDeque::new();
    // 32 + 640 bytes in flight: (1024 - 672) / 2 = 176 bytes, rounded down to blocks.
    assert_eq!(e.reply(&mut queue, 0, 256, &[0; 600]), ReplyStep::Done(Ok(())));
    e.flush();
    assert_eq!(decode_batch_header(e.send_ring(), 0), (0, 160, 1));
}

#[test]
fn malformed_batches_are_seen() {
    let mut e = connected(256, 64);
    let mut queue = VecDeque::new();
    e.call(&mut queue, b"", 9, 0);
    let mut ring = batch_ring(256, 0, 0, &[(1, 0, b"x")]);
    assert!(e.batch_valid(&ring, 2));
    assert!(!e.batch_valid(&ring[..128], 2));
    // A response of more payload than the ring holds, to a call in progress.
    encode_message(&mut ring, 32, 0x8000_0000, 0, &[0; 200]);
    assert!(e.batch_valid(&ring, 2));
    ring[44] = 225;
    assert!(!e.batch_valid(&ring, 2));
    // A wrap of no bytes.
    let mut ring = batch_ring(256, 0, 0, &[]);
    encode_batch_header(&mut ring, 0, 0, 0, u32::MAX);
    assert!(!e.batch_valid(&ring, 0));
    assert!(e.batch_valid(&ring, 1));
    // Numbers that take a position out of range.
    let ring = batch_ring(256, u64::MAX, 0, &[]);
    assert!(e.batch_valid(&ring, 2));
    let mut e = connected(256, 1);
    let mut requests = Vec::new();
    e.receive(&ring, 2, &mut requests);
    let mut ring = batch_ring(256, 1, 0, &[]);
    ring.rotate_right(32);
    assert!(!e.batch_valid(&ring, 2));
}

#[test]
fn overlong_messages_without_a_call_are_kept_or_skipped() {
    let mut e = connected(256, 64);
    let mut queue = VecDeque::new();
    e.call(&mut queue, b"", 9, 0);
    // A response to no call, of 1000 bytes, takes 1024 bytes of positions. Then a request of 1000
    // bytes at the same offset, and one whose allowance is no number of 64 bits.
    let mut ring = batch_ring(256, 0, 0, &[(0x8000_0005, 0, b"x")]);
    ring[44] = 0xe8;
    ring[45] = 3;
    assert!(e.batch_valid(&ring, 1));
    let mut requests = Vec::new();
    assert_eq!(e.receive(&ring, 1, &mut requests).len(), 0);
    assert_eq!(requests.len(), 0);
    // The position is now 32 + 1024, at offset 32.
    let mut ring = vec![0u8; 256];
    encode_batch_header(&mut ring, 32, 0, 0, 1);
    encode_message(&mut ring, 64, 7, (1 << 59) + 3, b"y");
    ring[76] = 0xe8;
    ring[77] = 3;
    assert!(e.batch_valid(&ring, 1));
    assert_eq!(e.receive(&ring, 1, &mut requests).len(), 0);
    assert_eq!((requests[0].data_offset, requests[0].data_len), (80, 1000));
    assert_eq!(requests[0].response_allowance, 96);
    // The second response to a call in one batch ends no call, and may be of any length.
    let mut e = connected(256, 64);
    e.call(&mut queue, b"", 9, 0);
    let mut ring = batch_ring(256, 0, 0, &[(0x8000_0000, 0, b"a"), (0x8000_0000, 0, b"b")]);
    ring[77] = 9;
    assert!(e.batch_valid(&ring, 1));
    let responses = e.receive(&ring, 1, &mut requests);
    assert_eq!(responses.len(), 1);
    assert_eq!(responses[0].data(&ring), b"a");
}

#[test]
fn overlong_request_can_be_told() {
    let mut ctx = one_endpoint_context(256);
    let mut ring = batch_ring(256, 0, 0, &[(4, 2, b"one")]);
    let completions = [Completion { cqe: success(100, 2), recv_ring: &ring }];
    assert!(!ctx.poll_recv_only(&completions).malformed);
    assert!(ctx.recv().unwrap().is_whole(&ring));
    encode_batch_header(&mut ring, 64, 0, 0, 1);
    encode_message(&mut ring, 96, 5, 0, b"two");
    ring[96 + 12] = 200;
    let completions = [Completion { cqe: success(100, 2), recv_ring: &ring }];
    assert!(!ctx.poll_recv_only(&completions).malformed);
    assert!(!ctx.recv().unwrap().is_whole(&ring));
}

#[test]
fn raw_operations_are_counted() {
    let mut e = connected(4096, 0);
    assert_eq!(e.raw_rdma_pending(), 0);
    let read = e.post_rdma_read(11, 12, 13, 14, 15);
    assert_eq!(read.kind, RawKind::Read);
    assert_eq!((read.remote_addr, read.rkey), (11, 12));
    assert_eq!(read.sge, Sge { addr: 13, len: 15, lkey: 14 });
    assert_eq!(read.signaled.qpn, RAW_RDMA_SENTINEL_QPN);
    // One that the device refuses is not outstanding.
    assert_eq!(e.rdma_posted(PostOutcome::QueueFull), Err(Error::Io));
    assert_eq!(e.rdma_posted(PostOutcome::Failed), Err(Error::Io));
    assert_eq!(e.raw_rdma_pending(), 0);
    assert_eq!(e.rdma_posted(PostOutcome::Posted), Ok(()));
    assert_eq!(e.raw_rdma_pending(), 1);
    let write = e.post_rdma_write(1, 2, 3, 4, 5);
    assert_eq!(write.kind, RawKind::Write);
    assert_eq!(e.rdma_posted(PostOutcome::Posted), Ok(()));
    assert_eq!(e.raw_rdma_pending(), 2);
    e.raw_rdma_completed();
    assert_eq!(e.raw_rdma_pending(), 1);
    e.raw_rdma_completed();
    e.raw_rdma_completed();
    assert_eq!(e.raw_rdma_pending(), u32::MAX);
}

/// Bytes that an endpoint has read and not told its peer of.
fn untold(e: &mut Endpoint<u32>, at: usize) -> u64 {
    let mut queue = VecDeque::new();
    assert_eq!(e.reply(&mut queue, 0, 0, b""), ReplyStep::Done(Ok(())));
    e.flush();
    decode_batch_header(e.send_ring(), at).0
}

#[test]
fn wrap_goes_as_far_as_was_announced() {
    // A wrap whose header ends the ring cycle.
    let mut e = connected(64, 0);
    let mut requests = Vec::new();
    e.receive(&batch_ring(64, 0, 0, &[]), 1, &mut requests);
    let mut ring = vec![0u8; 64];
    encode_batch_header(&mut ring, 32, 0, 0, u32::MAX);
    assert!(e.batch_valid(&ring, 1));
    assert_eq!(e.receive(&ring, 1, &mut requests).len(), 0);
    assert_eq!(requests.len(), 0);
    // The header of the next batch, which is a wrap, tells of 64 bytes.
    let mut queue = VecDeque::new();
    assert!(matches!(
        e.reply(&mut queue, 0, 0, b""),
        ReplyStep::Post { stage: ReplyStage::Wrap, .. }
    ));
    let (told, _, count) = decode_batch_header(e.send_ring(), 0);
    assert_eq!((told, count), (64, u32::MAX));
}

/// An endpoint whose peer holds no credit.
fn without_credit(ring: usize, peer_ring: u64, initial_credit: u64) -> Endpoint<u32> {
    let config = EndpointConfig {
        send_ring_size: ring,
        recv_ring_size: ring,
        max_resp_reservation: 0,
        ..EndpointConfig::default()
    };
    let (send_ring, _) = config.allocate_rings();
    let mut e = Endpoint::new(&config, 0, 100, send_ring, &memory(ring as u64));
    e.connect(&peer(peer_ring, initial_credit), 0, 1);
    e.connect_done();
    e
}

#[test]
fn message_that_fills_a_cycle_goes_behind_a_wrap() {
    let mut queue = VecDeque::new();
    // The reply would take the batch exactly to the end of the ring.
    let mut e = without_credit(64, 8192, 0);
    match e.reply(&mut queue, 1, 0, &[7; 16]) {
        ReplyStep::Post { stage: ReplyStage::Wrap, wqe } => {
            assert_eq!((wqe.imm, wqe.remote_addr), (2, PEER_BASE));
        }
        other => panic!("unexpected step: {:?}", other),
    }
    assert_eq!(
        e.reply_posted(&mut queue, 1, 0, &[7; 16], ReplyStage::Wrap, PostOutcome::Posted),
        ReplyStep::Done(Ok(()))
    );
    match e.flush() {
        FlushStep::Post(wqe) => assert_eq!((wqe.imm, wqe.remote_addr), (2, PEER_BASE + 64)),
        other => panic!("unexpected step: {:?}", other),
    }
    // Behind the wrap the peer's ring has no room for the request.
    let mut e = without_credit(256, 256, 1 << 20);
    let pending = match e.call(&mut queue, &[7; 208], 5, 0) {
        CallStep::Post(pending) => pending,
        other => panic!("unexpected step: {:?}", other),
    };
    assert_eq!(pending.stage, CallStage::Wrap);
    assert!(matches!(
        e.call_posted(&mut queue, &[7; 208], pending, PostOutcome::Posted),
        CallStep::Done { result: Err(CallError::RingFull(5)), ring_doorbell: true }
    ));
    // The wrap itself has no room either.
    let mut e = without_credit(256, 128, 1 << 20);
    assert!(matches!(
        e.call(&mut queue, &[7; 208], 5, 0),
        CallStep::Done { result: Err(CallError::RingFull(5)), ring_doorbell: false }
    ));
    assert_eq!(e.reply(&mut queue, 1, 0, &[7; 208]), ReplyStep::Done(Err(Error::RingFull)));
}

#[test]
fn reply_behind_a_full_cycle_is_placed() {
    // The peer's ring has room for one more cycle, or has none.
    for (peer_ring, wraps) in [(8192u64, true), (256, false)] {
        let mut e = without_credit(128, peer_ring, 0);
        let mut queue = VecDeque::new();
        let data = [7u8; 80];
        assert!(matches!(
            e.reply(&mut queue, 1, 0, &data),
            ReplyStep::Post { stage: ReplyStage::Wrap, .. }
        ));
        assert_eq!(
            e.reply_posted(&mut queue, 1, 0, &data, ReplyStage::Wrap, PostOutcome::Posted),
            ReplyStep::Done(Ok(()))
        );
        // The open batch fills the cycle.
        assert!(matches!(
            e.reply(&mut queue, 2, 0, b"x"),
            ReplyStep::Post { stage: ReplyStage::CloseBatch, .. }
        ));
        let step =
            e.reply_posted(&mut queue, 2, 0, b"x", ReplyStage::CloseBatch, PostOutcome::Posted);
        if wraps {
            match step {
                ReplyStep::Post { stage: ReplyStage::Wrap, wqe } => {
                    assert_eq!((wqe.imm, wqe.remote_addr), (4, PEER_BASE + 256));
                }
                other => panic!("unexpected step: {:?}", other),
            }
        } else {
            assert_eq!(step, ReplyStep::Done(Ok(())));
            assert_eq!(decode_header(e.send_ring(), 32), (0x8000_0002, 0, 1));
        }
    }
}

#[test]
fn refused_call_is_taken_when_all_is_reported() {
    let mut e = without_credit(256, 256, 1 << 20);
    let mut queue = VecDeque::new();
    let mut requests = Vec::new();
    let data = [7u8; 160];
    assert!(matches!(e.call(&mut queue, &data, 1, 0), CallStep::Done { result: Ok(0), .. }));
    e.flush();
    assert_eq!(e.flush_posted(PostOutcome::Posted), Ok(()));
    let pending = match e.call(&mut queue, &data, 2, 0) {
        CallStep::Post(pending) => pending,
        other => panic!("unexpected step: {:?}", other),
    };
    assert_eq!((pending.stage, pending.wqe.imm), (CallStage::Wrap, 1));
    assert!(matches!(
        e.call_posted(&mut queue, &data, pending, PostOutcome::Posted),
        CallStep::Done { result: Err(CallError::RingFull(2)), ring_doorbell: true }
    ));
    e.receive(&batch_ring(256, 256, 0, &[]), 1, &mut requests);
    assert!(matches!(e.call(&mut queue, &data, 2, 0), CallStep::Done { result: Ok(1), .. }));
}

#[test]
fn both_sides_meet_behind_a_wrap_whose_header_ends_the_cycle() {
    for recv_len in [256usize, 1024] {
        let mut sender = endpoint(256);
        sender.connect(&peer(recv_len as u64, 1 << 20), 0, 1);
        sender.connect_done();
        let config = EndpointConfig {
            send_ring_size: 1024,
            recv_ring_size: recv_len,
            ..EndpointConfig::default()
        };
        let (send_ring, mut recv_ring) = config.allocate_rings();
        let mut reader: Endpoint<u32> =
            Endpoint::new(&config, 1, 101, send_ring, &memory(recv_len as u64));
        reader.connect(&peer(256, 0), 0, 1);
        reader.connect_done();
        let mut queue = VecDeque::new();
        let mut requests = Vec::new();
        let mut deliver = |e: &Endpoint<u32>, len: usize, imm: u32, addr: u64, from: usize| {
            let to = (addr - PEER_BASE) as usize;
            recv_ring[to..to + len].copy_from_slice(&e.send_ring()[from..from + len]);
            assert!(reader.batch_valid(&recv_ring, imm));
            reader.receive(&recv_ring, imm, &mut requests);
        };
        // A batch of 224 bytes.
        assert_eq!(sender.reply(&mut queue, 0, 0, &[1; 176]), ReplyStep::Done(Ok(())));
        match sender.flush() {
            FlushStep::Post(wqe) => deliver(&sender, 224, wqe.imm, wqe.remote_addr, 0),
            other => panic!("unexpected step: {:?}", other),
        }
        assert_eq!(sender.flush_posted(PostOutcome::Posted), Ok(()));
        // A wrap of 32 bytes, then the reply at the start of the next cycle.
        match sender.reply(&mut queue, 1, 0, b"next") {
            ReplyStep::Post { stage: ReplyStage::Wrap, wqe } => {
                assert_eq!((wqe.imm, wqe.remote_addr), (1, PEER_BASE + 224));
                deliver(&sender, 32, wqe.imm, wqe.remote_addr, 224);
            }
            other => panic!("unexpected step: {:?}", other),
        }
        assert_eq!(
            sender.reply_posted(&mut queue, 1, 0, b"next", ReplyStage::Wrap, PostOutcome::Posted),
            ReplyStep::Done(Ok(()))
        );
        match sender.flush() {
            FlushStep::Post(wqe) => {
                assert_eq!(wqe.remote_addr, PEER_BASE + 256 % recv_len as u64);
                deliver(&sender, 64, wqe.imm, wqe.remote_addr, 0);
            }
            other => panic!("unexpected step: {:?}", other),
        }
        assert_eq!(untold(&mut reader, 0), 256 + 64);
    }
}

#[test]
fn refused_batch_keeps_its_credit() {
    let mut e = connected(4096, 1024);
    let mut queue = VecDeque::new();
    let mut requests = Vec::new();
    // 64 bytes read, and 160 of the reservation free.
    e.receive(&batch_ring(4096, 0, 0, &[(1, 5, b"q")]), 2, &mut requests);
    assert_eq!(e.reply(&mut queue, 1, 160, b"ok"), ReplyStep::Done(Ok(())));
    for outcome in [PostOutcome::Failed, PostOutcome::QueueFull] {
        assert!(matches!(e.flush(), FlushStep::Post(_)));
        assert_eq!(decode_batch_header(e.send_ring(), 0), (64, 160, 1));
        assert_eq!(e.flush_posted(outcome), Err(Error::Io));
    }
    assert!(matches!(e.flush(), FlushStep::Post(_)));
    assert_eq!(decode_batch_header(e.send_ring(), 0), (64, 160, 1));
    assert_eq!(e.flush_posted(PostOutcome::Posted), Ok(()));
    // Told and granted once.
    assert_eq!(e.reply(&mut queue, 2, 0, b"ok"), ReplyStep::Done(Ok(())));
    e.flush();
    assert_eq!(decode_batch_header(e.send_ring(), 64), (0, 0, 1));
}

#[test]
fn refused_wrap_comes_first() {
    let mut e = connected(256, 1 << 20);
    let mut queue = VecDeque::new();
    assert_eq!(e.reply(&mut queue, 0, 0, &[0; 100]), ReplyStep::Done(Ok(())));
    e.flush();
    assert_eq!(e.flush_posted(PostOutcome::Posted), Ok(()));
    let data = [5u8; 40];
    assert!(matches!(
        e.reply(&mut queue, 1, 0, &data),
        ReplyStep::Post { stage: ReplyStage::Wrap, .. }
    ));
    assert_eq!(
        e.reply_posted(&mut queue, 1, 0, &data, ReplyStage::Wrap, PostOutcome::QueueFull),
        ReplyStep::Done(Err(Error::Io))
    );
    // A shorter reply would fit before the end of the cycle, but the wrap comes first.
    match e.reply(&mut queue, 1, 0, b"short") {
        ReplyStep::Post { stage: ReplyStage::Wrap, wqe } => {
            assert_eq!((wqe.imm, wqe.remote_addr), (3, PEER_BASE + 160));
        }
        other => panic!("unexpected step: {:?}", other),
    }
    assert_eq!(
        e.reply_posted(&mut queue, 1, 0, b"short", ReplyStage::Wrap, PostOutcome::Posted),
        ReplyStep::Done(Ok(()))
    );
    assert_eq!(decode_header(e.send_ring(), 32), (0x8000_0001, 0, 5));
    match e.flush() {
        FlushStep::Post(wqe) => assert_eq!((wqe.imm, wqe.remote_addr), (2, PEER_BASE)),
        other => panic!("unexpected step: {:?}", other),
    }
}

#[test]
fn wide_response_allowance_is_not_cut() {
    for allowance in [1u64 << 32, (1 << 32) + 5, u64::MAX - 80, u64::MAX - 79, u64::MAX] {
        let mut e = connected(4096, 64);
        let mut queue = VecDeque::new();
        match e.call(&mut queue, b"x", 3, allowance) {
            CallStep::Done {
                result: Err(CallError::InsufficientCredit(3)), ring_doorbell: false,
            } => {}
            other => panic!("unexpected step: {:?}", other),
        }
        // No credit was spent.
        assert!(matches!(e.call(&mut queue, b"x", 3, 0), CallStep::Done { result: Ok(0), .. }));
    }
    // With credit enough, all of it is set aside, and the peer is told.
    let mut e = connected(4096, (1 << 38) + 64);
    let mut queue = VecDeque::new();
    assert!(matches!(
        e.call(&mut queue, b"x", 3, (1 << 38) + 16),
        CallStep::Done { result: Ok(0), .. }
    ));
    assert_eq!(decode_header(e.send_ring(), 32), (0, (1 << 33) + 2, 1));
    assert!(matches!(
        e.call(&mut queue, b"x", 4, 0),
        CallStep::Post(p) if p.stage == CallStage::CreditFlush
    ));
}

#[test]
fn wrap_without_room_in_the_peers_ring_is_not_sent() {
    let mut e = connected(1024, 1 << 20);
    let mut queue = VecDeque::new();
    // 448 bytes sent, none read; beside them 512 are reserved.
    assert!(matches!(e.call(&mut queue, &[0; 400], 1, 0), CallStep::Done { result: Ok(0), .. }));
    e.flush();
    assert_eq!(e.flush_posted(PostOutcome::Posted), Ok(()));
    // 576 bytes more would be skipped.
    match e.call(&mut queue, &[0; 600], 2, 0) {
        CallStep::Done { result: Err(CallError::RingFull(2)), ring_doorbell: false } => {}
        other => panic!("unexpected step: {:?}", other),
    }
    // Also where a batch has to be closed first: it is sent, and the call is refused.
    assert!(matches!(e.call(&mut queue, b"", 3, 0), CallStep::Done { result: Ok(1), .. }));
    let pending = match e.call(&mut queue, &[0; 600], 4, 0) {
        CallStep::Post(pending) => pending,
        other => panic!("unexpected step: {:?}", other),
    };
    assert_eq!(pending.stage, CallStage::CloseBatch);
    match e.call_posted(&mut queue, &[0; 600], pending, PostOutcome::Posted) {
        CallStep::Done { result: Err(CallError::RingFull(4)), ring_doorbell: true } => {}
        other => panic!("unexpected step: {:?}", other),
    }
    // A reply beyond its allowance finds no room for the skipped bytes either.
    let mut small = endpoint(1024);
    small.connect(&peer(512, 0), 0, 1);
    small.connect_done();
    assert_eq!(small.reply(&mut queue, 0, 0, &[0; 400]), ReplyStep::Done(Ok(())));
    small.flush();
    assert_eq!(small.flush_posted(PostOutcome::Posted), Ok(()));
    assert_eq!(small.reply(&mut queue, 0, 0, &[0; 600]), ReplyStep::Done(Err(Error::RingFull)));
}

#[test]
fn grant_of_a_wrap_counts_the_skipped_bytes() {
    let mut e = connected(1024, 1 << 20);
    let mut queue = VecDeque::new();
    // 640 bytes in flight, and the whole reservation of 256 bytes is given back.
    assert_eq!(e.reply(&mut queue, 0, 256, &[0; 592]), ReplyStep::Done(Ok(())));
    e.flush();
    assert_eq!(decode_batch_header(e.send_ring(), 0), (0, 192, 1));
    assert_eq!(e.flush_posted(PostOutcome::Posted), Ok(()));
    // The peer's ring is full up to the end of the cycle, so that no more is granted.
    match e.reply(&mut queue, 1, 192, &[0; 400]) {
        ReplyStep::Post { stage: ReplyStage::Wrap, .. } => {}
        other => panic!("unexpected step: {:?}", other),
    }
    assert_eq!(decode_batch_header(e.send_ring(), 640), (0, 0, u32::MAX));
}

fn one_endpoint_context(ring: usize) -> Context<u32> {
    let config =
        EndpointConfig { send_ring_size: ring, recv_ring_size: ring, ..EndpointConfig::default() };
    let mut ctx: Context<u32> =
        ContextBuilder::new().srq_config(SrqConfig { max_wr: 9, max_sge: 1 }).build(1);
    let (send_ring, recv_ring) = config.allocate_rings();
    ctx.create_endpoint(&config, 100, send_ring, &memory(recv_ring.len() as u64));
    let (e, _) = ctx.endpoint_and_queue(0);
    e.connect(&peer(ring as u64, 1024), 0, 1);
    e.connect_done();
    ctx
}

fn success(qp_num: u32, imm: u32) -> Cqe {
    Cqe { opcode: CqeOpcode::Success, qp_num, imm, syndrome: 0 }
}

#[test]
fn send_completions_are_sorted() {
    let mut ctx = one_endpoint_context(4096);
    ctx.endpoint(0).post_rdma_read(1, 2, 3, 4, 5);
    assert_eq!(ctx.endpoint_and_queue(0).0.rdma_posted(PostOutcome::Posted), Ok(()));
    let failed = Cqe { opcode: CqeOpcode::ReqErr, qp_num: 100, imm: 0, syndrome: 1 };
    ctx.send_completed(0, failed, SrqEntry { qpn: RAW_RDMA_SENTINEL_QPN });
    assert_eq!(ctx.endpoint(0).raw_rdma_pending(), 1);
    ctx.send_completed(0, success(100, 0), SrqEntry { qpn: 100 });
    assert_eq!(ctx.endpoint(0).raw_rdma_pending(), 1);
    ctx.send_completed(0, success(100, 0), SrqEntry { qpn: RAW_RDMA_SENTINEL_QPN });
    assert_eq!(ctx.endpoint(0).raw_rdma_pending(), 0);
    let mut buffer = SendCqeBuffer::new();
    buffer.push(success(1, 2), SrqEntry { qpn: 3 });
    buffer.clear();
}

#[test]
fn errors_and_unknown_queue_pairs_are_passed_over() {
    let mut ctx = one_endpoint_context(256);
    let ring = batch_ring(256, 0, 0, &[(4, 2, b"one"), (5, 2, b"two")]);
    let failed = Cqe { opcode: CqeOpcode::RespErr, qp_num: 100, imm: 1, syndrome: 1 };
    let completions = [
        Completion { cqe: failed, recv_ring: &ring },
        Completion { cqe: success(999, 1), recv_ring: &ring },
        Completion { cqe: success(100, 3), recv_ring: &ring },
    ];
    let polled = ctx.poll_recv_only(&completions);
    // Six of nine buffers are left: two thirds, so none is posted.
    assert_eq!((polled.recv_count, polled.to_post, polled.malformed), (3, 0, false));
    // The last request comes first.
    let handle = ctx.recv().unwrap();
    assert_eq!((handle.call_id(), handle.qpn(), handle.endpoint()), (5, 100, 0));
    assert_eq!(handle.data(&ring), b"two");
    assert_eq!(ctx.recv().unwrap().call_id(), 4);
    assert!(ctx.recv().is_none());
    // One more leaves five: four are posted.
    let polled = ctx.poll_recv_only(&[Completion { cqe: failed, recv_ring: &ring }]);
    assert_eq!(polled.to_post, 4);
    let polled = ctx.poll_recv_only(&[]);
    assert_eq!((polled.recv_count, polled.to_post), (0, 0));
}

#[test]
fn malformed_completion_stops_the_poll() {
    let mut ctx = one_endpoint_context(256);
    let (e, queue) = ctx.endpoint_and_queue(0);
    e.call(queue, b"", 5, 0);
    let mut ring = batch_ring(256, 0, 0, &[(4, 2, b"one")]);
    // The next batch holds a response to the call that runs past the end of the ring.
    encode_batch_header(&mut ring, 64, 0, 0, 1);
    encode_message(&mut ring, 96, 0x8000_0000, 0, b"two");
    ring[96 + 12] = 200;
    let completions = [
        Completion { cqe: success(100, 2), recv_ring: &ring },
        Completion { cqe: success(100, 2), recv_ring: &ring },
        Completion { cqe: success(100, 2), recv_ring: &ring },
    ];
    assert!(ctx.can_process(success(100, 2), &ring));
    let polled = ctx.poll_recv_only(&completions);
    assert_eq!((polled.recv_count, polled.to_post, polled.malformed), (1, 0, true));
    assert!(!ctx.can_process(success(100, 2), &ring));
    assert!(ctx.can_process(success(3, 2), &ring));
}

#[test]
fn flush_pass_goes_in_order_and_rings() {
    let config =
        EndpointConfig { send_ring_size: 1024, recv_ring_size: 1024, ..EndpointConfig::default() };
    let mut ctx: Context<u32> = ContextBuilder::new().build(1);
    for slot in 0..3usize {
        let (send_ring, recv_ring) = config.allocate_rings();
        ctx.create_endpoint(
            &config,
            100 + slot as u32,
            send_ring,
            &memory(recv_ring.len() as u64),
        );
        let (e, _) = ctx.endpoint_and_queue(slot);
        e.connect(&peer(1024, 256), 0, 1);
        e.connect_done();
    }
    for slot in [2usize, 0, 2, 1] {
        let (e, queue) = ctx.endpoint_and_queue(slot);
        assert!(matches!(
            e.call(queue, b"x", slot as u32, 0),
            CallStep::Done { result: Ok(_), .. }
        ));
    }
    assert!(matches!(ctx.flush_endpoints(), EndpointsStep::Post { slot: 2, .. }));
    assert!(ctx.can_flush());
    assert_eq!(ctx.flush_posted(PostOutcome::Posted), EndpointsStep::Ring { slot: 2 });
    assert!(!ctx.can_flush());
    assert!(matches!(ctx.flush_rung(), EndpointsStep::Post { slot: 0, .. }));
    // A refused batch leaves the queue; its messages wait for the next call or reply.
    assert!(matches!(
        ctx.flush_posted(PostOutcome::Failed),
        EndpointsStep::Post { slot: 1, .. }
    ));
    assert_eq!(ctx.flush_posted(PostOutcome::Posted), EndpointsStep::Ring { slot: 1 });
    assert_eq!(ctx.flush_rung(), EndpointsStep::Done);
    assert!(ctx.endpoint(0).has_pending_send());
    assert!(!ctx.endpoint(1).has_pending_send());
    assert!(!ctx.endpoint(2).has_pending_send());
    assert_eq!(ctx.flush_endpoints(), EndpointsStep::Done);
    let (e, queue) = ctx.endpoint_and_queue(0);
    e.call(queue, b"y", 7, 0);
    assert!(matches!(ctx.flush_endpoints(), EndpointsStep::Post { slot: 0, .. }));
}

#[test]
fn receive_queue_is_refilled_below_two_thirds() {
    let mut posted = 256;
    assert_eq!(replenish(&mut posted, 86, 256), 0);
    assert_eq!(posted, 170);
    assert_eq!(replenish(&mut posted, 1, 256), 87);
    assert_eq!(posted, 256);
    assert_eq!(replenish(&mut posted, 1000, 256), 256);
    assert_eq!(posted, 256);
    assert_eq!(replenish(&mut posted, 0, 256), 0);
}
