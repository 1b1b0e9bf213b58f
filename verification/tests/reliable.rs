//! Two contexts over a device that copies bytes.

use copyrpc::cq::{Cqe, CqeOpcode};
use copyrpc::error::{CallError, Error, PostOutcome};
use copyrpc::poll::Completion;
use copyrpc::rc::shared::EndpointsStep;
use copyrpc::rc::state::WriteImm;
use copyrpc::rc::step::{CallStep, ReplyStep};
use copyrpc::rc::RingMemory;
use copyrpc::srq::SrqConfig;
use copyrpc::{
    Context, ContextBuilder, EndpointConfig, RecvHandle, RemoteEndpointInfo, SrqEntry,
};

/// One side: a context, the receive rings of its endpoints, and its completion queues.
struct Side {
    ctx: Context<u32>,
    recv_rings: Vec<Vec<u8>>,
    recv_cq: Vec<Cqe>,
    send_cq: Vec<(usize, Cqe, SrqEntry)>,
    responses: Vec<(u32, Vec<u8>)>,
    refilled: u32,
}

struct World {
    sides: Vec<Side>,
}

fn send_base(side: usize, slot: usize) -> u64 {
    0x1_0000_0000 * (1 + 4 * slot as u64 + 2 * side as u64)
}

fn recv_base(side: usize, slot: usize) -> u64 {
    0x1_0000_0000 * (2 + 4 * slot as u64 + 2 * side as u64)
}

fn qpn_of(side: usize, slot: usize) -> u32 {
    100 * (side as u32 + 1) + slot as u32
}

fn new_side(max_wr: u32, cq_size: i32, lid: u16) -> Side {
    let ctx: Context<u32> = ContextBuilder::new()
        .device_index(0)
        .port(1)
        .srq_config(SrqConfig { max_wr, max_sge: 1 })
        .cq_size(cq_size)
        .build(lid);
    Side {
        ctx,
        recv_rings: Vec::new(),
        recv_cq: Vec::new(),
        send_cq: Vec::new(),
        responses: Vec::new(),
        refilled: 0,
    }
}

fn add_endpoint(side: &mut Side, index: usize, config: &EndpointConfig) -> usize {
    let slot = side.ctx.endpoint_count();
    let (send_ring, recv_ring) = config.allocate_rings();
    let memory = RingMemory {
        send_addr: send_base(index, slot),
        send_lkey: 7,
        recv_addr: recv_base(index, slot),
        recv_rkey: 8,
        recv_len: recv_ring.len() as u64,
    };
    side.recv_rings.push(recv_ring);
    let made = side.ctx.create_endpoint(config, qpn_of(index, slot), send_ring, &memory);
    assert_eq!(made, slot);
    slot
}

fn remote_info(side: &Side, slot: usize) -> RemoteEndpointInfo {
    let (info, lid, _port) = side.ctx.endpoint(slot).local_info(side.ctx.lid(), side.ctx.port());
    RemoteEndpointInfo {
        qp_number: info.qp_number,
        packet_sequence_number: 0,
        local_identifier: lid,
        recv_ring_addr: info.recv_ring_addr,
        recv_ring_rkey: info.recv_ring_rkey,
        recv_ring_size: info.recv_ring_size,
        initial_credit: info.initial_credit,
    }
}

fn connect(side: &mut Side, slot: usize, remote: &RemoteEndpointInfo) {
    let port = side.ctx.port();
    let (endpoint, _) = side.ctx.endpoint_and_queue(slot);
    let qp = endpoint.connect(remote, 0, port);
    assert_eq!(qp.qp_number, remote.qp_number);
    assert_eq!(qp.max_rd_atomic, 0);
    assert!(!qp.remote_read);
    endpoint.connect_done();
}

fn new_world(endpoints: usize, max_wr: u32, cq_size: i32, config: &EndpointConfig) -> World {
    let mut sides = vec![new_side(max_wr, cq_size, 11), new_side(max_wr, cq_size, 12)];
    for index in 0..2 {
        for _ in 0..endpoints {
            add_endpoint(&mut sides[index], index, config);
        }
    }
    for slot in 0..endpoints {
        let client = remote_info(&sides[0], slot);
        let server = remote_info(&sides[1], slot);
        connect(&mut sides[0], slot, &server);
        connect(&mut sides[1], slot, &client);
    }
    World { sides }
}

fn ring_config(size: usize) -> EndpointConfig {
    EndpointConfig { send_ring_size: size, recv_ring_size: size, ..EndpointConfig::default() }
}

/// The device: takes a work request of `from` and puts its bytes into the peer's ring.
fn post(world: &mut World, from: usize, slot: usize, wqe: &WriteImm) {
    let ring = world.sides[from].ctx.endpoint(slot).send_ring();
    let mut bytes = ring[wqe.inline_offset..wqe.inline_offset + wqe.inline_len].to_vec();
    if let Some(sge) = wqe.sge {
        assert_eq!(sge.lkey, 7);
        let at = (sge.addr - send_base(from, slot)) as usize;
        bytes.extend_from_slice(&ring[at..at + sge.len as usize]);
    }
    let to = 1 - from;
    assert_eq!(wqe.rkey, 8);
    let at = (wqe.remote_addr - recv_base(to, slot)) as usize;
    world.sides[to].recv_rings[slot][at..at + bytes.len()].copy_from_slice(&bytes);
    let cqe = Cqe {
        opcode: CqeOpcode::Success,
        qp_num: qpn_of(to, slot),
        imm: wqe.imm,
        syndrome: 0,
    };
    world.sides[to].recv_cq.push(cqe);
    if let Some(entry) = wqe.signaled {
        world.sides[from].send_cq.push((slot, cqe, entry));
    }
}

fn call(
    world: &mut World,
    side: usize,
    slot: usize,
    data: &[u8],
    user_data: u32,
    response_allowance: u64,
) -> Result<u32, CallError<u32>> {
    assert!(world.sides[side].ctx.endpoint(slot).can_call(data.len()));
    let (endpoint, queue) = world.sides[side].ctx.endpoint_and_queue(slot);
    let mut step = endpoint.call(queue, data, user_data, response_allowance);
    loop {
        match step {
            CallStep::Post(pending) => {
                post(world, side, slot, &pending.wqe);
                assert!(world.sides[side].ctx.endpoint(slot).can_call(data.len()));
                let (endpoint, queue) = world.sides[side].ctx.endpoint_and_queue(slot);
                step = endpoint.call_posted(queue, data, pending, PostOutcome::Posted);
            }
            CallStep::Done { result, ring_doorbell: _ } => return result,
        }
    }
}

fn reply(world: &mut World, side: usize, handle: &RecvHandle, data: &[u8]) -> Result<(), Error> {
    let slot = handle.endpoint();
    assert!(world.sides[side].ctx.endpoint(slot).can_reply(data.len()));
    let mut step = handle.reply(&mut world.sides[side].ctx, data);
    loop {
        match step {
            ReplyStep::Post { stage, wqe } => {
                post(world, side, slot, &wqe);
                let ctx = &mut world.sides[side].ctx;
                step = handle.reply_posted(ctx, data, stage, PostOutcome::Posted);
            }
            ReplyStep::Done(result) => return result,
        }
    }
}

fn flush_endpoints(world: &mut World, side: usize) {
    let polled: Vec<(usize, Cqe, SrqEntry)> = world.sides[side].send_cq.drain(..).collect();
    for (slot, cqe, entry) in polled {
        world.sides[side].ctx.send_completed(slot, cqe, entry);
    }
    let mut step = world.sides[side].ctx.flush_endpoints();
    loop {
        match step {
            EndpointsStep::Post { slot, wqe } => {
                post(world, side, slot, &wqe);
                assert!(world.sides[side].ctx.can_flush());
                step = world.sides[side].ctx.flush_posted(PostOutcome::Posted);
            }
            EndpointsStep::Ring { slot: _ } => {
                step = world.sides[side].ctx.flush_rung();
            }
            EndpointsStep::Done => return,
        }
    }
}

fn poll_recv_only(world: &mut World, side: usize) -> u32 {
    let s = &mut world.sides[side];
    let cqes: Vec<Cqe> = s.recv_cq.drain(..).collect();
    let mut completions: Vec<Completion> = Vec::new();
    for cqe in &cqes {
        let slot = s.ctx.slot_of(cqe.qp_num).unwrap_or(0);
        completions.push(Completion { cqe: *cqe, recv_ring: &s.recv_rings[slot] });
    }
    let polled = s.ctx.poll_recv_only(&completions);
    assert!(!polled.malformed);
    for response in &polled.responses {
        let data = response.data(&s.recv_rings[response.endpoint]).to_vec();
        s.responses.push((response.user_data, data));
    }
    s.refilled += polled.to_post;
    polled.recv_count
}

fn poll(world: &mut World, side: usize) {
    poll_recv_only(world, side);
    flush_endpoints(world, side);
}

/// One turn of a server: polls and answers every request.
fn serve(world: &mut World, response: &[u8]) -> usize {
    poll(world, 1);
    let mut replies = 0;
    while let Some(handle) = world.sides[1].ctx.recv() {
        assert_eq!(reply(world, 1, &handle, response), Ok(()));
        replies += 1;
    }
    replies
}

fn completed(world: &World, side: usize) -> usize {
    world.sides[side].responses.len()
}

#[test]
fn test_context_creation() {
    let ctx: Context<u32> = ContextBuilder::new()
        .device_index(0)
        .port(1)
        .srq_config(SrqConfig { max_wr: 256, max_sge: 1 })
        .cq_size(1024)
        .build(5);
    assert_eq!(ctx.port(), 1);
    assert_eq!(ctx.lid(), 5);
    assert_eq!(ctx.endpoint_count(), 0);
}

#[test]
fn test_endpoint_creation() {
    let mut side = new_side(256, 1024, 1);
    let slot = add_endpoint(&mut side, 0, &EndpointConfig::default());
    assert_eq!(slot, 0);
    assert_eq!(side.ctx.endpoint_count(), 1);
    assert_eq!(side.ctx.endpoint(0).qpn(), qpn_of(0, 0));
    assert_eq!(side.ctx.slot_of(qpn_of(0, 0)), Some(0));
    assert_eq!(side.ctx.slot_of(qpn_of(1, 0)), None);
}

#[test]
fn test_simple_pingpong() {
    let mut world = new_world(1, 256, 1024, &EndpointConfig::default());
    let request = vec![0u8; 32];
    let response = vec![0u8; 32];
    assert!(call(&mut world, 0, 0, &request, 1, 64).is_ok());
    for _ in 0..4 {
        poll(&mut world, 0);
        serve(&mut world, &response);
    }
    assert!(completed(&world, 0) > 0);
    assert_eq!(world.sides[0].responses, vec![(1, response)]);
}

#[test]
fn test_multi_endpoint_pingpong() {
    const NUM_ENDPOINTS: usize = 8;
    const REQUESTS_PER_EP: usize = 128;
    const MESSAGE_SIZE: usize = 32;
    let mut world = new_world(NUM_ENDPOINTS, 256, 4096, &EndpointConfig::default());
    let request = vec![0u8; MESSAGE_SIZE];
    let response = vec![0u8; MESSAGE_SIZE];
    let mut total_sent = 0;
    for slot in 0..NUM_ENDPOINTS {
        for i in 0..REQUESTS_PER_EP {
            let user_data = (slot * REQUESTS_PER_EP + i) as u32;
            assert!(call(&mut world, 0, slot, &request, user_data, 64).is_ok());
            total_sent += 1;
        }
    }
    let mut turns = 0;
    while completed(&world, 0) < total_sent {
        poll(&mut world, 0);
        serve(&mut world, &response);
        turns += 1;
        assert!(turns < 100);
    }
    assert_eq!(completed(&world, 0), total_sent);
    let mut seen: Vec<u32> = world.sides[0].responses.iter().map(|r| r.0).collect();
    seen.sort();
    let expected: Vec<u32> = (0..total_sent as u32).collect();
    assert_eq!(seen, expected);
}

/// Sequential calls, each answered before the next.
fn sequential_pingpong(world: &mut World, iterations: usize, allowances: &[u64]) {
    let request = vec![0u8; 32];
    let response = vec![0u8; 32];
    for i in 0..iterations {
        let before = completed(world, 0);
        let allowance = allowances[i % allowances.len()];
        assert!(call(world, 0, 0, &request, i as u32, allowance).is_ok());
        let mut turns = 0;
        while completed(world, 0) <= before {
            poll(world, 0);
            serve(world, &response);
            turns += 1;
            assert!(turns < 10);
        }
    }
    assert_eq!(completed(world, 0), iterations);
}

#[test]
fn test_srq_exhaustion_pingpong() {
    let mut world = new_world(1, 256, 1024, &EndpointConfig::default());
    sequential_pingpong(&mut world, 50, &[64]);
}

#[test]
fn test_benchmark_style_pingpong() {
    const ITERATIONS_PER_BATCH: usize = 100;
    const NUM_BATCHES: usize = 10;
    const MAX_INFLIGHT: usize = 1;
    let mut world = new_world(1, 256, 1024, &EndpointConfig::default());
    pipelined(&mut world, ITERATIONS_PER_BATCH * NUM_BATCHES, MAX_INFLIGHT, 64);
}

/// Calls with up to `depth` of them in progress at a time.
fn pipelined(world: &mut World, iterations: usize, depth: usize, allowance: u64) {
    let request = vec![0u8; 32];
    let response = vec![0u8; 32];
    let mut sent = 0;
    let mut turns = 0;
    while completed(world, 0) < iterations {
        let mut inflight = sent - completed(world, 0);
        while inflight < depth && sent < iterations {
            match call(world, 0, 0, &request, sent as u32, allowance) {
                Ok(_) => {
                    sent += 1;
                    inflight += 1;
                }
                Err(CallError::RingFull(u)) | Err(CallError::InsufficientCredit(u)) => {
                    assert_eq!(u, sent as u32);
                    break;
                }
                Err(CallError::Other(e)) => panic!("unexpected error: {:?}", e),
            }
        }
        poll(world, 0);
        serve(world, &response);
        turns += 1;
        assert!(turns < 100 * iterations);
    }
    assert_eq!(completed(world, 0), iterations);
    for (user_data, data) in &world.sides[0].responses {
        assert!((*user_data as usize) < iterations);
        assert_eq!(data, &response);
    }
}

#[test]
fn test_ring_wraparound() {
    const SMALL_RING_SIZE: usize = 4096;
    const ITERATIONS: usize = 200;
    let mut world = new_world(1, 256, 1024, &ring_config(SMALL_RING_SIZE));
    let request = vec![0u8; 32];
    let response = vec![0u8; 32];
    for i in 0..ITERATIONS {
        let before = completed(&world, 0);
        if call(&mut world, 0, 0, &request, i as u32, 64).is_err() {
            poll(&mut world, 0);
            continue;
        }
        let mut turns = 0;
        while completed(&world, 0) <= before {
            poll(&mut world, 0);
            serve(&mut world, &response);
            turns += 1;
            assert!(turns < 10);
        }
    }
    assert!(completed(&world, 0) >= ITERATIONS - 10);
}

#[test]
fn test_high_throughput_sustained() {
    let mut world = new_world(1, 256, 1024, &EndpointConfig::default());
    pipelined(&mut world, 10000, 16, 64);
}

#[test]
fn test_debug_small_iterations() {
    let mut world = new_world(1, 256, 1024, &EndpointConfig::default());
    pipelined(&mut world, 20, 4, 64);
}

#[test]
fn test_benchmark_pattern() {
    const ROUNDS: [usize; 12] = [1, 2, 4, 8, 16, 32, 64, 128, 256, 512, 1024, 2048];
    let mut world = new_world(1, 256, 1024, &EndpointConfig::default());
    let request = vec![0u8; 32];
    let response = vec![0u8; 32];
    let mut total_completed = 0;
    let mut total_sent = 0;
    let mut server_replies = 0;
    for iters in ROUNDS {
        let round_start = completed(&world, 0);
        let mut inflight = 0;
        if call(&mut world, 0, 0, &request, total_sent as u32, 64).is_ok() {
            inflight += 1;
            total_sent += 1;
        }
        let mut round_completed = 0;
        let mut turns = 0;
        while round_completed < iters {
            poll(&mut world, 0);
            server_replies += serve(&mut world, &response);
            let new = completed(&world, 0) - (round_start + round_completed);
            round_completed += new;
            inflight -= new;
            if inflight == 0 && iters > round_completed {
                if call(&mut world, 0, 0, &request, total_sent as u32, 64).is_ok() {
                    inflight += 1;
                    total_sent += 1;
                }
            }
            turns += 1;
            assert!(turns < 10 * iters + 10);
        }
        total_completed += round_completed;
    }
    assert_eq!(total_completed, total_sent);
    assert_eq!(server_replies, total_sent);
}

#[test]
fn test_emit_wqe_boundary_split() {
    const TINY_RING_SIZE: usize = 1024;
    const MESSAGE_SIZE: usize = 32;
    const BATCH_SIZE: usize = 8;
    const NUM_BATCHES: usize = 50;
    let mut world = new_world(1, 1024, 2048, &ring_config(TINY_RING_SIZE));
    let request = vec![0u8; MESSAGE_SIZE];
    let response = vec![0u8; 32];
    let mut total_sent = 0usize;
    for batch in 0..NUM_BATCHES {
        for i in 0..BATCH_SIZE {
            let user_data = (batch * BATCH_SIZE + i) as u32;
            match call(&mut world, 0, 0, &request, user_data, 64) {
                Ok(_) => total_sent += 1,
                Err(CallError::RingFull(_)) | Err(CallError::InsufficientCredit(_)) => break,
                Err(CallError::Other(e)) => panic!("unexpected error: {:?}", e),
            }
        }
        let mut turns = 0;
        while completed(&world, 0) < total_sent && turns < 100 {
            poll(&mut world, 0);
            serve(&mut world, &response);
            turns += 1;
        }
    }
    assert!(total_sent > 0);
    assert!(completed(&world, 0) >= total_sent.saturating_sub(BATCH_SIZE));
}

#[test]
fn test_credit_small_ring_large_response() {
    let mut world = new_world(1, 1024, 2048, &ring_config(4096));
    sequential_pingpong(&mut world, 200, &[512]);
}

#[test]
fn test_credit_mixed_sizes() {
    let mut world = new_world(1, 1024, 2048, &ring_config(8192));
    sequential_pingpong(&mut world, 200, &[32, 256, 512, 1024]);
}

/// Answers every request on a side.
fn answer_all(world: &mut World, side: usize, response: &[u8]) {
    while let Some(handle) = world.sides[side].ctx.recv() {
        assert_eq!(reply(world, side, &handle, response), Ok(()));
    }
}

#[test]
fn test_credit_bidirectional_stress() {
    const RING_SIZE: usize = 16384;
    const CALLS_PER_SIDE: usize = 500;
    const QUEUE_DEPTH: usize = 4;
    const RESPONSE_ALLOWANCE: u64 = 128;
    let mut world = new_world(1, 1024, 2048, &ring_config(RING_SIZE));
    let request = vec![0u8; 32];
    let response = vec![0u8; 32];
    let mut sent = [0usize; 2];
    let mut turns = 0;
    while completed(&world, 0) < CALLS_PER_SIDE || completed(&world, 1) < CALLS_PER_SIDE {
        for side in 0..2 {
            poll(&mut world, side);
            answer_all(&mut world, side, &response);
            let mut inflight = sent[side] - completed(&world, side);
            while inflight < QUEUE_DEPTH && sent[side] < CALLS_PER_SIDE {
                let user_data = sent[side] as u32;
                if call(&mut world, side, 0, &request, user_data, RESPONSE_ALLOWANCE).is_err() {
                    break;
                }
                sent[side] += 1;
                inflight += 1;
            }
        }
        turns += 1;
        assert!(turns < 100 * CALLS_PER_SIDE);
    }
    assert_eq!(completed(&world, 0), CALLS_PER_SIDE);
    assert_eq!(completed(&world, 1), CALLS_PER_SIDE);
}

#[test]
fn test_credit_deep_queue_tiny_ring() {
    let mut world = new_world(1, 1024, 2048, &ring_config(2048));
    pipelined(&mut world, 200, 3, 256);
}

#[test]
fn test_credit_exhaustion_recovery() {
    const RING_SIZE: usize = 8192;
    const RESPONSE_ALLOWANCE: u64 = 512;
    const MIN_COMPLETED: usize = 20;
    let mut world = new_world(1, 1024, 2048, &ring_config(RING_SIZE));
    let request = vec![0u8; 32];
    let response = vec![0u8; 32];
    let mut sent = 0;
    let mut insufficient_credit_count = 0;
    loop {
        match call(&mut world, 0, 0, &request, sent as u32, RESPONSE_ALLOWANCE) {
            Ok(_) => sent += 1,
            Err(CallError::InsufficientCredit(_)) => {
                insufficient_credit_count += 1;
                break;
            }
            Err(CallError::RingFull(_)) => break,
            Err(CallError::Other(e)) => panic!("unexpected error: {:?}", e),
        }
    }
    assert!(insufficient_credit_count > 0);
    let mut turns = 0;
    while completed(&world, 0) < sent {
        poll(&mut world, 0);
        serve(&mut world, &response);
        turns += 1;
        assert!(turns < 100);
    }
    for i in 0..MIN_COMPLETED {
        let user_data = (sent + i) as u32;
        let mut tries = 0;
        loop {
            match call(&mut world, 0, 0, &request, user_data, RESPONSE_ALLOWANCE) {
                Ok(_) => break,
                Err(CallError::RingFull(_)) | Err(CallError::InsufficientCredit(_)) => {
                    poll(&mut world, 0);
                    serve(&mut world, &response);
                    tries += 1;
                    assert!(tries < 100);
                }
                Err(CallError::Other(e)) => panic!("unexpected error: {:?}", e),
            }
        }
    }
    let total = sent + MIN_COMPLETED;
    turns = 0;
    while completed(&world, 0) < total {
        poll(&mut world, 0);
        serve(&mut world, &response);
        turns += 1;
        assert!(turns < 100);
    }
    assert!(completed(&world, 0) >= MIN_COMPLETED);
}

/// Bytes that tell one request from the next.
fn pattern(i: usize) -> Vec<u8> {
    let len = (i * 37) % 301;
    (0..len).map(|k| (i * 31 + k * 7) as u8).collect()
}

#[test]
fn every_payload_comes_back() {
    const CALLS: usize = 600;
    let mut world = new_world(2, 64, 256, &ring_config(4096));
    let mut sent = 0;
    let mut turns = 0;
    while completed(&world, 0) < CALLS {
        while sent < CALLS && sent - completed(&world, 0) < 3 {
            let request = pattern(sent);
            match call(&mut world, 0, sent % 2, &request, sent as u32, request.len() as u64) {
                Ok(_) => sent += 1,
                Err(CallError::Other(e)) => panic!("unexpected error: {:?}", e),
                Err(_) => break,
            }
        }
        poll(&mut world, 0);
        poll(&mut world, 1);
        while let Some(handle) = world.sides[1].ctx.recv() {
            let slot = handle.endpoint();
            assert_eq!(handle.qpn(), qpn_of(1, slot));
            let data = handle.data(&world.sides[1].recv_rings[slot]).to_vec();
            assert_eq!(reply(&mut world, 1, &handle, &data), Ok(()));
        }
        flush_endpoints(&mut world, 1);
        turns += 1;
        assert!(turns < 10 * CALLS);
    }
    for (user_data, data) in &world.sides[0].responses {
        assert_eq!(data, &pattern(*user_data as usize));
    }
    assert!(world.sides[1].refilled > 0);
}

#[test]
fn connected_sides_set_aside_what_they_offer() {
    // An endpoint that offers 1024 bytes of credit has as much reserved: the peer may use all of it,
    // and half of the ring is left for messages.
    let mut world = new_world(1, 64, 256, &ring_config(4096));
    let (info, _, _) = world.sides[1].ctx.endpoint(0).local_info(0, 0);
    assert_eq!(info.initial_credit, 1024);
    // 208 bytes of response take 224 and a header: 256 bytes, four of which are all the credit.
    for i in 0..4 {
        assert!(call(&mut world, 0, 0, &[1], i, 208).is_ok());
    }
    assert!(matches!(
        call(&mut world, 0, 0, &[1], 4, 0),
        Err(CallError::InsufficientCredit(4))
    ));
}
