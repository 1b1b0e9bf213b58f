//! Two contexts on dynamic connections, over a device that copies bytes.

use copyrpc::cq::{Cqe, CqeOpcode};
use copyrpc::dc::dirty::DirtyEndpointList;
use copyrpc::dc::shared::EndpointsStep;
use copyrpc::dc::state::WriteImm;
use copyrpc::dc::wire::{
    dc_decode_header, dc_encode_header, dc_encode_message, dc_padded_message_size,
    CREDIT_RETURN_RESERVE, DC_HEADER_SIZE,
};
use copyrpc::dc::{
    Context, ContextBuilder, DciConfig, DctConfig, EndpointConfig, RecvHandle, RemoteEndpointInfo,
    RingMemory, BATCH_HEADER_SIZE, DEFAULT_RING_SIZE,
};
use copyrpc::encoding::decode_batch_header;
use copyrpc::error::{CallError, Error, PostOutcome};
use copyrpc::poll::Completion;
use copyrpc::srq::SrqConfig;

const DC_KEY: u64 = 0xC0DE_CAFE_D00D_BEEF;

struct Side {
    ctx: Context<u32>,
    recv_rings: Vec<Vec<u8>>,
    recv_cq: Vec<Cqe>,
    send_cq: u32,
    posted: usize,
    signaled: usize,
    queue_room: usize,
    doorbells: usize,
    responses: Vec<(u32, Vec<u8>)>,
}

struct World {
    sides: Vec<Side>,
}

fn send_base(side: usize, slot: usize) -> u64 {
    0x1_0000_0000 * (1 + 4 * slot as u64 + 2 * side as u64)
}

fn recv_base(side: usize, slot: usize) -> u64 {
    0x1_0000_0000 * (2 + 4 * slot as u64 + 2 * side as u64)
}

fn new_side(lid: u16) -> Side {
    let ctx: Context<u32> = ContextBuilder::new()
        .device_index(0)
        .port(1)
        .dci_config(DciConfig { max_send_wr: 256, max_send_sge: 1, max_inline_data: 256 })
        .srq_config(SrqConfig { max_wr: 4096, max_sge: 1 })
        .cq_size(2048)
        .build(lid);
    Side {
        ctx,
        recv_rings: Vec::new(),
        recv_cq: Vec::new(),
        send_cq: 0,
        posted: 0,
        signaled: 0,
        queue_room: usize::MAX,
        doorbells: 0,
        responses: Vec::new(),
    }
}

fn add_endpoint(side: &mut Side, index: usize, config: &EndpointConfig) -> usize {
    let slot = side.ctx.endpoint_count();
    let (send_ring, recv_ring) = config.allocate_rings();
    let memory = RingMemory {
        send_addr: send_base(index, slot),
        send_lkey: 7,
        recv_addr: recv_base(index, slot),
        recv_rkey: 8,
        recv_len: recv_ring.len() as u64,
    };
    side.recv_rings.push(recv_ring);
    side.ctx.create_endpoint(Ok((send_ring, memory))).unwrap()
}

fn remote_info(side: &Side, slot: usize) -> RemoteEndpointInfo {
    let (info, lid, _port) = side.ctx.local_info(slot, 77, DC_KEY);
    RemoteEndpointInfo {
        dct_number: info.dct_number,
        dc_key: info.dc_key,
        local_identifier: lid,
        recv_ring_addr: info.recv_ring_addr,
        recv_ring_rkey: info.recv_ring_rkey,
        recv_ring_size: info.recv_ring_size,
        initial_credit: info.initial_credit,
        endpoint_id: info.endpoint_id,
    }
}

fn new_world(endpoints: usize, ring_size: usize) -> World {
    world_of(endpoints, EndpointConfig { send_ring_size: ring_size, recv_ring_size: ring_size })
}

fn world_of(endpoints: usize, config: EndpointConfig) -> World {
    let mut sides = vec![new_side(21), new_side(22)];
    for index in 0..2 {
        for slot in 0..endpoints {
            assert_eq!(add_endpoint(&mut sides[index], index, &config), slot);
        }
    }
    for slot in 0..endpoints {
        let client = remote_info(&sides[0], slot);
        let server = remote_info(&sides[1], slot);
        let port = sides[0].ctx.port();
        sides[0].ctx.endpoint_and_queue(slot).0.connect(&server, 0, port);
        sides[1].ctx.endpoint_and_queue(slot).0.connect(&client, 0, port);
    }
    World { sides }
}

/// The device: takes a work request while its queue has room.
fn post(world: &mut World, from: usize, slot: usize, wqe: &WriteImm) -> PostOutcome {
    if world.sides[from].queue_room == 0 {
        return PostOutcome::QueueFull;
    }
    let to = 1 - from;
    assert_eq!(wqe.dct.dctn, 77);
    assert_eq!(wqe.dct.dc_key, DC_KEY);
    assert_eq!(wqe.dct.dlid, world.sides[to].ctx.lid());
    let ring = world.sides[from].ctx.endpoint(slot).send_ring();
    let at = (wqe.sge.addr - send_base(from, slot)) as usize;
    let bytes = ring[at..at + wqe.sge.len as usize].to_vec();
    let to_slot = world.sides[to].ctx.slot_of(wqe.imm).unwrap();
    let at = (wqe.remote_addr - recv_base(to, to_slot)) as usize;
    world.sides[to].recv_rings[to_slot][at..at + bytes.len()].copy_from_slice(&bytes);
    world.sides[to].recv_cq.push(Cqe {
        opcode: CqeOpcode::Success,
        qp_num: 77,
        imm: wqe.imm,
        syndrome: 0,
    });
    let side = &mut world.sides[from];
    side.posted += 1;
    side.queue_room -= 1;
    if let Some(id) = wqe.signaled {
        assert_eq!(id, slot as u32 + 1);
        side.signaled += 1;
        side.send_cq += 1;
    }
    PostOutcome::Posted
}

fn flush_endpoints(world: &mut World, side: usize) {
    if world.sides[side].ctx.pending_send_cqes() > 0 {
        let polled = world.sides[side].send_cq;
        world.sides[side].send_cq = 0;
        world.sides[side].ctx.send_cqes_polled(polled);
    }
    assert!(world.sides[side].ctx.can_flush());
    let mut step = world.sides[side].ctx.flush_endpoints();
    loop {
        match step {
            EndpointsStep::Post { slot, wqe } => {
                let outcome = post(world, side, slot, &wqe);
                assert!(world.sides[side].ctx.can_flush());
                step = world.sides[side].ctx.flush_posted(outcome);
            }
            EndpointsStep::Done { ring_doorbell } => {
                if ring_doorbell {
                    world.sides[side].doorbells += 1;
                }
                return;
            }
        }
    }
}

fn poll_recv(world: &mut World, side: usize) -> u32 {
    let s = &mut world.sides[side];
    let cqes: Vec<Cqe> = s.recv_cq.drain(..).collect();
    let mut completions: Vec<Completion> = Vec::new();
    for cqe in &cqes {
        let slot = s.ctx.slot_of(cqe.imm).unwrap_or(0);
        completions.push(Completion { cqe: *cqe, recv_ring: &s.recv_rings[slot] });
    }
    let polled = s.ctx.poll_recv_counted(&completions);
    assert!(!polled.malformed);
    for response in &polled.responses {
        let data = response.data(&s.recv_rings[response.endpoint]).to_vec();
        s.responses.push((response.user_data, data));
    }
    polled.recv_count
}

fn poll(world: &mut World, side: usize) {
    poll_recv(world, side);
    flush_endpoints(world, side);
}

fn call(
    world: &mut World,
    side: usize,
    slot: usize,
    data: &[u8],
    user_data: u32,
) -> Result<u32, CallError<u32>> {
    assert!(world.sides[side].ctx.endpoint(slot).can_send(data.len()));
    let (endpoint, queue) = world.sides[side].ctx.endpoint_and_queue(slot);
    endpoint.call(queue, data, user_data, 0)
}

fn reply(world: &mut World, side: usize, handle: &RecvHandle, data: &[u8]) -> Result<(), Error> {
    assert!(world.sides[side].ctx.endpoint(handle.endpoint()).can_send(data.len()));
    handle.reply(&mut world.sides[side].ctx, data)
}

fn completed(world: &World, side: usize) -> usize {
    world.sides[side].responses.len()
}

/// Both sides call and answer until both have all their responses.
fn bidirectional(world: &mut World, calls_per_side: usize, depth: usize) {
    let request = vec![0u8; 24];
    let response = vec![0u8; 16];
    let mut sent = [0usize; 2];
    let mut waiting: Vec<Vec<RecvHandle>> = vec![Vec::new(), Vec::new()];
    let mut turns = 0;
    while completed(world, 0) < calls_per_side || completed(world, 1) < calls_per_side {
        for side in 0..2 {
            poll(world, side);
            while let Some(handle) = world.sides[side].ctx.recv() {
                waiting[side].push(handle);
            }
            while let Some(handle) = waiting[side].pop() {
                match reply(world, side, &handle, &response) {
                    Ok(()) => {}
                    Err(Error::RingFull) => {
                        waiting[side].push(handle);
                        break;
                    }
                    Err(e) => panic!("unexpected error: {:?}", e),
                }
            }
            let mut inflight = sent[side] - completed(world, side);
            while inflight < depth && sent[side] < calls_per_side {
                match call(world, side, 0, &request, sent[side] as u32) {
                    Ok(_) => {
                        sent[side] += 1;
                        inflight += 1;
                    }
                    Err(_) => break,
                }
            }
        }
        turns += 1;
        assert!(turns < 100 * calls_per_side);
    }
    assert_eq!(completed(world, 0), calls_per_side);
    assert_eq!(completed(world, 1), calls_per_side);
    for side in 0..2 {
        let mut seen: Vec<u32> = world.sides[side].responses.iter().map(|r| r.0).collect();
        seen.sort();
        let expected: Vec<u32> = (0..calls_per_side as u32).collect();
        assert_eq!(seen, expected);
        assert_eq!(world.sides[side].ctx.endpoint(0).credit_state().pending_calls, 0);
    }
}

#[test]
fn test_dc_bidirectional_stress() {
    let mut world = new_world(1, 4 * 1024 * 1024);
    bidirectional(&mut world, 50_000, 4);
}

#[test]
fn test_dc_bidirectional_tiny_ring() {
    let mut world = new_world(1, 8192);
    bidirectional(&mut world, 10_000, 2);
}

#[test]
fn dc_sizes_and_headers() {
    assert_eq!(BATCH_HEADER_SIZE, 32);
    assert_eq!(DC_HEADER_SIZE, 8);
    assert_eq!(CREDIT_RETURN_RESERVE, 32);
    assert_eq!(DEFAULT_RING_SIZE, 1 << 20);
    assert_eq!(dc_padded_message_size(0), 32);
    assert_eq!(dc_padded_message_size(24), 32);
    assert_eq!(dc_padded_message_size(25), 64);
    let mut buf = vec![0xffu8; 40];
    dc_encode_header(&mut buf, 4, 0x0102_0304, 0x0a0b_0c0d);
    assert_eq!(&buf[4..12], &[4, 3, 2, 1, 0x0d, 0x0c, 0x0b, 0x0a]);
    assert_eq!(buf[3], 0xff);
    assert_eq!(buf[12], 0xff);
    assert_eq!(dc_decode_header(&buf, 4), (0x0102_0304, 0x0a0b_0c0d));
    dc_encode_message(&mut buf, 8, 9, &[1, 2, 3]);
    assert_eq!(dc_decode_header(&buf, 8), (9, 3));
    assert_eq!(&buf[16..19], &[1, 2, 3]);
}

#[test]
fn dc_builder_settings() {
    let b: ContextBuilder<u32> = Context::builder();
    assert_eq!(b.device_index, 0);
    assert_eq!(b.port, 1);
    assert_eq!(b.srq_config, SrqConfig { max_wr: 1024, max_sge: 1 });
    assert_eq!(b.cq_size, 4096);
    assert_eq!(b.dci_config, None);
    assert_eq!(b.dct_config, DctConfig { dc_key: DC_KEY });
    let b = b.device_index(3).port(2).cq_size(16).dct_config(DctConfig { dc_key: 5 });
    assert_eq!((b.device_index, b.port, b.cq_size, b.dct_config.dc_key), (3, 2, 16, 5));
    let ctx = b.build(9);
    assert_eq!((ctx.port(), ctx.lid(), ctx.srq_posted()), (2, 9, 1024));
    assert_eq!(EndpointConfig::default().send_ring_size, 1 << 20);
}

#[test]
fn dc_local_info_offers_half_the_ring() {
    let mut side = new_side(4);
    let slot = add_endpoint(
        &mut side,
        0,
        &EndpointConfig { send_ring_size: 1000, recv_ring_size: 3000 },
    );
    let (info, lid, port) = side.ctx.local_info(slot, 77, 99);
    assert_eq!((lid, port), (4, 1));
    assert_eq!(info.dct_number, 77);
    assert_eq!(info.dc_key, 99);
    assert_eq!(info.recv_ring_size, 4096);
    assert_eq!(info.initial_credit, 2048);
    assert_eq!(info.endpoint_id, 1);
    assert_eq!(side.ctx.endpoint(slot).send_ring().len(), 1024);
    assert_eq!(side.ctx.endpoint(slot).endpoint_id(), 1);
}

#[test]
fn dc_unconnected_endpoint_refuses() {
    let mut side = new_side(4);
    let slot = add_endpoint(&mut side, 0, &EndpointConfig::default());
    let (endpoint, queue) = side.ctx.endpoint_and_queue(slot);
    assert!(matches!(
        endpoint.call(queue, &[1], 5, 0),
        Err(CallError::Other(Error::RemoteConsumerUnknown))
    ));
    assert_eq!(endpoint.reply(queue, 3, &[1]), Err(Error::RemoteConsumerUnknown));
    assert_eq!(endpoint.emit_batch(0), Err(Error::RemoteConsumerUnknown));
    assert!(!side.ctx.has_dirty_endpoints());
}

#[test]
fn dc_request_and_response_carry_their_bytes() {
    let mut world = new_world(2, 1024);
    let id = call(&mut world, 0, 1, b"question", 42).unwrap();
    assert!(world.sides[0].ctx.has_dirty_endpoints());
    poll(&mut world, 0);
    assert!(!world.sides[0].ctx.has_dirty_endpoints());
    assert_eq!(poll_recv(&mut world, 1), 1);
    let handle = world.sides[1].ctx.recv().unwrap();
    assert!(world.sides[1].ctx.recv().is_none());
    assert_eq!(handle.endpoint_id(), 2);
    assert_eq!(handle.call_id(), id);
    assert_eq!(handle.data(&world.sides[1].recv_rings[1]), b"question");
    assert_eq!(reply(&mut world, 1, &handle, b"answer!"), Ok(()));
    flush_endpoints(&mut world, 1);
    poll(&mut world, 0);
    assert_eq!(world.sides[0].responses, vec![(42, b"answer!".to_vec())]);
    // A second answer to the same request ends no call.
    assert_eq!(reply(&mut world, 1, &handle, b"again"), Ok(()));
    flush_endpoints(&mut world, 1);
    poll(&mut world, 0);
    assert_eq!(completed(&world, 0), 1);
}

/// Makes a side give back the ring space of what it has read.
fn return_credit(world: &mut World, side: usize, slot: usize) {
    let (endpoint, queue) = world.sides[side].ctx.endpoint_and_queue(slot);
    queue.push_back(endpoint.endpoint_id());
    flush_endpoints(world, side);
}

#[test]
fn dc_wrap_is_asked_for_and_done_when_there_is_room() {
    let mut world = new_world(1, 256);
    // Header and one message of 96 bytes each time: the second does not fit before the end.
    assert!(call(&mut world, 0, 0, &[1; 80], 1).is_ok());
    poll(&mut world, 0);
    assert!(matches!(call(&mut world, 0, 0, &[2; 88], 2), Err(CallError::RingFull(2))));
    assert!(world.sides[0].ctx.endpoint(0).has_pending_flush());
    // The peer's ring holds 128 unread bytes: 128 more would leave no room to give credit back.
    poll(&mut world, 0);
    assert_eq!(world.sides[0].posted, 1);
    assert!(world.sides[0].ctx.endpoint(0).has_pending_flush());
    assert!(world.sides[0].ctx.has_dirty_endpoints());
    assert_eq!(poll_recv(&mut world, 1), 1);
    return_credit(&mut world, 1, 0);
    poll(&mut world, 0);
    assert!(!world.sides[0].ctx.endpoint(0).has_pending_flush());
    assert_eq!(world.sides[0].posted, 2);
    assert_eq!(poll_recv(&mut world, 1), 1);
    // The peer has skipped to the next cycle: 256 bytes were read.
    assert_eq!(world.sides[1].ctx.endpoint(0).credit_state().last_recv, 256);
}

#[test]
fn dc_wrap_whose_header_ends_the_cycle_keeps_positions() {
    let mut world = new_world(1, 256);
    // A batch of 224 bytes leaves exactly one header before the end of the cycle.
    assert!(call(&mut world, 0, 0, &[1; 184], 1).is_ok());
    poll(&mut world, 0);
    assert_eq!(poll_recv(&mut world, 1), 1);
    return_credit(&mut world, 1, 0);
    poll(&mut world, 0);
    assert!(matches!(call(&mut world, 0, 0, &[2; 8], 2), Err(CallError::RingFull(2))));
    poll(&mut world, 0);
    assert_eq!(poll_recv(&mut world, 1), 1);
    assert_eq!(world.sides[1].ctx.endpoint(0).credit_state().last_recv, 256);
}

#[test]
fn dc_wrap_at_the_start_of_a_cycle_waits_for_room() {
    let mut world = new_world(1, 256);
    // No cycle has room for this message.
    assert!(matches!(call(&mut world, 0, 0, &[1; 300], 1), Err(CallError::RingFull(1))));
    flush_endpoints(&mut world, 0);
    // A whole cycle would leave no room to give credit back.
    assert!(world.sides[0].ctx.endpoint(0).has_pending_flush());
    assert!(world.sides[0].ctx.has_dirty_endpoints());
    assert_eq!(world.sides[0].posted, 0);
    // A message that fits is taken meanwhile, and the wrap follows when its bytes are given back.
    assert!(call(&mut world, 0, 0, &[1; 24], 2).is_ok());
    flush_endpoints(&mut world, 0);
    assert_eq!(world.sides[0].posted, 1);
    assert!(world.sides[0].ctx.endpoint(0).has_pending_flush());
    assert_eq!(poll_recv(&mut world, 1), 1);
    return_credit(&mut world, 1, 0);
    poll(&mut world, 0);
    assert_eq!(world.sides[0].posted, 2);
    assert!(!world.sides[0].ctx.endpoint(0).has_pending_flush());
    assert!(!world.sides[0].ctx.has_dirty_endpoints());
    assert_eq!(poll_recv(&mut world, 1), 1);
    assert_eq!(world.sides[1].ctx.endpoint(0).credit_state().last_recv, 256);
}

#[test]
fn dc_wrap_at_the_start_of_a_cycle_goes_out_where_it_has_room() {
    let config = EndpointConfig { send_ring_size: 64, recv_ring_size: 8192 };
    let mut world = world_of(1, config);
    assert!(matches!(call(&mut world, 0, 0, &[1; 64], 1), Err(CallError::RingFull(1))));
    flush_endpoints(&mut world, 0);
    assert_eq!(world.sides[0].posted, 1);
    assert_eq!(world.sides[0].doorbells, 1);
    assert!(!world.sides[0].ctx.endpoint(0).has_pending_flush());
    assert!(!world.sides[0].ctx.has_dirty_endpoints());
    assert_eq!(poll_recv(&mut world, 1), 1);
    assert_eq!(world.sides[1].ctx.endpoint(0).credit_state().last_recv, 64);
    assert_eq!(world.sides[0].ctx.endpoint(0).credit_state().producer, 96);
}

#[test]
fn dc_refused_wrap_comes_first() {
    let mut world = new_world(1, 1024);
    // 96 bytes sent, read and given back.
    assert!(call(&mut world, 0, 0, &[1; 40], 0).is_ok());
    poll(&mut world, 0);
    poll_recv(&mut world, 1);
    return_credit(&mut world, 1, 0);
    poll_recv(&mut world, 0);
    assert!(matches!(call(&mut world, 0, 0, &[2; 984], 1), Err(CallError::RingFull(1))));
    world.sides[0].queue_room = 0;
    flush_endpoints(&mut world, 0);
    assert_eq!(world.sides[0].posted, 1);
    // A small message would fit before the end of the cycle, but waits for the wrap.
    assert!(matches!(call(&mut world, 0, 0, &[3; 8], 2), Err(CallError::RingFull(2))));
    assert_eq!(world.sides[0].ctx.endpoint(0).credit_state().producer, 1024);
    world.sides[0].queue_room = 5;
    flush_endpoints(&mut world, 0);
    assert_eq!(world.sides[0].posted, 2);
    assert_eq!(poll_recv(&mut world, 1), 1);
    assert_eq!(world.sides[1].ctx.endpoint(0).credit_state().last_recv, 1024);
    return_credit(&mut world, 1, 0);
    poll_recv(&mut world, 0);
    // Behind the wrap, with all read and reported, both are taken.
    assert!(call(&mut world, 0, 0, &[3; 8], 2).is_ok());
    assert!(call(&mut world, 0, 0, &[2; 880], 1).is_ok());
}

#[test]
fn dc_full_ring_is_refused_and_credit_comes_back_alone() {
    let mut world = new_world(1, 1024);
    let mut taken = 0u32;
    loop {
        match call(&mut world, 0, 0, &[7; 24], taken) {
            Ok(_) => taken += 1,
            Err(CallError::RingFull(u)) => {
                assert_eq!(u, taken);
                break;
            }
            Err(e) => panic!("unexpected error: {:?}", e),
        }
    }
    // One header, 30 messages of 32 bytes: 992 of 1024 bytes, and a message more would touch the end.
    assert_eq!(taken, 30);
    let state = world.sides[0].ctx.endpoint(0).credit_state();
    assert_eq!((state.ring_size, state.producer, state.in_flight), (1024, 992, 992));
    poll(&mut world, 0);
    // The wrap has to wait for the peer.
    assert!(matches!(call(&mut world, 0, 0, &[7; 24], 99), Err(CallError::RingFull(99))));
    assert_eq!(poll_recv(&mut world, 1), 1);
    let state = world.sides[1].ctx.endpoint(0).credit_state();
    assert_eq!((state.last_recv, state.last_notified, state.unreturned), (992, 0, 992));
    // The peer has nothing to send: a refused reply puts it into the queue, and the flush sends a
    // batch without messages that reports what was read.
    let handle = world.sides[1].ctx.recv().unwrap();
    assert_eq!(reply(&mut world, 1, &handle, &[0; 2000]), Err(Error::RingFull));
    let before = world.sides[1].posted;
    flush_endpoints(&mut world, 1);
    assert_eq!(world.sides[1].posted, before + 1);
    poll(&mut world, 0);
    assert_eq!(world.sides[0].ctx.endpoint(0).credit_state().consumer, 992);
    assert!(call(&mut world, 0, 0, &[7; 24], 99).is_ok());
}

#[test]
fn dc_credit_goes_out_also_where_a_wrap_waits() {
    let mut world = new_world(1, 256);
    assert!(call(&mut world, 0, 0, &[1; 80], 1).is_ok());
    assert!(call(&mut world, 1, 0, &[1; 80], 1).is_ok());
    for side in 0..2 {
        flush_endpoints(&mut world, side);
        assert!(matches!(call(&mut world, side, 0, &[2; 88], 2), Err(CallError::RingFull(2))));
    }
    for side in 0..2 {
        poll_recv(&mut world, side);
    }
    // Neither wrap has room, but both sides give their ring space back.
    for side in 0..2 {
        let before = world.sides[side].posted;
        flush_endpoints(&mut world, side);
        assert_eq!(world.sides[side].posted, before + 1);
        assert_eq!(world.sides[side].ctx.endpoint(0).credit_state().unreturned, 0);
        assert!(world.sides[side].ctx.endpoint(0).has_pending_flush());
    }
    for side in 0..2 {
        poll(&mut world, side);
        assert!(!world.sides[side].ctx.endpoint(0).has_pending_flush());
        assert!(call(&mut world, side, 0, &[2; 24], 2).is_ok());
    }
}

#[test]
fn dc_only_one_batch_of_credit_goes_into_a_full_ring() {
    let mut world = new_world(1, 256);
    // 224 of 256 bytes are taken, and 32 kept free.
    assert!(call(&mut world, 1, 0, &[1; 184], 1).is_ok());
    flush_endpoints(&mut world, 1);
    assert_eq!(world.sides[1].ctx.endpoint(0).credit_state().in_flight, 256);
    // They go to a batch that gives 64 bytes back.
    assert!(call(&mut world, 0, 0, b"", 1).is_ok());
    flush_endpoints(&mut world, 0);
    assert_eq!(poll_recv(&mut world, 1), 1);
    return_credit(&mut world, 1, 0);
    assert_eq!(world.sides[1].posted, 2);
    assert_eq!(world.sides[1].ctx.endpoint(0).credit_state().unreturned, 0);
    // More to give back, but no room: it waits, and the endpoint stays in the queue.
    assert!(call(&mut world, 0, 0, b"", 2).is_ok());
    flush_endpoints(&mut world, 0);
    assert_eq!(poll_recv(&mut world, 1), 1);
    return_credit(&mut world, 1, 0);
    assert_eq!(world.sides[1].posted, 2);
    assert_eq!(world.sides[1].ctx.endpoint(0).credit_state().unreturned, 64);
    assert!(world.sides[1].ctx.has_dirty_endpoints());
    // The first side reads and gives back, and the second one can go on.
    assert_eq!(poll_recv(&mut world, 0), 2);
    return_credit(&mut world, 0, 0);
    poll(&mut world, 1);
    assert_eq!(world.sides[1].posted, 3);
    assert_eq!(world.sides[1].ctx.endpoint(0).credit_state().unreturned, 0);
    assert!(!world.sides[1].ctx.has_dirty_endpoints());
}

#[test]
fn dc_two_full_sides_are_not_both_stuck() {
    let mut world = new_world(1, 256);
    // Both sides fill the other's ring up to the 32 bytes that are kept free.
    for side in 0..2 {
        assert!(call(&mut world, side, 0, &[1; 184], 1).is_ok());
        flush_endpoints(&mut world, side);
        assert!(matches!(call(&mut world, side, 0, b"", 2), Err(CallError::RingFull(2))));
        assert_eq!(world.sides[side].ctx.endpoint(0).credit_state().in_flight, 256);
    }
    // The batches that give the space back cross each other.
    for side in 0..2 {
        assert_eq!(poll_recv(&mut world, side), 1);
    }
    for side in 0..2 {
        return_credit(&mut world, side, 0);
        assert_eq!(world.sides[side].posted, 2);
        assert_eq!(world.sides[side].ctx.endpoint(0).credit_state().unreturned, 0);
    }
    // Each makes room for its reader.
    for side in 0..2 {
        assert_eq!(poll_recv(&mut world, side), 1);
        let state = world.sides[side].ctx.endpoint(0).credit_state();
        assert_eq!((state.consumer, state.unreturned), (224, 32));
    }
    for side in 0..2 {
        assert!(call(&mut world, side, 0, &[2; 120], 3).is_ok());
        flush_endpoints(&mut world, side);
        assert_eq!(world.sides[side].ctx.endpoint(0).credit_state().unreturned, 0);
    }
}

#[test]
fn dc_refused_message_is_taken_after_two_rounds() {
    for len in [0usize, 24, 60, 120, 180] {
        let mut world = new_world(1, 256);
        let data = vec![9u8; len];
        for step in 0..40u32 {
            // Both sides fill the ring of the other one.
            for side in 0..2 {
                while call(&mut world, side, 0, &data, step).is_ok() {}
                flush_endpoints(&mut world, side);
            }
            for side in 0..2 {
                poll_recv(&mut world, side);
            }
            for side in 0..2 {
                return_credit(&mut world, side, 0);
            }
            for side in 0..2 {
                poll_recv(&mut world, side);
            }
            // Two rounds, in which one side tries again.
            let side = (step % 2) as usize;
            let mut taken = false;
            for _ in 0..2 {
                return_credit(&mut world, side, 0);
                poll_recv(&mut world, 1 - side);
                return_credit(&mut world, 1 - side, 0);
                poll_recv(&mut world, side);
                taken = taken || call(&mut world, side, 0, &data, step).is_ok();
            }
            assert!(taken);
            while world.sides[0].ctx.recv().is_some() {}
            while world.sides[1].ctx.recv().is_some() {}
        }
    }
}

#[test]
fn dc_refused_batch_keeps_its_credit() {
    let mut world = new_world(1, 1024);
    assert!(call(&mut world, 0, 0, &[1; 24], 0).is_ok());
    poll(&mut world, 0);
    poll_recv(&mut world, 1);
    assert!(call(&mut world, 1, 0, b"", 5).is_ok());
    for room in [0, 0, 1] {
        world.sides[1].queue_room = room;
        flush_endpoints(&mut world, 1);
        let state = world.sides[1].ctx.endpoint(0).credit_state();
        assert_eq!(state.unreturned, if room == 0 { 64 } else { 0 });
        let ring = world.sides[1].ctx.endpoint(0).send_ring();
        assert_eq!(decode_batch_header(ring, 0), (64, 64, 1));
    }
    poll(&mut world, 0);
    assert_eq!(world.sides[0].ctx.endpoint(0).credit_state().consumer, 64);
}

#[test]
fn dc_failed_creation_uses_a_number_up() {
    let mut side = new_side(4);
    assert!(side.ctx.can_create());
    let first = add_endpoint(&mut side, 0, &EndpointConfig::default());
    assert_eq!(side.ctx.create_endpoint(Err(Error::Io)), Err(Error::Io));
    assert_eq!(side.ctx.create_endpoint(Err(Error::RingFull)), Err(Error::RingFull));
    let second = add_endpoint(&mut side, 0, &EndpointConfig::default());
    assert_eq!((first, second, side.ctx.endpoint_count()), (0, 1, 2));
    assert_eq!(side.ctx.endpoint(first).endpoint_id(), 1);
    assert_eq!(side.ctx.endpoint(second).endpoint_id(), 4);
    let found: Vec<Option<usize>> = (0..6).map(|id| side.ctx.slot_of(id)).collect();
    assert_eq!(found, vec![None, Some(0), None, None, Some(1), None]);
}

#[test]
fn dc_batch_without_messages_returns_credit() {
    let mut world = new_world(1, 1024);
    assert!(call(&mut world, 0, 0, &[1; 24], 0).is_ok());
    poll(&mut world, 0);
    poll_recv(&mut world, 1);
    let (endpoint, _) = world.sides[1].ctx.endpoint_and_queue(0);
    let step = endpoint.emit_pending();
    let text = format!("{:?}", step);
    assert!(text.contains("CreditReturn"));
    // Bytes of the batch, bytes read, number of messages.
    assert_eq!(decode_batch_header(endpoint.send_ring(), 0), (32, 64, 0));
}

#[test]
fn dc_every_eighth_work_request_is_signaled() {
    let mut world = new_world(1, 1 << 16);
    for i in 0..24 {
        assert!(call(&mut world, 0, 0, &[0; 8], i).is_ok());
        let signaled = world.sides[0].signaled;
        flush_endpoints(&mut world, 0);
        let expected = if i % 8 == 7 { signaled + 1 } else { signaled };
        assert_eq!(world.sides[0].signaled, expected);
    }
    assert_eq!(world.sides[0].posted, 24);
    assert_eq!(world.sides[0].signaled, 3);
    assert_eq!(world.sides[0].doorbells, 24);
    assert_eq!(world.sides[0].ctx.pending_send_cqes(), 1);
}

#[test]
fn dc_full_send_queue_is_retried() {
    let mut world = new_world(2, 1024);
    assert!(call(&mut world, 0, 0, b"a", 1).is_ok());
    assert!(call(&mut world, 0, 1, b"b", 2).is_ok());
    world.sides[0].queue_room = 0;
    flush_endpoints(&mut world, 0);
    assert_eq!(world.sides[0].posted, 0);
    assert_eq!(world.sides[0].doorbells, 0);
    assert!(world.sides[0].ctx.has_dirty_endpoints());
    assert!(world.sides[0].ctx.endpoint(0).has_pending_flush());
    world.sides[0].queue_room = 1;
    flush_endpoints(&mut world, 0);
    assert_eq!(world.sides[0].posted, 1);
    // The second endpoint stood before the first one, which was put back to the end.
    assert!(!world.sides[0].ctx.endpoint(1).has_pending_flush());
    world.sides[0].queue_room = 9;
    flush_endpoints(&mut world, 0);
    assert_eq!(world.sides[0].posted, 2);
    assert!(!world.sides[0].ctx.has_dirty_endpoints());
}

#[test]
fn dc_failed_work_request_is_dropped_from_the_pass() {
    let mut world = new_world(1, 1024);
    assert!(call(&mut world, 0, 0, b"a", 1).is_ok());
    let ctx = &mut world.sides[0].ctx;
    assert!(matches!(ctx.flush_endpoints(), EndpointsStep::Post { slot: 0, .. }));
    assert_eq!(
        ctx.flush_posted(PostOutcome::Failed),
        EndpointsStep::Done { ring_doorbell: false }
    );
    assert!(!ctx.has_dirty_endpoints());
    assert!(ctx.endpoint(0).has_pending_flush());
}

#[test]
fn dc_refused_wrap_behind_a_batch_waits() {
    let mut world = new_world(1, 256);
    // 64 bytes sent, read and given back.
    assert!(call(&mut world, 0, 0, &[1; 24], 0).is_ok());
    poll(&mut world, 0);
    poll_recv(&mut world, 1);
    return_credit(&mut world, 1, 0);
    poll_recv(&mut world, 0);
    assert!(call(&mut world, 0, 0, &[1; 80], 1).is_ok());
    assert!(matches!(call(&mut world, 0, 0, &[2; 184], 2), Err(CallError::RingFull(2))));
    world.sides[0].queue_room = 1;
    flush_endpoints(&mut world, 0);
    // The batch went out, the wrap is still asked for, and the endpoint stands in the queue.
    assert_eq!(world.sides[0].posted, 2);
    assert_eq!(world.sides[0].doorbells, 2);
    assert!(world.sides[0].ctx.endpoint(0).has_pending_flush());
    assert!(world.sides[0].ctx.has_dirty_endpoints());
    world.sides[0].queue_room = 5;
    flush_endpoints(&mut world, 0);
    assert_eq!(world.sides[0].posted, 3);
    assert!(!world.sides[0].ctx.endpoint(0).has_pending_flush());
    assert_eq!(poll_recv(&mut world, 1), 2);
    assert_eq!(world.sides[1].ctx.endpoint(0).credit_state().last_recv, 256);
}

#[test]
fn dc_errors_and_unknown_endpoints_are_passed_over() {
    let mut world = new_world(1, 1024);
    let failed = Cqe { opcode: CqeOpcode::RespErr, qp_num: 77, imm: 1, syndrome: 5 };
    let unknown = Cqe { opcode: CqeOpcode::Success, qp_num: 77, imm: 9, syndrome: 0 };
    let zero = Cqe { opcode: CqeOpcode::Success, qp_num: 77, imm: 0, syndrome: 0 };
    let side = &mut world.sides[1];
    let ring = &side.recv_rings[0];
    let completions = [
        Completion { cqe: failed, recv_ring: ring },
        Completion { cqe: unknown, recv_ring: ring },
        Completion { cqe: zero, recv_ring: ring },
    ];
    let polled = side.ctx.poll_recv_counted(&completions);
    assert_eq!((polled.recv_count, polled.to_post, polled.malformed), (3, 0, false));
    assert_eq!(polled.responses.len(), 0);
    assert_eq!(side.ctx.srq_posted(), 4093);
    assert!(side.ctx.recv().is_none());
}

#[test]
fn dc_malformed_batch_is_reported() {
    let mut world = new_world(1, 64);
    let side = &mut world.sides[1];
    // A request of more bytes than the ring has is kept.
    side.recv_rings[0][16] = 1;
    side.recv_rings[0][36] = 0xff;
    let cqe = Cqe { opcode: CqeOpcode::Success, qp_num: 77, imm: 1, syndrome: 0 };
    let completions = [Completion { cqe, recv_ring: &side.recv_rings[0] }];
    let polled = side.ctx.poll_recv_counted(&completions);
    assert_eq!((polled.recv_count, polled.malformed), (1, false));
    assert!(!side.ctx.recv().unwrap().is_whole(&side.recv_rings[0]));
    // A wrap of fewer bytes than its own header is no batch. The position is at offset 0.
    side.recv_rings[0].fill(0);
    side.recv_rings[0][16..20].fill(0xff);
    side.recv_rings[0][0] = 31;
    let completions = [Completion { cqe, recv_ring: &side.recv_rings[0] }];
    assert!(!side.ctx.can_process(cqe, &side.recv_rings[0]));
    let polled = side.ctx.poll_recv_counted(&completions);
    assert_eq!((polled.recv_count, polled.malformed), (0, true));
}

#[test]
fn dirty_list_is_first_in_first_out_without_duplicates() {
    let mut list = DirtyEndpointList::new();
    assert!(list.is_empty());
    assert_eq!(list.pop_front(), None);
    list.push_back(5);
    list.push_back(2);
    list.push_back(5);
    list.push_back(9);
    list.push_back(2);
    assert!(!list.is_empty());
    assert_eq!(list.pop_front(), Some(5));
    list.push_back(5);
    assert_eq!(list.pop_front(), Some(2));
    assert_eq!(list.pop_front(), Some(9));
    assert_eq!(list.pop_front(), Some(5));
    assert_eq!(list.pop_front(), None);
    assert!(list.is_empty());
    list.ensure_slot(100);
    assert!(list.is_empty());
    list.push_back(100);
    assert_eq!(list.pop_front(), Some(100));
}

/// Bytes that tell one request from the next.
fn pattern(i: usize) -> Vec<u8> {
    let len = (i * 37) % 301;
    (0..len).map(|k| (i * 31 + k * 7) as u8).collect()
}

#[test]
fn dc_every_payload_comes_back() {
    const CALLS: usize = 600;
    let mut world = new_world(2, 2048);
    let mut waiting: Vec<(RecvHandle, Vec<u8>)> = Vec::new();
    let mut sent = 0;
    let mut turns = 0;
    while completed(&world, 0) < CALLS {
        while sent < CALLS && sent - completed(&world, 0) < 3 {
            match call(&mut world, 0, sent % 2, &pattern(sent), sent as u32) {
                Ok(_) => sent += 1,
                Err(CallError::RingFull(_)) => break,
                Err(e) => panic!("unexpected error: {:?}", e),
            }
        }
        poll(&mut world, 0);
        poll(&mut world, 1);
        while let Some(handle) = world.sides[1].ctx.recv() {
            let slot = handle.endpoint();
            assert_eq!(handle.endpoint_id(), slot as u32 + 1);
            let data = handle.data(&world.sides[1].recv_rings[slot]).to_vec();
            waiting.push((handle, data));
        }
        let mut refused = Vec::new();
        for (handle, data) in waiting.drain(..) {
            match reply(&mut world, 1, &handle, &data) {
                Ok(()) => {}
                Err(Error::RingFull) => refused.push((handle, data)),
                Err(e) => panic!("unexpected error: {:?}", e),
            }
        }
        waiting = refused;
        flush_endpoints(&mut world, 1);
        turns += 1;
        assert!(turns < 100 * CALLS);
    }
    for (user_data, data) in &world.sides[0].responses {
        assert_eq!(data, &pattern(*user_data as usize));
    }
}
