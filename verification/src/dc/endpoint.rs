//! An endpoint of a dynamic connection.

use vstd::prelude::*;

use crate::dc::dirty::DirtyEndpointList;
use crate::dc::info::{
    LocalEndpointInfo, RemoteDctInfo, RemoteEndpointInfo, RemoteRingInfo, RingMemory,
};
use crate::dc::state::{
    lemma_headed, lemma_sent, lemma_span, lemma_wrapped, lemma_wrote, EndpointState, LocalSide,
    WriteImm, SIGNAL_INTERVAL_MASK,
};
use crate::dc::step::{EmitStage, EmitStep};
use crate::dc::wire::{
    dc_encode_message, dc_padded_message_size, BATCH_HEADER_SIZE, CREDIT_RETURN_RESERVE,
};
use crate::encoding::{
    decode_batch_header, encode_batch_header, to_response_id, WRAP_MESSAGE_COUNT,
};
use crate::error::{CallError, Error, PostOutcome};
use crate::inbound::{
    lemma_settle_behind, lemma_settle_inside, messages_valid, take_messages, Inbox, RecvMessage,
    Response,
};
use crate::message::{lemma_messages_end_grows, Format};
use crate::pending::{slots_after, PendingCalls};
use crate::ring::{
    is_pow2, lemma_offset_aligned, lemma_offset_wrap, lemma_pow2_multiple_of_32, ring_offset,
};
use crate::wqe::Sge;

verus! {

/// An endpoint: one side of a connection to a peer.
pub struct Endpoint<U> {
    local: LocalSide,
    send_ring: Vec<u8>,
    remote_recv_ring: Option<RemoteRingInfo>,
    remote_dct: Option<RemoteDctInfo>,
    remote_endpoint_id: u32,
    send_ring_producer: u64,
    recv_ring_producer: u64,
    last_recv_pos: u64,
    last_notified_recv_pos: u64,
    remote_consumer_pos: u64,
    pending_calls: PendingCalls<U>,
    flush_start_pos: u64,
    meta_pos: u64,
    batch_message_count: u32,
    wrap_pending: bool,
    unsignaled_count: u32,
    newly_signaled_count: u32,
    told: u64,
}

/// The flow control of an endpoint, for people to look at.
#[derive(Debug, Clone, Copy, PartialEq, Eq, Structural)]
pub struct CreditState {
    /// Bytes of the peer's receive ring, zero where it is not known.
    pub ring_size: u64,
    /// Position up to which the send ring is in use.
    pub producer: u64,
    /// Position up to which the peer has read its receive ring.
    pub consumer: u64,
    /// Bytes in use that the peer has not reported as read.
    pub in_flight: u64,
    /// Position up to which the receive ring has been read.
    pub last_recv: u64,
    /// Position up to which the peer has been told that the receive ring was read.
    pub last_notified: u64,
    /// Bytes read that the peer has not been told of.
    pub unreturned: u64,
    /// Number of calls in progress.
    pub pending_calls: usize,
}

impl<U> View for Endpoint<U> {
    type V = EndpointState<U>;

    closed spec fn view(&self) -> EndpointState<U> {
        EndpointState {
            local: self.local,
            ring: self.send_ring@,
            remote: self.remote_recv_ring,
            dct: self.remote_dct,
            remote_id: self.remote_endpoint_id,
            producer: self.send_ring_producer as int,
            recv_producer: self.recv_ring_producer as int,
            recv_pos: self.last_recv_pos as int,
            notified: self.last_notified_recv_pos as int,
            consumer: self.remote_consumer_pos as int,
            pending: self.pending_calls@,
            slots: self.pending_calls.slots(),
            flush_start: self.flush_start_pos as int,
            meta_pos: self.meta_pos as int,
            batch_count: self.batch_message_count as int,
            wrap_pending: self.wrap_pending,
            unsignaled: self.unsignaled_count as int,
            newly_signaled: self.newly_signaled_count as int,
            told: self.told as int,
        }
    }
}

impl<U> Endpoint<U> {
    /// The calls in progress are kept well.
    pub closed spec fn calls_wf(self) -> bool {
        self.pending_calls.wf()
    }

    /// Holds of every endpoint between operations.
    pub open spec fn wf(self) -> bool {
        self@.wf() && self.calls_wf()
    }

    /// Makes an endpoint whose rings have been registered.
    pub fn new(endpoint_id: u32, send_ring: Vec<u8>, memory: &RingMemory) -> (r: Self)
        requires
            endpoint_id < u32::MAX,
            is_pow2(send_ring@.len() as int),
            32 <= send_ring@.len(),
            memory.send_addr + send_ring@.len() <= u64::MAX,
            is_pow2(memory.recv_len as int),
            32 <= memory.recv_len,
        ensures
            r.wf(),
            r@ == EndpointState::<U>::created(endpoint_id, send_ring@, *memory),
    {
        Endpoint {
            local: LocalSide {
                endpoint_id,
                send_ring_addr: memory.send_addr,
                send_ring_lkey: memory.send_lkey,
                recv_ring_addr: memory.recv_addr,
                recv_ring_rkey: memory.recv_rkey,
                recv_ring_len: memory.recv_len,
            },
            send_ring,
            remote_recv_ring: None,
            remote_dct: None,
            remote_endpoint_id: 0,
            send_ring_producer: 0,
            recv_ring_producer: 0,
            last_recv_pos: 0,
            last_notified_recv_pos: 0,
            remote_consumer_pos: 0,
            pending_calls: PendingCalls::new(),
            flush_start_pos: 0,
            meta_pos: 0,
            batch_message_count: 0,
            wrap_pending: false,
            unsignaled_count: 0,
            newly_signaled_count: 0,
            told: 0,
        }
    }

    /// Number of the endpoint in its context.
    pub fn endpoint_id(&self) -> (r: u32)
        ensures
            r == self@.local.endpoint_id,
    {
        self.local.endpoint_id
    }

    /// The bytes of the send ring.
    pub fn send_ring(&self) -> (r: &[u8])
        ensures
            r@ == self@.ring,
    {
        self.send_ring.as_slice()
    }

    /// What the peer needs to know to connect to this endpoint.
    pub fn local_info(&self, dct_number: u32, dc_key: u64) -> (r: LocalEndpointInfo)
        ensures
            r == (LocalEndpointInfo {
                dct_number,
                dc_key,
                recv_ring_addr: self@.local.recv_ring_addr,
                recv_ring_rkey: self@.local.recv_ring_rkey,
                recv_ring_size: self@.local.recv_ring_len,
                initial_credit: self@.local.recv_ring_len / 2,
                endpoint_id: self@.local.endpoint_id,
            }),
    {
        LocalEndpointInfo {
            dct_number,
            dc_key,
            recv_ring_addr: self.local.recv_ring_addr,
            recv_ring_rkey: self.local.recv_ring_rkey,
            recv_ring_size: self.local.recv_ring_len,
            initial_credit: self.local.recv_ring_len / 2,
            endpoint_id: self.local.endpoint_id,
        }
    }

    /// Tells whether a message of `size` bytes fits into the ring cycle of the open batch.
    fn has_cycle_room_for(&self, size: u64) -> (r: bool)
        requires
            self.wf(),
            self@.len() + size <= u64::MAX,
            self@.producer + size <= u64::MAX,
        ensures
            r == self@.cycle_room(size as int),
    {
        proof {
            lemma_span(self@);
        }
        let ring_size: u64 = self.send_ring.len() as u64;
        let meta_offset: u64 = ring_offset(self.meta_pos, ring_size);
        let batch_end: u64 = self.send_ring_producer + size - self.meta_pos;
        meta_offset + batch_end < ring_size
    }

    /// Opens a batch behind everything in use.
    fn prepare_next_batch(&mut self)
        requires
            old(self)@.producer + 32 <= u64::MAX,
        ensures
            final(self)@ == old(self)@.prepared(),
            final(self).calls_wf() == old(self).calls_wf(),
    {
        let producer: u64 = self.send_ring_producer;
        self.meta_pos = producer;
        self.batch_message_count = 0;
        self.send_ring_producer = producer + BATCH_HEADER_SIZE as u64;
    }

    /// Writes the header of the open batch.
    fn write_batch_header(&mut self, message_count: u32)
        requires
            is_pow2(old(self)@.len()),
            0 <= old(self)@.offset(old(self)@.flush_start),
            old(self)@.offset(old(self)@.flush_start) + 32 <= old(self)@.len(),
            old(self)@.notified <= old(self)@.recv_pos,
            old(self)@.flush_start <= old(self)@.producer,
        ensures
            final(self)@ == old(self)@.headed(message_count),
            final(self).calls_wf() == old(self).calls_wf(),
    {
        let start: u64 = self.flush_start_pos;
        let delta: u64 = self.send_ring_producer - start;
        let ring_credit_return: u64 = self.last_recv_pos - self.last_notified_recv_pos;
        let start_offset: usize = ring_offset(start, self.send_ring.len() as u64) as usize;
        self.told = ring_credit_return;
        encode_batch_header(
            &mut self.send_ring,
            start_offset,
            delta,
            ring_credit_return,
            message_count,
        );
        assert(self@ =~= old(self)@.headed(message_count));
    }

    /// The work request that hands everything in use to the device.
    fn plan(&self, remote_ring: RemoteRingInfo, remote_dct: RemoteDctInfo) -> (wqe: WriteImm)
        requires
            self.wf(),
            self@.remote == Some(remote_ring),
            self@.dct == Some(remote_dct),
        ensures
            wqe == self@.work_request(),
    {
        proof {
            lemma_span(self@);
        }
        let start: u64 = self.flush_start_pos;
        let delta: u64 = self.send_ring_producer - start;
        let start_offset: u64 = ring_offset(start, self.send_ring.len() as u64);
        let mask: u64 = remote_ring.size - 1;
        let remote_offset: u64 = start & mask;
        assert(start & mask <= mask) by (bit_vector);
        let next_count: u32 = self.unsignaled_count.wrapping_add(1);
        assert((next_count & 0x7u32 == 0) == (next_count == 8u32)) by (bit_vector)
            requires
                1u32 <= next_count <= 8u32,
        ;
        let signaled: Option<u32> = if next_count & SIGNAL_INTERVAL_MASK == 0 {
            Some(self.local.endpoint_id)
        } else {
            None
        };
        WriteImm {
            dct: remote_dct,
            remote_addr: remote_ring.addr + remote_offset,
            rkey: remote_ring.rkey,
            sge: Sge {
                addr: self.local.send_ring_addr + start_offset,
                len: (delta % 0x1_0000_0000) as u32,
                lkey: self.local.send_ring_lkey,
            },
            imm: self.remote_endpoint_id,
            signaled,
        }
    }

    /// Closes the open batch with a message count. Returns the work request for it.
    pub fn emit_batch(&mut self, message_count: u32) -> (r: Result<WriteImm, Error>)
        requires
            old(self).wf(),
        ensures
            final(self).wf(),
            if old(self)@.remote is None {
                r == Err::<WriteImm, Error>(Error::RemoteConsumerUnknown) && final(self)@
                    == old(self)@
            } else {
                final(self)@ == old(self)@.headed(message_count) && r == Ok::<WriteImm, Error>(
                    final(self)@.work_request(),
                )
            },
    {
        let remote_ring = match self.remote_recv_ring {
            Some(remote_ring) => remote_ring,
            None => {
                return Err(Error::RemoteConsumerUnknown);
            },
        };
        let remote_dct = match self.remote_dct {
            Some(remote_dct) => remote_dct,
            None => {
                return Err(Error::RemoteConsumerUnknown);
            },
        };
        proof {
            lemma_span(self@);
            lemma_headed(self@, message_count);
        }
        self.write_batch_header(message_count);
        Ok(self.plan(remote_ring, remote_dct))
    }

    /// Takes note that the device has the open batch, and opens the next one.
    fn batch_sent(&mut self)
        requires
            old(self).wf(),
            old(self)@.remote is Some,
            old(self)@.producer + 32 <= u64::MAX,
        ensures
            final(self)@ == old(self)@.sent(),
            final(self).wf(),
    {
        proof {
            lemma_sent(self@);
        }
        if self.unsignaled_count == SIGNAL_INTERVAL_MASK {
            self.unsignaled_count = 0;
            self.newly_signaled_count = self.newly_signaled_count.saturating_add(1);
        } else {
            self.unsignaled_count = self.unsignaled_count + 1;
        }
        self.last_notified_recv_pos = self.last_notified_recv_pos + self.told;
        self.told = 0;
        self.flush_start_pos = self.send_ring_producer;
        self.prepare_next_batch();
    }

    /// Number of signaled work requests since the last time.
    pub fn take_newly_signaled_count(&mut self) -> (r: u32)
        requires
            old(self).wf(),
        ensures
            final(self).wf(),
            r == old(self)@.newly_signaled,
            final(self)@ == old(self)@.counted(),
    {
        let v: u32 = self.newly_signaled_count;
        self.newly_signaled_count = 0;
        v
    }

    /// Position of the next ring cycle.
    fn cycle_end(&self) -> (r: u64)
        requires
            self@.wf(),
            self@.meta_pos + self@.len() <= u64::MAX,
        ensures
            r == self@.cycle_end(),
    {
        let ring_size: u64 = self.send_ring.len() as u64;
        self.meta_pos + (ring_size - ring_offset(self.meta_pos, ring_size))
    }

    /// Tells whether the peer's ring has room for the rest of the ring cycle.
    fn wrap_has_room(&self, remote_ring: RemoteRingInfo) -> (r: bool)
        requires
            self@.wf(),
            self@.remote == Some(remote_ring),
            self@.meta_pos + self@.len() <= u64::MAX,
        ensures
            r == self@.wrap_fits(),
    {
        let in_flight: u64 = self.cycle_end().saturating_sub(self.remote_consumer_pos);
        remote_ring.size >= CREDIT_RETURN_RESERVE && in_flight <= remote_ring.size
            - CREDIT_RETURN_RESERVE
    }

    /// Gives the place of the open batch, which is empty, to one that runs to the end of the ring
    /// cycle. Returns the work request for it.
    fn emit_wrap(&mut self) -> (r: Result<WriteImm, Error>)
        requires
            old(self).wf(),
            old(self)@.remote is Some,
            old(self)@.wrap_pending,
            old(self)@.wrap_fits(),
            old(self)@.batch_count == 0,
            old(self)@.meta_pos + old(self)@.len() <= u64::MAX,
        ensures
            final(self)@ == old(self)@.wrapped(),
            final(self).wf(),
            r == Ok::<WriteImm, Error>(final(self)@.work_request()),
    {
        proof {
            lemma_wrapped(self@);
            lemma_pow2_multiple_of_32(self@.len());
            lemma_offset_aligned(self@.meta_pos, self@.len());
            lemma_offset_wrap(self@.meta_pos, self@.len());
        }
        self.send_ring_producer = self.cycle_end();
        assert(self@ =~= EndpointState { producer: old(self)@.cycle_end(), ..old(self)@ });
        assert(self@.wf());
        self.emit_batch(WRAP_MESSAGE_COUNT)
    }

    /// The stretch of a flush behind the open batch.
    #[verifier::rlimit(50)]
    fn emit_tail(&mut self, emitted: bool) -> (step: EmitStep)
        requires
            old(self).wf(),
            old(self)@.batch_count == 0,
            old(self)@.meta_pos + old(self)@.len() <= u64::MAX,
        ensures
            final(self).wf(),
            (final(self)@, step) == old(self)@.emit_tail(emitted),
            step matches EmitStep::Post { stage, wqe } ==> final(self)@.stopped_at(stage),
    {
        proof {
            lemma_offset_wrap(self@.meta_pos, self@.len());
        }
        let wrap_fits: bool = match self.remote_recv_ring {
            Some(remote_ring) => self.wrap_has_room(remote_ring),
            None => false,
        };
        if self.wrap_pending && wrap_fits {
            return match self.emit_wrap() {
                Ok(wqe) => EmitStep::Post { stage: EmitStage::Wrap { after_batch: emitted }, wqe },
                Err(e) => EmitStep::Done(Err(e)),
            };
        }
        let unreturned: u64 = self.last_recv_pos - self.last_notified_recv_pos;
        if !emitted && unreturned > 0 {
            if let Some(remote_ring) = self.remote_recv_ring {
                let in_flight: u64 = self.send_ring_producer.saturating_sub(
                    self.remote_consumer_pos,
                );
                if in_flight > remote_ring.size {
                    return EmitStep::Done(Err(Error::RingFull));
                }
            }
            return match self.emit_batch(0) {
                Ok(wqe) => EmitStep::Post { stage: EmitStage::CreditReturn, wqe },
                Err(e) => EmitStep::Done(Err(e)),
            };
        }
        if !emitted && self.wrap_pending {
            return EmitStep::Done(Err(Error::RingFull));
        }
        EmitStep::Done(Ok(emitted))
    }

    /// Sends the open batch, a wrap that was asked for, or, where there is neither, credit for the
    /// peer, if there is any to give back.
    pub fn emit_pending(&mut self) -> (step: EmitStep)
        requires
            old(self).wf(),
            old(self)@.meta_pos + old(self)@.len() <= u64::MAX,
        ensures
            final(self).wf(),
            (final(self)@, step) == old(self)@.emit_start(),
            step matches EmitStep::Post { stage, wqe } ==> final(self)@.stopped_at(stage),
    {
        if self.batch_message_count > 0 {
            return match self.emit_batch(self.batch_message_count) {
                Ok(wqe) => EmitStep::Post { stage: EmitStage::Batch, wqe },
                Err(e) => EmitStep::Done(Err(e)),
            };
        }
        self.emit_tail(false)
    }

    /// Goes on with a flush when the device has answered.
    #[verifier::rlimit(50)]
    pub fn emit_posted(&mut self, stage: EmitStage, outcome: PostOutcome) -> (step: EmitStep)
        requires
            old(self).wf(),
            old(self)@.stopped_at(stage),
            old(self)@.producer + old(self)@.len() + 32 <= u64::MAX,
        ensures
            final(self).wf(),
            (final(self)@, step) == old(self)@.emit_resume(stage, outcome),
            step matches EmitStep::Post { stage, wqe } ==> final(self)@.stopped_at(stage),
    {
        let error = match outcome {
            PostOutcome::Posted => {
                self.batch_sent();
                return match stage {
                    EmitStage::Batch => self.emit_tail(true),
                    EmitStage::Wrap { after_batch: _ } => {
                        self.wrap_pending = false;
                        EmitStep::Done(Ok(true))
                    },
                    EmitStage::CreditReturn => EmitStep::Done(Ok(true)),
                };
            },
            PostOutcome::QueueFull => Error::RingFull,
            PostOutcome::Failed => Error::Io,
        };
        self.told = 0;
        match stage {
            EmitStage::Wrap { after_batch } => {
                if after_batch {
                    return EmitStep::Done(Ok(true));
                }
            },
            _ => {},
        }
        EmitStep::Done(Err(error))
    }

    /// Tells whether the open batch has messages or a wrap was asked for.
    pub fn has_pending_flush(&self) -> (r: bool)
        ensures
            r == (self@.wrap_pending || self@.batch_count > 0),
    {
        self.wrap_pending || self.batch_message_count > 0
    }

    /// Tells whether the endpoint is connected.
    pub fn is_connected(&self) -> (r: bool)
        ensures
            r == self@.remote is Some,
    {
        self.remote_recv_ring.is_some()
    }

    /// Connects to a peer.
    pub fn connect(&mut self, remote: &RemoteEndpointInfo, _local_psn: u32, _port: u8)
        requires
            old(self).wf(),
            old(self)@.remote is None,
            remote.ring().valid(),
        ensures
            final(self).wf(),
            final(self)@ == old(self)@.linked(*remote),
    {
        proof {
            lemma_pow2_multiple_of_32(self@.len());
            lemma_offset_aligned(0, self@.len());
        }
        self.remote_recv_ring = Some(
            RemoteRingInfo {
                addr: remote.recv_ring_addr,
                rkey: remote.recv_ring_rkey,
                size: remote.recv_ring_size,
            },
        );
        self.remote_dct = Some(
            RemoteDctInfo {
                dctn: remote.dct_number,
                dc_key: remote.dc_key,
                dlid: remote.local_identifier,
            },
        );
        self.remote_endpoint_id = remote.endpoint_id;
        self.remote_consumer_pos = 0;
        self.prepare_next_batch();
    }

    /// Puts a message behind the open batch.
    fn write_message(&mut self, call_id: u32, data: &[u8])
        requires
            old(self).wf(),
            old(self)@.remote is Some,
            old(self)@.producer + Format::Dc.padded(data@.len() as int) <= u64::MAX,
            old(self)@.batch_count < u32::MAX,
            data@.len() <= u32::MAX,
            old(self)@.cycle_room(Format::Dc.padded(data@.len() as int)),
        ensures
            final(self)@ == old(self)@.wrote(call_id, data@),
            final(self).wf(),
    {
        proof {
            lemma_wrote(self@, call_id, data@);
        }
        let producer: u64 = self.send_ring_producer;
        let msg_size: u64 = dc_padded_message_size(data.len() as u32);
        let send_offset: usize = ring_offset(producer, self.send_ring.len() as u64) as usize;
        dc_encode_message(&mut self.send_ring, send_offset, call_id, data);
        self.send_ring_producer = producer + msg_size;
        self.batch_message_count = self.batch_message_count + 1;
        assert(self@ =~= old(self)@.wrote(call_id, data@));
    }

    /// Tells whether the peer's ring has room for `size` bytes.
    fn has_space_for(&self, remote_ring: RemoteRingInfo, size: u64) -> (r: bool)
        requires
            self@.remote == Some(remote_ring),
            self@.producer + 32 <= u64::MAX,
            0 <= self@.consumer,
        ensures
            r == self@.has_space(size as int),
    {
        let in_flight: u64 = self.send_ring_producer.saturating_sub(self.remote_consumer_pos);
        let available: u64 = remote_ring.size.saturating_sub(in_flight + CREDIT_RETURN_RESERVE);
        size <= available
    }

    /// Sends a request.
    #[verifier::rlimit(50)]
    pub fn call(
        &mut self,
        queue: &mut DirtyEndpointList,
        data: &[u8],
        user_data: U,
        _response_allowance: u64,
    ) -> (r: Result<u32, CallError<U>>)
        requires
            old(self).wf(),
            old(queue).wf(),
            old(self)@.room_to_run(data@.len() as int),
            old(self)@.pending.len() < usize::MAX / 128,
            data@.len() <= u32::MAX,
        ensures
            final(self).wf(),
            final(queue).wf(),
            old(self)@.calls(data@, user_data, final(self)@, r),
            final(queue)@ == old(self)@.queue_after(old(queue)@),
    {
        let remote_ring = match self.remote_recv_ring {
            Some(remote_ring) => remote_ring,
            None => {
                return Err(CallError::Other(Error::RemoteConsumerUnknown));
            },
        };
        let msg_size: u64 = dc_padded_message_size(data.len() as u32);
        queue.push_back(self.local.endpoint_id);
        if !self.has_cycle_room_for(msg_size) {
            self.wrap_pending = true;
            return Err(CallError::RingFull(user_data));
        }
        if !self.has_space_for(remote_ring, msg_size) {
            return Err(CallError::RingFull(user_data));
        }
        let key: usize = self.pending_calls.insert(user_data);
        let call_id: u32 = (key as u64 % 0x1_0000_0000) as u32;
        assert(self@ =~= EndpointState {
            pending: old(self)@.pending.insert(key, user_data),
            slots: slots_after(old(self)@.slots, old(self)@.pending.len()),
            ..old(self)@
        });
        self.write_message(call_id, data);
        assert(old(self)@.accepts(data@, user_data, key, self@, Ok(call_id)));
        Ok(call_id)
    }

    /// Answers request `call_id`.
    pub fn reply(&mut self, queue: &mut DirtyEndpointList, call_id: u32, data: &[u8]) -> (r: Result<
        (),
        Error,
    >)
        requires
            old(self).wf(),
            old(queue).wf(),
            old(self)@.room_to_run(data@.len() as int),
            data@.len() <= u32::MAX,
        ensures
            final(self).wf(),
            final(queue).wf(),
            (final(self)@, r) == old(self)@.replied(call_id, data@),
            final(queue)@ == old(self)@.queue_after(old(queue)@),
    {
        let remote_ring = match self.remote_recv_ring {
            Some(remote_ring) => remote_ring,
            None => {
                return Err(Error::RemoteConsumerUnknown);
            },
        };
        let msg_size: u64 = dc_padded_message_size(data.len() as u32);
        queue.push_back(self.local.endpoint_id);
        if !self.has_cycle_room_for(msg_size) {
            self.wrap_pending = true;
            return Err(Error::RingFull);
        }
        if !self.has_space_for(remote_ring, msg_size) {
            return Err(Error::RingFull);
        }
        self.write_message(to_response_id(call_id), data);
        Ok(())
    }

    /// Tells whether the batch to read next can be taken in.
    pub fn batch_valid(&self, recv_ring: &[u8]) -> (r: bool)
        requires
            self.wf(),
        ensures
            r == self@.can_receive(recv_ring@),
    {
        let len: u64 = recv_ring.len() as u64;
        if len != self.local.recv_ring_len {
            return false;
        }
        let pos: u64 = self.last_recv_pos;
        let at: usize = ring_offset(pos, len) as usize;
        if recv_ring.len() - at < BATCH_HEADER_SIZE {
            return false;
        }
        let (delta, ring_credit_return, message_count) = decode_batch_header(recv_ring, at);
        if self.recv_ring_producer > u64::MAX - delta || self.remote_consumer_pos > u64::MAX
            - ring_credit_return {
            return false;
        }
        if message_count == WRAP_MESSAGE_COUNT {
            return delta >= BATCH_HEADER_SIZE as u64 && pos <= u64::MAX - delta;
        }
        if pos > u64::MAX - BATCH_HEADER_SIZE as u64 {
            proof {
                lemma_messages_end_grows(
                    Format::Dc,
                    recv_ring@,
                    pos + 32,
                    0,
                    message_count as nat,
                );
            }
            return false;
        }
        messages_valid(
            Format::Dc,
            recv_ring,
            pos + BATCH_HEADER_SIZE as u64,
            message_count,
            &self.pending_calls,
        )
    }

    /// Takes in the next batch. Requests go to the end of `requests`, responses are returned with
    /// the user data of their calls. The endpoint stands at `slot` among the context's endpoints.
    #[verifier::rlimit(50)]
    pub fn receive(
        &mut self,
        slot: usize,
        recv_ring: &[u8],
        requests: &mut Vec<RecvMessage>,
    ) -> (responses: Vec<Response<U>>)
        requires
            old(self).wf(),
            old(self)@.can_receive(recv_ring@),
        ensures
            final(self).wf(),
            final(self)@ == old(self)@.received(slot, recv_ring@),
            (Inbox {
                pending: final(self)@.pending,
                responses: responses@,
                requests: final(requests)@,
            }) == old(self)@.inbox(slot, recv_ring@, old(requests)@),
            forall|i: int|
                0 <= i < responses@.len() ==> {
                    &&& (#[trigger] responses@[i]).data_offset + responses@[i].data_len
                        <= recv_ring@.len()
                    &&& responses@[i].endpoint == slot
                },
            old(requests)@.len() <= final(requests)@.len(),
            forall|i: int|
                0 <= i < old(requests)@.len() ==> final(requests)@[i] == old(requests)@[i],
            forall|i: int|
                old(requests)@.len() <= i < final(requests)@.len() ==> {
                    &&& (#[trigger] final(requests)@[i]).data_offset <= recv_ring@.len()
                    &&& final(requests)@[i].endpoint == slot
                    &&& final(requests)@[i].id == old(self)@.local.endpoint_id
                },
    {
        let mut responses: Vec<Response<U>> = Vec::new();
        let pos: u64 = self.last_recv_pos;
        let at: usize = ring_offset(pos, recv_ring.len() as u64) as usize;
        let (delta, ring_credit_return, message_count) = decode_batch_header(recv_ring, at);
        self.recv_ring_producer = self.recv_ring_producer + delta;
        self.remote_consumer_pos = self.remote_consumer_pos + ring_credit_return;
        proof {
            let n = message_count as nat;
            let before = old(self)@;
            lemma_messages_end_grows(Format::Dc, recv_ring@, pos + 32, 0, n);
            lemma_settle_behind(
                before.arrival(recv_ring@),
                slot,
                before.local.endpoint_id,
                before.pending,
                Seq::<Response<U>>::empty(),
                requests@,
                n,
            );
            if message_count != WRAP_MESSAGE_COUNT {
                lemma_settle_inside(
                    before.arrival(recv_ring@),
                    slot,
                    before.local.endpoint_id,
                    before.pending,
                    n,
                    n,
                );
            }
        }
        let first: u64 = pos + BATCH_HEADER_SIZE as u64;
        if message_count == WRAP_MESSAGE_COUNT {
            let skip: u64 = delta - BATCH_HEADER_SIZE as u64;
            self.last_recv_pos = first + skip;
            return responses;
        }
        let end: u64 = take_messages(
            Format::Dc,
            recv_ring,
            first,
            message_count,
            slot,
            self.local.endpoint_id,
            &mut self.pending_calls,
            &mut responses,
            requests,
        );
        self.last_recv_pos = end;
        responses
    }

    /// The flow control of the endpoint.
    pub fn credit_state(&self) -> (r: CreditState)
        requires
            self.wf(),
        ensures
            r.ring_size == (match self@.remote {
                Some(remote_ring) => remote_ring.size,
                None => 0,
            }),
            r.producer == self@.producer,
            r.consumer == self@.consumer,
            r.in_flight == self@.in_flight(),
            r.last_recv == self@.recv_pos,
            r.last_notified == self@.notified,
            r.unreturned == self@.unreturned(),
            r.pending_calls == self@.pending.len(),
    {
        CreditState {
            ring_size: match self.remote_recv_ring {
                Some(remote_ring) => remote_ring.size,
                None => 0,
            },
            producer: self.send_ring_producer,
            consumer: self.remote_consumer_pos,
            in_flight: self.send_ring_producer.saturating_sub(self.remote_consumer_pos),
            last_recv: self.last_recv_pos,
            last_notified: self.last_notified_recv_pos,
            unreturned: self.last_recv_pos - self.last_notified_recv_pos,
            pending_calls: self.pending_calls.len(),
        }
    }

    /// Tells whether positions stay in range while the endpoint is flushed.
    pub fn can_flush(&self) -> (r: bool)
        requires
            self.wf(),
        ensures
            r == (self@.producer + self@.len() + 32 <= u64::MAX),
    {
        let len: u64 = self.send_ring.len() as u64;
        assert(self@.local.send_ring_addr + self@.len() <= u64::MAX);
        self.send_ring_producer <= u64::MAX - len && self.send_ring_producer + len <= u64::MAX - 32
    }

    /// Tells whether a message of `payload_len` bytes can be sent.
    pub fn can_send(&self, payload_len: usize) -> (r: bool)
        requires
            self.wf(),
        ensures
            r == {
                &&& payload_len <= u32::MAX
                &&& self@.room_to_run(payload_len as int)
                &&& self@.pending.len() < usize::MAX / 128
            },
    {
        if payload_len as u64 > u32::MAX as u64 {
            return false;
        }
        let size: u64 = dc_padded_message_size(payload_len as u32);
        let len: u64 = self.send_ring.len() as u64;
        assert(self@.local.send_ring_addr + self@.len() <= u64::MAX);
        self.send_ring_producer <= u64::MAX - len && self.send_ring_producer + len <= u64::MAX - size
            - 64 && self.batch_message_count < u32::MAX && self.pending_calls.len() < usize::MAX
            / 128
    }
}

} // verus!
